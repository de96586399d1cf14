use fproxy::PortTable;

#[test]
fn reconciliation_replaces_and_drops_ports() {
    let mut table: PortTable<&str> = PortTable::new();
    let retired = table.reconcile(&vec![80, 443], vec![Some("a80"), Some("a443")]);
    assert!(retired.is_empty());
    assert_eq!(table.ports(), vec![80, 443]);

    let retired = table.reconcile(&vec![443, 8080], vec![Some("b443"), Some("b8080")]);
    let mut ports = table.ports();
    ports.sort();
    assert_eq!(ports, vec![443, 8080]);
    assert_eq!(table.get(443), Some(&"b443"));
    assert_eq!(table.get(8080), Some(&"b8080"));
    assert_eq!(table.get(80), None);
    assert_eq!(retired, vec![(80, "a80"), (443, "a443")]);
}

#[test]
fn failed_bind_leaves_no_entry() {
    let mut table: PortTable<u32> = PortTable::new();
    table.reconcile(&vec![80, 443], vec![Some(1), Some(2)]);
    let retired = table.reconcile(&vec![80, 443], vec![None, Some(3)]);
    assert_eq!(retired, vec![(80, 1), (443, 2)]);
    assert_eq!(table.ports(), vec![443]);
    assert_eq!(table.get(80), None);
    assert_eq!(table.get(443), Some(&3));
    assert_eq!(table.len(), 1);
}

#[test]
fn empty_snapshot_retires_everything() {
    let mut table: PortTable<u32> = PortTable::new();
    table.reconcile(&vec![1, 2, 3], vec![Some(1), Some(2), Some(3)]);
    let retired = table.reconcile(&vec![], vec![]);
    assert_eq!(retired.len(), 3);
    assert_eq!(table.len(), 0);
    assert_eq!(table.get(2), None);
}

use fproxy::unique_ports;

#[test]
fn unique_ports_keeps_first_occurrences() {
    assert_eq!(unique_ports(&vec![80, 443, 80, 8080, 443]), vec![80, 443, 8080]);
    assert_eq!(unique_ports(&vec![]), Vec::<u16>::new());
}

#[test]
fn reconcile_after_dedup_keeps_one_proxy_per_port() {
    let ports = unique_ports(&vec![80, 80, 443]);
    let mut table: PortTable<u32> = PortTable::new();
    let fresh = ports.iter().map(|&p| Some(p as u32)).collect();
    table.reconcile(&ports, fresh);
    assert_eq!(table.ports(), vec![80, 443]);
    assert_eq!(table.len(), 2);
}
