use fproxy::address_groups;
use fproxy::dns_query_name;
use fproxy::DEFAULT_GROUP_SIZE;

#[test]
fn addresses_are_grouped_by_five() {
    let addrs: Vec<u32> = (0..12).collect();
    let groups = address_groups(&addrs, DEFAULT_GROUP_SIZE);
    assert_eq!(groups, vec![vec![0, 1, 2, 3, 4], vec![5, 6, 7, 8, 9], vec![10, 11]]);
}

#[test]
fn address_groups_edge_cases() {
    let empty: Vec<u8> = Vec::new();
    assert!(address_groups(&empty, 5).is_empty());
    assert_eq!(address_groups(&vec![1, 2, 3, 4, 5], 5), vec![vec![1, 2, 3, 4, 5]]);
    assert_eq!(address_groups(&vec![1, 2, 3], 1), vec![vec![1], vec![2], vec![3]]);
}

#[test]
fn dns_query_name_is_fully_qualified() {
    assert_eq!(dns_query_name(&"example.com".to_string()), "example.com.");
    assert_eq!(dns_query_name(&String::new()), ".");
}

use fproxy::connect_step;
use fproxy::ConnectAction;
use fproxy::ConnectError;
use fproxy::ConnectEvent;
use fproxy::ConnectState;

#[test]
fn connect_fails_only_without_target() {
    let (_, a) = connect_step(ConnectState::new(), ConnectEvent::NoTarget);
    assert_eq!(a, ConnectAction::Fail(ConnectError::InvalidAddr));
}

#[test]
fn connect_tries_groups_in_order_then_next_target() {
    let (s, a) = connect_step(ConnectState::new(), ConnectEvent::Resolved { groups: 3 });
    assert_eq!(a, ConnectAction::TryGroup(0));
    let (s, a) = connect_step(s, ConnectEvent::GroupFailed);
    assert_eq!(a, ConnectAction::TryGroup(1));
    let (s, a) = connect_step(s, ConnectEvent::GroupFailed);
    assert_eq!(a, ConnectAction::TryGroup(2));
    let (s, a) = connect_step(s, ConnectEvent::GroupFailed);
    assert_eq!(a, ConnectAction::PickTarget);
    assert_eq!(s, ConnectState { group: 0, groups: 0 });
}

#[test]
fn connect_first_success_wins() {
    let (s, _) = connect_step(ConnectState::new(), ConnectEvent::Resolved { groups: 2 });
    let (_, a) = connect_step(s, ConnectEvent::Connected);
    assert_eq!(a, ConnectAction::Done);
}

#[test]
fn connect_lookup_failure_or_no_address_moves_to_next_target() {
    let (_, a) = connect_step(ConnectState::new(), ConnectEvent::LookupFailed);
    assert_eq!(a, ConnectAction::PickTarget);
    let (_, a) = connect_step(ConnectState::new(), ConnectEvent::Resolved { groups: 0 });
    assert_eq!(a, ConnectAction::PickTarget);
}
