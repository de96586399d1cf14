use fproxy::parse_target;
use fproxy::ConfigFileSubscriber;
use fproxy::ParseTargetError;

#[test]
fn parse_target_host_and_port() {
    let t = parse_target("example.com:8080").unwrap();
    assert_eq!(t.addr, "example.com");
    assert_eq!(t.port, 8080);
}

#[test]
fn parse_target_splits_at_last_colon() {
    let t = parse_target("a:b:443").unwrap();
    assert_eq!(t.addr, "a:b");
    assert_eq!(t.port, 443);
}

#[test]
fn parse_target_empty_host_and_edge_ports() {
    let t = parse_target(":0").unwrap();
    assert_eq!(t.addr, "");
    assert_eq!(t.port, 0);
    assert_eq!(parse_target("h:65535").unwrap().port, 65535);
    assert_eq!(parse_target("h:+80").unwrap().port, 80);
    assert_eq!(parse_target("h:00081").unwrap().port, 81);
}

#[test]
fn parse_target_without_colon_is_invalid_format() {
    assert_eq!(parse_target("localhost").unwrap_err(), ParseTargetError::InvalidFormat);
    assert_eq!(parse_target("").unwrap_err(), ParseTargetError::InvalidFormat);
}

#[test]
fn parse_target_bad_port_is_invalid_port() {
    assert_eq!(parse_target("h:").unwrap_err(), ParseTargetError::InvalidPort);
    assert_eq!(parse_target("h:65536").unwrap_err(), ParseTargetError::InvalidPort);
    assert_eq!(parse_target("h:8o").unwrap_err(), ParseTargetError::InvalidPort);
    assert_eq!(parse_target("h:-1").unwrap_err(), ParseTargetError::InvalidPort);
    assert_eq!(parse_target("h:+").unwrap_err(), ParseTargetError::InvalidPort);
    assert_eq!(parse_target("h:99999999999").unwrap_err(), ParseTargetError::InvalidPort);
}

#[test]
fn parse_target_error_messages() {
    assert_eq!(ParseTargetError::InvalidPort.message(), "invalid port number");
    assert_eq!(
        ParseTargetError::InvalidFormat.message(),
        "invalid address format (expected {address}:{port})"
    );
}

#[test]
fn config_file_subscriber_keeps_path() {
    let s = ConfigFileSubscriber::new("/etc/fproxy.json");
    assert_eq!(s.0, "/etc/fproxy.json");
}
