use kirblasnoop::config::{parse_spec, ConfigFile, Proto, SpecError};

#[test]
fn bare_port_binds_all_interfaces() {
    let l = parse_spec("tcp:9000").unwrap();
    assert_eq!(l.proto, Proto::Tcp);
    assert_eq!(l.bind, "0.0.0.0:9000");
    assert!(l.profile.is_none());
}

#[test]
fn explicit_addr_is_preserved() {
    assert_eq!(parse_spec("udp:127.0.0.1:53").unwrap().bind, "127.0.0.1:53");
    assert_eq!(parse_spec("tcp:[::1]:8080").unwrap().bind, "[::1]:8080");
}

#[test]
fn profile_suffix() {
    let l = parse_spec("tcp:80=http").unwrap();
    assert_eq!(l.bind, "0.0.0.0:80");
    assert_eq!(l.profile.as_deref(), Some("http"));
}

#[test]
fn rejects_garbage() {
    assert!(parse_spec("9000").is_err());
    assert!(parse_spec("sctp:9000").is_err());
    assert!(parse_spec("tcp:9000=").is_err());
}

#[test]
fn each_fault_says_what_is_wrong() {
    let e = parse_spec("9000").unwrap_err();
    assert!(matches!(e, SpecError::NotProtoPort));
    assert_eq!(e.message("9000"), "spec \"9000\" must look like proto:port");
    let e = parse_spec("SCTP:9000").unwrap_err();
    assert!(matches!(e, SpecError::UnsupportedProtocol(_)));
    assert_eq!(
        e.message("SCTP:9000"),
        "unsupported protocol \"sctp\" (want tcp or udp)"
    );
    let e = parse_spec("tcp:9000=").unwrap_err();
    assert!(matches!(e, SpecError::EmptyProfile));
    assert_eq!(e.message("tcp:9000="), "empty profile name in spec \"tcp:9000=\"");
}

#[test]
fn the_first_separators_count() {
    let l = parse_spec("UDP:0.0.0.0:53=a=b:c").unwrap();
    assert_eq!(l.proto, Proto::Udp);
    assert_eq!(l.proto.tag(), "udp");
    assert_eq!(l.bind, "0.0.0.0:53");
    assert_eq!(l.profile.as_deref(), Some("a=b:c"));
    assert_eq!(parse_spec("tcp:").unwrap().bind, "");
}

#[test]
fn a_listener_can_be_had_twice() {
    let l = parse_spec("tcp:80=http").unwrap();
    let m = l.clone();
    assert_eq!(m.bind, l.bind);
    assert_eq!(m.profile, l.profile);
    assert!(ConfigFile::default().listeners.is_empty());
}
