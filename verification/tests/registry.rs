use liarslie::registry::{parse_registry, render_registry};

use std::collections::HashSet;

#[test]
fn test_config_file() {
    let ports: Vec<u16> = (1..65535).collect();
    let ports_set: HashSet<u16> = HashSet::from_iter(ports.iter().cloned());

    let rendered = render_registry(&ports);

    let port_read = parse_registry(&rendered).expect("a rendered registry must parse");
    let port_read_set: HashSet<u16> = HashSet::from_iter(port_read.iter().cloned());

    assert_eq!(port_read_set.difference(&ports_set).count(), 0);
    assert_eq!(ports_set.difference(&port_read_set).count(), 0);
}

#[test]
fn round_trip_small_set() {
    let ports: Vec<u16> = vec![1, 100, 65000];
    let rendered = render_registry(&ports);
    assert_eq!(rendered, b"1\n100\n65000\n".to_vec());
    let parsed = parse_registry(&rendered).unwrap();
    assert_eq!(parsed, ports);
}

#[test]
fn empty_registry_round_trips() {
    let ports: Vec<u16> = Vec::new();
    let rendered = render_registry(&ports);
    assert!(rendered.is_empty());
    assert_eq!(parse_registry(&rendered), Some(Vec::new()));
}

#[test]
fn boundary_ports_round_trip() {
    let ports: Vec<u16> = vec![0, 65535];
    let rendered = render_registry(&ports);
    assert_eq!(rendered, b"0\n65535\n".to_vec());
    assert_eq!(parse_registry(&rendered), Some(ports));
}

#[test]
fn parse_accepts_leading_zeros() {
    assert_eq!(parse_registry(&b"007\n".to_vec()), Some(vec![7]));
}

#[test]
fn parse_rejects_malformed_input() {
    // a non-digit line is fatal
    assert_eq!(parse_registry(&b"abc\n".to_vec()), None);
    // a number beyond a port is fatal
    assert_eq!(parse_registry(&b"70000\n".to_vec()), None);
    // an unterminated final line is fatal
    assert_eq!(parse_registry(&b"12".to_vec()), None);
    // an empty line is fatal
    assert_eq!(parse_registry(&b"12\n\n".to_vec()), None);
    // one bad line rejects the whole file
    assert_eq!(parse_registry(&b"1\n100\nx\n".to_vec()), None);
}
