use slipmesh_routeros::addr::Ipv4Addr;
use slipmesh_routeros::cidr::{cidr_contains, network_addr, parse_cidr};
use slipmesh_routeros::error::Error;

#[test]
fn parse_cidr_splits_address_and_prefix() {
    let (addr, prefix) = parse_cidr("192.168.88.5/24").unwrap();
    assert_eq!(addr, Ipv4Addr::new(192, 168, 88, 5));
    assert_eq!(prefix, 24);
}

#[test]
fn parse_cidr_rejects_missing_slash() {
    assert!(parse_cidr("192.168.88.5").is_err());
}

#[test]
fn parse_cidr_rejects_prefix_over_32() {
    assert!(parse_cidr("192.168.88.5/33").is_err());
}

#[test]
fn network_addr_masks_host_bits() {
    assert_eq!(
        network_addr(Ipv4Addr::new(192, 168, 88, 5), 24),
        Ipv4Addr::new(192, 168, 88, 0)
    );
    assert_eq!(
        network_addr(Ipv4Addr::new(10, 0, 0, 1), 32),
        Ipv4Addr::new(10, 0, 0, 1)
    );
    assert_eq!(
        network_addr(Ipv4Addr::new(10, 0, 0, 1), 0),
        Ipv4Addr::unspecified()
    );
}

#[test]
fn cidr_contains_true_when_candidate_is_inside_range() {
    assert!(cidr_contains("10.99.0.0/24", "10.99.0.5/32").unwrap());
}

#[test]
fn cidr_contains_false_when_candidate_is_outside_range() {
    assert!(!cidr_contains("10.99.0.0/24", "10.100.0.5/32").unwrap());
}

#[test]
fn cidr_contains_false_when_candidate_is_broader_than_range() {
    assert!(!cidr_contains("10.99.0.5/32", "10.99.0.0/24").unwrap());
}

#[test]
fn each_malformed_cidr_has_its_own_error() {
    let text = |s: &str| s.to_string();
    assert_eq!(
        parse_cidr("10.0.0.1"),
        Err(Error::NotCidr { text: text("10.0.0.1") })
    );
    assert_eq!(
        parse_cidr("10.0.0/8"),
        Err(Error::CidrAddress { text: text("10.0.0/8") })
    );
    assert_eq!(
        parse_cidr("10.0.0.1/x"),
        Err(Error::CidrPrefix { text: text("10.0.0.1/x") })
    );
    assert_eq!(
        parse_cidr("10.0.0.1/256"),
        Err(Error::CidrPrefix { text: text("10.0.0.1/256") })
    );
    assert_eq!(
        parse_cidr("10.0.0.1/33"),
        Err(Error::CidrPrefixRange { text: text("10.0.0.1/33"), prefix: 33 })
    );
}

#[test]
fn the_range_is_blamed_before_the_candidate() {
    assert_eq!(
        cidr_contains("nonsense", "rubbish"),
        Err(Error::NotCidr { text: "nonsense".to_string() })
    );
    assert_eq!(
        cidr_contains("10.0.0.0/8", "rubbish"),
        Err(Error::NotCidr { text: "rubbish".to_string() })
    );
}

#[test]
fn a_network_lies_within_itself_and_containment_chains() {
    assert!(cidr_contains("10.0.0.0/8", "10.0.0.0/8").unwrap());
    assert!(cidr_contains("10.0.0.0/8", "10.99.0.0/16").unwrap());
    assert!(cidr_contains("10.99.0.0/16", "10.99.5.0/24").unwrap());
    assert!(cidr_contains("10.0.0.0/8", "10.99.5.0/24").unwrap());
    assert!(cidr_contains("0.0.0.0/0", "255.255.255.255/32").unwrap());
    assert!(!cidr_contains("128.0.0.0/1", "127.255.255.255/32").unwrap());
}

#[test]
fn taking_the_network_twice_is_taking_it_once() {
    let once = network_addr(Ipv4Addr::new(172, 31, 255, 7), 12);
    assert_eq!(once, Ipv4Addr::new(172, 16, 0, 0));
    assert_eq!(network_addr(once, 12), once);
}
