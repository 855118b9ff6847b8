use slipmesh_routeros::addr::{IpAddr, Ipv4Addr, Ipv6Addr};
use slipmesh_routeros::keys::is_same_private_key;
use slipmesh_routeros::number::{decimal_text, hex_text, read_decimal};
use slipmesh_routeros::sorted::insert_sorted;
use slipmesh_routeros::text::{
    comes_before, pieces, split_at_first, split_at_last, text_pieces, trimmed, without_prefixes,
    without_suffix, without_trailing,
};

#[test]
fn ipv4_addresses_are_read_strictly() {
    assert_eq!(Ipv4Addr::parse("10.62.0.1"), Some(Ipv4Addr::new(10, 62, 0, 1)));
    for bad in ["10.62.0", "10.62.0.1.2", "10.62.0.256", "10.62.0.01", "10.62.0.", "", " 1.2.3.4"] {
        assert_eq!(Ipv4Addr::parse(bad), None);
    }
    assert_eq!(Ipv4Addr::new(255, 0, 10, 7).to_text(), "255.0.10.7");
}

#[test]
fn ipv6_addresses_are_read_in_every_form_and_written_in_the_short_one() {
    for (given, written) in [
        ("::", "::"),
        ("::1", "::1"),
        ("fd00::1", "fd00::1"),
        ("FD00:0:0:0:0:0:0:1", "fd00::1"),
        ("fe80::bff6:4220:a333:c1d1", "fe80::bff6:4220:a333:c1d1"),
        ("1:0:0:2:0:0:0:3", "1:0:0:2::3"),
        ("1:2:3:4:5:6:7:8", "1:2:3:4:5:6:7:8"),
        ("1:0:3:4:5:6:7:8", "1:0:3:4:5:6:7:8"),
        ("::ffff:10.62.0.1", "::ffff:10.62.0.1"),
        ("64:ff9b::192.0.2.33", "64:ff9b::c000:221"),
        ("1::", "1::"),
    ] {
        assert_eq!(Ipv6Addr::parse(given).unwrap().to_text(), written);
        assert_eq!(
            given.parse::<core::net::Ipv6Addr>().unwrap().to_string(),
            Ipv6Addr::parse(given).unwrap().to_text()
        );
    }
    for bad in ["", ":", ":::", "1:2:3:4:5:6:7", "1:2:3:4:5:6:7:8:9", "1::2::3", "12345::", "g::"] {
        assert_eq!(Ipv6Addr::parse(bad), None);
    }
}

#[test]
fn an_address_of_either_family_is_told_by_its_form() {
    assert_eq!(IpAddr::parse("10.0.0.1"), Some(IpAddr::V4(Ipv4Addr::new(10, 0, 0, 1))));
    assert_eq!(
        IpAddr::parse("fd00::1"),
        Some(IpAddr::V6(Ipv6Addr::parse("fd00::1").unwrap()))
    );
    assert_eq!(IpAddr::parse("fd00"), None);
}

#[test]
fn link_local_is_fe80_with_ten_bits() {
    assert!(Ipv6Addr::parse("fe80::1").unwrap().is_unicast_link_local());
    assert!(Ipv6Addr::parse("febf:ffff::1").unwrap().is_unicast_link_local());
    assert!(!Ipv6Addr::parse("fec0::1").unwrap().is_unicast_link_local());
    assert!(!Ipv6Addr::parse("fe7f::1").unwrap().is_unicast_link_local());
}

#[test]
fn numbers_are_written_and_read_back() {
    for n in [0u32, 1, 9, 10, 255, 65535, 65536, 4294967295] {
        assert_eq!(decimal_text(n), n.to_string());
        assert_eq!(read_decimal(&decimal_text(n), u32::MAX), Some(n));
    }
    assert_eq!(hex_text(0xfe80), "fe80");
    assert_eq!(hex_text(0), "0");
    assert_eq!(read_decimal("0042", 65535), Some(42));
    assert_eq!(read_decimal("65536", 65535), None);
    assert_eq!(read_decimal("99999999999999999999", u32::MAX), None);
}

#[test]
fn texts_are_taken_apart() {
    assert_eq!(split_at_first("a/b/c", '/'), Some(("a".to_string(), "b/c".to_string())));
    assert_eq!(split_at_last("a:b:c", ':'), Some(("a:b".to_string(), "c".to_string())));
    assert_eq!(split_at_first("abc", '/'), None);
    assert_eq!(pieces("a,,b", ','), vec!["a".to_string(), String::new(), "b".to_string()]);
    assert_eq!(text_pieces("a--b--", "--"), vec!["a".to_string(), "b".to_string(), String::new()]);
    assert_eq!(trimmed(" \t\u{a0}a b\r\n"), "a b");
    assert_eq!(without_prefixes("mesh-mesh-2", "mesh-"), "2");
    assert_eq!(without_trailing("25sss", 's'), "25");
    assert_eq!(without_suffix("10.0.0.1/32", "/32"), Some("10.0.0.1".to_string()));
    assert_eq!(without_suffix("10.0.0.0/24", "/32"), None);
}

#[test]
fn the_order_of_texts_is_that_of_their_bytes() {
    for (a, b) in [("", "a"), ("a", "ab"), ("10.0.0.0/8", "10.62.0.1/32"), ("z", "\u{e4}")] {
        assert!(comes_before(a, b));
        assert!(!comes_before(b, a));
        assert!(a < b);
    }
    assert!(!comes_before("a", "a"));
}

#[test]
fn a_sorted_set_takes_each_text_once() {
    let mut v: Vec<String> = Vec::new();
    for x in ["b", "a", "c", "b", "", "a"] {
        insert_sorted(&mut v, x.to_string());
    }
    assert_eq!(v, vec!["".to_string(), "a".to_string(), "b".to_string(), "c".to_string()]);
}

#[test]
fn clamping_touches_the_first_and_the_last_byte_only() {
    let zero = "AAAAAAAAAAAAAAAAAAAAAAAAAAAAAAAAAAAAAAAAAAA=";
    let high = "AAAAAAAAAAAAAAAAAAAAAAAAAAAAAAAAAAAAAAAAAMA=";
    let middle = "AAAAAAAAAAAAAAAAAAAAAAAAAAAAAAAAAAAAAAAAAQA=";
    assert!(is_same_private_key(zero, zero));
    assert!(is_same_private_key(zero, high));
    assert!(is_same_private_key(high, zero));
    assert!(!is_same_private_key(zero, middle));
    assert!(!is_same_private_key(zero, "AAAA"));
    assert!(is_same_private_key("AAAA", "AAAA"));
}
