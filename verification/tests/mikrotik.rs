use slipmesh_routeros::addr::{Ipv4Addr, Ipv6Addr};
use slipmesh_routeros::diff::passive_flag_is_true;
use slipmesh_routeros::error::Error;
use slipmesh_routeros::mikrotik::{
    address_to_network, is_link_local_ipv6, parse_bgp_connection, parse_ipv6_address,
    parse_ospf_template, parse_wireguard_interface, parse_wireguard_peer, read_bgp_instance,
    read_bgp_networks, read_ip_addresses, read_ipv6_addresses, read_list_members,
    read_loopback_bridge, read_ospf_area, read_ospf_instance, read_physically_connected_prefixes,
    read_wireguard_interfaces,
};
use slipmesh_routeros::number::{fault_text, read_decimal};
use slipmesh_routeros::row::{
    get, get_flag_presence, get_opt_keepalive_seconds, get_opt_u16, Row,
};

fn row(pairs: &[(&str, &str)]) -> Row {
    let mut r = Row::new();
    for (k, v) in pairs {
        r.insert(k.to_string(), Some(v.to_string()));
    }
    r
}

#[test]
fn keepalive_seconds_strips_the_time_unit_suffix() {
    let r = row(&[(".id", "*1"), ("persistent-keepalive", "25s")]);
    assert_eq!(
        get_opt_keepalive_seconds(&r, "persistent-keepalive").unwrap(),
        Some(25)
    );
}

#[test]
fn keepalive_seconds_accepts_a_bare_number_too() {
    let r = row(&[(".id", "*1"), ("persistent-keepalive", "25")]);
    assert_eq!(
        get_opt_keepalive_seconds(&r, "persistent-keepalive").unwrap(),
        Some(25)
    );
}

#[test]
fn keepalive_seconds_absent_is_none() {
    let r = row(&[(".id", "*1")]);
    assert_eq!(
        get_opt_keepalive_seconds(&r, "persistent-keepalive").unwrap(),
        None
    );
}

#[test]
fn parses_wireguard_interface_row() {
    let r = row(&[
        (".id", "*1"),
        ("name", "mesh-fra"),
        ("listen-port", "51820"),
        ("private-key", "abc="),
    ]);
    let iface = parse_wireguard_interface(&r).unwrap();
    assert_eq!(iface.id, "*1");
    assert_eq!(iface.name, "mesh-fra");
    assert_eq!(iface.listen_port, 51820);
    assert!(!iface.disabled);
}

#[test]
fn missing_required_field_is_an_error() {
    let r = row(&[(".id", "*1"), ("listen-port", "51820")]);
    assert!(parse_wireguard_interface(&r).is_err());
}

#[test]
fn wireguard_peer_uses_comment_as_the_label_field() {
    let r = row(&[
        (".id", "*2"),
        ("interface", "mesh-fra"),
        ("comment", "fra1"),
        ("public-key", "pub="),
        ("allowed-address", "0.0.0.0/0,::/0"),
    ]);
    let peer = parse_wireguard_peer(&r).unwrap();
    assert_eq!(peer.name, "fra1");
}

#[test]
fn address_to_network_normalizes_host_address_to_network_base() {
    assert_eq!(
        address_to_network("192.168.88.5/24").unwrap(),
        "192.168.88.0/24"
    );
    assert_eq!(address_to_network("10.0.0.1/32").unwrap(), "10.0.0.1/32");
}

#[test]
fn address_to_network_rejects_malformed_input() {
    assert!(address_to_network("not-an-address").is_err());
}

#[test]
fn ospf_template_passive_raw_is_none_when_flag_absent() {
    let r = row(&[
        (".id", "*1"),
        ("interfaces", "mesh-fra"),
        ("area", "backbone"),
    ]);
    let t = parse_ospf_template(&r).unwrap();
    assert_eq!(t.passive_raw, None);
}

#[test]
fn ospf_template_passive_raw_is_some_when_key_present_with_no_value() {
    let mut r = row(&[
        (".id", "*1"),
        ("interfaces", "router-lo"),
        ("area", "backbone"),
    ]);
    r.insert("passive".to_string(), None);
    let t = parse_ospf_template(&r).unwrap();
    assert!(passive_flag_is_true(t.passive_raw.as_deref()));
}

#[test]
fn parses_ipv6_address_row() {
    let r = row(&[
        (".id", "*1"),
        ("address", "fd00::1/128"),
        ("interface", "router-lo"),
        ("advertise", "false"),
    ]);
    let a = parse_ipv6_address(&r).unwrap();
    assert_eq!(a.address, "fd00::1/128");
    assert_eq!(a.interface, "router-lo");
    assert!(!a.advertise);
}

#[test]
fn recognizes_link_local_addresses_regardless_of_prefix_length() {
    assert!(is_link_local_ipv6("fe80::bff6:4220:a333:c1d1/64"));
    assert!(is_link_local_ipv6("fe80::f044:89ff:fe2c:3247/64"));
    assert!(!is_link_local_ipv6("fd00::1/128"));
    assert!(!is_link_local_ipv6("fd3d:c741:faa9::a3e:ff/128"));
}

#[test]
fn parses_bgp_connection_row_with_ipv6_addresses_and_multihop_afi() {
    let r = row(&[
        (".id", "*1"),
        ("name", "bgp-fra"),
        ("instance", "default"),
        ("local.address", "fd00::1"),
        ("local.role", "ibgp"),
        ("remote.address", "fd00::2"),
        ("multihop", "true"),
        ("afi", "ip"),
        ("output.network", "bgp-networks"),
    ]);
    let c = parse_bgp_connection(&r).unwrap();
    assert_eq!(c.local_address, Ipv6Addr::parse("fd00::1").unwrap());
    assert_eq!(c.remote_address, Ipv6Addr::parse("fd00::2").unwrap());
    assert!(c.multihop);
    assert_eq!(c.afi, "ip");
}

#[test]
fn each_malformed_row_has_its_own_error() {
    assert_eq!(
        parse_wireguard_interface(&row(&[("name", "mesh-fra")])),
        Err(Error::MissingId)
    );
    assert_eq!(
        parse_wireguard_interface(&row(&[(".id", "*1"), ("listen-port", "1")])),
        Err(Error::MissingField { id: "*1".to_string(), field: "name".to_string() })
    );
    assert_eq!(
        parse_wireguard_interface(&row(&[
            (".id", "*1"),
            ("name", "mesh-fra"),
            ("listen-port", "65536"),
        ])),
        Err(Error::ListenPort { value: "65536".to_string() })
    );
    assert_eq!(
        parse_ospf_template(&row(&[
            (".id", "*1"),
            ("interfaces", "mesh-fra"),
            ("cost", "ten"),
        ])),
        Err(Error::NotU16 { field: "cost".to_string(), value: "ten".to_string() })
    );
    assert_eq!(
        parse_wireguard_peer(&row(&[
            (".id", "*1"),
            ("interface", "mesh-fra"),
            ("persistent-keepalive", "1m"),
        ])),
        Err(Error::NotKeepalive {
            field: "persistent-keepalive".to_string(),
            value: "1m".to_string(),
        })
    );
}

#[test]
fn the_first_malformed_row_of_a_table_is_the_error() {
    let good = row(&[(".id", "*1"), ("name", "a"), ("listen-port", "1")]);
    let rows = vec![
        good,
        row(&[(".id", "*2"), ("name", "b")]),
        row(&[("name", "c")]),
    ];
    assert_eq!(
        read_wireguard_interfaces(&rows),
        Err(Error::MissingField { id: "*2".to_string(), field: "listen-port".to_string() })
    );
    assert_eq!(read_wireguard_interfaces(&rows[..1]).unwrap().len(), 1);
}

#[test]
fn a_later_field_replaces_an_earlier_one_of_its_name() {
    let mut r = row(&[("comment", "first"), ("comment", "second")]);
    assert_eq!(get(&r, "comment"), Some("second"));
    r.insert("comment".to_string(), None);
    assert_eq!(get(&r, "comment"), None);
    assert!(r.contains_key("comment"));
    assert!(!r.contains_key("passive"));
    assert_eq!(get_flag_presence(&r, "comment"), Some(String::new()));
    assert_eq!(get_flag_presence(&r, "passive"), None);
}

#[test]
fn a_number_may_have_a_plus_sign_and_nothing_else() {
    assert_eq!(get_opt_u16(&row(&[("cost", "+10")]), "cost"), Ok(Some(10)));
    assert!(get_opt_u16(&row(&[("cost", "")]), "cost").is_err());
    assert!(get_opt_u16(&row(&[("cost", "-1")]), "cost").is_err());
    assert!(get_opt_u16(&row(&[("cost", " 1")]), "cost").is_err());
}

fn address(id: &str, address: &str, interface: &str) -> Row {
    row(&[(".id", id), ("address", address), ("interface", interface)])
}

#[test]
fn shared_tables_are_read_down_to_the_footprint() {
    let ours = vec!["mesh-2".to_string(), "router-lo".to_string()];
    let rows = vec![
        address("*1", "10.62.0.1/32", "router-lo"),
        address("*2", "203.0.113.5/24", "ether1-wan"),
        address("*3", "10.0.0.1/31", "mesh-old"),
        address("*4", "10.0.0.3/31", "*16"),
    ];
    let ids: Vec<String> = read_ip_addresses(&rows, &ours)
        .unwrap()
        .into_iter()
        .map(|a| a.id)
        .collect();
    assert_eq!(ids, vec!["*1".to_string(), "*3".to_string(), "*4".to_string()]);

    let rows6 = vec![
        address("*1", "fd00::1/128", "router-lo"),
        address("*2", "fe80::1/64", "router-lo"),
        address("*3", "fd00::9/64", "ether1"),
    ];
    let ids: Vec<String> = read_ipv6_addresses(&rows6, &ours)
        .unwrap()
        .into_iter()
        .map(|a| a.id)
        .collect();
    assert_eq!(ids, vec!["*1".to_string()]);

    let members = vec![
        row(&[(".id", "*1"), ("list", "LAN"), ("interface", "ether1-wan")]),
        row(&[(".id", "*2"), ("list", "LAN"), ("interface", "mesh-old")]),
        row(&[(".id", "*3"), ("list", "WAN"), ("interface", "mesh-2")]),
        row(&[(".id", "*4"), ("list", "LAN"), ("interface", "*4A")]),
    ];
    let ids: Vec<String> = read_list_members(&members, &ours)
        .unwrap()
        .into_iter()
        .map(|m| m.id)
        .collect();
    assert_eq!(ids, vec!["*2".to_string(), "*4".to_string()]);

    let entries = vec![
        row(&[(".id", "*1"), ("list", "bgp-networks"), ("address", "10.0.0.0/8")]),
        row(&[(".id", "*2"), ("list", "blocked"), ("address", "192.0.2.1")]),
    ];
    let ids: Vec<String> = read_bgp_networks(&entries, "bgp-networks")
        .unwrap()
        .into_iter()
        .map(|e| e.id)
        .collect();
    assert_eq!(ids, vec!["*1".to_string()]);
}

#[test]
fn a_malformed_row_outside_the_footprint_is_still_an_error() {
    let rows = vec![row(&[(".id", "*1"), ("interface", "ether1")])];
    assert!(read_ip_addresses(&rows, &[]).is_err());
}

#[test]
fn physically_connected_networks_come_with_their_interfaces() {
    let rows = vec![
        address("*1", "192.168.88.5/24", "ether1"),
        address("*2", "10.62.0.1/32", "router-lo"),
        address("*3", "10.0.0.1/31", "mesh-fra"),
        address("*4", "10.0.0.3/31", "*16"),
        address("*5", "rubbish", "ether2"),
        address("*6", "10.1.2.3/8", "ether3"),
    ];
    assert_eq!(
        read_physically_connected_prefixes(&rows, "router-lo").unwrap(),
        vec![
            ("ether1".to_string(), "192.168.88.0/24".to_string()),
            ("ether3".to_string(), "10.0.0.0/8".to_string()),
        ]
    );
}

#[test]
fn singletons_are_found_by_name() {
    let rows = vec![
        row(&[(".id", "*1"), ("name", "bridge-lan")]),
        row(&[(".id", "*2"), ("name", "router-lo"), ("disabled", "true")]),
    ];
    let (id, bridge) = read_loopback_bridge(&rows, "router-lo").unwrap().unwrap();
    assert_eq!(id, "*2");
    assert!(bridge.disabled);
    assert!(read_loopback_bridge(&rows, "other").unwrap().is_none());
    let nameless = vec![row(&[("name", "bridge-lan")])];
    assert_eq!(read_loopback_bridge(&nameless, "router-lo"), Err(Error::MissingId));
}

#[test]
fn instances_fall_back_where_a_field_says_nothing() {
    let rows = vec![row(&[(".id", "*1"), ("name", "default")])];
    let (_, ospf) = read_ospf_instance(&rows, "default").unwrap().unwrap();
    assert_eq!(ospf.version, 3);
    assert_eq!(ospf.router_id, Ipv4Addr::unspecified());
    assert!(!ospf.redistribute_connected);
    let (_, bgp) = read_bgp_instance(&rows, "default").unwrap().unwrap();
    assert_eq!(bgp.as_number, 0);
    assert_eq!(bgp.routing_table, "");
    let rows = vec![row(&[
        (".id", "*1"),
        ("name", "default"),
        ("version", "2"),
        ("router-id", "10.62.0.1"),
        ("redistribute", "static,connected"),
        ("as", "4200000000"),
        ("routing-table", "main"),
    ])];
    let (_, ospf) = read_ospf_instance(&rows, "default").unwrap().unwrap();
    assert_eq!(ospf.version, 2);
    assert_eq!(ospf.router_id, Ipv4Addr::new(10, 62, 0, 1));
    assert!(ospf.redistribute_connected);
    let (_, bgp) = read_bgp_instance(&rows, "default").unwrap().unwrap();
    assert_eq!(bgp.as_number, 4200000000);
    assert_eq!(bgp.routing_table, "main");
    let rows = vec![row(&[
        (".id", "*3"),
        ("name", "backbone"),
        ("area-id", "0.0.0.0"),
        ("instance", "default"),
    ])];
    let (id, area) = read_ospf_area(&rows, "backbone").unwrap().unwrap();
    assert_eq!(id, "*3");
    assert_eq!(area.area_id, "0.0.0.0");
    assert_eq!(area.instance, "default");
}

#[test]
fn errors_are_told_with_what_they_are_about() {
    let message = Error::MissingField { id: "*1".to_string(), field: "name".to_string() };
    assert_eq!(message.message(), "row \"*1\" is missing required field \"name\"");
    let message = Error::NotU16 { field: "cost".to_string(), value: "a\"b".to_string() };
    assert_eq!(
        message.message(),
        "field \"cost\" = \"a\\\"b\" is not a u16: invalid digit found in string"
    );
    assert_eq!(Error::MissingId.message(), "row is missing its own .id");
}

#[test]
fn numbers_that_cannot_be_read_are_told_with_the_reason() {
    let text = |s: &str| s.to_string();
    assert_eq!(
        Error::ListenPort { value: text("65536") }.message(),
        "listen-port is not a u16: number too large to fit in target type"
    );
    assert_eq!(
        Error::NotU16 { field: text("cost"), value: text("") }.message(),
        "field \"cost\" = \"\" is not a u16: cannot parse integer from empty string"
    );
    assert_eq!(
        Error::NotKeepalive { field: text("persistent-keepalive"), value: text("1m") }.message(),
        "field \"persistent-keepalive\" = \"1m\" is not a keepalive duration: \
         invalid digit found in string"
    );
    assert_eq!(
        Error::NotKeepalive { field: text("persistent-keepalive"), value: text("sss") }.message(),
        "field \"persistent-keepalive\" = \"sss\" is not a keepalive duration: \
         cannot parse integer from empty string"
    );
    assert_eq!(
        Error::CidrAddress { text: text("10.0.0/8") }.message(),
        "\"10.0.0/8\": invalid IPv4 address: invalid IPv4 address syntax"
    );
    assert_eq!(
        Error::CidrPrefix { text: text("10.0.0.1/x") }.message(),
        "\"10.0.0.1/x\": invalid prefix length: invalid digit found in string"
    );
    assert_eq!(
        Error::CidrPrefix { text: text("10.0.0.1/256") }.message(),
        "\"10.0.0.1/256\": invalid prefix length: number too large to fit in target type"
    );
    assert_eq!(
        Error::EndpointPort { endpoint: text("[fd00::1]:70000") }.message(),
        "\"[fd00::1]:70000\": invalid port: number too large to fit in target type"
    );
    assert_eq!(
        Error::BgpPeerAddress { name: text("fra"), address: text("10.0.0.1") }.message(),
        "bgp peer \"fra\": invalid address \"10.0.0.1\": invalid IPv6 address syntax"
    );
}

#[test]
fn loopback_entries_are_told_with_the_reason() {
    let told = |entry: &str| Error::Loopback { entry: entry.to_string() }.message();
    assert_eq!(told("rubbish"), "invalid loopback_addresses entry \"rubbish\": missing '/'");
    assert_eq!(
        told("x/32"),
        "invalid loopback_addresses entry \"x/32\": invalid IP address syntax"
    );
    assert_eq!(
        told("10.62.0.1/"),
        "invalid loopback_addresses entry \"10.62.0.1/\": cannot parse integer from empty string"
    );
    assert_eq!(
        told("10.62.0.1/33"),
        "invalid loopback_addresses entry \"10.62.0.1/33\": prefix length 33 exceeds 32"
    );
    assert_eq!(
        told("fd00::1/129"),
        "invalid loopback_addresses entry \"fd00::1/129\": prefix length 129 exceeds 128"
    );
}

#[test]
fn the_reason_is_the_one_that_std_gives() {
    for s in [
        "", "+", "-", "++1", "+-1", "+x", "-1", " 1", "1 ", "x", "1x", "6553x", "65535x", "65536",
        "65536x", "655360", "99999999999999999999x", "0000000000065536", "00000000000x", "+65536",
        "9999\u{e9}", "99999\u{e9}", "1_0", "0x10",
    ] {
        let reason = s.parse::<u16>().unwrap_err().to_string();
        assert_eq!(fault_text(s, 65535), reason, "{s:?}");
        assert_eq!(read_decimal(s, 65535), None);
    }
    for s in ["256", "25x", "256x", "999", "2\u{e9}", "300+"] {
        assert_eq!(fault_text(s, 255), s.parse::<u8>().unwrap_err().to_string(), "{s:?}");
    }
}
