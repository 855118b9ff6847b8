use slipmesh_routeros::addr::{Ipv4Addr, Ipv6Addr};
use slipmesh_routeros::apply::{
    apply_bgp_connections, apply_bgp_instance, apply_bgp_networks, apply_ip_addresses,
    apply_ipv6_addresses, apply_list_members, apply_loopback_bridge, apply_ospf_area,
    apply_ospf_instance, apply_ospf_interface_templates, apply_wireguard_interfaces,
    apply_wireguard_peers,
};
use slipmesh_routeros::diff::SingletonOp;
use slipmesh_routeros::plan::Plan;
use slipmesh_routeros::request::{
    absorb, added_id, encode, is_encodable, Progress, Reply, Request,
};
use slipmesh_routeros::row::{get, Row};
use slipmesh_routeros::rows::{
    DesiredAddressListEntry, DesiredBgpConnection, DesiredBgpInstance, DesiredBridge,
    DesiredIpAddress, DesiredIpv6Address, DesiredListMember, DesiredOspfArea, DesiredOspfInstance,
    DesiredOspfInterfaceTemplate, DesiredWireguardInterface, DesiredWireguardPeer,
};

fn request(word: &str, attributes: &[(&str, Option<&str>)]) -> Request {
    Request {
        word: word.to_string(),
        attributes: attributes
            .iter()
            .map(|(k, v)| (k.to_string(), v.map(str::to_string)))
            .collect(),
    }
}

fn whole<D: Clone>(d: D) -> Plan<D> {
    Plan {
        add: vec![d.clone()],
        update: vec![("*2".to_string(), d)],
        remove: vec!["*1".to_string()],
    }
}

#[test]
fn a_table_of_our_own_is_cleared_before_it_is_filled() {
    let plan = whole(DesiredWireguardInterface {
        name: "mesh-fra".to_string(),
        listen_port: 51820,
        private_key_b64: "abc=".to_string(),
        disabled: false,
    });
    assert_eq!(
        apply_wireguard_interfaces(&plan),
        vec![
            request("/interface/wireguard/remove", &[(".id", Some("*1"))]),
            request(
                "/interface/wireguard/add",
                &[
                    ("name", Some("mesh-fra")),
                    ("listen-port", Some("51820")),
                    ("private-key", Some("abc=")),
                    ("disabled", Some("no")),
                ]
            ),
            request(
                "/interface/wireguard/set",
                &[
                    (".id", Some("*2")),
                    ("listen-port", Some("51820")),
                    ("private-key", Some("abc=")),
                    ("disabled", Some("no")),
                ]
            ),
        ]
    );
}

#[test]
fn a_shared_table_is_filled_before_stale_rows_go() {
    let plan = whole(DesiredIpAddress {
        address: "10.62.0.1/32".to_string(),
        interface: "router-lo".to_string(),
        disabled: true,
    });
    assert_eq!(
        apply_ip_addresses(&plan),
        vec![
            request(
                "/ip/address/add",
                &[
                    ("address", Some("10.62.0.1/32")),
                    ("interface", Some("router-lo")),
                    ("disabled", Some("yes")),
                ]
            ),
            request("/ip/address/set", &[(".id", Some("*2")), ("disabled", Some("yes"))]),
            request("/ip/address/remove", &[(".id", Some("*1"))]),
        ]
    );
    let plan = whole(DesiredIpv6Address {
        address: "fd00::1/128".to_string(),
        interface: "router-lo".to_string(),
        advertise: false,
        disabled: false,
    });
    assert_eq!(
        apply_ipv6_addresses(&plan),
        vec![
            request(
                "/ipv6/address/add",
                &[
                    ("address", Some("fd00::1/128")),
                    ("interface", Some("router-lo")),
                    ("advertise", Some("no")),
                    ("disabled", Some("no")),
                ]
            ),
            request(
                "/ipv6/address/set",
                &[(".id", Some("*2")), ("advertise", Some("no")), ("disabled", Some("no"))]
            ),
            request("/ipv6/address/remove", &[(".id", Some("*1"))]),
        ]
    );
    let plan = whole(DesiredListMember {
        list: "LAN".to_string(),
        interface: "mesh-fra".to_string(),
        disabled: false,
    });
    assert_eq!(
        apply_list_members(&plan),
        vec![
            request(
                "/interface/list/member/add",
                &[
                    ("list", Some("LAN")),
                    ("interface", Some("mesh-fra")),
                    ("disabled", Some("no")),
                ]
            ),
            request(
                "/interface/list/member/set",
                &[(".id", Some("*2")), ("disabled", Some("no"))]
            ),
            request("/interface/list/member/remove", &[(".id", Some("*1"))]),
        ]
    );
    let plan = whole(DesiredAddressListEntry {
        list: "bgp-networks".to_string(),
        address: "10.62.0.1".to_string(),
        disabled: false,
    });
    assert_eq!(
        apply_bgp_networks(&plan),
        vec![
            request(
                "/ip/firewall/address-list/add",
                &[
                    ("list", Some("bgp-networks")),
                    ("address", Some("10.62.0.1")),
                    ("disabled", Some("no")),
                ]
            ),
            request(
                "/ip/firewall/address-list/set",
                &[(".id", Some("*2")), ("disabled", Some("no"))]
            ),
            request("/ip/firewall/address-list/remove", &[(".id", Some("*1"))]),
        ]
    );
}

#[test]
fn a_peer_carries_what_it_has_and_clears_a_missing_endpoint() {
    let nat = DesiredWireguardPeer {
        interface: "mesh-fra".to_string(),
        name: "fra".to_string(),
        public_key_b64: "pub=".to_string(),
        allowed_address: "0.0.0.0/0,::/0".to_string(),
        endpoint_address: None,
        endpoint_port: None,
        persistent_keepalive: None,
        disabled: false,
    };
    let mut reachable = nat.clone();
    reachable.endpoint_address = Some("fra.example.com".to_string());
    reachable.endpoint_port = Some(51820);
    reachable.persistent_keepalive = Some(25);
    let plan = Plan { add: vec![nat, reachable], update: vec![], remove: vec![] };
    assert_eq!(
        apply_wireguard_peers(&plan),
        vec![
            request(
                "/interface/wireguard/peers/add",
                &[
                    ("interface", Some("mesh-fra")),
                    ("comment", Some("fra")),
                    ("public-key", Some("pub=")),
                    ("allowed-address", Some("0.0.0.0/0,::/0")),
                    ("endpoint-address", None),
                    ("disabled", Some("no")),
                ]
            ),
            request(
                "/interface/wireguard/peers/add",
                &[
                    ("interface", Some("mesh-fra")),
                    ("comment", Some("fra")),
                    ("public-key", Some("pub=")),
                    ("allowed-address", Some("0.0.0.0/0,::/0")),
                    ("endpoint-address", Some("fra.example.com")),
                    ("disabled", Some("no")),
                    ("endpoint-port", Some("51820")),
                    ("persistent-keepalive", Some("25")),
                ]
            ),
        ]
    );
}

#[test]
fn a_template_is_passive_by_a_flag_without_a_value() {
    let loopback = DesiredOspfInterfaceTemplate {
        interfaces: "router-lo".to_string(),
        area: "backbone".to_string(),
        type_: None,
        cost: None,
        hello_interval: None,
        dead_interval: None,
        passive: true,
        disabled: false,
    };
    let mesh = DesiredOspfInterfaceTemplate {
        interfaces: "mesh-fra".to_string(),
        area: "backbone".to_string(),
        type_: Some("ptp".to_string()),
        cost: Some(10),
        hello_interval: Some("10s".to_string()),
        dead_interval: Some("40s".to_string()),
        passive: false,
        disabled: false,
    };
    let plan = Plan {
        add: vec![loopback],
        update: vec![("*4".to_string(), mesh)],
        remove: vec![],
    };
    assert_eq!(
        apply_ospf_interface_templates(&plan),
        vec![
            request(
                "/routing/ospf/interface-template/add",
                &[
                    ("interfaces", Some("router-lo")),
                    ("area", Some("backbone")),
                    ("passive", None),
                    ("disabled", Some("no")),
                ]
            ),
            request(
                "/routing/ospf/interface-template/set",
                &[
                    (".id", Some("*4")),
                    ("interfaces", Some("mesh-fra")),
                    ("area", Some("backbone")),
                    ("type", Some("ptp")),
                    ("hello-interval", Some("10s")),
                    ("dead-interval", Some("40s")),
                    ("disabled", Some("no")),
                    ("cost", Some("10")),
                ]
            ),
        ]
    );
}

#[test]
fn a_connection_is_set_in_full() {
    let connection = DesiredBgpConnection {
        name: "bgp-fra".to_string(),
        instance: "default".to_string(),
        local_address: Ipv6Addr::parse("fd00::1").unwrap(),
        local_role: "ibgp".to_string(),
        remote_address: Ipv6Addr::parse("fd00:0:0:0::2").unwrap(),
        multihop: true,
        afi: "ip".to_string(),
        output_network: "bgp-networks".to_string(),
        disabled: false,
    };
    let plan = Plan {
        add: vec![],
        update: vec![("*1".to_string(), connection)],
        remove: vec!["*9".to_string()],
    };
    assert_eq!(
        apply_bgp_connections(&plan),
        vec![
            request("/routing/bgp/connection/remove", &[(".id", Some("*9"))]),
            request(
                "/routing/bgp/connection/set",
                &[
                    (".id", Some("*1")),
                    ("name", Some("bgp-fra")),
                    ("instance", Some("default")),
                    ("local.role", Some("ibgp")),
                    ("multihop", Some("yes")),
                    ("afi", Some("ip")),
                    ("output.network", Some("bgp-networks")),
                    ("disabled", Some("no")),
                    ("local.address", Some("fd00::1")),
                    ("remote.address", Some("fd00::2")),
                ]
            ),
        ]
    );
}

#[test]
fn singletons_are_created_or_updated_or_left() {
    let bridge = DesiredBridge { name: "router-lo".to_string(), disabled: false };
    assert!(apply_loopback_bridge(&SingletonOp::NoOp).is_empty());
    assert_eq!(
        apply_loopback_bridge(&SingletonOp::Create(bridge.clone())),
        vec![request(
            "/interface/bridge/add",
            &[
                ("name", Some("router-lo")),
                ("protocol-mode", Some("none")),
                ("disabled", Some("no")),
            ]
        )]
    );
    assert_eq!(
        apply_loopback_bridge(&SingletonOp::Update("*1".to_string(), bridge)),
        vec![request("/interface/bridge/set", &[(".id", Some("*1")), ("disabled", Some("no"))])]
    );
    let instance = DesiredOspfInstance {
        name: "default".to_string(),
        version: 3,
        router_id: Ipv4Addr::new(10, 62, 0, 1),
        redistribute_connected: true,
        disabled: false,
    };
    assert_eq!(
        apply_ospf_instance(&SingletonOp::Create(instance.clone())),
        vec![request(
            "/routing/ospf/instance/add",
            &[
                ("name", Some("default")),
                ("version", Some("3")),
                ("router-id", Some("10.62.0.1")),
                ("redistribute", Some("connected")),
            ]
        )]
    );
    assert_eq!(
        apply_ospf_instance(&SingletonOp::Update("*1".to_string(), instance)),
        vec![request(
            "/routing/ospf/instance/set",
            &[
                (".id", Some("*1")),
                ("version", Some("3")),
                ("router-id", Some("10.62.0.1")),
                ("redistribute", Some("connected")),
            ]
        )]
    );
    let area = DesiredOspfArea {
        name: "backbone".to_string(),
        area_id: "0.0.0.0".to_string(),
        instance: "default".to_string(),
        disabled: false,
    };
    assert_eq!(
        apply_ospf_area(&SingletonOp::Create(area.clone())),
        vec![request(
            "/routing/ospf/area/add",
            &[
                ("name", Some("backbone")),
                ("area-id", Some("0.0.0.0")),
                ("instance", Some("default")),
            ]
        )]
    );
    assert_eq!(
        apply_ospf_area(&SingletonOp::Update("*1".to_string(), area)),
        vec![request(
            "/routing/ospf/area/set",
            &[(".id", Some("*1")), ("instance", Some("default"))]
        )]
    );
    let bgp = DesiredBgpInstance {
        name: "default".to_string(),
        as_number: 65062,
        router_id: Ipv4Addr::new(10, 62, 0, 1),
        routing_table: "main".to_string(),
        disabled: false,
    };
    assert_eq!(
        apply_bgp_instance(&SingletonOp::Create(bgp.clone())),
        vec![request(
            "/routing/bgp/instance/add",
            &[
                ("name", Some("default")),
                ("as", Some("65062")),
                ("router-id", Some("10.62.0.1")),
                ("routing-table", Some("main")),
            ]
        )]
    );
    assert_eq!(
        apply_bgp_instance(&SingletonOp::Update("*1".to_string(), bgp)),
        vec![request(
            "/routing/bgp/instance/set",
            &[(".id", Some("*1")), ("as", Some("65062")), ("router-id", Some("10.62.0.1"))]
        )]
    );
}

/// Takes the words of a sentence apart; every one here is shorter than 128 bytes.
fn words(data: &[u8]) -> Vec<String> {
    let mut out = Vec::new();
    let mut i = 0;
    while i < data.len() {
        let len = data[i] as usize;
        assert!(len < 128);
        out.push(String::from_utf8(data[i + 1..i + 1 + len].to_vec()).unwrap());
        i += 1 + len;
    }
    out
}

#[test]
fn a_request_goes_onto_the_wire_word_by_word() {
    let r = request(
        "/routing/ospf/interface-template/add",
        &[("interfaces", Some("router-lo")), ("passive", None), ("disabled", Some("no"))],
    );
    assert!(is_encodable(&r));
    let sent = words(encode(&r).data());
    assert_eq!(sent.len(), 6);
    assert_eq!(sent[0], "/routing/ospf/interface-template/add");
    assert!(sent[1].starts_with(".tag="));
    assert_eq!(sent[2], "=interfaces=router-lo");
    assert_eq!(sent[3], "=passive=");
    assert_eq!(sent[4], "=disabled=no");
    assert_eq!(sent[5], "");
}

#[test]
fn a_command_without_a_word_is_not_encodable() {
    assert!(!is_encodable(&request("", &[])));
    assert!(!is_encodable(&request("", &[("address", Some("x"))])));
    assert!(is_encodable(&request("/ip/address/print", &[])));
}

#[test]
fn an_attribute_whose_name_holds_an_equals_sign_is_not_encodable() {
    assert!(!is_encodable(&request("/ip/address/add", &[("a=b", Some("c"))])));
    assert!(!is_encodable(&request("/ip/address/add", &[("address", Some("x")), ("=", None)])));
    let r = request("/interface/wireguard/add", &[("private-key", Some("abc="))]);
    assert!(is_encodable(&r));
    assert_eq!(words(encode(&r).data())[2], "=private-key=abc=");
}

#[test]
fn a_table_is_listed_by_printing_it() {
    let r = Request::print("/ip/address");
    assert_eq!(r, request("/ip/address/print", &[]));
    let sent = words(encode(&r).data());
    assert_eq!(sent[0], "/ip/address/print");
    assert_eq!(sent.len(), 3);
}

fn named(name: &str) -> Row {
    let mut r = Row::new();
    r.insert("name".to_string(), Some(name.to_string()));
    r
}

#[test]
fn replies_are_gathered_until_the_command_ends() {
    let mut rows: Vec<Row> = Vec::new();
    assert!(matches!(absorb(&mut rows, Reply::Row(named("a"))), Progress::Pending));
    assert!(matches!(absorb(&mut rows, Reply::Row(named("b"))), Progress::Pending));
    assert!(matches!(absorb(&mut rows, Reply::Done), Progress::Complete));
    assert!(matches!(absorb(&mut rows, Reply::Closed), Progress::Complete));
    assert_eq!(rows.len(), 2);
    assert_eq!(get(&rows[0], "name"), Some("a"));
    assert_eq!(get(&rows[1], "name"), Some("b"));
}

#[test]
fn a_refusal_and_a_lost_connection_are_failures() {
    let mut rows: Vec<Row> = Vec::new();
    let refused = Reply::Trap {
        message: "no such item".to_string(),
        category: "Some(MissingItemOrCommand)".to_string(),
    };
    match absorb(&mut rows, refused) {
        Progress::Failed(e) => assert_eq!(
            e.message(),
            "RouterOS command failed: no such item (category: Some(MissingItemOrCommand))"
        ),
        _ => panic!("a refusal is a failure"),
    }
    match absorb(&mut rows, Reply::Fatal { reason: "session terminated".to_string() }) {
        Progress::Failed(e) => {
            assert_eq!(e.message(), "RouterOS connection failed: session terminated")
        }
        _ => panic!("a lost connection is a failure"),
    }
}

#[test]
fn the_new_id_is_taken_from_the_first_row_if_it_says_so() {
    let mut r = Row::new();
    r.insert("ret".to_string(), Some("*1F".to_string()));
    assert_eq!(added_id(&[r]), "*1F");
    assert_eq!(added_id(&[named("a")]), "");
    assert_eq!(added_id(&[]), "");
}
