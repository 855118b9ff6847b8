use slipmesh_routeros::addr::{Ipv4Addr, Ipv6Addr};
use slipmesh_routeros::diff::{
    bgp_connections, bgp_networks, ip_addresses, ipv6_addresses, is_our_list_member_footprint,
    list_members, ospf_interface_templates, passive_flag_is_true, singleton, wireguard_interfaces,
    wireguard_peers, SingletonOp,
};
use slipmesh_routeros::plan::Plan;
use slipmesh_routeros::rows::{
    CurrentAddressListEntry, CurrentBgpConnection, CurrentIpAddress, CurrentIpv6Address,
    CurrentListMember, CurrentOspfInterfaceTemplate, CurrentWireguardInterface,
    CurrentWireguardPeer, DesiredAddressListEntry, DesiredBgpConnection, DesiredBridge,
    DesiredFilterRule, DesiredIpAddress, DesiredIpv6Address, DesiredListMember,
    DesiredOspfInstance, DesiredOspfInterfaceTemplate, DesiredWireguardInterface,
    DesiredWireguardPeer, HasId,
};

#[test]
fn is_empty_true_only_when_nothing_to_do() {
    let empty: Plan<u8> = Plan {
        add: vec![],
        update: vec![],
        remove: vec![],
    };
    assert!(empty.is_empty());

    let with_add = Plan {
        add: vec![1u8],
        update: vec![],
        remove: vec![],
    };
    assert!(!with_add.is_empty());
}

#[test]
fn none_current_creates() {
    assert_eq!(singleton(None, "desired"), SingletonOp::Create("desired"));
}

#[test]
fn matching_current_is_a_noop() {
    assert_eq!(
        singleton(Some(("id1".to_string(), "same")), "same"),
        SingletonOp::NoOp
    );
}

#[test]
fn differing_current_updates_by_id() {
    assert_eq!(
        singleton(Some(("id1".to_string(), "old")), "new"),
        SingletonOp::Update("id1".to_string(), "new")
    );
}

#[test]
fn singleton_compares_every_field_of_a_row() {
    let bridge = |disabled: bool| DesiredBridge { name: "router-lo".to_string(), disabled };
    assert_eq!(
        singleton(Some(("*1".to_string(), bridge(false))), bridge(false)),
        SingletonOp::NoOp
    );
    assert_eq!(
        singleton(Some(("*1".to_string(), bridge(true))), bridge(false)),
        SingletonOp::Update("*1".to_string(), bridge(false))
    );
    let rule = |rule: &str| DesiredFilterRule {
        chain: "ospf-in".to_string(),
        rule: rule.to_string(),
        disabled: false,
    };
    assert_eq!(
        singleton(Some(("*7".to_string(), rule("accept"))), rule("reject")),
        SingletonOp::Update("*7".to_string(), rule("reject"))
    );
    let instance = |version: u8| DesiredOspfInstance {
        name: "default".to_string(),
        version,
        router_id: Ipv4Addr::new(10, 62, 0, 1),
        redistribute_connected: true,
        disabled: false,
    };
    assert_eq!(
        singleton(Some(("*2".to_string(), instance(2))), instance(3)),
        SingletonOp::Update("*2".to_string(), instance(3))
    );
}

#[test]
fn empty_string_is_true() {
    assert!(passive_flag_is_true(Some("")));
}

#[test]
fn literal_true_is_true() {
    assert!(passive_flag_is_true(Some("true")));
}

#[test]
fn absent_is_false() {
    assert!(!passive_flag_is_true(None));
}

#[test]
fn false_is_false() {
    assert!(!passive_flag_is_true(Some("false")));
}

fn desired_interface(name: &str, port: u16) -> DesiredWireguardInterface {
    DesiredWireguardInterface {
        name: name.to_string(),
        listen_port: port,
        private_key_b64: "key".to_string(),
        disabled: false,
    }
}

fn current_interface(id: &str, name: &str, port: u16) -> CurrentWireguardInterface {
    CurrentWireguardInterface {
        id: id.to_string(),
        name: name.to_string(),
        listen_port: port,
        private_key_b64: "key".to_string(),
        disabled: false,
    }
}

#[test]
fn diff_noop_when_matching() {
    let cur = vec![current_interface("*1", "mesh-fra", 51820)];
    let des = vec![desired_interface("mesh-fra", 51820)];
    assert!(wireguard_interfaces(&cur, &des).is_empty());
}

#[test]
fn pure_add() {
    let plan = wireguard_interfaces(&[], &[desired_interface("mesh-fra", 51820)]);
    assert_eq!(plan.add, vec![desired_interface("mesh-fra", 51820)]);
    assert!(plan.update.is_empty());
    assert!(plan.remove.is_empty());
}

#[test]
fn pure_remove_of_undesired_interface() {
    let cur = vec![current_interface("*1", "mesh-stale", 51820)];
    let plan = wireguard_interfaces(&cur, &[]);
    assert_eq!(plan.remove, vec!["*1".to_string()]);
    assert!(plan.add.is_empty());
    assert!(plan.update.is_empty());
}

#[test]
fn update_when_port_changes() {
    let cur = vec![current_interface("*1", "mesh-fra", 51820)];
    let des = vec![desired_interface("mesh-fra", 51821)];
    let plan = wireguard_interfaces(&cur, &des);
    assert_eq!(
        plan.update,
        vec![("*1".to_string(), desired_interface("mesh-fra", 51821))]
    );
    assert!(plan.add.is_empty());
    assert!(plan.remove.is_empty());
}

#[test]
fn diff_combined_add_update_remove() {
    let cur = vec![
        current_interface("*1", "mesh-fra", 51820),
        current_interface("*2", "mesh-lon", 51821),
        current_interface("*3", "mesh-stale", 9999),
    ];
    let des = vec![
        desired_interface("mesh-fra", 51820),
        desired_interface("mesh-lon", 51822),
        desired_interface("mesh-new", 51823),
    ];
    let plan = wireguard_interfaces(&cur, &des);
    assert_eq!(plan.add, vec![desired_interface("mesh-new", 51823)]);
    assert_eq!(
        plan.update,
        vec![("*2".to_string(), desired_interface("mesh-lon", 51822))]
    );
    assert_eq!(plan.remove, vec!["*3".to_string()]);
}

#[test]
fn private_keys_are_compared_clamped() {
    // The first byte is 0x07 and clamps to 0x00, the last 0xff clamps to 0x7f.
    let given = "BwAAAAAAAAAAAAAAAAAAAAAAAAAAAAAAAAAAAAAAAP8=";
    let clamped = "AAAAAAAAAAAAAAAAAAAAAAAAAAAAAAAAAAAAAAAAAH8=";
    let other = "CAAAAAAAAAAAAAAAAAAAAAAAAAAAAAAAAAAAAAAAAH8=";
    let mut cur = current_interface("*1", "mesh-fra", 51820);
    cur.private_key_b64 = clamped.to_string();
    let mut des = desired_interface("mesh-fra", 51820);
    des.private_key_b64 = given.to_string();
    let cur = vec![cur];
    assert!(wireguard_interfaces(&cur, &[des]).is_empty());
    let mut des = desired_interface("mesh-fra", 51820);
    des.private_key_b64 = other.to_string();
    assert_eq!(wireguard_interfaces(&cur, &[des]).update.len(), 1);
}

#[test]
fn keys_that_are_no_keys_are_compared_as_texts() {
    let mut cur = current_interface("*1", "mesh-fra", 51820);
    cur.private_key_b64 = "own-private-key".to_string();
    let mut des = desired_interface("mesh-fra", 51820);
    des.private_key_b64 = "own-private-key2".to_string();
    assert_eq!(wireguard_interfaces(&[cur], &[des]).update.len(), 1);
}

#[test]
fn the_last_of_two_wishes_for_a_key_stands_and_the_first_of_two_rows_stays() {
    let cur = vec![
        current_interface("*1", "mesh-fra", 1),
        current_interface("*2", "mesh-fra", 2),
    ];
    let des = vec![
        desired_interface("mesh-fra", 7),
        desired_interface("mesh-fra", 2),
        desired_interface("mesh-new", 8),
        desired_interface("mesh-new", 9),
    ];
    let plan = wireguard_interfaces(&cur, &des);
    assert_eq!(plan.update, vec![("*1".to_string(), desired_interface("mesh-fra", 2))]);
    assert_eq!(plan.remove, vec!["*2".to_string()]);
    assert_eq!(plan.add, vec![desired_interface("mesh-new", 9)]);
}

#[test]
fn carrying_out_a_plan_leaves_nothing_to_do() {
    let cur = vec![
        current_interface("*1", "mesh-fra", 51820),
        current_interface("*2", "mesh-lon", 51821),
        current_interface("*3", "mesh-stale", 9999),
    ];
    let des = vec![
        desired_interface("mesh-fra", 51820),
        desired_interface("mesh-lon", 51822),
        desired_interface("mesh-new", 51823),
    ];
    let plan = wireguard_interfaces(&cur, &des);
    let mut rows: Vec<CurrentWireguardInterface> = Vec::new();
    for row in &cur {
        if plan.remove.iter().any(|id| id == row.id()) {
            continue;
        }
        let mut after = row.clone();
        for (id, wish) in &plan.update {
            if id == row.id() {
                after.listen_port = wish.listen_port;
                after.private_key_b64 = wish.private_key_b64.clone();
                after.disabled = wish.disabled;
            }
        }
        rows.push(after);
    }
    for (k, wish) in plan.add.iter().enumerate() {
        rows.push(current_interface(&format!("*{}", 100 + k), &wish.name, wish.listen_port));
    }
    assert!(wireguard_interfaces(&rows, &des).is_empty());
}

fn desired_address(address: &str, interface: &str) -> DesiredIpAddress {
    DesiredIpAddress {
        address: address.to_string(),
        interface: interface.to_string(),
        disabled: false,
    }
}

fn current_address(id: &str, address: &str, interface: &str) -> CurrentIpAddress {
    CurrentIpAddress {
        id: id.to_string(),
        address: address.to_string(),
        interface: interface.to_string(),
        disabled: false,
    }
}

#[test]
fn shared_table_never_removes_an_out_of_footprint_row() {
    let cur = vec![current_address("*10", "10.0.0.5/31", "mesh-old")];
    let plan = ip_addresses(&cur, &[]);
    assert_eq!(plan.remove, vec!["*10".to_string()]);
}

#[test]
fn staleness_keyed_on_interface_and_address_pair() {
    let cur = vec![current_address("*1", "10.0.0.0/31", "mesh-fra")];
    let des = vec![desired_address("10.0.0.0/31", "mesh-lon")];
    let plan = ip_addresses(&cur, &des);
    assert_eq!(plan.remove, vec!["*1".to_string()]);
    assert_eq!(plan.add, vec![desired_address("10.0.0.0/31", "mesh-lon")]);
}

#[test]
fn ip_addresses_noop_when_matching() {
    let cur = vec![current_address("*1", "10.0.0.0/31", "mesh-fra")];
    let des = vec![desired_address("10.0.0.0/31", "mesh-fra")];
    assert!(ip_addresses(&cur, &des).is_empty());
}

#[test]
fn ipv6_addresses_compare_advertise_and_disabled() {
    let cur = vec![CurrentIpv6Address {
        id: "*1".to_string(),
        address: "fd00::1/128".to_string(),
        interface: "router-lo".to_string(),
        advertise: true,
        disabled: false,
    }];
    let des = vec![DesiredIpv6Address {
        address: "fd00::1/128".to_string(),
        interface: "router-lo".to_string(),
        advertise: false,
        disabled: false,
    }];
    let plan = ipv6_addresses(&cur, &des);
    assert!(plan.add.is_empty());
    assert!(plan.remove.is_empty());
    assert_eq!(plan.update, vec![("*1".to_string(), des[0].clone())]);
}

fn desired_peer(interface: &str, name: &str, endpoint: Option<&str>) -> DesiredWireguardPeer {
    DesiredWireguardPeer {
        interface: interface.to_string(),
        name: name.to_string(),
        public_key_b64: "pub".to_string(),
        allowed_address: "0.0.0.0/0,::/0".to_string(),
        endpoint_address: endpoint.map(str::to_string),
        endpoint_port: endpoint.map(|_| 51820),
        persistent_keepalive: endpoint.map(|_| 25),
        disabled: false,
    }
}

#[test]
fn nat_peer_has_no_endpoint_or_keepalive() {
    let d = desired_peer("mesh-hq", "hq", None);
    assert_eq!(d.endpoint_address, None);
    assert_eq!(d.persistent_keepalive, None);
}

fn current_peer(id: &str, interface: &str, name: &str, key: &str) -> CurrentWireguardPeer {
    CurrentWireguardPeer {
        id: id.to_string(),
        interface: interface.to_string(),
        name: name.to_string(),
        public_key_b64: key.to_string(),
        allowed_address: "0.0.0.0/0,::/0".to_string(),
        endpoint_address: None,
        endpoint_port: None,
        persistent_keepalive: None,
        disabled: false,
    }
}

#[test]
fn wireguard_peers_combined_add_update_remove() {
    let cur = vec![
        current_peer("*1", "mesh-fra", "fra", "old-key"),
        current_peer("*2", "mesh-stale", "stale", "key"),
    ];
    let mut updated = desired_peer("mesh-fra", "fra", None);
    updated.public_key_b64 = "new-key".to_string();
    let des = vec![updated.clone(), desired_peer("mesh-lon", "lon", Some("1.2.3.4"))];

    let plan = wireguard_peers(&cur, &des);
    assert_eq!(plan.add, vec![desired_peer("mesh-lon", "lon", Some("1.2.3.4"))]);
    assert_eq!(plan.update, vec![("*1".to_string(), updated)]);
    assert_eq!(plan.remove, vec!["*2".to_string()]);
}

fn desired_member(interface: &str) -> DesiredListMember {
    DesiredListMember {
        list: "LAN".to_string(),
        interface: interface.to_string(),
        disabled: false,
    }
}

#[test]
fn removes_stale_and_keeps_unrelated_out_of_the_plan_entirely() {
    let cur = vec![CurrentListMember {
        id: "*1".to_string(),
        list: "LAN".to_string(),
        interface: "mesh-stale".to_string(),
        disabled: false,
    }];
    let plan = list_members(&cur, &[]);
    assert_eq!(plan.remove, vec!["*1".to_string()]);
}

#[test]
fn adds_a_newly_desired_interface() {
    let plan = list_members(&[], &[desired_member("mesh-fra")]);
    assert_eq!(plan.add, vec![desired_member("mesh-fra")]);
}

#[test]
fn footprint_check_excludes_unrelated_interfaces() {
    assert!(!is_our_list_member_footprint("ether1-wan", &[]));
    assert!(!is_our_list_member_footprint(
        "bridge-lan",
        &["mesh-fra".to_string()]
    ));
}

#[test]
fn footprint_check_includes_mesh_interfaces_and_desired_set() {
    assert!(is_our_list_member_footprint("mesh-fra", &[]));
    assert!(is_our_list_member_footprint(
        "router-lo",
        &["router-lo".to_string()]
    ));
}

#[test]
fn footprint_check_includes_orphaned_raw_ids() {
    assert!(is_our_list_member_footprint("*4A", &[]));
    assert!(!is_our_list_member_footprint("*not-hex", &[]));
    assert!(!is_our_list_member_footprint("*", &[]));
}

fn loopback_desired(interfaces: &str) -> DesiredOspfInterfaceTemplate {
    DesiredOspfInterfaceTemplate {
        interfaces: interfaces.to_string(),
        area: "backbone".to_string(),
        type_: None,
        cost: None,
        hello_interval: None,
        dead_interval: None,
        passive: true,
        disabled: false,
    }
}

fn peer_desired(interfaces: &str) -> DesiredOspfInterfaceTemplate {
    DesiredOspfInterfaceTemplate {
        interfaces: interfaces.to_string(),
        area: "backbone".to_string(),
        type_: Some("ptp".to_string()),
        cost: Some(10),
        hello_interval: Some("10s".to_string()),
        dead_interval: Some("40s".to_string()),
        passive: false,
        disabled: false,
    }
}

fn loopback_current(passive_raw: Option<String>) -> CurrentOspfInterfaceTemplate {
    CurrentOspfInterfaceTemplate {
        id: "*1".to_string(),
        interfaces: "router-lo".to_string(),
        area: "backbone".to_string(),
        type_: None,
        cost: None,
        hello_interval: None,
        dead_interval: None,
        passive_raw,
        disabled: false,
    }
}

#[test]
fn passive_empty_string_matches_desired_true_as_a_noop() {
    let cur = vec![loopback_current(Some(String::new()))];
    let des = vec![loopback_desired("router-lo")];
    assert!(ospf_interface_templates(&cur, &des).is_empty());
}

#[test]
fn missing_passive_flag_does_not_match_desired_true() {
    let cur = vec![loopback_current(None)];
    let des = vec![loopback_desired("router-lo")];
    let plan = ospf_interface_templates(&cur, &des);
    assert_eq!(plan.update.len(), 1);
}

#[test]
fn exclusive_add_and_remove_for_peer_templates() {
    let cur = vec![CurrentOspfInterfaceTemplate {
        id: "*2".to_string(),
        interfaces: "mesh-stale".to_string(),
        area: "backbone".to_string(),
        type_: Some("ptp".to_string()),
        cost: Some(10),
        hello_interval: Some("10s".to_string()),
        dead_interval: Some("40s".to_string()),
        passive_raw: None,
        disabled: false,
    }];
    let des = vec![peer_desired("mesh-fra")];
    let plan = ospf_interface_templates(&cur, &des);
    assert_eq!(plan.add, vec![peer_desired("mesh-fra")]);
    assert_eq!(plan.remove, vec!["*2".to_string()]);
}

fn desired_network(address: &str) -> DesiredAddressListEntry {
    DesiredAddressListEntry {
        list: "bgp-networks".to_string(),
        address: address.to_string(),
        disabled: false,
    }
}

fn current_network(id: &str, address: &str) -> CurrentAddressListEntry {
    CurrentAddressListEntry {
        id: id.to_string(),
        list: "bgp-networks".to_string(),
        address: address.to_string(),
        disabled: false,
    }
}

#[test]
fn combined_add_and_remove() {
    let cur = vec![current_network("*1", "192.168.252.0/24")];
    let des = vec![desired_network("192.168.253.0/24")];
    let plan = bgp_networks(&cur, &des);
    assert_eq!(plan.add, vec![desired_network("192.168.253.0/24")]);
    assert_eq!(plan.remove, vec!["*1".to_string()]);
}

#[test]
fn bgp_networks_noop_when_matching() {
    let cur = vec![current_network("*1", "192.168.252.0/24")];
    let des = vec![desired_network("192.168.252.0/24")];
    assert!(bgp_networks(&cur, &des).is_empty());
}

fn mapped(a: u8, b: u8, c: u8, d: u8) -> Ipv6Addr {
    Ipv6Addr::parse(&format!("::ffff:{a}.{b}.{c}.{d}")).unwrap()
}

fn desired_connection(name: &str, remote: Ipv6Addr) -> DesiredBgpConnection {
    DesiredBgpConnection {
        name: name.to_string(),
        instance: "default".to_string(),
        local_address: mapped(10, 62, 0, 1),
        local_role: "ibgp".to_string(),
        remote_address: remote,
        multihop: true,
        afi: "ip".to_string(),
        output_network: "bgp-networks".to_string(),
        disabled: false,
    }
}

fn current_connection(id: &str, name: &str, remote: Ipv6Addr) -> CurrentBgpConnection {
    CurrentBgpConnection {
        id: id.to_string(),
        name: name.to_string(),
        instance: "default".to_string(),
        local_address: mapped(10, 62, 0, 1),
        local_role: "ibgp".to_string(),
        remote_address: remote,
        multihop: true,
        afi: "ip".to_string(),
        output_network: "bgp-networks".to_string(),
        disabled: false,
    }
}

#[test]
fn update_when_remote_address_changes() {
    let cur = vec![current_connection("*1", "bgp-fra", mapped(10, 62, 0, 2))];
    let des = vec![desired_connection("bgp-fra", mapped(10, 62, 0, 3))];
    let plan = bgp_connections(&cur, &des);
    assert_eq!(
        plan.update,
        vec![(
            "*1".to_string(),
            desired_connection("bgp-fra", mapped(10, 62, 0, 3))
        )]
    );
}

#[test]
fn pure_remove_when_peer_no_longer_desired() {
    let cur = vec![current_connection("*1", "bgp-gone", mapped(10, 62, 0, 9))];
    let plan = bgp_connections(&cur, &[]);
    assert_eq!(plan.remove, vec!["*1".to_string()]);
}

#[test]
fn a_connection_differs_in_multihop_and_afi_too() {
    let cur = vec![current_connection("*1", "bgp-fra", mapped(10, 62, 0, 2))];
    let mut single_hop = desired_connection("bgp-fra", mapped(10, 62, 0, 2));
    assert!(bgp_connections(&cur, &[single_hop.clone()]).is_empty());
    single_hop.multihop = false;
    assert_eq!(bgp_connections(&cur, &[single_hop]).update.len(), 1);
    let mut other_family = desired_connection("bgp-fra", mapped(10, 62, 0, 2));
    other_family.afi = "ipv6".to_string();
    assert_eq!(bgp_connections(&cur, &[other_family]).update.len(), 1);
}
