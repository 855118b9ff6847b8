use slipmesh_routeros::addr::{Ipv4Addr, Ipv6Addr};
use slipmesh_routeros::config::{
    desired_state, glob_match, own_loopbacks, parse_endpoint, parse_loopback_address,
    validate_loopbacks, LOOPBACK_BRIDGE,
};
use slipmesh_routeros::documents::{
    AnnounceEntry, AwgConfig, BgpPeerEntry, InterfaceEntry, NodeIdentity, PeerEntry, RouterConfig,
};
use slipmesh_routeros::error::Error;

fn router_config() -> RouterConfig {
    RouterConfig {
        node: NodeIdentity {
            loopback_addresses: vec!["10.62.0.1/32".to_string(), "fd00::1/128".to_string()],
        },
        bgp_as: 65062,
        bgp_peers: vec![],
        ospf_interfaces: vec![],
        direct_interfaces: vec![],
        learn: vec![],
        announce: vec![],
    }
}

fn iface(name: &str, port: u16) -> InterfaceEntry {
    InterfaceEntry {
        name: name.to_string(),
        listen_port: port,
        addresses: vec![],
        private_key: "own-private-key".to_string(),
        peers: vec![],
    }
}

fn peer(public_key: &str, endpoint: Option<&str>) -> PeerEntry {
    PeerEntry {
        public_key: public_key.to_string(),
        endpoint: endpoint.map(str::to_string),
        allowed_ips: None,
    }
}

#[test]
fn always_includes_the_loopback_addresses_and_singletons() {
    let state = desired_state(&AwgConfig::default(), &router_config(), &[]).unwrap();
    assert_eq!(state.ip_addresses.len(), 1);
    assert_eq!(state.ip_addresses[0].address, "10.62.0.1/32");
    assert_eq!(state.ip_addresses[0].interface, LOOPBACK_BRIDGE);
    assert_eq!(state.ip_v6_addresses.len(), 1);
    assert_eq!(state.ip_v6_addresses[0].address, "fd00::1/128");
    assert!(!state.ip_v6_addresses[0].advertise);
    assert_eq!(state.loopback_bridge.name, LOOPBACK_BRIDGE);
    assert_eq!(state.ospf_instance.version, 3);
    assert_eq!(state.ospf_instance.router_id, Ipv4Addr::new(10, 62, 0, 1));
    assert_eq!(state.bgp_instance.as_number, 65062);
    assert_eq!(state.ospf_interface_templates.len(), 1);
    assert!(state.ospf_interface_templates[0].passive);
    assert_eq!(state.bgp_networks.len(), 1);
    assert_eq!(state.bgp_networks[0].address, "10.62.0.1");
}

#[test]
fn wireguard_interface_and_peer_with_an_endpoint() {
    let mut i = iface("mesh-2", 51820);
    i.peers.push(peer("fra-pub", Some("fra.example.com:51820")));
    let awg = AwgConfig {
        interfaces: vec![i],
    };
    let mut router = router_config();
    router.ospf_interfaces = vec!["mesh-*".to_string()];
    let state = desired_state(&awg, &router, &[]).unwrap();

    assert_eq!(state.wireguard_interfaces.len(), 1);
    assert_eq!(state.wireguard_interfaces[0].name, "mesh-2");
    assert_eq!(state.wireguard_interfaces[0].listen_port, 51820);
    assert_eq!(
        state.wireguard_interfaces[0].private_key_b64,
        "own-private-key"
    );

    assert_eq!(state.wireguard_peers.len(), 1);
    let p = &state.wireguard_peers[0];
    assert_eq!(p.public_key_b64, "fra-pub");
    assert_eq!(p.name, "2");
    assert_eq!(p.endpoint_address, Some("fra.example.com".to_string()));
    assert_eq!(p.endpoint_port, Some(51820));
    assert_eq!(p.persistent_keepalive, Some(25));
    assert_eq!(p.allowed_address, "0.0.0.0/0,::/0");

    assert!(
        state
            .list_members
            .iter()
            .any(|m| m.interface == "mesh-2" && m.list == "LAN")
    );
    assert_eq!(state.ospf_interface_templates.len(), 2);
    assert!(
        state
            .ospf_interface_templates
            .iter()
            .any(|t| t.interfaces == "mesh-2" && t.type_.as_deref() == Some("ptp"))
    );
}

#[test]
fn mesh_interface_addresses_are_applied_verbatim_from_the_patch_file() {
    let mut i1 = iface("mesh-2", 51820);
    i1.addresses = vec!["fe80::a3e:ff/64".to_string()];
    let mut i2 = iface("mesh-3", 51821);
    i2.addresses = vec!["fe80::a3e:ff/64".to_string()];
    let awg = AwgConfig {
        interfaces: vec![i1, i2],
    };
    let state = desired_state(&awg, &router_config(), &[]).unwrap();

    assert_eq!(state.ip_v6_addresses.len(), 4);
    assert!(
        state
            .ip_v6_addresses
            .iter()
            .any(|a| a.interface == LOOPBACK_BRIDGE && a.address == "fe80::a3e:ff/64")
    );
    assert!(
        state
            .ip_v6_addresses
            .iter()
            .any(|a| a.interface == "mesh-2" && a.address == "fe80::a3e:ff/64" && !a.advertise)
    );
    assert!(
        state
            .ip_v6_addresses
            .iter()
            .any(|a| a.interface == "mesh-3" && a.address == "fe80::a3e:ff/64" && !a.advertise)
    );
}

#[test]
fn interface_with_no_addresses_gets_no_extra_ipv6_row() {
    let awg = AwgConfig {
        interfaces: vec![iface("mesh-2", 51820)],
    };
    let state = desired_state(&awg, &router_config(), &[]).unwrap();
    assert_eq!(state.ip_v6_addresses.len(), 1);
}

#[test]
fn mesh_interface_ipv4_tunnel_address_becomes_a_desired_ip_address() {
    let mut i = iface("mesh-2", 51820);
    i.addresses = vec!["fe80::a3e:ff/64".to_string(), "10.62.1.255/32".to_string()];
    let awg = AwgConfig {
        interfaces: vec![i],
    };
    let state = desired_state(&awg, &router_config(), &[]).unwrap();

    assert_eq!(state.ip_addresses.len(), 2);
    assert!(
        state
            .ip_addresses
            .iter()
            .any(|a| a.interface == "mesh-2" && a.address == "10.62.1.255/32")
    );
    assert_eq!(state.ip_v6_addresses.len(), 3);
}

#[test]
fn nat_peer_with_no_endpoint_gets_no_endpoint_or_keepalive() {
    let mut i = iface("mesh-3", 51821);
    i.peers.push(peer("lon-pub", None));
    let awg = AwgConfig {
        interfaces: vec![i],
    };
    let state = desired_state(&awg, &router_config(), &[]).unwrap();

    assert_eq!(state.wireguard_peers.len(), 1);
    assert_eq!(state.wireguard_peers[0].endpoint_address, None);
    assert_eq!(state.wireguard_peers[0].endpoint_port, None);
    assert_eq!(state.wireguard_peers[0].persistent_keepalive, None);
}

#[test]
fn explicit_allowed_ips_are_joined_verbatim() {
    let mut i = iface("mesh-9", 51900);
    let mut p = peer("rw-pub", None);
    p.allowed_ips = Some(vec!["10.99.0.5/32".to_string()]);
    i.peers.push(p);
    let awg = AwgConfig {
        interfaces: vec![i],
    };
    let state = desired_state(&awg, &router_config(), &[]).unwrap();
    assert_eq!(state.wireguard_peers[0].allowed_address, "10.99.0.5/32");
}

#[test]
fn malformed_endpoint_is_an_error() {
    let mut i = iface("mesh-2", 51820);
    i.peers.push(peer("fra-pub", Some("no-port-here")));
    let awg = AwgConfig {
        interfaces: vec![i],
    };
    assert!(desired_state(&awg, &router_config(), &[]).is_err());
}

#[test]
fn direct_interfaces_glob_selects_which_physically_connected_prefixes_are_announced() {
    let mut router = router_config();
    router.direct_interfaces = vec!["ether*".to_string()];
    let physically_connected = vec![
        ("ether1".to_string(), "192.168.88.0/24".to_string()),
        ("wan0".to_string(), "203.0.113.0/24".to_string()),
    ];
    let state = desired_state(&AwgConfig::default(), &router, &physically_connected).unwrap();
    assert!(
        state
            .bgp_networks
            .iter()
            .any(|n| n.address == "192.168.88.0/24")
    );
    assert!(
        !state
            .bgp_networks
            .iter()
            .any(|n| n.address == "203.0.113.0/24")
    );
}

#[test]
fn learn_range_selects_a_physically_connected_prefix_not_matched_by_direct_interfaces() {
    let mut router = router_config();
    router.learn = vec!["10.99.0.0/16".to_string()];
    let physically_connected = vec![("cni0".to_string(), "10.99.5.0/24".to_string())];
    let state = desired_state(&AwgConfig::default(), &router, &physically_connected).unwrap();
    assert!(
        state
            .bgp_networks
            .iter()
            .any(|n| n.address == "10.99.5.0/24")
    );
}

#[test]
fn announce_entries_are_always_included_regardless_of_live_state() {
    let mut router = router_config();
    router.announce.push(AnnounceEntry {
        net: "172.16.0.0/24".to_string(),
    });
    let state = desired_state(&AwgConfig::default(), &router, &[]).unwrap();
    assert!(
        state
            .bgp_networks
            .iter()
            .any(|n| n.address == "172.16.0.0/24")
    );
}

#[test]
fn unmatched_physically_connected_prefixes_are_not_announced() {
    let mut router = router_config();
    router.direct_interfaces = vec!["ether*".to_string()];
    let physically_connected = vec![("wan0".to_string(), "203.0.113.0/24".to_string())];
    let state = desired_state(&AwgConfig::default(), &router, &physically_connected).unwrap();
    assert_eq!(state.bgp_networks.len(), 1);
    assert_eq!(state.bgp_networks[0].address, "10.62.0.1");
}

#[test]
fn bgp_connections_map_one_to_one_from_bgp_peers_over_ipv6_loopbacks() {
    let mut router = router_config();
    router.bgp_peers = vec![
        BgpPeerEntry {
            name: "node-h".to_string(),
            address: "fd00::2".to_string(),
        },
        BgpPeerEntry {
            name: "node-d".to_string(),
            address: "fd00::3".to_string(),
        },
    ];
    let state = desired_state(&AwgConfig::default(), &router, &[]).unwrap();
    assert_eq!(state.bgp_connections.len(), 2);
    let fra = state
        .bgp_connections
        .iter()
        .find(|c| c.name == "bgp-node-h")
        .unwrap();
    assert_eq!(fra.remote_address, Ipv6Addr::parse("fd00::2").unwrap());
    assert_eq!(fra.local_address, Ipv6Addr::parse("fd00::1").unwrap());
    assert!(fra.multihop);
    assert_eq!(fra.afi, "ip");
}

#[test]
fn invalid_bgp_peer_address_is_an_error() {
    let mut router = router_config();
    router.bgp_peers = vec![BgpPeerEntry {
        name: "bad".to_string(),
        address: "not-an-ip".to_string(),
    }];
    assert!(desired_state(&AwgConfig::default(), &router, &[]).is_err());
}

#[test]
fn announced_networks_are_sorted_and_come_once() {
    let mut router = router_config();
    router.direct_interfaces = vec!["*".to_string()];
    router.announce = vec![
        AnnounceEntry { net: "172.16.0.0/24".to_string() },
        AnnounceEntry { net: "10.0.0.0/8".to_string() },
        AnnounceEntry { net: "172.16.0.0/24".to_string() },
        AnnounceEntry { net: "10.9.9.9/32".to_string() },
    ];
    let physically_connected = vec![
        ("ether1".to_string(), "192.168.88.0/24".to_string()),
        ("ether2".to_string(), "10.0.0.0/8".to_string()),
    ];
    let state = desired_state(&AwgConfig::default(), &router, &physically_connected).unwrap();
    let addresses: Vec<&str> = state.bgp_networks.iter().map(|n| n.address.as_str()).collect();
    assert_eq!(
        addresses,
        vec!["10.0.0.0/8", "10.62.0.1", "10.9.9.9", "172.16.0.0/24", "192.168.88.0/24"]
    );
}

#[test]
fn a_range_or_prefix_that_is_none_is_learned_from_nowhere() {
    let mut router = router_config();
    router.learn = vec!["rubbish".to_string(), "10.0.0.0/8".to_string()];
    let physically_connected = vec![
        ("a".to_string(), "10.5.0.0/16".to_string()),
        ("b".to_string(), "also rubbish".to_string()),
    ];
    let state = desired_state(&AwgConfig::default(), &router, &physically_connected).unwrap();
    let addresses: Vec<&str> = state.bgp_networks.iter().map(|n| n.address.as_str()).collect();
    assert_eq!(addresses, vec!["10.5.0.0/16", "10.62.0.1"]);
}

#[test]
fn ospf_runs_once_on_each_interface_that_a_pattern_matches() {
    let awg = AwgConfig {
        interfaces: vec![iface("mesh-2", 1), iface("mesh-3", 2), iface("wg-other", 3)],
    };
    let mut router = router_config();
    router.ospf_interfaces = vec![
        "router-lo".to_string(),
        "mesh-3".to_string(),
        "mesh-*".to_string(),
    ];
    let state = desired_state(&awg, &router, &[]).unwrap();
    let names: Vec<&str> = state
        .ospf_interface_templates
        .iter()
        .map(|t| t.interfaces.as_str())
        .collect();
    assert_eq!(names, vec!["router-lo", "mesh-3", "mesh-2"]);
    assert_eq!(state.ospf_interface_templates[1].cost, Some(10));
    assert_eq!(state.ospf_interface_templates[1].hello_interval.as_deref(), Some("10s"));
    assert_eq!(state.ospf_interface_templates[1].dead_interval.as_deref(), Some("40s"));
    assert!(!state.ospf_interface_templates[1].passive);
}

#[test]
fn several_allowed_ips_are_joined_with_commas() {
    let mut i = iface("mesh-mesh-9", 51900);
    let mut p = peer("rw-pub", None);
    p.allowed_ips = Some(vec!["10.99.0.5/32".to_string(), "fd00::5/128".to_string()]);
    i.peers.push(p);
    let awg = AwgConfig { interfaces: vec![i] };
    let state = desired_state(&awg, &router_config(), &[]).unwrap();
    assert_eq!(state.wireguard_peers[0].allowed_address, "10.99.0.5/32,fd00::5/128");
    assert_eq!(state.wireguard_peers[0].name, "9");
}

#[test]
fn each_malformed_endpoint_has_its_own_error() {
    assert_eq!(
        parse_endpoint("no-port-here"),
        Err(Error::EndpointForm { endpoint: "no-port-here".to_string() })
    );
    assert_eq!(parse_endpoint(":51820"), Err(Error::EndpointEmpty));
    assert_eq!(
        parse_endpoint("a b:1"),
        Err(Error::EndpointCharacters { endpoint: "a b".to_string() })
    );
    assert_eq!(
        parse_endpoint("host:70000"),
        Err(Error::EndpointPort { endpoint: "host:70000".to_string() })
    );
    assert_eq!(
        parse_endpoint("2001:db8::1:51820"),
        Ok(("2001:db8::1".to_string(), 51820))
    );
}

#[test]
fn each_missing_or_malformed_loopback_has_its_own_error() {
    let with = |entries: &[&str]| {
        let mut router = router_config();
        router.node.loopback_addresses = entries.iter().map(|e| e.to_string()).collect();
        own_loopbacks(&router)
    };
    assert_eq!(with(&["fd00::1/128"]), Err(Error::NoIpv4Loopback));
    assert_eq!(with(&["10.62.0.1/32"]), Err(Error::NoIpv6Loopback));
    assert_eq!(
        with(&["10.62.0.1", "fd00::1/128"]),
        Err(Error::Loopback { entry: "10.62.0.1".to_string() })
    );
    assert_eq!(
        with(&["10.62.0.1/33", "fd00::1/128"]),
        Err(Error::Loopback { entry: "10.62.0.1/33".to_string() })
    );
    assert_eq!(
        with(&["10.62.0.1/32", "fd00::1/129"]),
        Err(Error::Loopback { entry: "fd00::1/129".to_string() })
    );
    assert_eq!(
        with(&["10.62.0.1/32", "fd00::1/128"]),
        Ok((Ipv4Addr::new(10, 62, 0, 1), Ipv6Addr::parse("fd00::1").unwrap()))
    );
    assert!(parse_loopback_address("nowhere/8").is_err());
}

#[test]
fn the_bgp_peer_at_fault_is_named() {
    let mut router = router_config();
    router.bgp_peers = vec![BgpPeerEntry {
        name: "bad".to_string(),
        address: "10.0.0.1".to_string(),
    }];
    assert_eq!(
        desired_state(&AwgConfig::default(), &router, &[]),
        Err(Error::BgpPeerAddress { name: "bad".to_string(), address: "10.0.0.1".to_string() })
    );
}

#[test]
fn a_pattern_matches_by_its_start_or_as_a_whole() {
    assert!(glob_match("mesh-*", "mesh-2"));
    assert!(glob_match("mesh-*", "mesh-"));
    assert!(!glob_match("mesh-*", "mes"));
    assert!(glob_match("ether1", "ether1"));
    assert!(!glob_match("ether1", "ether10"));
    assert!(!glob_match("*1", "ether1"));
    assert!(glob_match("*", ""));
}

#[test]
fn there_is_exactly_one_loopback_of_each_family() {
    let with = |entries: &[&str]| {
        let mut router = router_config();
        router.node.loopback_addresses = entries.iter().map(|e| e.to_string()).collect();
        (validate_loopbacks(&router), own_loopbacks(&router).ok())
    };
    let both = (Ipv4Addr::new(10, 62, 0, 1), Ipv6Addr::parse("fd00::1").unwrap());
    assert_eq!(with(&["10.62.0.1/32", "fd00::1/128"]), (Ok(()), Some(both)));
    assert_eq!(with(&["fd00::1/128", "10.62.0.1/32"]), (Ok(()), Some(both)));
    assert_eq!(with(&[]).0, Err(Error::NoIpv4Loopback));
    assert_eq!(with(&["10.62.0.1/32"]).0, Err(Error::NoIpv6Loopback));
    assert_eq!(
        with(&["10.62.0.1/32", "fd00::1/128", "10.62.0.2/32"]).0,
        Err(Error::SeveralIpv4Loopbacks)
    );
    assert_eq!(
        with(&["10.62.0.1/32", "fd00::1/128", "fd00::2/128"]).0,
        Err(Error::SeveralIpv6Loopbacks)
    );
    assert_eq!(
        with(&["10.62.0.1/32", "fd00::1/128", "rubbish"]).0,
        Err(Error::Loopback { entry: "rubbish".to_string() })
    );
    assert_eq!(
        Error::SeveralIpv4Loopbacks.message(),
        "node.loopback_addresses has several IPv4 entries"
    );
}
