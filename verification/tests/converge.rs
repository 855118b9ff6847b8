use slipmesh_routeros::config::desired_state;
use slipmesh_routeros::converge::{only_add_update, only_remove, Session, Stage};
use slipmesh_routeros::diff::{ListMembers, SingletonOp};
use slipmesh_routeros::documents::{
    AwgConfig, BgpPeerEntry, InterfaceEntry, NodeIdentity, PeerEntry, RouterConfig,
};
use slipmesh_routeros::plan::Plan;
use slipmesh_routeros::report::ConvergeReport;
use slipmesh_routeros::request::Request;
use slipmesh_routeros::row::Row;
use slipmesh_routeros::rows::{
    CurrentListMember, Describe, DesiredBridge, DesiredListMember,
};

fn row(pairs: &[(&str, &str)]) -> Row {
    let mut r = Row::new();
    for (k, v) in pairs {
        r.insert(k.to_string(), Some(v.to_string()));
    }
    r
}

fn session(apply: bool) -> Session {
    let awg = AwgConfig {
        interfaces: vec![InterfaceEntry {
            name: "mesh-2".to_string(),
            listen_port: 51820,
            addresses: vec![],
            private_key: "key".to_string(),
            peers: vec![PeerEntry {
                public_key: "pub".to_string(),
                endpoint: Some("fra.example.com:51820".to_string()),
                allowed_ips: None,
            }],
        }],
    };
    let router = RouterConfig {
        node: NodeIdentity {
            loopback_addresses: vec!["10.62.0.1/32".to_string(), "fd00::1/128".to_string()],
        },
        bgp_as: 65062,
        bgp_peers: vec![BgpPeerEntry {
            name: "fra".to_string(),
            address: "fd00::2".to_string(),
        }],
        ospf_interfaces: vec!["mesh-*".to_string()],
        direct_interfaces: vec![],
        learn: vec![],
        announce: vec![],
    };
    Session::start(desired_state(&awg, &router, &[]).unwrap(), apply)
}

fn words(requests: &[Request]) -> Vec<&str> {
    requests.iter().map(|r| r.word.as_str()).collect()
}

/// Reads the tables of a device that has a stale interface on the LAN list, and nothing else.
fn run(mut s: Session) -> (Vec<String>, Vec<String>, ConvergeReport) {
    let mut tables = Vec::new();
    let mut sent = Vec::new();
    while let Some(table) = s.table() {
        tables.push(table.to_string());
        let rows = if table == "/interface/list/member" {
            vec![
                row(&[(".id", "*1"), ("list", "LAN"), ("interface", "mesh-old")]),
                row(&[(".id", "*2"), ("list", "LAN"), ("interface", "ether1")]),
            ]
        } else if table == "/interface/wireguard" {
            vec![row(&[
                (".id", "*7"),
                ("name", "mesh-old"),
                ("listen-port", "51820"),
                ("private-key", "key"),
            ])]
        } else {
            vec![]
        };
        let requests = s.advance(&rows).unwrap();
        sent.extend(words(&requests).iter().map(|w| w.to_string()));
    }
    (tables, sent, s.report)
}

#[test]
fn the_tables_are_read_in_their_order() {
    let (tables, _, _) = run(session(true));
    assert_eq!(
        tables,
        vec![
            "/interface/list/member",
            "/interface/wireguard",
            "/interface/bridge",
            "/ip/address",
            "/ipv6/address",
            "/interface/wireguard/peers",
            "/routing/ospf/instance",
            "/routing/ospf/area",
            "/routing/ospf/interface-template",
            "/ip/firewall/address-list",
            "/routing/bgp/instance",
            "/routing/bgp/connection",
        ]
    );
}

#[test]
fn requests_go_out_in_an_order_that_the_device_can_take() {
    let (_, sent, report) = run(session(true));
    assert_eq!(
        sent,
        vec![
            "/interface/list/member/remove",
            "/interface/wireguard/remove",
            "/interface/wireguard/add",
            "/interface/bridge/add",
            "/ip/address/add",
            "/ipv6/address/add",
            "/interface/wireguard/peers/add",
            "/interface/list/member/add",
            "/routing/ospf/instance/add",
            "/routing/ospf/area/add",
            "/routing/ospf/interface-template/add",
            "/routing/ospf/interface-template/add",
            "/ip/firewall/address-list/add",
            "/routing/bgp/instance/add",
            "/routing/bgp/connection/add",
        ]
    );
    assert_eq!(report.added, 13);
    assert_eq!(report.updated, 0);
    assert_eq!(report.removed, 2);
    assert_eq!(report.diff_lines.len(), 15);
}

#[test]
fn checking_sends_nothing_and_reports_the_same() {
    let (tables, sent, report) = run(session(true));
    let (tables_read, nothing, same_report) = run(session(false));
    assert!(!sent.is_empty());
    assert!(nothing.is_empty());
    assert_eq!(tables_read, tables);
    assert_eq!(same_report.diff_lines, report.diff_lines);
    assert_eq!(same_report.added, report.added);
    assert_eq!(same_report.updated, report.updated);
    assert_eq!(same_report.removed, report.removed);
}

#[test]
fn a_removed_row_is_shown_in_full() {
    let (_, _, report) = run(session(false));
    assert_eq!(
        report.diff_lines[0],
        "+ interface list member: DesiredListMember { list: \"LAN\", interface: \"mesh-2\", \
         disabled: false }"
    );
    assert_eq!(
        report.diff_lines[1],
        "- interface list member: CurrentListMember { id: \"*1\", list: \"LAN\", \
         interface: \"mesh-old\", disabled: false }"
    );
    assert_eq!(
        report.diff_lines[3],
        "- interface wireguard: CurrentWireguardInterface { id: \"*7\", name: \"mesh-old\", \
         listen_port: 51820, private_key_b64: \"key\", disabled: false }"
    );
}

#[test]
fn a_row_outside_the_footprint_is_never_touched() {
    let mut s = session(true);
    let rows = vec![row(&[(".id", "*2"), ("list", "LAN"), ("interface", "ether1")])];
    assert!(s.advance(&rows).unwrap().is_empty());
    assert_eq!(s.report.removed, 0);
    assert_eq!(s.report.added, 1);
}

#[test]
fn a_malformed_row_stops_the_run_where_it_is() {
    let mut s = session(true);
    assert!(s.advance(&[]).is_ok());
    assert_eq!(s.stage, Stage::WireguardInterfaces);
    assert!(s.advance(&[row(&[("name", "mesh-2")])]).is_err());
    assert_eq!(s.stage, Stage::WireguardInterfaces);
    assert_eq!(s.report.diff_lines.len(), 1);
}

#[test]
fn a_finished_run_stays_finished() {
    let mut s = session(true);
    while s.table().is_some() {
        assert!(s.advance(&[]).is_ok());
    }
    assert_eq!(s.stage, Stage::Finished);
    assert!(s.advance(&[]).unwrap().is_empty());
    assert_eq!(s.stage, Stage::Finished);
}

fn member(interface: &str) -> DesiredListMember {
    DesiredListMember {
        list: "LAN".to_string(),
        interface: interface.to_string(),
        disabled: false,
    }
}

#[test]
fn a_plan_falls_into_its_removals_and_the_rest() {
    let plan = Plan {
        add: vec![member("a")],
        update: vec![("*1".to_string(), member("b"))],
        remove: vec!["*2".to_string()],
    };
    assert_eq!(
        only_remove::<ListMembers>(&plan),
        Plan { add: vec![], update: vec![], remove: vec!["*2".to_string()] }
    );
    assert_eq!(
        only_add_update::<ListMembers>(&plan),
        Plan {
            add: vec![member("a")],
            update: vec![("*1".to_string(), member("b"))],
            remove: vec![],
        }
    );
}

#[test]
fn a_report_counts_and_tells_each_action() {
    let current = vec![CurrentListMember {
        id: "*2".to_string(),
        list: "LAN".to_string(),
        interface: "c".to_string(),
        disabled: true,
    }];
    let plan = Plan {
        add: vec![member("a")],
        update: vec![("*1".to_string(), member("b\"b"))],
        remove: vec!["*2".to_string(), "*3".to_string()],
    };
    let mut report = ConvergeReport::default();
    report.record("interface list member", &current, &plan);
    assert_eq!((report.added, report.updated, report.removed), (1, 1, 2));
    assert_eq!(
        report.diff_lines,
        vec![
            format!("+ interface list member: {:?}", member("a")),
            format!("~ interface list member (*1): {:?}", member("b\"b")),
            format!("- interface list member: {:?}", current[0]),
            "- interface list member (*3)".to_string(),
        ]
    );
    let bridge = DesiredBridge { name: "router-lo".to_string(), disabled: false };
    report.record_singleton("interface bridge", &SingletonOp::<DesiredBridge>::NoOp);
    assert_eq!(report.diff_lines.len(), 4);
    report.record_singleton("interface bridge", &SingletonOp::Create(bridge.clone()));
    report.record_singleton("interface bridge", &SingletonOp::Update("*5".to_string(), bridge));
    assert_eq!((report.added, report.updated, report.removed), (2, 2, 2));
    assert_eq!(
        report.diff_lines[4],
        "+ interface bridge: DesiredBridge { name: \"router-lo\", disabled: false }"
    );
    assert_eq!(
        report.diff_lines[5],
        "~ interface bridge (*5): DesiredBridge { name: \"router-lo\", disabled: false }"
    );
    assert_eq!(member("a").describe(), format!("{:?}", member("a")));
}
