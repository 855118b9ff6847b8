use slipmesh_routeros::config::desired_state;
use slipmesh_routeros::converge::Session;
use slipmesh_routeros::documents::{
    AwgConfig, BgpPeerEntry, InterfaceEntry, NodeIdentity, PeerEntry, RouterConfig,
};
use slipmesh_routeros::report::ConvergeReport;
use slipmesh_routeros::request::{is_encodable, Request};
use slipmesh_routeros::row::Row;
use std::collections::HashMap;

type Fields = Vec<(String, Option<String>)>;

/// A device that stores what it is sent.
#[derive(Default)]
struct Device {
    tables: HashMap<String, Vec<Fields>>,
    next_id: usize,
}

fn put(fields: &mut Fields, key: &str, value: Option<String>) {
    let flag = matches!(key, "disabled" | "advertise" | "multihop");
    let value = match value.as_deref() {
        Some("yes") if flag => Some("true".to_string()),
        Some("no") if flag => Some("false".to_string()),
        _ => value,
    };
    fields.retain(|(k, _)| k != key);
    fields.push((key.to_string(), value));
}

fn id_of(fields: &Fields) -> Option<String> {
    fields.iter().find(|(k, _)| k == ".id").and_then(|(_, v)| v.clone())
}

impl Device {
    fn add(&mut self, table: &str, pairs: &[(&str, &str)]) {
        self.next_id += 1;
        let mut fields = vec![(".id".to_string(), Some(format!("*{:X}", self.next_id)))];
        for (k, v) in pairs {
            put(&mut fields, k, Some(v.to_string()));
        }
        self.tables.entry(table.to_string()).or_default().push(fields);
    }

    fn print(&self, table: &str) -> Vec<Row> {
        let mut rows = Vec::new();
        for fields in self.tables.get(table).into_iter().flatten() {
            let mut row = Row::new();
            for (k, v) in fields {
                row.insert(k.clone(), v.clone());
            }
            rows.push(row);
        }
        rows
    }

    fn execute(&mut self, request: &Request) {
        let at = request.word.rfind('/').unwrap();
        let (table, action) = (&request.word[..at], &request.word[at + 1..]);
        if action == "add" {
            self.add(table, &[]);
            let row = self.tables.get_mut(table).unwrap().last_mut().unwrap();
            for (k, v) in &request.attributes {
                put(row, k, v.clone());
            }
            return;
        }
        let id = request.attributes[0].1.clone();
        let rows = self.tables.get_mut(table).unwrap();
        if action == "remove" {
            rows.retain(|r| id_of(r) != id);
        } else {
            assert_eq!(action, "set");
            let row = rows.iter_mut().find(|r| id_of(r) == id).unwrap();
            for (k, v) in &request.attributes[1..] {
                put(row, k, v.clone());
            }
        }
    }

    fn run(&mut self, session: Session) -> (usize, ConvergeReport) {
        let (sent, report) = self.run_and_record(session);
        (sent.len(), report)
    }

    fn run_and_record(&mut self, mut session: Session) -> (Vec<Request>, ConvergeReport) {
        let mut sent = Vec::new();
        while let Some(table) = session.table() {
            let rows = self.print(table);
            for request in session.advance(&rows).unwrap() {
                self.execute(&request);
                sent.push(request);
            }
        }
        (sent, session.report)
    }
}

fn session(apply: bool) -> Session {
    session_with(apply, &[])
}

fn session_with(apply: bool, more_addresses: &[&str]) -> Session {
    let interface = |name: &str, port: u16, endpoint: Option<&str>| InterfaceEntry {
        name: name.to_string(),
        listen_port: port,
        addresses: std::iter::once(format!("10.62.1.{}/32", port - 51819))
            .chain(more_addresses.iter().map(|a| a.to_string()))
            .collect(),
        private_key: "key".to_string(),
        peers: vec![PeerEntry {
            public_key: format!("pub-{name}"),
            endpoint: endpoint.map(str::to_string),
            allowed_ips: None,
        }],
    };
    let awg = AwgConfig {
        interfaces: vec![
            interface("mesh-2", 51820, Some("fra.example.com:51820")),
            interface("mesh-3", 51821, None),
        ],
    };
    let router = RouterConfig {
        node: NodeIdentity {
            loopback_addresses: vec!["10.62.0.1/32".to_string(), "fd00::1/128".to_string()],
        },
        bgp_as: 65062,
        bgp_peers: vec![BgpPeerEntry {
            name: "fra".to_string(),
            address: "fd00::2".to_string(),
        }],
        ospf_interfaces: vec!["mesh-*".to_string()],
        direct_interfaces: vec!["ether*".to_string()],
        learn: vec![],
        announce: vec![],
    };
    let connected = vec![("ether1".to_string(), "192.168.88.0/24".to_string())];
    Session::start(desired_state(&awg, &router, &connected).unwrap(), apply)
}

fn used_device() -> Device {
    let mut device = Device::default();
    device.add("/interface/list/member", &[("list", "LAN"), ("interface", "ether1")]);
    device.add("/interface/list/member", &[("list", "LAN"), ("interface", "mesh-old")]);
    device.add(
        "/interface/wireguard",
        &[("name", "mesh-old"), ("listen-port", "51820"), ("private-key", "key")],
    );
    device.add(
        "/interface/wireguard",
        &[("name", "mesh-3"), ("listen-port", "1"), ("private-key", "old"), ("disabled", "true")],
    );
    device.add("/ip/address", &[("address", "192.168.88.1/24"), ("interface", "ether1")]);
    device.add("/ip/address", &[("address", "10.9.9.9/31"), ("interface", "*4A")]);
    device.add("/ipv6/address", &[("address", "fe80::1/64"), ("interface", "mesh-3")]);
    device.add("/routing/ospf/area", &[("name", "other"), ("area-id", "0.0.0.7")]);
    device.add("/ip/firewall/address-list", &[("list", "blocked"), ("address", "192.0.2.1")]);
    device.add("/ip/firewall/address-list", &[("list", "bgp-networks"), ("address", "10.0.0.0/8")]);
    device
}

#[test]
fn a_second_run_finds_nothing_to_do() {
    let mut device = used_device();
    let (sent, report) = device.run(session(true));
    assert!(sent > 0);
    assert_eq!(sent, report.diff_lines.len());
    let (sent, report) = device.run(session(true));
    assert_eq!(sent, 0);
    assert_eq!(report.diff_lines, Vec::<String>::new());
    assert_eq!((report.added, report.updated, report.removed), (0, 0, 0));
}

#[test]
fn an_empty_device_settles_in_one_run_too() {
    let mut device = Device::default();
    device.run(session(true));
    assert_eq!(device.run(session(true)).0, 0);
}

#[test]
fn rows_that_are_not_ours_stay_as_they_were() {
    let mut device = used_device();
    let before = used_device();
    device.run(session(true));
    for (table, kept) in [
        ("/interface/list/member", 0),
        ("/ip/address", 0),
        ("/ipv6/address", 0),
        ("/routing/ospf/area", 0),
        ("/ip/firewall/address-list", 0),
    ] {
        assert!(device.tables[table].contains(&before.tables[table][kept]));
    }
    assert!(!device.tables["/ip/address"].contains(&before.tables["/ip/address"][1]));
}

#[test]
fn checking_leaves_the_device_alone() {
    let mut device = used_device();
    let (sent, report) = device.run(session(false));
    assert_eq!(sent, 0);
    assert!(!report.diff_lines.is_empty());
    assert!(device.tables == used_device().tables);
}

fn lines_with(report: &ConvergeReport, sign: char) -> usize {
    report.diff_lines.iter().filter(|line| line.starts_with(sign)).count()
}

#[test]
fn each_counter_is_the_number_of_lines_with_its_sign() {
    let (_, report) = used_device().run(session(true));
    assert!(report.added > 0 && report.updated > 0 && report.removed > 0);
    assert_eq!(report.added as usize, lines_with(&report, '+'));
    assert_eq!(report.updated as usize, lines_with(&report, '~'));
    assert_eq!(report.removed as usize, lines_with(&report, '-'));
    assert_eq!(
        report.diff_lines.len(),
        lines_with(&report, '+') + lines_with(&report, '~') + lines_with(&report, '-')
    );
}

#[test]
fn a_second_run_only_adds_link_local_addresses() {
    let mut device = used_device();
    device.run(session_with(true, &["fe80::1/64", "fd00:1::1/64"]));
    let (sent, report) = device.run_and_record(session_with(true, &["fe80::1/64", "fd00:1::1/64"]));
    let value = |request: &Request, key: &str| {
        request.attributes.iter().find(|(k, _)| k == key).unwrap().1.clone().unwrap()
    };
    let added: Vec<(&str, String, String)> = sent
        .iter()
        .map(|r| (r.word.as_str(), value(r, "address"), value(r, "interface")))
        .collect();
    let add = |interface: &str| {
        ("/ipv6/address/add", "fe80::1/64".to_string(), interface.to_string())
    };
    assert_eq!(added, vec![add("router-lo"), add("mesh-2"), add("mesh-3")]);
    assert_eq!((report.added, report.updated, report.removed), (3, 0, 0));
    assert_eq!(report.diff_lines.len(), 3);
}

#[test]
fn objects_that_differ_are_set_once() {
    let mut device = Device::default();
    device.add("/interface/bridge", &[("name", "router-lo"), ("disabled", "true")]);
    device.add(
        "/routing/ospf/instance",
        &[("name", "default"), ("version", "2"), ("router-id", "10.0.0.1")],
    );
    device.add(
        "/routing/ospf/area",
        &[("name", "backbone"), ("area-id", "0.0.0.0"), ("instance", "other")],
    );
    device.add(
        "/routing/bgp/instance",
        &[("name", "default"), ("as", "1"), ("router-id", "10.0.0.1"), ("routing-table", "main")],
    );
    let (sent, report) = device.run_and_record(session(true));
    let set: Vec<&str> =
        sent.iter().map(|r| r.word.as_str()).filter(|word| word.ends_with("/set")).collect();
    assert_eq!(
        set,
        vec![
            "/interface/bridge/set",
            "/routing/ospf/instance/set",
            "/routing/ospf/area/set",
            "/routing/bgp/instance/set",
        ]
    );
    assert_eq!(report.updated, 4);
    assert_eq!(device.run(session(true)).0, 0);
}

#[test]
fn an_area_with_another_area_id_is_set_by_every_run() {
    let mut device = Device::default();
    device.add(
        "/routing/ospf/area",
        &[("name", "backbone"), ("area-id", "0.0.0.1"), ("instance", "default")],
    );
    device.run(session(true));
    let (sent, report) = device.run_and_record(session(true));
    assert_eq!(sent.len(), 1);
    assert_eq!(sent[0].word, "/routing/ospf/area/set");
    assert_eq!((report.added, report.updated, report.removed), (0, 1, 0));
}

#[test]
fn every_request_of_a_run_can_be_encoded() {
    let (sent, _) = used_device().run_and_record(session_with(true, &["fe80::1/64"]));
    assert!(sent.len() > 10);
    assert!(sent.iter().all(is_encodable));
}
