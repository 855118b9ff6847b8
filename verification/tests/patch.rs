use slipmesh_routeros::cli::Cli;
use slipmesh_routeros::credentials::{parse_from_yaml, RawCredentials};
use slipmesh_routeros::documents::{AwgConfig, NodeIdentity, RouterConfig};
use slipmesh_routeros::error::Error;
use slipmesh_routeros::patch::{segment_content, split_segments, Envelope, PatchFile};

const AWG_DOC: &str = "apiVersion: v1alpha1\nkind: ExtensionServiceConfig\nname: awg\nconfigFiles:\n  - mountPath: /etc/talos-extensions/awg.yaml\n    content: |\n      interfaces: []\n";
const ROUTER_DOC: &str = "apiVersion: v1alpha1\nkind: ExtensionServiceConfig\nname: router\nconfigFiles:\n  - mountPath: /etc/talos-extensions/router.yaml\n    content: |\n      node:\n        loopback_addresses: [\"10.0.0.1/32\", \"fd00::1/128\"]\n      bgp_as: 64512\n      ospf_interfaces: []\n      direct_interfaces: []\n      learn: []\n      announce: []\n";
const MIKROTIK_DOC: &str = "apiVersion: v1alpha1\nkind: ExtensionServiceConfig\nname: mikrotik\nconfigFiles:\n  - mountPath: /etc/talos-extensions/mikrotik.yaml\n    content: |\n      host: router1.example.com\n      port: 8729\n      username: ansible\n      password: hunter2\n";
const FOREIGN_DOC: &str = "machine:\n  install:\n    disk: /dev/vda\n";

fn text_of(value: &serde_yaml::Value, name: &str) -> Option<String> {
    value.get(name).and_then(|v| v.as_str()).map(|s| s.to_string())
}

fn envelope(segment: &str) -> Envelope {
    let value: serde_yaml::Value = match serde_yaml::from_str(segment) {
        Ok(value) => value,
        Err(_) => return Envelope::default(),
    };
    let mut config_files = Vec::new();
    if let Some(files) = value.get("configFiles").and_then(|v| v.as_sequence()) {
        for file in files {
            match text_of(file, "content") {
                Some(content) => config_files.push(content),
                None => return Envelope::default(),
            }
        }
    }
    Envelope {
        kind: text_of(&value, "kind"),
        name: text_of(&value, "name"),
        config_files,
    }
}

fn envelopes(raw: &str) -> Vec<Envelope> {
    split_segments(raw).iter().map(|s| envelope(s)).collect()
}

#[test]
fn parses_a_full_patch_file() {
    let raw = [AWG_DOC, ROUTER_DOC, MIKROTIK_DOC].join("---\n");
    let segments = envelopes(&raw);

    let awg: serde_yaml::Value =
        serde_yaml::from_str(&segment_content(&segments, "awg").unwrap()).unwrap();
    assert!(awg.get("interfaces").unwrap().as_sequence().unwrap().is_empty());

    let router: serde_yaml::Value =
        serde_yaml::from_str(&segment_content(&segments, "router").unwrap()).unwrap();
    let loopback_addresses = router
        .get("node")
        .and_then(|n| n.get("loopback_addresses"))
        .and_then(|l| l.as_sequence())
        .unwrap()
        .iter()
        .map(|a| a.as_str().unwrap().to_string())
        .collect();

    let mikrotik: serde_yaml::Value =
        serde_yaml::from_str(&segment_content(&segments, "mikrotik").unwrap()).unwrap();
    let credentials = parse_from_yaml(Ok(RawCredentials {
        host: text_of(&mikrotik, "host"),
        port: mikrotik.get("port").and_then(|p| p.as_u64()).map(|p| p as u16),
        username: text_of(&mikrotik, "username"),
        password: text_of(&mikrotik, "password"),
    }))
    .unwrap();

    let patch = PatchFile {
        awg: AwgConfig::default(),
        router: RouterConfig {
            node: NodeIdentity { loopback_addresses },
            bgp_as: router.get("bgp_as").unwrap().as_u64().unwrap() as u32,
            bgp_peers: vec![],
            ospf_interfaces: vec![],
            direct_interfaces: vec![],
            learn: vec![],
            announce: vec![],
        },
        credentials,
    };
    assert_eq!(patch.router.bgp_as, 64512);
    assert_eq!(patch.credentials.host, "router1.example.com");
    assert!(patch.awg.interfaces.is_empty());
}

#[test]
fn foreign_documents_are_ignored_when_extracting_owned_segments() {
    let raw = [FOREIGN_DOC, AWG_DOC, ROUTER_DOC, MIKROTIK_DOC].join("---\n");
    let segments = envelopes(&raw);
    assert_eq!(
        segment_content(&segments, "awg").unwrap().trim(),
        "interfaces: []"
    );
}

#[test]
fn missing_awg_segment_is_an_error() {
    let raw = [ROUTER_DOC, MIKROTIK_DOC].join("---\n");
    let segments = envelopes(&raw);
    assert!(segment_content(&segments, "awg").is_err());
}

#[test]
fn missing_router_segment_is_an_error() {
    let raw = [AWG_DOC, MIKROTIK_DOC].join("---\n");
    let segments = envelopes(&raw);
    assert!(segment_content(&segments, "router").is_err());
}

#[test]
fn missing_mikrotik_segment_is_an_error() {
    let raw = [AWG_DOC, ROUTER_DOC].join("---\n");
    let segments = envelopes(&raw);
    assert!(segment_content(&segments, "mikrotik").is_err());
}

#[test]
fn split_of_empty_file_is_empty() {
    assert!(split_segments("").is_empty());
}

#[test]
fn documents_are_split_and_trimmed_and_blank_ones_dropped() {
    assert_eq!(
        split_segments("---\n a: 1 \n---\n\n---\nb: 2\n\n"),
        vec!["a: 1".to_string(), "b: 2".to_string()]
    );
    assert_eq!(split_segments("a: 1\n--- \nb: 2"), vec!["a: 1\n--- \nb: 2".to_string()]);
    assert_eq!(split_segments("---\n"), Vec::<String>::new());
}

#[test]
fn a_document_without_files_is_told_from_one_that_is_missing() {
    let segments = vec![Envelope {
        kind: Some("ExtensionServiceConfig".to_string()),
        name: Some("awg".to_string()),
        config_files: vec![],
    }];
    assert_eq!(
        segment_content(&segments, "awg"),
        Err(Error::NoConfigFiles { name: "awg".to_string() })
    );
    assert_eq!(
        segment_content(&segments, "router"),
        Err(Error::NoDocument { name: "router".to_string() })
    );
    let other_kind = vec![Envelope {
        kind: Some("MachineConfig".to_string()),
        name: Some("awg".to_string()),
        config_files: vec!["x".to_string()],
    }];
    assert!(segment_content(&other_kind, "awg").is_err());
}

#[test]
fn the_first_file_of_the_first_document_is_taken() {
    let document = |content: &str| Envelope {
        kind: Some("ExtensionServiceConfig".to_string()),
        name: Some("awg".to_string()),
        config_files: vec![content.to_string(), "second".to_string()],
    };
    let segments = vec![Envelope::default(), document("first"), document("later")];
    assert_eq!(segment_content(&segments, "awg").unwrap(), "first");
}

#[test]
fn the_patch_file_is_named_after_the_node() {
    let cli = Cli {
        node: "router1".to_string(),
        patches_dir: "patches".to_string(),
        check: true,
        diff: false,
    };
    assert_eq!(cli.patch_file(), "router1.yaml");
    assert!(!cli.applies());
}
