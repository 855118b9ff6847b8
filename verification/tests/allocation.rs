use slipmesh_routeros::addr::Ipv4Addr;
use slipmesh_routeros::allocation::{
    find_node_id_collision, find_public_key_collision, has_finalizer, links_needing_finalizer,
    links_pending_teardown, mesh_link_finalizer, with_finalizer, without_finalizer, MeshLink,
    NodeConfig,
};

fn link(node_a: &str, node_b: &str) -> MeshLink {
    MeshLink {
        name: format!("{node_a}-{node_b}"),
        node_a: node_a.to_string(),
        node_b: node_b.to_string(),
        deleting: false,
        finalizers: vec![],
    }
}

fn node_config(name: &str, node_id: Ipv4Addr, public_key: Option<&str>) -> NodeConfig {
    NodeConfig {
        name: name.to_string(),
        node_id,
        public_key: public_key.map(str::to_string),
    }
}

#[test]
fn finalizer_helpers_are_idempotent() {
    let none: Vec<String> = vec![];
    let one = with_finalizer(&none, "f1");
    assert_eq!(one, vec!["f1".to_string()]);
    assert_eq!(with_finalizer(&one, "f1"), one);
    assert_eq!(without_finalizer(&one, "f1"), Vec::<String>::new());
    assert_eq!(without_finalizer(&none, "f1"), none);
}

#[test]
fn links_pending_teardown_requires_deletion_timestamp_and_our_finalizer() {
    let mut deleting = link("hq", "fra");
    deleting.deleting = true;
    deleting.finalizers = vec![mesh_link_finalizer("hq")];

    let not_deleting = link("hq", "lon");
    let links = vec![deleting, not_deleting];
    let pending = links_pending_teardown(&links, "hq");
    assert_eq!(pending.len(), 1);
    assert_eq!(pending[0].node_b, "fra");
}

#[test]
fn links_needing_finalizer_skips_uninvolved_and_already_finalized() {
    let plain = link("hq", "fra");
    let mut already = link("hq", "lon");
    already.finalizers = vec![mesh_link_finalizer("hq")];
    let uninvolved = link("fra", "lon");

    let links = vec![plain, already, uninvolved];
    let needing = links_needing_finalizer(&links, "hq");
    assert_eq!(needing.len(), 1);
    assert_eq!(needing[0].node_b, "fra");
}

#[test]
fn node_id_collision_finds_the_other_node_sharing_our_id() {
    let nodes = vec![
        node_config("hq", Ipv4Addr::new(0, 0, 0, 1), None),
        node_config("fra", Ipv4Addr::new(0, 0, 0, 2), None),
    ];
    assert!(find_node_id_collision(&nodes, "hq", Ipv4Addr::new(0, 0, 0, 1)).is_none());

    let colliding = vec![
        node_config("hq", Ipv4Addr::new(0, 0, 0, 5), None),
        node_config("fra", Ipv4Addr::new(0, 0, 0, 5), None),
    ];
    let hit = find_node_id_collision(&colliding, "hq", Ipv4Addr::new(0, 0, 0, 5));
    assert_eq!(hit.map(|n| n.name.clone()), Some("fra".to_string()));
}

#[test]
fn node_id_collision_ignores_self() {
    let nodes = vec![node_config("hq", Ipv4Addr::new(0, 0, 0, 1), None)];
    assert!(find_node_id_collision(&nodes, "hq", Ipv4Addr::new(0, 0, 0, 1)).is_none());
}

#[test]
fn public_key_collision_finds_the_other_node_sharing_our_key() {
    let nodes = vec![
        node_config("hq", Ipv4Addr::new(0, 0, 0, 1), Some("same-key")),
        node_config("fra", Ipv4Addr::new(0, 0, 0, 2), Some("same-key")),
    ];
    let hit = find_public_key_collision(&nodes, "hq", "same-key");
    assert_eq!(hit.map(|n| n.name.clone()), Some("fra".to_string()));
}

#[test]
fn public_key_collision_none_when_keys_differ_or_unset() {
    let nodes = vec![
        node_config("hq", Ipv4Addr::new(0, 0, 0, 1), Some("key-a")),
        node_config("fra", Ipv4Addr::new(0, 0, 0, 2), Some("key-b")),
        node_config("lon", Ipv4Addr::new(0, 0, 0, 3), None),
    ];
    assert!(find_public_key_collision(&nodes, "hq", "key-a").is_none());
}

#[test]
fn a_finalizer_names_its_node() {
    assert_eq!(mesh_link_finalizer("hq"), "slipmesh.net/interface-cleanup-hq");
}

#[test]
fn removing_what_was_added_gives_the_list_back_and_leaves_the_others() {
    let list = vec!["f1".to_string(), "f2".to_string()];
    let more = with_finalizer(&list, "f3");
    assert_eq!(more, vec!["f1".to_string(), "f2".to_string(), "f3".to_string()]);
    assert_eq!(without_finalizer(&more, "f3"), list);
    let twice = vec!["f1".to_string(), "f2".to_string(), "f1".to_string()];
    assert_eq!(without_finalizer(&twice, "f1"), vec!["f2".to_string()]);
    assert!(has_finalizer(&twice, "f2"));
    assert!(!has_finalizer(&twice, "f3"));
}

#[test]
fn a_link_goes_from_needing_a_finalizer_to_teardown_to_neither() {
    let mut l = link("fra", "hq");
    assert_eq!(links_needing_finalizer(std::slice::from_ref(&l), "hq").len(), 1);
    l.finalizers = with_finalizer(&l.finalizers, &mesh_link_finalizer("hq"));
    assert!(links_needing_finalizer(std::slice::from_ref(&l), "hq").is_empty());
    assert!(links_pending_teardown(std::slice::from_ref(&l), "hq").is_empty());
    l.deleting = true;
    assert_eq!(links_pending_teardown(std::slice::from_ref(&l), "hq").len(), 1);
    l.finalizers = without_finalizer(&l.finalizers, &mesh_link_finalizer("hq"));
    assert!(links_pending_teardown(std::slice::from_ref(&l), "hq").is_empty());
    assert!(links_needing_finalizer(std::slice::from_ref(&l), "hq").is_empty());
}
