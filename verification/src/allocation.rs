//! The finalizers by which a node takes part in the removal of mesh links, and the guards against
//! two nodes that claim the same identity.

use crate::addr::Ipv4Addr;
use crate::rows::same_text;
use crate::text::{holds, owned, same};
use vstd::prelude::*;
use vstd::string::*;

verus! {

/// A link between two nodes of the mesh.
#[derive(Debug)]
pub struct MeshLink {
    pub name: String,
    pub node_a: String,
    pub node_b: String,
    /// Whether the link is marked for deletion.
    pub deleting: bool,
    pub finalizers: Vec<String>,
}

/// What a [`MeshLink`] is.
pub struct MeshLinkView {
    pub name: Seq<char>,
    pub node_a: Seq<char>,
    pub node_b: Seq<char>,
    pub deleting: bool,
    pub finalizers: Seq<Seq<char>>,
}

impl DeepView for MeshLink {
    type V = MeshLinkView;

    open spec fn deep_view(&self) -> MeshLinkView {
        MeshLinkView {
            name: self.name@,
            node_a: self.node_a@,
            node_b: self.node_b@,
            deleting: self.deleting,
            finalizers: self.finalizers.deep_view(),
        }
    }
}

/// A node of the mesh.
#[derive(Debug)]
pub struct NodeConfig {
    pub name: String,
    pub node_id: Ipv4Addr,
    /// The public key that the node has published, if it has.
    pub public_key: Option<String>,
}

/// What a [`NodeConfig`] is.
pub struct NodeConfigView {
    pub name: Seq<char>,
    pub node_id: Ipv4Addr,
    pub public_key: Option<Seq<char>>,
}

impl DeepView for NodeConfig {
    type V = NodeConfigView;

    open spec fn deep_view(&self) -> NodeConfigView {
        NodeConfigView {
            name: self.name@,
            node_id: self.node_id,
            public_key: self.public_key.deep_view(),
        }
    }
}

/// The finalizer of a node: each party to a link has its own, so that each can say by itself that
/// it is done.
pub open spec fn finalizer_of(node: Seq<char>) -> Seq<char> {
    "slipmesh.net/interface-cleanup-"@ + node
}

/// The finalizers with one more, unless it is there already.
pub open spec fn added(finalizers: Seq<Seq<char>>, finalizer: Seq<char>) -> Seq<Seq<char>> {
    if finalizers.contains(finalizer) {
        finalizers
    } else {
        finalizers.push(finalizer)
    }
}

/// What is another finalizer than this one.
pub open spec fn other_than(finalizer: Seq<char>) -> spec_fn(Seq<char>) -> bool {
    |f: Seq<char>| f != finalizer
}

/// The finalizers without this one, however often it is there.
pub open spec fn removed(finalizers: Seq<Seq<char>>, finalizer: Seq<char>) -> Seq<Seq<char>> {
    finalizers.filter(other_than(finalizer))
}

/// The finalizer of a node.
pub fn mesh_link_finalizer(node_name: &str) -> (r: String)
    ensures
        r@ == finalizer_of(node_name@),
{
    let mut out = owned("slipmesh.net/interface-cleanup-");
    out.append(node_name);
    out
}

/// Whether a finalizer is there.
pub fn has_finalizer(finalizers: &[String], finalizer: &str) -> (r: bool)
    ensures
        r == finalizers.deep_view().contains(finalizer@),
{
    holds(finalizers, finalizer)
}

fn copied(finalizers: &[String]) -> (r: Vec<String>)
    ensures
        r.deep_view() == finalizers.deep_view(),
{
    let ghost d = finalizers.deep_view();
    let mut out: Vec<String> = Vec::new();
    let mut i: usize = 0;
    assert(out.deep_view() =~= d.take(0));
    while i < finalizers.len()
        invariant
            i <= finalizers@.len(),
            d == finalizers.deep_view(),
            out.deep_view() == d.take(i as int),
        decreases finalizers@.len() - i,
    {
        let ghost before = out.deep_view();
        assert(d[i as int] == finalizers[i as int]@);
        out.push(finalizers[i].clone());
        assert(out.deep_view() =~= before.push(d[i as int]));
        assert(out.deep_view() =~= d.take(i + 1));
        i = i + 1;
    }
    assert(d.take(i as int) =~= d);
    out
}

/// The finalizers with one more, unless it is there already.
pub fn with_finalizer(finalizers: &[String], finalizer: &str) -> (r: Vec<String>)
    ensures
        r.deep_view() == added(finalizers.deep_view(), finalizer@),
{
    let mut out = copied(finalizers);
    if !has_finalizer(finalizers, finalizer) {
        let ghost before = out.deep_view();
        out.push(owned(finalizer));
        assert(out.deep_view() =~= before.push(finalizer@));
    }
    out
}

/// The finalizers without this one.
pub fn without_finalizer(finalizers: &[String], finalizer: &str) -> (r: Vec<String>)
    ensures
        r.deep_view() == removed(finalizers.deep_view(), finalizer@),
{
    let ghost d = finalizers.deep_view();
    let ghost keep = other_than(finalizer@);
    let mut out: Vec<String> = Vec::new();
    let mut i: usize = 0;
    proof {
        reveal(Seq::filter);
        assert(out.deep_view() =~= d.take(0).filter(keep));
    }
    while i < finalizers.len()
        invariant
            i <= finalizers@.len(),
            d == finalizers.deep_view(),
            keep == other_than(finalizer@),
            out.deep_view() == d.take(i as int).filter(keep),
        decreases finalizers@.len() - i,
    {
        let ghost before = out.deep_view();
        proof {
            reveal(Seq::filter);
            assert(d.take(i + 1).drop_last() =~= d.take(i as int));
        }
        assert(d[i as int] == finalizers[i as int]@);
        if !same(finalizers[i].as_str(), finalizer) {
            out.push(finalizers[i].clone());
            assert(out.deep_view() =~= before.push(d[i as int]));
        }
        i = i + 1;
    }
    assert(d.take(i as int) =~= d);
    out
}

/// Whether a node is a party to a link.
pub open spec fn is_party(l: MeshLinkView, node: Seq<char>) -> bool {
    l.node_a == node || l.node_b == node
}

/// Whether a link of the node is marked for deletion and waits for it: it still carries the node's
/// finalizer.
pub open spec fn awaits_teardown(node: Seq<char>) -> spec_fn(MeshLinkView) -> bool {
    |l: MeshLinkView|
        l.deleting && is_party(l, node) && l.finalizers.contains(finalizer_of(node))
}

/// Whether a link of the node is to stay and does not carry its finalizer yet.
pub open spec fn needs_finalizer(node: Seq<char>) -> spec_fn(MeshLinkView) -> bool {
    |l: MeshLinkView|
        !l.deleting && is_party(l, node) && !l.finalizers.contains(finalizer_of(node))
}

/// The links of a node that are to be torn down, and their finalizer released, before anything
/// else is converged.
pub fn links_pending_teardown<'a>(links: &'a [MeshLink], own_node_name: &str) -> (r: Vec<
    &'a MeshLink,
>)
    ensures
        r.deep_view() == links.deep_view().filter(awaits_teardown(own_node_name@)),
{
    let finalizer = mesh_link_finalizer(own_node_name);
    let ghost d = links.deep_view();
    let ghost keep = awaits_teardown(own_node_name@);
    let mut out: Vec<&'a MeshLink> = Vec::new();
    let mut i: usize = 0;
    proof {
        reveal(Seq::filter);
        assert(out.deep_view() =~= d.take(0).filter(keep));
    }
    while i < links.len()
        invariant
            i <= links@.len(),
            d == links.deep_view(),
            keep == awaits_teardown(own_node_name@),
            finalizer@ == finalizer_of(own_node_name@),
            out.deep_view() == d.take(i as int).filter(keep),
        decreases links@.len() - i,
    {
        let ghost before = out.deep_view();
        proof {
            reveal(Seq::filter);
            assert(d.take(i + 1).drop_last() =~= d.take(i as int));
        }
        let l = &links[i];
        assert(d[i as int] == l.deep_view());
        if l.deleting && (same(l.node_a.as_str(), own_node_name) || same(
            l.node_b.as_str(),
            own_node_name,
        )) && has_finalizer(l.finalizers.as_slice(), finalizer.as_str()) {
            out.push(l);
            assert(out.deep_view() =~= before.push(d[i as int]));
        }
        i = i + 1;
    }
    assert(d.take(i as int) =~= d);
    out
}

/// The links of a node that are to be given its finalizer, so that they cannot go before the node
/// has cleaned up.
pub fn links_needing_finalizer<'a>(links: &'a [MeshLink], own_node_name: &str) -> (r: Vec<
    &'a MeshLink,
>)
    ensures
        r.deep_view() == links.deep_view().filter(needs_finalizer(own_node_name@)),
{
    let finalizer = mesh_link_finalizer(own_node_name);
    let ghost d = links.deep_view();
    let ghost keep = needs_finalizer(own_node_name@);
    let mut out: Vec<&'a MeshLink> = Vec::new();
    let mut i: usize = 0;
    proof {
        reveal(Seq::filter);
        assert(out.deep_view() =~= d.take(0).filter(keep));
    }
    while i < links.len()
        invariant
            i <= links@.len(),
            d == links.deep_view(),
            keep == needs_finalizer(own_node_name@),
            finalizer@ == finalizer_of(own_node_name@),
            out.deep_view() == d.take(i as int).filter(keep),
        decreases links@.len() - i,
    {
        let ghost before = out.deep_view();
        proof {
            reveal(Seq::filter);
            assert(d.take(i + 1).drop_last() =~= d.take(i as int));
        }
        let l = &links[i];
        assert(d[i as int] == l.deep_view());
        if !l.deleting && (same(l.node_a.as_str(), own_node_name) || same(
            l.node_b.as_str(),
            own_node_name,
        )) && !has_finalizer(l.finalizers.as_slice(), finalizer.as_str()) {
            out.push(l);
            assert(out.deep_view() =~= before.push(d[i as int]));
        }
        i = i + 1;
    }
    assert(d.take(i as int) =~= d);
    out
}

/// Whether another node claims the id.
pub open spec fn claims_id(n: NodeConfigView, own_name: Seq<char>, id: Ipv4Addr) -> bool {
    n.name != own_name && n.node_id == id
}

/// Whether another node claims the public key.
pub open spec fn claims_key(n: NodeConfigView, own_name: Seq<char>, key: Seq<char>) -> bool {
    n.name != own_name && n.public_key == Some(key)
}

/// The first other node that claims the node's own id. Ids are assigned by hand, so a slip can
/// make two nodes share one.
pub fn find_node_id_collision<'a>(
    node_configs: &'a [NodeConfig],
    own_name: &str,
    own_node_id: Ipv4Addr,
) -> (r: Option<&'a NodeConfig>)
    ensures
        match r {
            Some(n) => exists|i: int|
                0 <= i < node_configs@.len() && *n == #[trigger] node_configs@[i] && claims_id(
                    node_configs@[i].deep_view(),
                    own_name@,
                    own_node_id,
                ) && forall|j: int|
                    0 <= j < i ==> !claims_id(
                        (#[trigger] node_configs@[j]).deep_view(),
                        own_name@,
                        own_node_id,
                    ),
            None => forall|j: int|
                0 <= j < node_configs@.len() ==> !claims_id(
                    (#[trigger] node_configs@[j]).deep_view(),
                    own_name@,
                    own_node_id,
                ),
        },
{
    let mut i: usize = 0;
    while i < node_configs.len()
        invariant
            i <= node_configs@.len(),
            forall|j: int|
                0 <= j < i ==> !claims_id(
                    (#[trigger] node_configs@[j]).deep_view(),
                    own_name@,
                    own_node_id,
                ),
        decreases node_configs@.len() - i,
    {
        let n = &node_configs[i];
        if !same(n.name.as_str(), own_name) && n.node_id == own_node_id {
            return Some(n);
        }
        i = i + 1;
    }
    None
}

/// The first other node that claims the node's own public key. Two nodes with one key would be one
/// peer to all the others.
pub fn find_public_key_collision<'a>(
    node_configs: &'a [NodeConfig],
    own_name: &str,
    own_public_key: &str,
) -> (r: Option<&'a NodeConfig>)
    ensures
        match r {
            Some(n) => exists|i: int|
                0 <= i < node_configs@.len() && *n == #[trigger] node_configs@[i] && claims_key(
                    node_configs@[i].deep_view(),
                    own_name@,
                    own_public_key@,
                ) && forall|j: int|
                    0 <= j < i ==> !claims_key(
                        (#[trigger] node_configs@[j]).deep_view(),
                        own_name@,
                        own_public_key@,
                    ),
            None => forall|j: int|
                0 <= j < node_configs@.len() ==> !claims_key(
                    (#[trigger] node_configs@[j]).deep_view(),
                    own_name@,
                    own_public_key@,
                ),
        },
{
    let key = Some(owned(own_public_key));
    let mut i: usize = 0;
    while i < node_configs.len()
        invariant
            i <= node_configs@.len(),
            key.deep_view() == Some(own_public_key@),
            forall|j: int|
                0 <= j < i ==> !claims_key(
                    (#[trigger] node_configs@[j]).deep_view(),
                    own_name@,
                    own_public_key@,
                ),
        decreases node_configs@.len() - i,
    {
        let n = &node_configs[i];
        if !same(n.name.as_str(), own_name) && same_text(&n.public_key, &key) {
            return Some(n);
        }
        i = i + 1;
    }
    None
}

proof fn lemma_removed(finalizers: Seq<Seq<char>>, f: Seq<char>)
    ensures
        forall|g: Seq<char>| #[trigger]
            removed(finalizers, f).contains(g) <==> g != f && finalizers.contains(g),
        !finalizers.contains(f) ==> removed(finalizers, f) == finalizers,
        removed(finalizers.push(f), f) == removed(finalizers, f),
    decreases finalizers.len(),
{
    reveal(Seq::filter);
    let r = removed(finalizers, f);
    assert(finalizers.push(f).drop_last() =~= finalizers);
    if finalizers.len() > 0 {
        let t = finalizers.drop_last();
        let last = finalizers.last();
        lemma_removed(t, f);
        assert(finalizers =~= t.push(last));
        assert(finalizers[finalizers.len() - 1] == last);
        let q = removed(t, f);
        assert(forall|g: Seq<char>| t.contains(g) ==> #[trigger] finalizers.contains(g)) by {
            assert forall|g: Seq<char>| t.contains(g) implies #[trigger] finalizers.contains(
                g,
            ) by {
                let k = choose|k: int| 0 <= k < t.len() && t[k] == g;
                assert(finalizers[k] == g);
            }
        }
        assert forall|g: Seq<char>| #[trigger] r.contains(g) implies g != f
            && finalizers.contains(g) by {
            let k = choose|k: int| 0 <= k < r.len() && r[k] == g;
            if k < q.len() {
                assert(q[k] == g);
                assert(q.contains(g));
            }
        }
        assert forall|g: Seq<char>| g != f && finalizers.contains(g) implies #[trigger] r.contains(
            g,
        ) by {
            let k = choose|k: int| 0 <= k < finalizers.len() && finalizers[k] == g;
            if k < t.len() {
                assert(t[k] == g);
                assert(q.contains(g));
                let m = choose|m: int| 0 <= m < q.len() && q[m] == g;
                assert(r[m] == g);
            } else {
                assert(r[q.len() as int] == g);
            }
        }
        if !finalizers.contains(f) {
            assert(!t.contains(f));
        }
    }
}

/// Adding a finalizer that is there changes nothing, and neither does removing one that is not;
/// what is added is there, what is removed is not, and the others stay as they are. Removing what
/// was added to a list without it gives that list back.
pub proof fn law_finalizers(finalizers: Seq<Seq<char>>, f: Seq<char>)
    ensures
        added(finalizers, f).contains(f),
        added(added(finalizers, f), f) == added(finalizers, f),
        !removed(finalizers, f).contains(f),
        removed(removed(finalizers, f), f) == removed(finalizers, f),
        !finalizers.contains(f) ==> removed(finalizers, f) == finalizers,
        !finalizers.contains(f) ==> removed(added(finalizers, f), f) == finalizers,
        forall|g: Seq<char>|
            g != f ==> {
                &&& #[trigger] finalizers.contains(g) == added(finalizers, f).contains(g)
                &&& finalizers.contains(g) == removed(finalizers, f).contains(g)
            },
{
    lemma_removed(finalizers, f);
    lemma_removed(removed(finalizers, f), f);
    let a = added(finalizers, f);
    if !finalizers.contains(f) {
        assert(a[finalizers.len() as int] == f);
        assert forall|g: Seq<char>| g != f implies #[trigger] finalizers.contains(g) == a.contains(
            g,
        ) by {
            if finalizers.contains(g) {
                let k = choose|k: int| 0 <= k < finalizers.len() && finalizers[k] == g;
                assert(a[k] == g);
            }
            if a.contains(g) {
                let k = choose|k: int| 0 <= k < a.len() && a[k] == g;
                assert(finalizers[k] == g);
            }
        }
    }
}

/// A link never awaits its teardown and needs a finalizer at once. One that is given the finalizer
/// needs none any more, and one that is released from it awaits its teardown no more.
pub proof fn law_links(l: MeshLinkView, node: Seq<char>)
    ensures
        !(awaits_teardown(node)(l) && needs_finalizer(node)(l)),
        !needs_finalizer(node)(
            (MeshLinkView { finalizers: added(l.finalizers, finalizer_of(node)), ..l }),
        ),
        !awaits_teardown(node)(
            (MeshLinkView { finalizers: removed(l.finalizers, finalizer_of(node)), ..l }),
        ),
{
    law_finalizers(l.finalizers, finalizer_of(node));
}

/// A link is torn down by a node exactly if it is marked for deletion, has the node at one of its
/// ends and carries the node's finalizer; it is given that exactly if it is not marked, has the
/// node at one of its ends and does not carry it.
pub proof fn law_parties(l: MeshLinkView, node: Seq<char>)
    ensures
        ({
            let own = "slipmesh.net/interface-cleanup-"@ + node;
            &&& finalizer_of(node) == own
            &&& awaits_teardown(node)(l) == (l.deleting && (l.node_a == node || l.node_b == node)
                && l.finalizers.contains(own))
            &&& needs_finalizer(node)(l) == (!l.deleting && (l.node_a == node || l.node_b == node)
                && !l.finalizers.contains(own))
        }),
{
}

/// Two nodes never have the same finalizer.
pub proof fn law_finalizers_differ(a: Seq<char>, b: Seq<char>)
    requires
        a != b,
    ensures
        finalizer_of(a) != finalizer_of(b),
{
    let p = "slipmesh.net/interface-cleanup-"@;
    assert((p + a).skip(p.len() as int) =~= a);
    assert((p + b).skip(p.len() as int) =~= b);
}

/// A node collides with another exactly if that has another name and the same id, or the same
/// public key; one without a key has none in common.
pub proof fn law_claims(n: NodeConfigView, own_name: Seq<char>, id: Ipv4Addr, key: Seq<char>)
    ensures
        claims_id(n, own_name, id) == (n.name != own_name && n.node_id == id),
        claims_key(n, own_name, key) == (n.name != own_name && n.public_key is Some
            && n.public_key->Some_0 == key),
{
}

} // verus!
