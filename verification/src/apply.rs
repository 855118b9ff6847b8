//! Writing the RouterOS tables: the commands that carry out a plan.
//!
//! A table that is this tool's alone is converged by removing before adding, so that a row that is
//! renamed, or whose listen port moves, cannot collide with the one that it replaces. A table that
//! is shared is changed row by row, and its stale rows go last.

use crate::addr::{ipv4_text, ipv6_text};
use crate::diff::{SingletonOp, SingletonOpView};
use crate::number::{decimal, decimal_text};
use crate::plan::{Plan, PlanView};
use crate::request::{
    add_request, no_attributes, plainly_named, put, put_option, remove_request, set_request,
    Attribute, Request, RequestView,
};
use crate::rows::{
    clone_text, DesiredAddressListEntry, DesiredAddressListEntryView, DesiredBgpConnection,
    DesiredBgpConnectionView, DesiredBgpInstance, DesiredBgpInstanceView, DesiredBridge,
    DesiredBridgeView, DesiredIpAddress, DesiredIpAddressView, DesiredIpv6Address,
    DesiredIpv6AddressView, DesiredListMember, DesiredListMemberView, DesiredOspfArea,
    DesiredOspfAreaView, DesiredOspfInstance, DesiredOspfInstanceView, DesiredOspfInterfaceTemplate,
    DesiredOspfInterfaceTemplateView, DesiredWireguardInterface, DesiredWireguardInterfaceView,
    DesiredWireguardPeer, DesiredWireguardPeerView,
};
use vstd::prelude::*;

verus! {

/// The table `/interface/wireguard`.
pub const WIREGUARD_PATH: &'static str = "/interface/wireguard";

/// The table `/interface/wireguard/peers`.
pub const WIREGUARD_PEERS_PATH: &'static str = "/interface/wireguard/peers";

/// The table `/ip/address`.
pub const IP_ADDRESS_PATH: &'static str = "/ip/address";

/// The table `/ipv6/address`.
pub const IPV6_ADDRESS_PATH: &'static str = "/ipv6/address";

/// The table `/interface/list/member`.
pub const LIST_MEMBER_PATH: &'static str = "/interface/list/member";

/// The table `/interface/bridge`.
pub const BRIDGE_PATH: &'static str = "/interface/bridge";

/// The table `/routing/ospf/instance`.
pub const OSPF_INSTANCE_PATH: &'static str = "/routing/ospf/instance";

/// The table `/routing/ospf/area`.
pub const OSPF_AREA_PATH: &'static str = "/routing/ospf/area";

/// The table `/routing/ospf/interface-template`.
pub const OSPF_TEMPLATE_PATH: &'static str = "/routing/ospf/interface-template";

/// The table `/ip/firewall/address-list`.
pub const ADDRESS_LIST_PATH: &'static str = "/ip/firewall/address-list";

/// The table `/routing/bgp/instance`.
pub const BGP_INSTANCE_PATH: &'static str = "/routing/bgp/instance";

/// The table `/routing/bgp/connection`.
pub const BGP_CONNECTION_PATH: &'static str = "/routing/bgp/connection";

/// A row that can be added to a table and set in it.
pub trait Writable: DeepView {
    /// The table.
    spec fn path() -> Seq<char>;

    /// The attributes with which the row is added.
    spec fn to_add(d: Self::V) -> Seq<Attribute>;

    /// The attributes with which a row is set to be this one.
    spec fn to_set(d: Self::V) -> Seq<Attribute>;

    /// The names of the attributes are told from their values.
    proof fn naming(d: Self::V)
        ensures
            plainly_named(Self::to_add(d)),
            plainly_named(Self::to_set(d)),
    ;

    /// The table.
    fn table() -> (r: &'static str)
        ensures
            r@ == Self::path(),
    ;

    /// The attributes with which the row is added.
    fn add_attributes(&self) -> (r: Vec<(String, Option<String>)>)
        ensures
            r.deep_view() == Self::to_add(self.deep_view()),
    ;

    /// The attributes with which a row is set to be this one.
    fn set_attributes(&self) -> (r: Vec<(String, Option<String>)>)
        ensures
            r.deep_view() == Self::to_set(self.deep_view()),
    ;
}

/// No name of an attribute that is written holds the sign that stands between a name and its value.
proof fn lemma_plain_names()
    ensures
        !".id"@.contains('='),
        !"address"@.contains('='),
        !"advertise"@.contains('='),
        !"afi"@.contains('='),
        !"allowed-address"@.contains('='),
        !"area"@.contains('='),
        !"area-id"@.contains('='),
        !"as"@.contains('='),
        !"comment"@.contains('='),
        !"cost"@.contains('='),
        !"dead-interval"@.contains('='),
        !"disabled"@.contains('='),
        !"endpoint-address"@.contains('='),
        !"endpoint-port"@.contains('='),
        !"hello-interval"@.contains('='),
        !"instance"@.contains('='),
        !"interface"@.contains('='),
        !"interfaces"@.contains('='),
        !"list"@.contains('='),
        !"listen-port"@.contains('='),
        !"local.address"@.contains('='),
        !"local.role"@.contains('='),
        !"multihop"@.contains('='),
        !"name"@.contains('='),
        !"output.network"@.contains('='),
        !"passive"@.contains('='),
        !"persistent-keepalive"@.contains('='),
        !"private-key"@.contains('='),
        !"protocol-mode"@.contains('='),
        !"public-key"@.contains('='),
        !"redistribute"@.contains('='),
        !"remote.address"@.contains('='),
        !"router-id"@.contains('='),
        !"routing-table"@.contains('='),
        !"type"@.contains('='),
        !"version"@.contains('='),
{
    assert(!".id"@.contains('=')) by {
        reveal_strlit(".id");
    }
    assert(!"address"@.contains('=')) by {
        reveal_strlit("address");
    }
    assert(!"advertise"@.contains('=')) by {
        reveal_strlit("advertise");
    }
    assert(!"afi"@.contains('=')) by {
        reveal_strlit("afi");
    }
    assert(!"allowed-address"@.contains('=')) by {
        reveal_strlit("allowed-address");
    }
    assert(!"area"@.contains('=')) by {
        reveal_strlit("area");
    }
    assert(!"area-id"@.contains('=')) by {
        reveal_strlit("area-id");
    }
    assert(!"as"@.contains('=')) by {
        reveal_strlit("as");
    }
    assert(!"comment"@.contains('=')) by {
        reveal_strlit("comment");
    }
    assert(!"cost"@.contains('=')) by {
        reveal_strlit("cost");
    }
    assert(!"dead-interval"@.contains('=')) by {
        reveal_strlit("dead-interval");
    }
    assert(!"disabled"@.contains('=')) by {
        reveal_strlit("disabled");
    }
    assert(!"endpoint-address"@.contains('=')) by {
        reveal_strlit("endpoint-address");
    }
    assert(!"endpoint-port"@.contains('=')) by {
        reveal_strlit("endpoint-port");
    }
    assert(!"hello-interval"@.contains('=')) by {
        reveal_strlit("hello-interval");
    }
    assert(!"instance"@.contains('=')) by {
        reveal_strlit("instance");
    }
    assert(!"interface"@.contains('=')) by {
        reveal_strlit("interface");
    }
    assert(!"interfaces"@.contains('=')) by {
        reveal_strlit("interfaces");
    }
    assert(!"list"@.contains('=')) by {
        reveal_strlit("list");
    }
    assert(!"listen-port"@.contains('=')) by {
        reveal_strlit("listen-port");
    }
    assert(!"local.address"@.contains('=')) by {
        reveal_strlit("local.address");
    }
    assert(!"local.role"@.contains('=')) by {
        reveal_strlit("local.role");
    }
    assert(!"multihop"@.contains('=')) by {
        reveal_strlit("multihop");
    }
    assert(!"name"@.contains('=')) by {
        reveal_strlit("name");
    }
    assert(!"output.network"@.contains('=')) by {
        reveal_strlit("output.network");
    }
    assert(!"passive"@.contains('=')) by {
        reveal_strlit("passive");
    }
    assert(!"persistent-keepalive"@.contains('=')) by {
        reveal_strlit("persistent-keepalive");
    }
    assert(!"private-key"@.contains('=')) by {
        reveal_strlit("private-key");
    }
    assert(!"protocol-mode"@.contains('=')) by {
        reveal_strlit("protocol-mode");
    }
    assert(!"public-key"@.contains('=')) by {
        reveal_strlit("public-key");
    }
    assert(!"redistribute"@.contains('=')) by {
        reveal_strlit("redistribute");
    }
    assert(!"remote.address"@.contains('=')) by {
        reveal_strlit("remote.address");
    }
    assert(!"router-id"@.contains('=')) by {
        reveal_strlit("router-id");
    }
    assert(!"routing-table"@.contains('=')) by {
        reveal_strlit("routing-table");
    }
    assert(!"type"@.contains('=')) by {
        reveal_strlit("type");
    }
    assert(!"version"@.contains('=')) by {
        reveal_strlit("version");
    }
}

/// The requests that remove the rows with these ids.
pub open spec fn remove_requests<D: Writable>(ids: Seq<Seq<char>>) -> Seq<RequestView> {
    Seq::new(ids.len(), |i: int| remove_request(D::path(), ids[i]))
}

/// The requests that add these rows.
pub open spec fn add_requests<D: Writable>(rows: Seq<D::V>) -> Seq<RequestView> {
    Seq::new(rows.len(), |i: int| add_request(D::path(), D::to_add(rows[i])))
}

/// The requests that set the rows with these ids.
pub open spec fn set_requests<D: Writable>(rows: Seq<(Seq<char>, D::V)>) -> Seq<RequestView> {
    Seq::new(rows.len(), |i: int| set_request(D::path(), rows[i].0, D::to_set(rows[i].1)))
}

/// What carries out the plan of a table that is this tool's alone: removals first.
pub open spec fn exclusive_requests<D: Writable>(plan: PlanView<D::V>) -> Seq<RequestView> {
    remove_requests::<D>(plan.remove) + add_requests::<D>(plan.add) + set_requests::<D>(
        plan.update,
    )
}

/// What carries out the plan of a shared table: removals last.
pub open spec fn shared_requests<D: Writable>(plan: PlanView<D::V>) -> Seq<RequestView> {
    add_requests::<D>(plan.add) + set_requests::<D>(plan.update) + remove_requests::<D>(
        plan.remove,
    )
}

/// What creates or updates an object of which the device has at most one.
pub open spec fn singleton_requests<D: Writable>(op: SingletonOpView<D::V>) -> Seq<RequestView> {
    match op {
        SingletonOpView::NoOp => seq![],
        SingletonOpView::Create(d) => seq![add_request(D::path(), D::to_add(d))],
        SingletonOpView::Update(id, d) => seq![set_request(D::path(), id, D::to_set(d))],
    }
}

fn push_removals<D: Writable>(out: &mut Vec<Request>, plan: &Plan<D>)
    ensures
        final(out).deep_view() == old(out).deep_view() + remove_requests::<D>(
            plan.deep_view().remove,
        ),
{
    let ghost before = out.deep_view();
    let ghost all = remove_requests::<D>(plan.deep_view().remove);
    let mut i: usize = 0;
    assert(out.deep_view() =~= before + all.take(0));
    while i < plan.remove.len()
        invariant
            i <= plan.remove@.len(),
            all == remove_requests::<D>(plan.deep_view().remove),
            out.deep_view() == before + all.take(i as int),
        decreases plan.remove@.len() - i,
    {
        let ghost had = out.deep_view();
        let request = Request::remove(D::table(), plan.remove[i].as_str());
        let ghost view = request.deep_view();
        out.push(request);
        assert(plan.deep_view().remove[i as int] == plan.remove[i as int]@);
        assert(out.deep_view() =~= had.push(view));
        assert(out.deep_view() =~= before + all.take(i + 1));
        i = i + 1;
    }
    assert(all.take(i as int) =~= all);
}

fn push_additions<D: Writable>(out: &mut Vec<Request>, plan: &Plan<D>)
    ensures
        final(out).deep_view() == old(out).deep_view() + add_requests::<D>(plan.deep_view().add),
{
    let ghost before = out.deep_view();
    let ghost all = add_requests::<D>(plan.deep_view().add);
    let mut i: usize = 0;
    assert(out.deep_view() =~= before + all.take(0));
    while i < plan.add.len()
        invariant
            i <= plan.add@.len(),
            all == add_requests::<D>(plan.deep_view().add),
            out.deep_view() == before + all.take(i as int),
        decreases plan.add@.len() - i,
    {
        let ghost had = out.deep_view();
        let request = Request::add(D::table(), plan.add[i].add_attributes());
        let ghost view = request.deep_view();
        out.push(request);
        assert(plan.deep_view().add[i as int] == plan.add[i as int].deep_view());
        assert(out.deep_view() =~= had.push(view));
        assert(out.deep_view() =~= before + all.take(i + 1));
        i = i + 1;
    }
    assert(all.take(i as int) =~= all);
}

fn push_updates<D: Writable>(out: &mut Vec<Request>, plan: &Plan<D>)
    ensures
        final(out).deep_view() == old(out).deep_view() + set_requests::<D>(
            plan.deep_view().update,
        ),
{
    let ghost before = out.deep_view();
    let ghost all = set_requests::<D>(plan.deep_view().update);
    let mut i: usize = 0;
    assert(out.deep_view() =~= before + all.take(0));
    while i < plan.update.len()
        invariant
            i <= plan.update@.len(),
            all == set_requests::<D>(plan.deep_view().update),
            out.deep_view() == before + all.take(i as int),
        decreases plan.update@.len() - i,
    {
        let ghost had = out.deep_view();
        let request = Request::set(
            D::table(),
            plan.update[i].0.as_str(),
            plan.update[i].1.set_attributes(),
        );
        let ghost view = request.deep_view();
        out.push(request);
        assert(plan.deep_view().update[i as int] == plan.update[i as int].deep_view());
        assert(out.deep_view() =~= had.push(view));
        assert(out.deep_view() =~= before + all.take(i + 1));
        i = i + 1;
    }
    assert(all.take(i as int) =~= all);
}

/// What carries out the plan of a table that is this tool's alone.
pub fn apply_exclusive<D: Writable>(plan: &Plan<D>) -> (r: Vec<Request>)
    ensures
        r.deep_view() == exclusive_requests::<D>(plan.deep_view()),
{
    let mut out: Vec<Request> = Vec::new();
    assert(out.deep_view() =~= Seq::<RequestView>::empty());
    push_removals(&mut out, plan);
    push_additions(&mut out, plan);
    push_updates(&mut out, plan);
    assert(out.deep_view() =~= exclusive_requests::<D>(plan.deep_view()));
    out
}

/// What carries out the plan of a shared table.
pub fn apply_shared<D: Writable>(plan: &Plan<D>) -> (r: Vec<Request>)
    ensures
        r.deep_view() == shared_requests::<D>(plan.deep_view()),
{
    let mut out: Vec<Request> = Vec::new();
    assert(out.deep_view() =~= Seq::<RequestView>::empty());
    push_additions(&mut out, plan);
    push_updates(&mut out, plan);
    push_removals(&mut out, plan);
    assert(out.deep_view() =~= shared_requests::<D>(plan.deep_view()));
    out
}

/// What creates or updates an object of which the device has at most one.
pub fn apply_singleton<D: Writable>(op: &SingletonOp<D>) -> (r: Vec<Request>)
    ensures
        r.deep_view() == singleton_requests::<D>(op.deep_view()),
{
    let mut out: Vec<Request> = Vec::new();
    match op {
        SingletonOp::NoOp => {},
        SingletonOp::Create(d) => {
            out.push(Request::add(D::table(), d.add_attributes()));
        },
        SingletonOp::Update(id, d) => {
            out.push(Request::set(D::table(), id.as_str(), d.set_attributes()));
        },
    }
    assert(out.deep_view() =~= singleton_requests::<D>(op.deep_view()));
    out
}

/// How a flag is written.
pub open spec fn yes_no(b: bool) -> Seq<char> {
    if b {
        "yes"@
    } else {
        "no"@
    }
}

fn yes_no_text(b: bool) -> (r: &'static str)
    ensures
        r@ == yes_no(b),
{
    if b {
        "yes"
    } else {
        "no"
    }
}

/// Which connected routes are redistributed.
pub open spec fn redistribution(connected: bool) -> Seq<char> {
    if connected {
        "connected"@
    } else {
        ""@
    }
}

fn redistribution_text(connected: bool) -> (r: &'static str)
    ensures
        r@ == redistribution(connected),
{
    if connected {
        "connected"
    } else {
        ""
    }
}

/// The attributes with one more, if it has a value.
pub open spec fn with_some(a: Seq<Attribute>, key: Seq<char>, value: Option<Seq<char>>) -> Seq<
    Attribute,
> {
    match value {
        Some(v) => a.push((key, Some(v))),
        None => a,
    }
}

/// The attributes with one more, if it has a value, in decimal.
pub open spec fn with_number(a: Seq<Attribute>, key: Seq<char>, value: Option<u16>) -> Seq<
    Attribute,
> {
    match value {
        Some(n) => a.push((key, Some(decimal(n as nat)))),
        None => a,
    }
}

fn put_some(a: &mut Vec<(String, Option<String>)>, key: &str, value: &Option<String>)
    ensures
        final(a).deep_view() == with_some(old(a).deep_view(), key@, value.deep_view()),
{
    if let Some(v) = value {
        put(a, key, v.as_str());
    }
}

fn put_number(a: &mut Vec<(String, Option<String>)>, key: &str, value: Option<u16>)
    ensures
        final(a).deep_view() == with_number(old(a).deep_view(), key@, value),
{
    if let Some(n) = value {
        put(a, key, decimal_text(n as u32).as_str());
    }
}

impl Writable for DesiredWireguardInterface {
    open spec fn path() -> Seq<char> {
        WIREGUARD_PATH@
    }

    open spec fn to_add(d: DesiredWireguardInterfaceView) -> Seq<Attribute> {
        seq![
            ("name"@, Some(d.name)),
            ("listen-port"@, Some(decimal(d.listen_port as nat))),
            ("private-key"@, Some(d.private_key_b64)),
            ("disabled"@, Some(yes_no(d.disabled))),
        ]
    }

    open spec fn to_set(d: DesiredWireguardInterfaceView) -> Seq<Attribute> {
        seq![
            ("listen-port"@, Some(decimal(d.listen_port as nat))),
            ("private-key"@, Some(d.private_key_b64)),
            ("disabled"@, Some(yes_no(d.disabled))),
        ]
    }

    proof fn naming(d: DesiredWireguardInterfaceView) {
        lemma_plain_names();
    }

    fn table() -> (r: &'static str) {
        WIREGUARD_PATH
    }

    fn add_attributes(&self) -> (r: Vec<(String, Option<String>)>) {
        let mut a = no_attributes();
        put(&mut a, "name", self.name.as_str());
        put(&mut a, "listen-port", decimal_text(self.listen_port as u32).as_str());
        put(&mut a, "private-key", self.private_key_b64.as_str());
        put(&mut a, "disabled", yes_no_text(self.disabled));
        a
    }

    fn set_attributes(&self) -> (r: Vec<(String, Option<String>)>) {
        let mut a = no_attributes();
        put(&mut a, "listen-port", decimal_text(self.listen_port as u32).as_str());
        put(&mut a, "private-key", self.private_key_b64.as_str());
        put(&mut a, "disabled", yes_no_text(self.disabled));
        a
    }
}

/// Writes `/interface/wireguard`. A renamed interface is removed and added: adding it first would
/// find its listen port still taken.
pub fn apply_wireguard_interfaces(plan: &Plan<DesiredWireguardInterface>) -> (r: Vec<Request>)
    ensures
        r.deep_view() == exclusive_requests::<DesiredWireguardInterface>(plan.deep_view()),
{
    apply_exclusive(plan)
}

impl Writable for DesiredWireguardPeer {
    open spec fn path() -> Seq<char> {
        WIREGUARD_PEERS_PATH@
    }

    open spec fn to_add(d: DesiredWireguardPeerView) -> Seq<Attribute> {
        let a = seq![
            ("interface"@, Some(d.interface)),
            ("comment"@, Some(d.name)),
            ("public-key"@, Some(d.public_key_b64)),
            ("allowed-address"@, Some(d.allowed_address)),
            ("endpoint-address"@, d.endpoint_address),
            ("disabled"@, Some(yes_no(d.disabled))),
        ];
        let a = with_number(a, "endpoint-port"@, d.endpoint_port);
        let a = with_number(a, "persistent-keepalive"@, d.persistent_keepalive);
        a
    }

    open spec fn to_set(d: DesiredWireguardPeerView) -> Seq<Attribute> {
        Self::to_add(d)
    }

    proof fn naming(d: DesiredWireguardPeerView) {
        lemma_plain_names();
    }

    fn table() -> (r: &'static str) {
        WIREGUARD_PEERS_PATH
    }

    fn add_attributes(&self) -> (r: Vec<(String, Option<String>)>) {
        let mut a = no_attributes();
        put(&mut a, "interface", self.interface.as_str());
        put(&mut a, "comment", self.name.as_str());
        put(&mut a, "public-key", self.public_key_b64.as_str());
        put(&mut a, "allowed-address", self.allowed_address.as_str());
        put_option(&mut a, "endpoint-address", clone_text(&self.endpoint_address));
        put(&mut a, "disabled", yes_no_text(self.disabled));
        put_number(&mut a, "endpoint-port", self.endpoint_port);
        put_number(&mut a, "persistent-keepalive", self.persistent_keepalive);
        a
    }

    fn set_attributes(&self) -> (r: Vec<(String, Option<String>)>) {
        self.add_attributes()
    }
}

/// Writes `/interface/wireguard/peers`.
pub fn apply_wireguard_peers(plan: &Plan<DesiredWireguardPeer>) -> (r: Vec<Request>)
    ensures
        r.deep_view() == exclusive_requests::<DesiredWireguardPeer>(plan.deep_view()),
{
    apply_exclusive(plan)
}

impl Writable for DesiredIpAddress {
    open spec fn path() -> Seq<char> {
        IP_ADDRESS_PATH@
    }

    open spec fn to_add(d: DesiredIpAddressView) -> Seq<Attribute> {
        seq![
            ("address"@, Some(d.address)),
            ("interface"@, Some(d.interface)),
            ("disabled"@, Some(yes_no(d.disabled))),
        ]
    }

    open spec fn to_set(d: DesiredIpAddressView) -> Seq<Attribute> {
        seq![
            ("disabled"@, Some(yes_no(d.disabled))),
        ]
    }

    proof fn naming(d: DesiredIpAddressView) {
        lemma_plain_names();
    }

    fn table() -> (r: &'static str) {
        IP_ADDRESS_PATH
    }

    fn add_attributes(&self) -> (r: Vec<(String, Option<String>)>) {
        let mut a = no_attributes();
        put(&mut a, "address", self.address.as_str());
        put(&mut a, "interface", self.interface.as_str());
        put(&mut a, "disabled", yes_no_text(self.disabled));
        a
    }

    fn set_attributes(&self) -> (r: Vec<(String, Option<String>)>) {
        let mut a = no_attributes();
        put(&mut a, "disabled", yes_no_text(self.disabled));
        a
    }
}

/// Writes `/ip/address`.
pub fn apply_ip_addresses(plan: &Plan<DesiredIpAddress>) -> (r: Vec<Request>)
    ensures
        r.deep_view() == shared_requests::<DesiredIpAddress>(plan.deep_view()),
{
    apply_shared(plan)
}

impl Writable for DesiredIpv6Address {
    open spec fn path() -> Seq<char> {
        IPV6_ADDRESS_PATH@
    }

    open spec fn to_add(d: DesiredIpv6AddressView) -> Seq<Attribute> {
        seq![
            ("address"@, Some(d.address)),
            ("interface"@, Some(d.interface)),
            ("advertise"@, Some(yes_no(d.advertise))),
            ("disabled"@, Some(yes_no(d.disabled))),
        ]
    }

    open spec fn to_set(d: DesiredIpv6AddressView) -> Seq<Attribute> {
        seq![
            ("advertise"@, Some(yes_no(d.advertise))),
            ("disabled"@, Some(yes_no(d.disabled))),
        ]
    }

    proof fn naming(d: DesiredIpv6AddressView) {
        lemma_plain_names();
    }

    fn table() -> (r: &'static str) {
        IPV6_ADDRESS_PATH
    }

    fn add_attributes(&self) -> (r: Vec<(String, Option<String>)>) {
        let mut a = no_attributes();
        put(&mut a, "address", self.address.as_str());
        put(&mut a, "interface", self.interface.as_str());
        put(&mut a, "advertise", yes_no_text(self.advertise));
        put(&mut a, "disabled", yes_no_text(self.disabled));
        a
    }

    fn set_attributes(&self) -> (r: Vec<(String, Option<String>)>) {
        let mut a = no_attributes();
        put(&mut a, "advertise", yes_no_text(self.advertise));
        put(&mut a, "disabled", yes_no_text(self.disabled));
        a
    }
}

/// Writes `/ipv6/address`.
pub fn apply_ipv6_addresses(plan: &Plan<DesiredIpv6Address>) -> (r: Vec<Request>)
    ensures
        r.deep_view() == shared_requests::<DesiredIpv6Address>(plan.deep_view()),
{
    apply_shared(plan)
}

impl Writable for DesiredListMember {
    open spec fn path() -> Seq<char> {
        LIST_MEMBER_PATH@
    }

    open spec fn to_add(d: DesiredListMemberView) -> Seq<Attribute> {
        seq![
            ("list"@, Some(d.list)),
            ("interface"@, Some(d.interface)),
            ("disabled"@, Some(yes_no(d.disabled))),
        ]
    }

    open spec fn to_set(d: DesiredListMemberView) -> Seq<Attribute> {
        seq![
            ("disabled"@, Some(yes_no(d.disabled))),
        ]
    }

    proof fn naming(d: DesiredListMemberView) {
        lemma_plain_names();
    }

    fn table() -> (r: &'static str) {
        LIST_MEMBER_PATH
    }

    fn add_attributes(&self) -> (r: Vec<(String, Option<String>)>) {
        let mut a = no_attributes();
        put(&mut a, "list", self.list.as_str());
        put(&mut a, "interface", self.interface.as_str());
        put(&mut a, "disabled", yes_no_text(self.disabled));
        a
    }

    fn set_attributes(&self) -> (r: Vec<(String, Option<String>)>) {
        let mut a = no_attributes();
        put(&mut a, "disabled", yes_no_text(self.disabled));
        a
    }
}

/// Writes `/interface/list/member`.
pub fn apply_list_members(plan: &Plan<DesiredListMember>) -> (r: Vec<Request>)
    ensures
        r.deep_view() == shared_requests::<DesiredListMember>(plan.deep_view()),
{
    apply_shared(plan)
}

impl Writable for DesiredOspfInterfaceTemplate {
    open spec fn path() -> Seq<char> {
        OSPF_TEMPLATE_PATH@
    }

    open spec fn to_add(d: DesiredOspfInterfaceTemplateView) -> Seq<Attribute> {
        let a = seq![
            ("interfaces"@, Some(d.interfaces)),
            ("area"@, Some(d.area)),
        ];
        let a = with_some(a, "type"@, d.type_);
        let a = with_some(a, "hello-interval"@, d.hello_interval);
        let a = with_some(a, "dead-interval"@, d.dead_interval);
        let a = if d.passive {
            a.push(("passive"@, None))
        } else {
            a
        };
        let a = a.push(("disabled"@, Some(yes_no(d.disabled))));
        let a = with_number(a, "cost"@, d.cost);
        a
    }

    open spec fn to_set(d: DesiredOspfInterfaceTemplateView) -> Seq<Attribute> {
        Self::to_add(d)
    }

    proof fn naming(d: DesiredOspfInterfaceTemplateView) {
        lemma_plain_names();
    }

    fn table() -> (r: &'static str) {
        OSPF_TEMPLATE_PATH
    }

    fn add_attributes(&self) -> (r: Vec<(String, Option<String>)>) {
        let mut a = no_attributes();
        put(&mut a, "interfaces", self.interfaces.as_str());
        put(&mut a, "area", self.area.as_str());
        put_some(&mut a, "type", &self.type_);
        put_some(&mut a, "hello-interval", &self.hello_interval);
        put_some(&mut a, "dead-interval", &self.dead_interval);
        if self.passive {
            put_option(&mut a, "passive", None);
        }
        put(&mut a, "disabled", yes_no_text(self.disabled));
        put_number(&mut a, "cost", self.cost);
        a
    }

    fn set_attributes(&self) -> (r: Vec<(String, Option<String>)>) {
        self.add_attributes()
    }
}

/// Writes `/routing/ospf/interface-template`.
pub fn apply_ospf_interface_templates(
    plan: &Plan<DesiredOspfInterfaceTemplate>,
) -> (r: Vec<Request>)
    ensures
        r.deep_view() == exclusive_requests::<DesiredOspfInterfaceTemplate>(plan.deep_view()),
{
    apply_exclusive(plan)
}

impl Writable for DesiredAddressListEntry {
    open spec fn path() -> Seq<char> {
        ADDRESS_LIST_PATH@
    }

    open spec fn to_add(d: DesiredAddressListEntryView) -> Seq<Attribute> {
        seq![
            ("list"@, Some(d.list)),
            ("address"@, Some(d.address)),
            ("disabled"@, Some(yes_no(d.disabled))),
        ]
    }

    open spec fn to_set(d: DesiredAddressListEntryView) -> Seq<Attribute> {
        seq![
            ("disabled"@, Some(yes_no(d.disabled))),
        ]
    }

    proof fn naming(d: DesiredAddressListEntryView) {
        lemma_plain_names();
    }

    fn table() -> (r: &'static str) {
        ADDRESS_LIST_PATH
    }

    fn add_attributes(&self) -> (r: Vec<(String, Option<String>)>) {
        let mut a = no_attributes();
        put(&mut a, "list", self.list.as_str());
        put(&mut a, "address", self.address.as_str());
        put(&mut a, "disabled", yes_no_text(self.disabled));
        a
    }

    fn set_attributes(&self) -> (r: Vec<(String, Option<String>)>) {
        let mut a = no_attributes();
        put(&mut a, "disabled", yes_no_text(self.disabled));
        a
    }
}

/// Writes `/ip/firewall/address-list`.
pub fn apply_bgp_networks(plan: &Plan<DesiredAddressListEntry>) -> (r: Vec<Request>)
    ensures
        r.deep_view() == shared_requests::<DesiredAddressListEntry>(plan.deep_view()),
{
    apply_shared(plan)
}

impl Writable for DesiredBgpConnection {
    open spec fn path() -> Seq<char> {
        BGP_CONNECTION_PATH@
    }

    open spec fn to_add(d: DesiredBgpConnectionView) -> Seq<Attribute> {
        seq![
            ("name"@, Some(d.name)),
            ("instance"@, Some(d.instance)),
            ("local.role"@, Some(d.local_role)),
            ("multihop"@, Some(yes_no(d.multihop))),
            ("afi"@, Some(d.afi)),
            ("output.network"@, Some(d.output_network)),
            ("disabled"@, Some(yes_no(d.disabled))),
            ("local.address"@, Some(ipv6_text(d.local_address))),
            ("remote.address"@, Some(ipv6_text(d.remote_address))),
        ]
    }

    open spec fn to_set(d: DesiredBgpConnectionView) -> Seq<Attribute> {
        Self::to_add(d)
    }

    proof fn naming(d: DesiredBgpConnectionView) {
        lemma_plain_names();
    }

    fn table() -> (r: &'static str) {
        BGP_CONNECTION_PATH
    }

    fn add_attributes(&self) -> (r: Vec<(String, Option<String>)>) {
        let mut a = no_attributes();
        put(&mut a, "name", self.name.as_str());
        put(&mut a, "instance", self.instance.as_str());
        put(&mut a, "local.role", self.local_role.as_str());
        put(&mut a, "multihop", yes_no_text(self.multihop));
        put(&mut a, "afi", self.afi.as_str());
        put(&mut a, "output.network", self.output_network.as_str());
        put(&mut a, "disabled", yes_no_text(self.disabled));
        put(&mut a, "local.address", self.local_address.to_text().as_str());
        put(&mut a, "remote.address", self.remote_address.to_text().as_str());
        a
    }

    fn set_attributes(&self) -> (r: Vec<(String, Option<String>)>) {
        self.add_attributes()
    }
}

/// Writes `/routing/bgp/connection`.
pub fn apply_bgp_connections(plan: &Plan<DesiredBgpConnection>) -> (r: Vec<Request>)
    ensures
        r.deep_view() == exclusive_requests::<DesiredBgpConnection>(plan.deep_view()),
{
    apply_exclusive(plan)
}

impl Writable for DesiredBridge {
    open spec fn path() -> Seq<char> {
        BRIDGE_PATH@
    }

    open spec fn to_add(d: DesiredBridgeView) -> Seq<Attribute> {
        seq![
            ("name"@, Some(d.name)),
            ("protocol-mode"@, Some("none"@)),
            ("disabled"@, Some(yes_no(d.disabled))),
        ]
    }

    open spec fn to_set(d: DesiredBridgeView) -> Seq<Attribute> {
        seq![
            ("disabled"@, Some(yes_no(d.disabled))),
        ]
    }

    proof fn naming(d: DesiredBridgeView) {
        lemma_plain_names();
    }

    fn table() -> (r: &'static str) {
        BRIDGE_PATH
    }

    fn add_attributes(&self) -> (r: Vec<(String, Option<String>)>) {
        let mut a = no_attributes();
        put(&mut a, "name", self.name.as_str());
        put(&mut a, "protocol-mode", "none");
        put(&mut a, "disabled", yes_no_text(self.disabled));
        a
    }

    fn set_attributes(&self) -> (r: Vec<(String, Option<String>)>) {
        let mut a = no_attributes();
        put(&mut a, "disabled", yes_no_text(self.disabled));
        a
    }
}

/// Writes the loopback bridge.
pub fn apply_loopback_bridge(op: &SingletonOp<DesiredBridge>) -> (r: Vec<Request>)
    ensures
        r.deep_view() == singleton_requests::<DesiredBridge>(op.deep_view()),
{
    apply_singleton(op)
}

impl Writable for DesiredOspfInstance {
    open spec fn path() -> Seq<char> {
        OSPF_INSTANCE_PATH@
    }

    open spec fn to_add(d: DesiredOspfInstanceView) -> Seq<Attribute> {
        seq![
            ("name"@, Some(d.name)),
            ("version"@, Some(decimal(d.version as nat))),
            ("router-id"@, Some(ipv4_text(d.router_id))),
            ("redistribute"@, Some(redistribution(d.redistribute_connected))),
        ]
    }

    open spec fn to_set(d: DesiredOspfInstanceView) -> Seq<Attribute> {
        seq![
            ("version"@, Some(decimal(d.version as nat))),
            ("router-id"@, Some(ipv4_text(d.router_id))),
            ("redistribute"@, Some(redistribution(d.redistribute_connected))),
        ]
    }

    proof fn naming(d: DesiredOspfInstanceView) {
        lemma_plain_names();
    }

    fn table() -> (r: &'static str) {
        OSPF_INSTANCE_PATH
    }

    fn add_attributes(&self) -> (r: Vec<(String, Option<String>)>) {
        let mut a = no_attributes();
        put(&mut a, "name", self.name.as_str());
        put(&mut a, "version", decimal_text(self.version as u32).as_str());
        put(&mut a, "router-id", self.router_id.to_text().as_str());
        put(&mut a, "redistribute", redistribution_text(self.redistribute_connected));
        a
    }

    fn set_attributes(&self) -> (r: Vec<(String, Option<String>)>) {
        let mut a = no_attributes();
        put(&mut a, "version", decimal_text(self.version as u32).as_str());
        put(&mut a, "router-id", self.router_id.to_text().as_str());
        put(&mut a, "redistribute", redistribution_text(self.redistribute_connected));
        a
    }
}

/// Writes the OSPF instance. An update sets the version as well, so that an instance of the
/// previous one is taken over.
pub fn apply_ospf_instance(op: &SingletonOp<DesiredOspfInstance>) -> (r: Vec<Request>)
    ensures
        r.deep_view() == singleton_requests::<DesiredOspfInstance>(op.deep_view()),
{
    apply_singleton(op)
}

impl Writable for DesiredOspfArea {
    open spec fn path() -> Seq<char> {
        OSPF_AREA_PATH@
    }

    open spec fn to_add(d: DesiredOspfAreaView) -> Seq<Attribute> {
        seq![
            ("name"@, Some(d.name)),
            ("area-id"@, Some(d.area_id)),
            ("instance"@, Some(d.instance)),
        ]
    }

    open spec fn to_set(d: DesiredOspfAreaView) -> Seq<Attribute> {
        seq![
            ("instance"@, Some(d.instance)),
        ]
    }

    proof fn naming(d: DesiredOspfAreaView) {
        lemma_plain_names();
    }

    fn table() -> (r: &'static str) {
        OSPF_AREA_PATH
    }

    fn add_attributes(&self) -> (r: Vec<(String, Option<String>)>) {
        let mut a = no_attributes();
        put(&mut a, "name", self.name.as_str());
        put(&mut a, "area-id", self.area_id.as_str());
        put(&mut a, "instance", self.instance.as_str());
        a
    }

    fn set_attributes(&self) -> (r: Vec<(String, Option<String>)>) {
        let mut a = no_attributes();
        put(&mut a, "instance", self.instance.as_str());
        a
    }
}

/// Writes the OSPF area.
pub fn apply_ospf_area(op: &SingletonOp<DesiredOspfArea>) -> (r: Vec<Request>)
    ensures
        r.deep_view() == singleton_requests::<DesiredOspfArea>(op.deep_view()),
{
    apply_singleton(op)
}

impl Writable for DesiredBgpInstance {
    open spec fn path() -> Seq<char> {
        BGP_INSTANCE_PATH@
    }

    open spec fn to_add(d: DesiredBgpInstanceView) -> Seq<Attribute> {
        seq![
            ("name"@, Some(d.name)),
            ("as"@, Some(decimal(d.as_number as nat))),
            ("router-id"@, Some(ipv4_text(d.router_id))),
            ("routing-table"@, Some(d.routing_table)),
        ]
    }

    open spec fn to_set(d: DesiredBgpInstanceView) -> Seq<Attribute> {
        seq![
            ("as"@, Some(decimal(d.as_number as nat))),
            ("router-id"@, Some(ipv4_text(d.router_id))),
        ]
    }

    proof fn naming(d: DesiredBgpInstanceView) {
        lemma_plain_names();
    }

    fn table() -> (r: &'static str) {
        BGP_INSTANCE_PATH
    }

    fn add_attributes(&self) -> (r: Vec<(String, Option<String>)>) {
        let mut a = no_attributes();
        put(&mut a, "name", self.name.as_str());
        put(&mut a, "as", decimal_text(self.as_number).as_str());
        put(&mut a, "router-id", self.router_id.to_text().as_str());
        put(&mut a, "routing-table", self.routing_table.as_str());
        a
    }

    fn set_attributes(&self) -> (r: Vec<(String, Option<String>)>) {
        let mut a = no_attributes();
        put(&mut a, "as", decimal_text(self.as_number).as_str());
        put(&mut a, "router-id", self.router_id.to_text().as_str());
        a
    }
}

/// Writes the BGP instance.
pub fn apply_bgp_instance(op: &SingletonOp<DesiredBgpInstance>) -> (r: Vec<Request>)
    ensures
        r.deep_view() == singleton_requests::<DesiredBgpInstance>(op.deep_view()),
{
    apply_singleton(op)
}

/// In a table that is this tool's alone every removal comes before every addition, and every
/// addition before every update.
pub proof fn law_exclusive_removes_first<D: Writable>(plan: PlanView<D::V>, k: int)
    requires
        0 <= k < exclusive_requests::<D>(plan).len(),
    ensures
        ({
            let request = exclusive_requests::<D>(plan)[k];
            let removed = plan.remove.len();
            let added = removed + plan.add.len();
            if k < removed {
                request == remove_request(D::path(), plan.remove[k])
            } else if k < added {
                request == add_request(D::path(), D::to_add(plan.add[k - removed]))
            } else {
                request == set_request(
                    D::path(),
                    plan.update[k - added].0,
                    D::to_set(plan.update[k - added].1),
                )
            }
        }),
{
}

/// A plan that leaves its table as it is needs no requests.
pub proof fn law_empty_plan_needs_no_requests<D: Writable>(plan: PlanView<D::V>)
    requires
        plan.is_empty(),
    ensures
        exclusive_requests::<D>(plan).len() == 0,
        shared_requests::<D>(plan).len() == 0,
{
}

/// In every request of a plan the names of the attributes are told from their values.
pub proof fn law_plan_requests_are_plainly_named<D: Writable>(plan: PlanView<D::V>)
    ensures
        forall|i: int|
            0 <= i < exclusive_requests::<D>(plan).len() ==> plainly_named(
                (#[trigger] exclusive_requests::<D>(plan)[i]).attributes,
            ),
        forall|i: int|
            0 <= i < shared_requests::<D>(plan).len() ==> plainly_named(
                (#[trigger] shared_requests::<D>(plan)[i]).attributes,
            ),
{
    let removals = remove_requests::<D>(plan.remove);
    let additions = add_requests::<D>(plan.add);
    let updates = set_requests::<D>(plan.update);
    lemma_plain_names();
    assert forall|i: int| 0 <= i < additions.len() implies plainly_named(
        (#[trigger] additions[i]).attributes,
    ) by {
        D::naming(plan.add[i]);
    }
    assert forall|i: int| 0 <= i < updates.len() implies plainly_named(
        (#[trigger] updates[i]).attributes,
    ) by {
        D::naming(plan.update[i].1);
    }
    let a = exclusive_requests::<D>(plan);
    assert forall|i: int| 0 <= i < a.len() implies plainly_named(
        (#[trigger] a[i]).attributes,
    ) by {
        let added = i - removals.len();
        if i < removals.len() {
            assert(a[i] == removals[i]);
        } else if added < additions.len() {
            assert(a[i] == additions[added]);
        } else {
            assert(a[i] == updates[added - additions.len()]);
        }
    }
    let b = shared_requests::<D>(plan);
    assert forall|i: int| 0 <= i < b.len() implies plainly_named(
        (#[trigger] b[i]).attributes,
    ) by {
        let updated = i - additions.len();
        if i < additions.len() {
            assert(b[i] == additions[i]);
        } else if updated < updates.len() {
            assert(b[i] == updates[updated]);
        } else {
            assert(b[i] == removals[updated - updates.len()]);
        }
    }
}

/// In the request for an object of which there is one the names of the attributes are told from
/// their values.
pub proof fn law_singleton_requests_are_plainly_named<D: Writable>(op: SingletonOpView<D::V>)
    ensures
        forall|i: int|
            0 <= i < singleton_requests::<D>(op).len() ==> plainly_named(
                (#[trigger] singleton_requests::<D>(op)[i]).attributes,
            ),
{
    lemma_plain_names();
    match op {
        SingletonOpView::NoOp => {},
        SingletonOpView::Create(d) => {
            D::naming(d);
        },
        SingletonOpView::Update(_, d) => {
            D::naming(d);
        },
    }
}

/// Whether a request removes the row with the id, and does nothing else.
pub open spec fn is_removal_of(r: RequestView, path: Seq<char>, id: Seq<char>) -> bool {
    &&& r.word == path + "/remove"@
    &&& r.attributes.len() == 1
    &&& r.attributes[0].0 == ".id"@ && r.attributes[0].1 == Some(id)
}

/// Whether a request adds a row with the attributes.
pub open spec fn is_addition_of(
    r: RequestView,
    path: Seq<char>,
    attributes: Seq<Attribute>,
) -> bool {
    r.word == path + "/add"@ && r.attributes == attributes
}

/// Whether a request sets the attributes of the row with the id.
pub open spec fn is_setting_of(
    r: RequestView,
    path: Seq<char>,
    id: Seq<char>,
    attributes: Seq<Attribute>,
) -> bool {
    &&& r.word == path + "/set"@
    &&& r.attributes.len() == attributes.len() + 1
    &&& r.attributes[0].0 == ".id"@ && r.attributes[0].1 == Some(id)
    &&& forall|i: int| 0 <= i < attributes.len() ==> r.attributes[i + 1] == #[trigger] attributes[i]
}

/// A plan has one request for each of its rows. In a table that is this tool's alone the removals
/// come first, then the additions, then the updates; in a shared one the removals come last.
pub proof fn law_one_request_per_row<D: Writable>(plan: PlanView<D::V>)
    ensures
        ({
            let (r, a, u) = (plan.remove.len(), plan.add.len(), plan.update.len());
            let own = exclusive_requests::<D>(plan);
            let shared = shared_requests::<D>(plan);
            &&& own.len() == r + a + u
            &&& shared.len() == r + a + u
            &&& forall|i: int|
                0 <= i < r ==> is_removal_of(#[trigger] own[i], D::path(), plan.remove[i])
            &&& forall|i: int|
                r <= i < r + a ==> is_addition_of(
                    #[trigger] own[i],
                    D::path(),
                    D::to_add(plan.add[i - r]),
                )
            &&& forall|i: int|
                r + a <= i < r + a + u ==> is_setting_of(
                    #[trigger] own[i],
                    D::path(),
                    plan.update[i - r - a].0,
                    D::to_set(plan.update[i - r - a].1),
                )
            &&& forall|i: int|
                0 <= i < a ==> is_addition_of(
                    #[trigger] shared[i],
                    D::path(),
                    D::to_add(plan.add[i]),
                )
            &&& forall|i: int|
                a <= i < a + u ==> is_setting_of(
                    #[trigger] shared[i],
                    D::path(),
                    plan.update[i - a].0,
                    D::to_set(plan.update[i - a].1),
                )
            &&& forall|i: int|
                a + u <= i < a + u + r ==> is_removal_of(
                    #[trigger] shared[i],
                    D::path(),
                    plan.remove[i - a - u],
                )
        }),
{
}

/// An object of which there is one has one request where it is created or updated, and none where
/// it is as it should be.
pub proof fn law_one_request_per_object<D: Writable>(op: SingletonOpView<D::V>)
    ensures
        ({
            let r = singleton_requests::<D>(op);
            match op {
                SingletonOpView::NoOp => r.len() == 0,
                SingletonOpView::Create(d) => r.len() == 1 && is_addition_of(
                    r[0],
                    D::path(),
                    D::to_add(d),
                ),
                SingletonOpView::Update(id, d) => r.len() == 1 && is_setting_of(
                    r[0],
                    D::path(),
                    id,
                    D::to_set(d),
                ),
            }
        }),
{
}

} // verus!
