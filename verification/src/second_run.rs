//! A second run finds nothing to do, table by table.
//!
//! Each law here takes the rows of a table as the device has them, the requests that a run sends
//! for it, and the ids that the device gives meanwhile, where a row that is added gets one that no
//! row of the table had. What the table is then is read again, and the next plan is empty, but for
//! link-local addresses, which are added again. A row that is not this tool's stays as it was.

use crate::addr::lemma_eight_groups;
use crate::apply::{exclusive_requests, shared_requests, singleton_requests, Writable};
use crate::config::{
    connection_rows, desired_of, interface_ipv4, interface_ipv6, is_mesh_interface,
    loopbacks_before, loopbacks_of, mesh_ipv4, mesh_ipv6, DesiredStateView, BGP_NETWORKS_LIST,
    LAN_LIST, LOOPBACK_BRIDGE,
};
use crate::converge::{fresh_members, interface_names, our_names, stale_members};
use crate::device::{
    blank, law_address_list_entry_added, law_address_list_entry_set, law_bgp_connection_added,
    law_bgp_connection_set, law_bgp_instance_added, law_bgp_instance_set, law_bridge_added,
    law_bridge_set, law_ip_address_added, law_ip_address_set, law_ipv6_address_added,
    law_ipv6_address_set, law_list_member_added, law_list_member_set, law_ospf_area_added,
    law_ospf_area_set, law_ospf_instance_added, law_ospf_instance_set,
    law_ospf_interface_template_added, law_ospf_interface_template_set,
    law_wireguard_interface_added, law_wireguard_interface_set, law_wireguard_peer_added,
    law_wireguard_peer_set, stored,
};
use crate::diff::{
    in_footprint, singleton_of, BgpConnections, BgpNetworks, IpAddresses, Ipv6Addresses,
    ListMembers, OspfInterfaceTemplates, WireguardInterfaces, WireguardPeers,
};
use crate::documents::{AwgConfigView, BgpPeerEntryView, InterfaceEntryView, RouterConfigView};
use crate::error::ErrorView;
use crate::mikrotik::{
    all_of, bgp_instance_of, bridge_of, entry_is_on, ip_address_is_ours, ipv6_address_is_ours,
    is_link_local_entry, list_member_is_ours, named, named_from, ospf_area_of, ospf_instance_of,
    singleton_row, table_of, Parsed,
};
use crate::plan::{distinct_ids, plan_of, updatable, PlanView, Table};
use crate::request::{set_request, Attribute, RequestView};
use crate::row::{id_of, value_of, RowView};
use crate::rows::{
    CurrentAddressListEntry, CurrentAddressListEntryView, CurrentBgpConnection,
    CurrentBgpConnectionView, CurrentIpAddress, CurrentIpAddressView, CurrentIpv6Address,
    CurrentIpv6AddressView, CurrentListMember, CurrentListMemberView, CurrentOspfInterfaceTemplate,
    CurrentOspfInterfaceTemplateView, CurrentWireguardInterface, CurrentWireguardInterfaceView,
    CurrentWireguardPeer, CurrentWireguardPeerView, DesiredAddressListEntry,
    DesiredAddressListEntryView, DesiredBgpConnection, DesiredBgpConnectionView, DesiredBgpInstance,
    DesiredBgpInstanceView, DesiredBridge, DesiredBridgeView, DesiredIpAddress,
    DesiredIpAddressView, DesiredIpv6Address, DesiredIpv6AddressView, DesiredListMember,
    DesiredListMemberView, DesiredOspfArea, DesiredOspfAreaView, DesiredOspfInstance,
    DesiredOspfInstanceView, DesiredOspfInterfaceTemplate, DesiredOspfInterfaceTemplateView,
    DesiredWireguardInterface, DesiredWireguardInterfaceView, DesiredWireguardPeer,
    DesiredWireguardPeerView,
};
use crate::settle::{
    by_key, carried_out, effect, faithful, gives_new_ids, law_second_run_finds_nothing,
    law_second_run_only_adds_unseen_rows, lemma_words, read, readable, requests_of, seen,
    settled_table, unless, Wire,
};
use crate::text::split_once;
use vstd::prelude::*;

verus! {

/// How the rows of a table are read and written by this library.
pub open spec fn wire_of<C: Parsed, D: Writable>(valid: spec_fn(D::V) -> bool) -> Wire<
    C::V,
    D::V,
> {
    Wire {
        path: D::path(),
        parse: |row: RowView| C::of(row),
        to_add: |d: D::V| D::to_add(d),
        to_set: |d: D::V| D::to_set(d),
        valid,
    }
}

/// A table can be read exactly if each of its rows can, and then is what they are.
proof fn lemma_table_of<C: Parsed, D: Writable>(
    valid: spec_fn(D::V) -> bool,
    rows: Seq<RowView>,
    n: int,
)
    requires
        0 <= n <= rows.len(),
    ensures
        all_of::<C>(rows, n) is Ok <==> readable(wire_of::<C, D>(valid), rows.take(n)),
        all_of::<C>(rows, n) matches Ok(v) ==> v == read(wire_of::<C, D>(valid), rows.take(n)),
    decreases n,
{
    let w = wire_of::<C, D>(valid);
    let t = rows.take(n);
    if n > 0 {
        lemma_table_of::<C, D>(valid, rows, n - 1);
        let u = rows.take(n - 1);
        assert(t[n - 1] == rows[n - 1]);
        assert((w.parse)(rows[n - 1]) == C::of(rows[n - 1]));
        assert forall|i: int| 0 <= i < n - 1 implies t[i] == u[i] by {}
        if readable(w, t) {
            assert forall|i: int| 0 <= i < u.len() implies (w.parse)(#[trigger] u[i]) is Ok by {
                assert(t[i] == u[i]);
            }
            assert((w.parse)(t[n - 1]) is Ok);
        }
        if all_of::<C>(rows, n) is Ok {
            assert forall|i: int| 0 <= i < t.len() implies (w.parse)(#[trigger] t[i]) is Ok by {
                if i < n - 1 {
                    assert((w.parse)(u[i]) is Ok);
                }
            }
            assert(read(w, t) =~= read(w, u).push(C::of(rows[n - 1])->Ok_0));
        }
    } else {
        assert(read(w, t) =~= Seq::<C::V>::empty());
    }
}

proof fn lemma_requests<C: Parsed, D: Writable>(
    valid: spec_fn(D::V) -> bool,
    plan: PlanView<D::V>,
)
    ensures
        requests_of(wire_of::<C, D>(valid), plan, false) == exclusive_requests::<D>(plan),
        requests_of(wire_of::<C, D>(valid), plan, true) == shared_requests::<D>(plan),
{
    assert(requests_of(wire_of::<C, D>(valid), plan, false) =~= exclusive_requests::<D>(plan));
    assert(requests_of(wire_of::<C, D>(valid), plan, true) =~= shared_requests::<D>(plan));
}

/// Whether the rows of a table can be made what they should be: no two have the same id, and each
/// that is to be updated takes what it is set to.
pub open spec fn can_settle<T: Table>(
    all: Seq<T::CurrentView>,
    current: Seq<T::CurrentView>,
    desired: Seq<T::DesiredView>,
) -> bool {
    &&& distinct_ids::<T>(all)
    &&& updatable::<T>(current, desired)
}

/// Whether `new_ids` are the ids that a device gives while it carries out the requests, one to
/// each: a row that is added to the table gets one that no row of it had.
pub open spec fn numbered<D: Writable>(
    rows: Seq<RowView>,
    requests: Seq<RequestView>,
    new_ids: Seq<Seq<char>>,
) -> bool {
    &&& new_ids.len() == requests.len()
    &&& gives_new_ids(D::path(), rows, requests, new_ids)
}

/// The table once the requests have been carried out.
pub open spec fn table_after<D: Writable>(
    rows: Seq<RowView>,
    requests: Seq<RequestView>,
    new_ids: Seq<Seq<char>>,
) -> Seq<RowView> {
    carried_out(D::path(), rows, requests, new_ids, requests.len() as int)
}

/// A test that holds of everything.
pub open spec fn any<V>() -> spec_fn(V) -> bool {
    |x: V| true
}

proof fn lemma_keeps_all<V>(s: Seq<V>)
    ensures
        s.filter(any::<V>()) == s,
    decreases s.len(),
{
    reveal(Seq::filter);
    if s.len() > 0 {
        lemma_keeps_all(s.drop_last());
        assert(s.drop_last().push(s.last()) =~= s);
    }
}

/// How the rows of `/interface/wireguard` are read and written.
pub open spec fn wireguard_interface_wire() -> Wire<
    CurrentWireguardInterfaceView,
    DesiredWireguardInterfaceView,
> {
    wire_of::<CurrentWireguardInterface, DesiredWireguardInterface>(any())
}

proof fn lemma_wireguard_interface_faithful()
    ensures
        faithful::<WireguardInterfaces>(wireguard_interface_wire()),
{
    let w = wireguard_interface_wire();
    assert forall|id: Seq<char>, d: DesiredWireguardInterfaceView|
        (w.valid)(d) implies #[trigger] (w.parse)(stored(blank(id), (w.to_add)(d))) == Ok::<
        CurrentWireguardInterfaceView,
        ErrorView,
    >(WireguardInterfaces::created(id, d)) by {
        law_wireguard_interface_added(id, d);
    }
    assert forall|row: RowView, d: DesiredWireguardInterfaceView|
        (w.valid)(d) implies ((w.parse)(row) matches Ok(c) ==> WireguardInterfaces::current_key(c)
        == WireguardInterfaces::desired_key(d) ==> #[trigger] (w.parse)(
        stored(row, (w.to_set)(d)),
    ) == Ok::<CurrentWireguardInterfaceView, ErrorView>(WireguardInterfaces::written(c, d))) by {
        if let Ok(c) = (w.parse)(row) {
            if WireguardInterfaces::current_key(c) == WireguardInterfaces::desired_key(d) {
                law_wireguard_interface_set(row, c, d);
            }
        }
    }
}

/// Once a run has carried out its plan for `/interface/wireguard`, the next
/// one has an empty plan for it.
pub proof fn law_wireguard_interfaces_settle(
    rows: Seq<RowView>,
    all: Seq<CurrentWireguardInterfaceView>,
    desired: Seq<DesiredWireguardInterfaceView>,
    new_ids: Seq<Seq<char>>,
)
    requires
        table_of::<CurrentWireguardInterface>(rows) == Ok::<
            Seq<CurrentWireguardInterfaceView>,
            ErrorView,
        >(all),
        can_settle::<WireguardInterfaces>(all, all, desired),
        numbered::<DesiredWireguardInterface>(
            rows,
            exclusive_requests::<DesiredWireguardInterface>(
                plan_of::<WireguardInterfaces>(all, desired),
            ),
            new_ids,
        ),
    ensures
        ({
            let plan = plan_of::<WireguardInterfaces>(all, desired);
            let requests = exclusive_requests::<DesiredWireguardInterface>(plan);
            let after = table_after::<DesiredWireguardInterface>(rows, requests, new_ids);
            table_of::<CurrentWireguardInterface>(after) matches Ok(now) && {
                &&& plan_of::<WireguardInterfaces>(now, desired).is_empty()
            }
        }),
{
    let w = wireguard_interface_wire();
    lemma_wireguard_interface_faithful();
    lemma_table_of::<CurrentWireguardInterface, DesiredWireguardInterface>(
        w.valid,
        rows,
        rows.len() as int,
    );
    assert(rows.take(rows.len() as int) =~= rows);
    lemma_keeps_all(all);
    let plan = plan_of::<WireguardInterfaces>(all, desired);
    lemma_requests::<CurrentWireguardInterface, DesiredWireguardInterface>(w.valid, plan);
    assert(by_key::<WireguardInterfaces>(any()));
    law_second_run_finds_nothing::<WireguardInterfaces>(w, rows, any(), desired, new_ids, false);
    let after = settled_table(w, rows, plan, new_ids, false);
    lemma_table_of::<CurrentWireguardInterface, DesiredWireguardInterface>(
        w.valid,
        after,
        after.len() as int,
    );
    assert(after.take(after.len() as int) =~= after);
    lemma_keeps_all(read(w, after));
}

/// How the rows of `/interface/wireguard/peers` are read and written.
pub open spec fn wireguard_peer_wire() -> Wire<CurrentWireguardPeerView, DesiredWireguardPeerView> {
    wire_of::<CurrentWireguardPeer, DesiredWireguardPeer>(any())
}

proof fn lemma_wireguard_peer_faithful()
    ensures
        faithful::<WireguardPeers>(wireguard_peer_wire()),
{
    let w = wireguard_peer_wire();
    assert forall|id: Seq<char>, d: DesiredWireguardPeerView|
        (w.valid)(d) implies #[trigger] (w.parse)(stored(blank(id), (w.to_add)(d))) == Ok::<
        CurrentWireguardPeerView,
        ErrorView,
    >(WireguardPeers::created(id, d)) by {
        law_wireguard_peer_added(id, d);
    }
    assert forall|row: RowView, d: DesiredWireguardPeerView|
        (w.valid)(d) implies ((w.parse)(row) matches Ok(c) ==> WireguardPeers::current_key(c)
        == WireguardPeers::desired_key(d) ==> #[trigger] (w.parse)(
        stored(row, (w.to_set)(d)),
    ) == Ok::<CurrentWireguardPeerView, ErrorView>(WireguardPeers::written(c, d))) by {
        if let Ok(c) = (w.parse)(row) {
            if WireguardPeers::current_key(c) == WireguardPeers::desired_key(d) {
                law_wireguard_peer_set(row, c, d);
            }
        }
    }
}

/// Once a run has carried out its plan for `/interface/wireguard/peers`, the next
/// one has an empty plan for it.
pub proof fn law_wireguard_peers_settle(
    rows: Seq<RowView>,
    all: Seq<CurrentWireguardPeerView>,
    desired: Seq<DesiredWireguardPeerView>,
    new_ids: Seq<Seq<char>>,
)
    requires
        table_of::<CurrentWireguardPeer>(rows) == Ok::<
            Seq<CurrentWireguardPeerView>,
            ErrorView,
        >(all),
        can_settle::<WireguardPeers>(all, all, desired),
        numbered::<DesiredWireguardPeer>(
            rows,
            exclusive_requests::<DesiredWireguardPeer>(plan_of::<WireguardPeers>(all, desired)),
            new_ids,
        ),
    ensures
        ({
            let plan = plan_of::<WireguardPeers>(all, desired);
            let requests = exclusive_requests::<DesiredWireguardPeer>(plan);
            let after = table_after::<DesiredWireguardPeer>(rows, requests, new_ids);
            table_of::<CurrentWireguardPeer>(after) matches Ok(now) && {
                &&& plan_of::<WireguardPeers>(now, desired).is_empty()
            }
        }),
{
    let w = wireguard_peer_wire();
    lemma_wireguard_peer_faithful();
    lemma_table_of::<CurrentWireguardPeer, DesiredWireguardPeer>(w.valid, rows, rows.len() as int);
    assert(rows.take(rows.len() as int) =~= rows);
    lemma_keeps_all(all);
    let plan = plan_of::<WireguardPeers>(all, desired);
    lemma_requests::<CurrentWireguardPeer, DesiredWireguardPeer>(w.valid, plan);
    assert(by_key::<WireguardPeers>(any()));
    law_second_run_finds_nothing::<WireguardPeers>(w, rows, any(), desired, new_ids, false);
    let after = settled_table(w, rows, plan, new_ids, false);
    lemma_table_of::<CurrentWireguardPeer, DesiredWireguardPeer>(
        w.valid,
        after,
        after.len() as int,
    );
    assert(after.take(after.len() as int) =~= after);
    lemma_keeps_all(read(w, after));
}

/// How the rows of `/ip/address` are read and written.
pub open spec fn ip_address_wire() -> Wire<CurrentIpAddressView, DesiredIpAddressView> {
    wire_of::<CurrentIpAddress, DesiredIpAddress>(any())
}

proof fn lemma_ip_address_faithful()
    ensures
        faithful::<IpAddresses>(ip_address_wire()),
{
    let w = ip_address_wire();
    assert forall|id: Seq<char>, d: DesiredIpAddressView|
        (w.valid)(d) implies #[trigger] (w.parse)(stored(blank(id), (w.to_add)(d))) == Ok::<
        CurrentIpAddressView,
        ErrorView,
    >(IpAddresses::created(id, d)) by {
        law_ip_address_added(id, d);
    }
    assert forall|row: RowView, d: DesiredIpAddressView|
        (w.valid)(d) implies ((w.parse)(row) matches Ok(c) ==> IpAddresses::current_key(c)
        == IpAddresses::desired_key(d) ==> #[trigger] (w.parse)(
        stored(row, (w.to_set)(d)),
    ) == Ok::<CurrentIpAddressView, ErrorView>(IpAddresses::written(c, d))) by {
        if let Ok(c) = (w.parse)(row) {
            if IpAddresses::current_key(c) == IpAddresses::desired_key(d) {
                law_ip_address_set(row, c, d);
            }
        }
    }
}

/// Once a run has carried out its plan for `/ip/address`, the next
/// one has an empty plan for it. The rows of the table that are not this tool's are as they
/// were.
pub proof fn law_ip_addresses_settle(
    rows: Seq<RowView>,
    all: Seq<CurrentIpAddressView>,
    desired: Seq<DesiredIpAddressView>,
    new_ids: Seq<Seq<char>>,
    ours: Seq<Seq<char>>,
)
    requires
        table_of::<CurrentIpAddress>(rows) == Ok::<Seq<CurrentIpAddressView>, ErrorView>(all),
        can_settle::<IpAddresses>(all, all.filter(ip_address_is_ours(ours)), desired),
        numbered::<DesiredIpAddress>(
            rows,
            shared_requests::<DesiredIpAddress>(
                plan_of::<IpAddresses>(all.filter(ip_address_is_ours(ours)), desired),
            ),
            new_ids,
        ),
        forall|j: int|
            0 <= j < desired.len() ==> {
                &&& in_footprint((#[trigger] desired[j]).interface, ours)
            },
    ensures
        ({
            let plan = plan_of::<IpAddresses>(all.filter(ip_address_is_ours(ours)), desired);
            let requests = shared_requests::<DesiredIpAddress>(plan);
            let after = table_after::<DesiredIpAddress>(rows, requests, new_ids);
            table_of::<CurrentIpAddress>(after) matches Ok(now) && {
                &&& plan_of::<IpAddresses>(now.filter(ip_address_is_ours(ours)), desired).is_empty()
                &&& now.filter(unless(ip_address_is_ours(ours))) == all.filter(
                    unless(ip_address_is_ours(ours)),
                )
            }
        }),
{
    let w = ip_address_wire();
    lemma_ip_address_faithful();
    lemma_table_of::<CurrentIpAddress, DesiredIpAddress>(w.valid, rows, rows.len() as int);
    assert(rows.take(rows.len() as int) =~= rows);
    let plan = plan_of::<IpAddresses>(all.filter(ip_address_is_ours(ours)), desired);
    lemma_requests::<CurrentIpAddress, DesiredIpAddress>(w.valid, plan);
    assert(by_key::<IpAddresses>(ip_address_is_ours(ours)));
    law_second_run_finds_nothing::<IpAddresses>(
        w,
        rows,
        ip_address_is_ours(ours),
        desired,
        new_ids,
        true,
    );
    let after = settled_table(w, rows, plan, new_ids, true);
    lemma_table_of::<CurrentIpAddress, DesiredIpAddress>(w.valid, after, after.len() as int);
    assert(after.take(after.len() as int) =~= after);
}

/// How the rows of `/ipv6/address` are read and written.
pub open spec fn ipv6_address_wire() -> Wire<CurrentIpv6AddressView, DesiredIpv6AddressView> {
    wire_of::<CurrentIpv6Address, DesiredIpv6Address>(any())
}

proof fn lemma_ipv6_address_faithful()
    ensures
        faithful::<Ipv6Addresses>(ipv6_address_wire()),
{
    let w = ipv6_address_wire();
    assert forall|id: Seq<char>, d: DesiredIpv6AddressView|
        (w.valid)(d) implies #[trigger] (w.parse)(stored(blank(id), (w.to_add)(d))) == Ok::<
        CurrentIpv6AddressView,
        ErrorView,
    >(Ipv6Addresses::created(id, d)) by {
        law_ipv6_address_added(id, d);
    }
    assert forall|row: RowView, d: DesiredIpv6AddressView|
        (w.valid)(d) implies ((w.parse)(row) matches Ok(c) ==> Ipv6Addresses::current_key(c)
        == Ipv6Addresses::desired_key(d) ==> #[trigger] (w.parse)(
        stored(row, (w.to_set)(d)),
    ) == Ok::<CurrentIpv6AddressView, ErrorView>(Ipv6Addresses::written(c, d))) by {
        if let Ok(c) = (w.parse)(row) {
            if Ipv6Addresses::current_key(c) == Ipv6Addresses::desired_key(d) {
                law_ipv6_address_set(row, c, d);
            }
        }
    }
}

/// Once a run has carried out its plan for `/ipv6/address`, the next one updates and removes
/// nothing, and adds nothing but link-local addresses, which are never read as this tool's. The
/// rows of the table that are not this tool's are as they were, in front of the link-local
/// addresses that were added; where none of those is desired the next plan is empty.
pub proof fn law_ipv6_addresses_settle(
    rows: Seq<RowView>,
    all: Seq<CurrentIpv6AddressView>,
    desired: Seq<DesiredIpv6AddressView>,
    new_ids: Seq<Seq<char>>,
    ours: Seq<Seq<char>>,
)
    requires
        table_of::<CurrentIpv6Address>(rows) == Ok::<Seq<CurrentIpv6AddressView>, ErrorView>(all),
        can_settle::<Ipv6Addresses>(all, all.filter(ipv6_address_is_ours(ours)), desired),
        numbered::<DesiredIpv6Address>(
            rows,
            shared_requests::<DesiredIpv6Address>(
                plan_of::<Ipv6Addresses>(all.filter(ipv6_address_is_ours(ours)), desired),
            ),
            new_ids,
        ),
        forall|j: int|
            0 <= j < desired.len() ==> in_footprint((#[trigger] desired[j]).interface, ours),
    ensures
        ({
            let keep = ipv6_address_is_ours(ours);
            let plan = plan_of::<Ipv6Addresses>(all.filter(keep), desired);
            let requests = shared_requests::<DesiredIpv6Address>(plan);
            let after = table_after::<DesiredIpv6Address>(rows, requests, new_ids);
            table_of::<CurrentIpv6Address>(after) matches Ok(now) && {
                let next = plan_of::<Ipv6Addresses>(now.filter(keep), desired);
                &&& next.remove.len() == 0
                &&& next.update.len() == 0
                &&& forall|k: int|
                    0 <= k < next.add.len() ==> desired.contains(#[trigger] next.add[k])
                        && is_link_local_entry(next.add[k].address)
                &&& all.filter(unless(keep)).is_prefix_of(now.filter(unless(keep)))
                &&& no_link_local(desired) ==> next.is_empty() && now.filter(unless(keep))
                    == all.filter(unless(keep))
            }
        }),
{
    let keep = ipv6_address_is_ours(ours);
    let w = ipv6_address_wire();
    lemma_ipv6_address_faithful();
    lemma_table_of::<CurrentIpv6Address, DesiredIpv6Address>(w.valid, rows, rows.len() as int);
    assert(rows.take(rows.len() as int) =~= rows);
    let plan = plan_of::<Ipv6Addresses>(all.filter(keep), desired);
    lemma_requests::<CurrentIpv6Address, DesiredIpv6Address>(w.valid, plan);
    assert(by_key::<Ipv6Addresses>(keep));
    law_second_run_only_adds_unseen_rows::<Ipv6Addresses>(w, rows, keep, desired, new_ids, true);
    let after = settled_table(w, rows, plan, new_ids, true);
    lemma_table_of::<CurrentIpv6Address, DesiredIpv6Address>(w.valid, after, after.len() as int);
    assert(after.take(after.len() as int) =~= after);
    let next = plan_of::<Ipv6Addresses>(read(w, after).filter(keep), desired);
    assert forall|k: int| 0 <= k < next.add.len() implies desired.contains(#[trigger] next.add[k])
        && is_link_local_entry(next.add[k].address) by {
        let j = choose|j: int| 0 <= j < desired.len() && desired[j] == next.add[k];
        assert(in_footprint(desired[j].interface, ours));
        assert(!seen::<Ipv6Addresses>(keep, next.add[k]));
    }
    if no_link_local(desired) {
        if next.add.len() > 0 {
            let j = choose|j: int| 0 <= j < desired.len() && desired[j] == next.add[0];
            assert(!is_link_local_entry(desired[j].address));
        }
        assert forall|j: int| 0 <= j < desired.len() implies seen::<Ipv6Addresses>(
            keep,
            #[trigger] desired[j],
        ) by {
            assert(in_footprint(desired[j].interface, ours));
        }
    }
}

/// Whether none of these addresses is link-local.
pub open spec fn no_link_local(desired: Seq<DesiredIpv6AddressView>) -> bool {
    forall|j: int| 0 <= j < desired.len() ==> !is_link_local_entry((#[trigger] desired[j]).address)
}

/// How the rows of `/interface/list/member` are read and written.
pub open spec fn list_member_wire() -> Wire<CurrentListMemberView, DesiredListMemberView> {
    wire_of::<CurrentListMember, DesiredListMember>(any())
}

proof fn lemma_list_member_faithful()
    ensures
        faithful::<ListMembers>(list_member_wire()),
{
    let w = list_member_wire();
    assert forall|id: Seq<char>, d: DesiredListMemberView|
        (w.valid)(d) implies #[trigger] (w.parse)(stored(blank(id), (w.to_add)(d))) == Ok::<
        CurrentListMemberView,
        ErrorView,
    >(ListMembers::created(id, d)) by {
        law_list_member_added(id, d);
    }
    assert forall|row: RowView, d: DesiredListMemberView|
        (w.valid)(d) implies ((w.parse)(row) matches Ok(c) ==> ListMembers::current_key(c)
        == ListMembers::desired_key(d) ==> #[trigger] (w.parse)(
        stored(row, (w.to_set)(d)),
    ) == Ok::<CurrentListMemberView, ErrorView>(ListMembers::written(c, d))) by {
        if let Ok(c) = (w.parse)(row) {
            if ListMembers::current_key(c) == ListMembers::desired_key(d) {
                law_list_member_set(row, c, d);
            }
        }
    }
}

/// Once a run has carried out its plan for `/interface/list/member`, the next
/// one has an empty plan for it. The rows of the table that are not this tool's are as they
/// were.
pub proof fn law_list_members_settle(
    rows: Seq<RowView>,
    all: Seq<CurrentListMemberView>,
    desired: Seq<DesiredListMemberView>,
    new_ids: Seq<Seq<char>>,
    ours: Seq<Seq<char>>,
)
    requires
        table_of::<CurrentListMember>(rows) == Ok::<Seq<CurrentListMemberView>, ErrorView>(all),
        can_settle::<ListMembers>(all, all.filter(list_member_is_ours(ours)), desired),
        ({
            let plan = plan_of::<ListMembers>(all.filter(list_member_is_ours(ours)), desired);
            numbered::<DesiredListMember>(rows, stale_members(plan) + fresh_members(plan), new_ids)
        }),
        forall|j: int|
            0 <= j < desired.len() ==> {
                &&& (#[trigger] desired[j]).list == LAN_LIST@
                &&& in_footprint(desired[j].interface, ours)
            },
    ensures
        ({
            let plan = plan_of::<ListMembers>(all.filter(list_member_is_ours(ours)), desired);
            let requests = stale_members(plan) + fresh_members(plan);
            let after = table_after::<DesiredListMember>(rows, requests, new_ids);
            table_of::<CurrentListMember>(after) matches Ok(now) && {
                &&& plan_of::<ListMembers>(
                    now.filter(list_member_is_ours(ours)),
                    desired,
                ).is_empty()
                &&& now.filter(unless(list_member_is_ours(ours))) == all.filter(
                    unless(list_member_is_ours(ours)),
                )
            }
        }),
{
    let w = list_member_wire();
    lemma_list_member_faithful();
    lemma_table_of::<CurrentListMember, DesiredListMember>(w.valid, rows, rows.len() as int);
    assert(rows.take(rows.len() as int) =~= rows);
    let plan = plan_of::<ListMembers>(all.filter(list_member_is_ours(ours)), desired);
    assert(stale_members(plan) + fresh_members(plan) =~= requests_of(w, plan, false));
    assert(by_key::<ListMembers>(list_member_is_ours(ours)));
    law_second_run_finds_nothing::<ListMembers>(
        w,
        rows,
        list_member_is_ours(ours),
        desired,
        new_ids,
        false,
    );
    let after = settled_table(w, rows, plan, new_ids, false);
    lemma_table_of::<CurrentListMember, DesiredListMember>(w.valid, after, after.len() as int);
    assert(after.take(after.len() as int) =~= after);
}

/// How the rows of `/routing/ospf/interface-template` are read and written.
pub open spec fn ospf_interface_template_wire() -> Wire<
    CurrentOspfInterfaceTemplateView,
    DesiredOspfInterfaceTemplateView,
> {
    wire_of::<CurrentOspfInterfaceTemplate, DesiredOspfInterfaceTemplate>(any())
}

proof fn lemma_ospf_interface_template_faithful()
    ensures
        faithful::<OspfInterfaceTemplates>(ospf_interface_template_wire()),
{
    let w = ospf_interface_template_wire();
    assert forall|id: Seq<char>, d: DesiredOspfInterfaceTemplateView|
        (w.valid)(d) implies #[trigger] (w.parse)(stored(blank(id), (w.to_add)(d))) == Ok::<
        CurrentOspfInterfaceTemplateView,
        ErrorView,
    >(OspfInterfaceTemplates::created(id, d)) by {
        law_ospf_interface_template_added(id, d);
    }
    assert forall|row: RowView, d: DesiredOspfInterfaceTemplateView|
        (w.valid)(d) implies ((w.parse)(row) matches Ok(c)
        ==> OspfInterfaceTemplates::current_key(c)
        == OspfInterfaceTemplates::desired_key(d) ==> #[trigger] (w.parse)(
        stored(row, (w.to_set)(d)),
    ) == Ok::<CurrentOspfInterfaceTemplateView, ErrorView>(
        OspfInterfaceTemplates::written(c, d),
    )) by {
        if let Ok(c) = (w.parse)(row) {
            if OspfInterfaceTemplates::current_key(c) == OspfInterfaceTemplates::desired_key(d) {
                law_ospf_interface_template_set(row, c, d);
            }
        }
    }
}

/// Once a run has carried out its plan for `/routing/ospf/interface-template`, the next
/// one has an empty plan for it.
pub proof fn law_ospf_interface_templates_settle(
    rows: Seq<RowView>,
    all: Seq<CurrentOspfInterfaceTemplateView>,
    desired: Seq<DesiredOspfInterfaceTemplateView>,
    new_ids: Seq<Seq<char>>,
)
    requires
        table_of::<CurrentOspfInterfaceTemplate>(rows) == Ok::<
            Seq<CurrentOspfInterfaceTemplateView>,
            ErrorView,
        >(all),
        can_settle::<OspfInterfaceTemplates>(all, all, desired),
        numbered::<DesiredOspfInterfaceTemplate>(
            rows,
            exclusive_requests::<DesiredOspfInterfaceTemplate>(
                plan_of::<OspfInterfaceTemplates>(all, desired),
            ),
            new_ids,
        ),
    ensures
        ({
            let plan = plan_of::<OspfInterfaceTemplates>(all, desired);
            let requests = exclusive_requests::<DesiredOspfInterfaceTemplate>(plan);
            let after = table_after::<DesiredOspfInterfaceTemplate>(rows, requests, new_ids);
            table_of::<CurrentOspfInterfaceTemplate>(after) matches Ok(now) && {
                &&& plan_of::<OspfInterfaceTemplates>(now, desired).is_empty()
            }
        }),
{
    let w = ospf_interface_template_wire();
    lemma_ospf_interface_template_faithful();
    lemma_table_of::<CurrentOspfInterfaceTemplate, DesiredOspfInterfaceTemplate>(
        w.valid,
        rows,
        rows.len() as int,
    );
    assert(rows.take(rows.len() as int) =~= rows);
    lemma_keeps_all(all);
    let plan = plan_of::<OspfInterfaceTemplates>(all, desired);
    lemma_requests::<CurrentOspfInterfaceTemplate, DesiredOspfInterfaceTemplate>(w.valid, plan);
    assert(by_key::<OspfInterfaceTemplates>(any()));
    law_second_run_finds_nothing::<OspfInterfaceTemplates>(w, rows, any(), desired, new_ids, false);
    let after = settled_table(w, rows, plan, new_ids, false);
    lemma_table_of::<CurrentOspfInterfaceTemplate, DesiredOspfInterfaceTemplate>(
        w.valid,
        after,
        after.len() as int,
    );
    assert(after.take(after.len() as int) =~= after);
    lemma_keeps_all(read(w, after));
}

/// How the rows of `/ip/firewall/address-list` are read and written.
pub open spec fn address_list_entry_wire() -> Wire<
    CurrentAddressListEntryView,
    DesiredAddressListEntryView,
> {
    wire_of::<CurrentAddressListEntry, DesiredAddressListEntry>(any())
}

proof fn lemma_address_list_entry_faithful()
    ensures
        faithful::<BgpNetworks>(address_list_entry_wire()),
{
    let w = address_list_entry_wire();
    assert forall|id: Seq<char>, d: DesiredAddressListEntryView|
        (w.valid)(d) implies #[trigger] (w.parse)(stored(blank(id), (w.to_add)(d))) == Ok::<
        CurrentAddressListEntryView,
        ErrorView,
    >(BgpNetworks::created(id, d)) by {
        law_address_list_entry_added(id, d);
    }
    assert forall|row: RowView, d: DesiredAddressListEntryView|
        (w.valid)(d) implies ((w.parse)(row) matches Ok(c) ==> BgpNetworks::current_key(c)
        == BgpNetworks::desired_key(d) ==> #[trigger] (w.parse)(
        stored(row, (w.to_set)(d)),
    ) == Ok::<CurrentAddressListEntryView, ErrorView>(BgpNetworks::written(c, d))) by {
        if let Ok(c) = (w.parse)(row) {
            if BgpNetworks::current_key(c) == BgpNetworks::desired_key(d) {
                law_address_list_entry_set(row, c, d);
            }
        }
    }
}

/// Once a run has carried out its plan for `/ip/firewall/address-list`, the next
/// one has an empty plan for it. The rows of the table that are not this tool's are as they
/// were.
pub proof fn law_bgp_networks_settle(
    rows: Seq<RowView>,
    all: Seq<CurrentAddressListEntryView>,
    desired: Seq<DesiredAddressListEntryView>,
    new_ids: Seq<Seq<char>>,
    list: Seq<char>,
)
    requires
        table_of::<CurrentAddressListEntry>(rows) == Ok::<
            Seq<CurrentAddressListEntryView>,
            ErrorView,
        >(all),
        can_settle::<BgpNetworks>(all, all.filter(entry_is_on(list)), desired),
        numbered::<DesiredAddressListEntry>(
            rows,
            shared_requests::<DesiredAddressListEntry>(
                plan_of::<BgpNetworks>(all.filter(entry_is_on(list)), desired),
            ),
            new_ids,
        ),
        forall|j: int|
            0 <= j < desired.len() ==> {
                &&& (#[trigger] desired[j]).list == list
            },
    ensures
        ({
            let plan = plan_of::<BgpNetworks>(all.filter(entry_is_on(list)), desired);
            let requests = shared_requests::<DesiredAddressListEntry>(plan);
            let after = table_after::<DesiredAddressListEntry>(rows, requests, new_ids);
            table_of::<CurrentAddressListEntry>(after) matches Ok(now) && {
                &&& plan_of::<BgpNetworks>(now.filter(entry_is_on(list)), desired).is_empty()
                &&& now.filter(unless(entry_is_on(list))) == all.filter(unless(entry_is_on(list)))
            }
        }),
{
    let w = address_list_entry_wire();
    lemma_address_list_entry_faithful();
    lemma_table_of::<CurrentAddressListEntry, DesiredAddressListEntry>(
        w.valid,
        rows,
        rows.len() as int,
    );
    assert(rows.take(rows.len() as int) =~= rows);
    let plan = plan_of::<BgpNetworks>(all.filter(entry_is_on(list)), desired);
    lemma_requests::<CurrentAddressListEntry, DesiredAddressListEntry>(w.valid, plan);
    assert(by_key::<BgpNetworks>(entry_is_on(list)));
    law_second_run_finds_nothing::<BgpNetworks>(w, rows, entry_is_on(list), desired, new_ids, true);
    let after = settled_table(w, rows, plan, new_ids, true);
    lemma_table_of::<CurrentAddressListEntry, DesiredAddressListEntry>(
        w.valid,
        after,
        after.len() as int,
    );
    assert(after.take(after.len() as int) =~= after);
}

/// How the rows of `/routing/bgp/connection` are read and written. Both addresses of a connection
/// are of eight groups.
pub open spec fn bgp_connection_wire() -> Wire<CurrentBgpConnectionView, DesiredBgpConnectionView> {
    wire_of::<CurrentBgpConnection, DesiredBgpConnection>(
        |d: DesiredBgpConnectionView|
            d.local_address.len() == 8 && d.remote_address.len() == 8,
    )
}

proof fn lemma_bgp_connection_faithful()
    ensures
        faithful::<BgpConnections>(bgp_connection_wire()),
{
    let w = bgp_connection_wire();
    assert forall|id: Seq<char>, d: DesiredBgpConnectionView|
        (w.valid)(d) implies #[trigger] (w.parse)(stored(blank(id), (w.to_add)(d))) == Ok::<
        CurrentBgpConnectionView,
        ErrorView,
    >(BgpConnections::created(id, d)) by {
        law_bgp_connection_added(id, d);
    }
    assert forall|row: RowView, d: DesiredBgpConnectionView|
        (w.valid)(d) implies ((w.parse)(row) matches Ok(c) ==> BgpConnections::current_key(c)
        == BgpConnections::desired_key(d) ==> #[trigger] (w.parse)(
        stored(row, (w.to_set)(d)),
    ) == Ok::<CurrentBgpConnectionView, ErrorView>(BgpConnections::written(c, d))) by {
        if let Ok(c) = (w.parse)(row) {
            if BgpConnections::current_key(c) == BgpConnections::desired_key(d) {
                law_bgp_connection_set(row, c, d);
            }
        }
    }
}

/// Once a run has carried out its plan for `/routing/bgp/connection`, the next
/// one has an empty plan for it.
pub proof fn law_bgp_connections_settle(
    rows: Seq<RowView>,
    all: Seq<CurrentBgpConnectionView>,
    desired: Seq<DesiredBgpConnectionView>,
    new_ids: Seq<Seq<char>>,
)
    requires
        table_of::<CurrentBgpConnection>(rows) == Ok::<
            Seq<CurrentBgpConnectionView>,
            ErrorView,
        >(all),
        can_settle::<BgpConnections>(all, all, desired),
        numbered::<DesiredBgpConnection>(
            rows,
            exclusive_requests::<DesiredBgpConnection>(plan_of::<BgpConnections>(all, desired)),
            new_ids,
        ),
        forall|j: int|
            0 <= j < desired.len() ==> {
                &&& (#[trigger] desired[j]).local_address.len() == 8
                &&& desired[j].remote_address.len() == 8
            },
    ensures
        ({
            let plan = plan_of::<BgpConnections>(all, desired);
            let requests = exclusive_requests::<DesiredBgpConnection>(plan);
            let after = table_after::<DesiredBgpConnection>(rows, requests, new_ids);
            table_of::<CurrentBgpConnection>(after) matches Ok(now) && {
                &&& plan_of::<BgpConnections>(now, desired).is_empty()
            }
        }),
{
    let w = bgp_connection_wire();
    lemma_bgp_connection_faithful();
    lemma_table_of::<CurrentBgpConnection, DesiredBgpConnection>(w.valid, rows, rows.len() as int);
    assert(rows.take(rows.len() as int) =~= rows);
    lemma_keeps_all(all);
    let plan = plan_of::<BgpConnections>(all, desired);
    lemma_requests::<CurrentBgpConnection, DesiredBgpConnection>(w.valid, plan);
    assert(by_key::<BgpConnections>(any()));
    law_second_run_finds_nothing::<BgpConnections>(w, rows, any(), desired, new_ids, false);
    let after = settled_table(w, rows, plan, new_ids, false);
    lemma_table_of::<CurrentBgpConnection, DesiredBgpConnection>(
        w.valid,
        after,
        after.len() as int,
    );
    assert(after.take(after.len() as int) =~= after);
    lemma_keeps_all(read(w, after));
}

proof fn lemma_named_push(rows: Seq<RowView>, name: Seq<char>, row: RowView, id: Seq<char>, i: int)
    requires
        0 <= i <= rows.len(),
        named_from(rows, name, i) == Ok::<Option<(Seq<char>, RowView)>, ErrorView>(None),
        id_of(row) == Ok::<Seq<char>, ErrorView>(id),
        value_of(row, "name"@) == Some(name),
    ensures
        named_from(rows.push(row), name, i) == Ok::<Option<(Seq<char>, RowView)>, ErrorView>(
            Some((id, row)),
        ),
    decreases rows.len() - i,
{
    let after = rows.push(row);
    if i < rows.len() {
        assert(after[i] == rows[i]);
        lemma_named_push(rows, name, row, id, i + 1);
    } else {
        assert(after[i] == row);
    }
}

/// What setting a row makes of the search for a name, where it changes neither ids nor names.
proof fn lemma_named_set(
    path: Seq<char>,
    rows: Seq<RowView>,
    name: Seq<char>,
    id: Seq<char>,
    attributes: Seq<Attribute>,
    new_id: Seq<char>,
    i: int,
)
    requires
        0 <= i <= rows.len(),
        keeps_its_name(attributes),
    ensures
        ({
            let after = effect(path, rows, set_request(path, id, attributes), new_id);
            named_from(rows, name, i) matches Ok(Some((found, row))) ==> named_from(after, name, i)
                == Ok::<Option<(Seq<char>, RowView)>, ErrorView>(
                Some((found, if found == id { stored(row, attributes) } else { row })),
            )
        }),
    decreases rows.len() - i,
{
    lemma_words(path);
    let request = set_request(path, id, attributes);
    let after = effect(path, rows, request, new_id);
    assert(request.attributes[0].1 == Some(id));
    assert(request.attributes.skip(1) =~= attributes);
    if i < rows.len() {
        let kept = stored(rows[i], attributes);
        assert(value_of(kept, ".id"@) == value_of(rows[i], ".id"@));
        assert(value_of(kept, "name"@) == value_of(rows[i], "name"@));
        lemma_named_set(path, rows, name, id, attributes, new_id, i + 1);
    }
}

/// Whether a row that is set to these attributes keeps its id and its name.
spec fn keeps_its_name(attributes: Seq<Attribute>) -> bool {
    forall|row: RowView|
        #![trigger stored(row, attributes)]
        value_of(stored(row, attributes), ".id"@) == value_of(row, ".id"@) && value_of(
            stored(row, attributes),
            "name"@,
        ) == value_of(row, "name"@)
}

/// Whether an object that is created is found again under its name and as it should be.
spec fn is_created_right<D: Writable>(
    name: Seq<char>,
    reading: spec_fn(RowView) -> D::V,
    d: D::V,
) -> bool {
    forall|id: Seq<char>|
        #![trigger blank(id)]
        {
            let row = stored(blank(id), D::to_add(d));
            &&& id_of(row) == Ok::<Seq<char>, ErrorView>(id)
            &&& value_of(row, "name"@) == Some(name)
            &&& reading(row) == d
        }
}

proof fn lemma_object_settles<D: Writable>(
    rows: Seq<RowView>,
    name: Seq<char>,
    reading: spec_fn(RowView) -> D::V,
    found: Option<(Seq<char>, D::V)>,
    d: D::V,
    new_ids: Seq<Seq<char>>,
)
    requires
        singleton_row(rows, name, reading) == Ok::<Option<(Seq<char>, D::V)>, ErrorView>(found),
        new_ids.len() == singleton_requests::<D>(singleton_of(found, d)).len(),
        found is None ==> is_created_right::<D>(name, reading, d),
        keeps_its_name(D::to_set(d)),
        named(rows, name) matches Ok(Some((_, row))) ==> reading(row) == d || reading(
            stored(row, D::to_set(d)),
        ) == d,
    ensures
        ({
            let requests = singleton_requests::<D>(singleton_of(found, d));
            let after = table_after::<D>(rows, requests, new_ids);
            singleton_row(after, name, reading) matches Ok(now) && singleton_of(now, d) is NoOp
        }),
{
    let requests = singleton_requests::<D>(singleton_of(found, d));
    lemma_words(D::path());
    match found {
        None => {
            let id = new_ids[0];
            let row = stored(blank(id), D::to_add(d));
            assert(carried_out(D::path(), rows, requests, new_ids, 0) == rows);
            assert(table_after::<D>(rows, requests, new_ids) == rows.push(row));
            lemma_named_push(rows, name, row, id, 0);
        },
        Some((id, existing)) => {
            if existing != d {
                assert(carried_out(D::path(), rows, requests, new_ids, 0) == rows);
                lemma_named_set(D::path(), rows, name, id, D::to_set(d), new_ids[0], 0);
            }
        },
    }
}

/// Once a run has created or updated the object of `/interface/bridge`, or has left it as it
/// was because it was as it should be, the next one leaves it as it is.
pub proof fn law_bridge_settles(
    rows: Seq<RowView>,
    found: Option<(Seq<char>, DesiredBridgeView)>,
    d: DesiredBridgeView,
    new_ids: Seq<Seq<char>>,
)
    requires
        singleton_row(rows, d.name, bridge_of(d.name)) == Ok::<
            Option<(Seq<char>, DesiredBridgeView)>,
            ErrorView,
        >(found),
        new_ids.len() == singleton_requests::<DesiredBridge>(singleton_of(found, d)).len(),
    ensures
        ({
            let requests = singleton_requests::<DesiredBridge>(singleton_of(found, d));
            let after = table_after::<DesiredBridge>(rows, requests, new_ids);
            singleton_row(after, d.name, bridge_of(d.name)) matches Ok(now)
                && singleton_of(now, d) is NoOp
        }),
{
    let reading = bridge_of(d.name);
    if found is None {
        assert forall|id: Seq<char>| #![trigger blank(id)] {
            let row = stored(blank(id), DesiredBridge::to_add(d));
            &&& id_of(row) == Ok::<Seq<char>, ErrorView>(id)
            &&& value_of(row, "name"@) == Some(d.name)
            &&& reading(row) == d
        } by {
            law_bridge_added(id, d);
        }
    }
    assert forall|row: RowView|
        #![trigger stored(row, DesiredBridge::to_set(d))]
        {
            let after = stored(row, DesiredBridge::to_set(d));
            &&& value_of(after, ".id"@) == value_of(row, ".id"@)
            &&& value_of(after, "name"@) == value_of(row, "name"@)
        } by {
        law_bridge_set(row, d);
    }
    if let Ok(Some((_, row))) = named(rows, d.name) {
        law_bridge_set(row, d);
    }
    lemma_object_settles::<DesiredBridge>(rows, d.name, reading, found, d, new_ids);
}

/// Whether the object of `/routing/ospf/instance` can be made what it should be. It is created
/// enabled, and an update leaves `disabled` as it is.
pub open spec fn ospf_instance_can_settle(
    found: Option<(Seq<char>, DesiredOspfInstanceView)>,
    d: DesiredOspfInstanceView,
) -> bool {
    match found {
        None => !d.disabled,
        Some((_, existing)) => existing.disabled == d.disabled,
    }
}

/// Once a run has created or updated the object of `/routing/ospf/instance`, or has left it as it
/// was because it was as it should be, the next one leaves it as it is.
pub proof fn law_ospf_instance_settles(
    rows: Seq<RowView>,
    found: Option<(Seq<char>, DesiredOspfInstanceView)>,
    d: DesiredOspfInstanceView,
    new_ids: Seq<Seq<char>>,
)
    requires
        singleton_row(rows, d.name, ospf_instance_of(d.name)) == Ok::<
            Option<(Seq<char>, DesiredOspfInstanceView)>,
            ErrorView,
        >(found),
        new_ids.len() == singleton_requests::<DesiredOspfInstance>(singleton_of(found, d)).len(),
        ospf_instance_can_settle(found, d),
    ensures
        ({
            let requests = singleton_requests::<DesiredOspfInstance>(singleton_of(found, d));
            let after = table_after::<DesiredOspfInstance>(rows, requests, new_ids);
            singleton_row(after, d.name, ospf_instance_of(d.name)) matches Ok(now)
                && singleton_of(now, d) is NoOp
        }),
{
    let reading = ospf_instance_of(d.name);
    if found is None {
        assert forall|id: Seq<char>| #![trigger blank(id)] {
            let row = stored(blank(id), DesiredOspfInstance::to_add(d));
            &&& id_of(row) == Ok::<Seq<char>, ErrorView>(id)
            &&& value_of(row, "name"@) == Some(d.name)
            &&& reading(row) == d
        } by {
            law_ospf_instance_added(id, d);
        }
    }
    assert forall|row: RowView|
        #![trigger stored(row, DesiredOspfInstance::to_set(d))]
        {
            let after = stored(row, DesiredOspfInstance::to_set(d));
            &&& value_of(after, ".id"@) == value_of(row, ".id"@)
            &&& value_of(after, "name"@) == value_of(row, "name"@)
        } by {
        law_ospf_instance_set(row, d);
    }
    if let Ok(Some((_, row))) = named(rows, d.name) {
        law_ospf_instance_set(row, d);
    }
    lemma_object_settles::<DesiredOspfInstance>(rows, d.name, reading, found, d, new_ids);
}

/// Whether the object of `/routing/ospf/area` can be made what it should be. It is created
/// enabled, and an update leaves `area_id` and `disabled` as they are.
pub open spec fn ospf_area_can_settle(
    found: Option<(Seq<char>, DesiredOspfAreaView)>,
    d: DesiredOspfAreaView,
) -> bool {
    match found {
        None => !d.disabled,
        Some((_, existing)) => {
            &&& existing.area_id == d.area_id
            &&& existing.disabled == d.disabled
        },
    }
}

/// Once a run has created or updated the object of `/routing/ospf/area`, or has left it as it
/// was because it was as it should be, the next one leaves it as it is.
pub proof fn law_ospf_area_settles(
    rows: Seq<RowView>,
    found: Option<(Seq<char>, DesiredOspfAreaView)>,
    d: DesiredOspfAreaView,
    new_ids: Seq<Seq<char>>,
)
    requires
        singleton_row(rows, d.name, ospf_area_of(d.name)) == Ok::<
            Option<(Seq<char>, DesiredOspfAreaView)>,
            ErrorView,
        >(found),
        new_ids.len() == singleton_requests::<DesiredOspfArea>(singleton_of(found, d)).len(),
        ospf_area_can_settle(found, d),
    ensures
        ({
            let requests = singleton_requests::<DesiredOspfArea>(singleton_of(found, d));
            let after = table_after::<DesiredOspfArea>(rows, requests, new_ids);
            singleton_row(after, d.name, ospf_area_of(d.name)) matches Ok(now)
                && singleton_of(now, d) is NoOp
        }),
{
    let reading = ospf_area_of(d.name);
    if found is None {
        assert forall|id: Seq<char>| #![trigger blank(id)] {
            let row = stored(blank(id), DesiredOspfArea::to_add(d));
            &&& id_of(row) == Ok::<Seq<char>, ErrorView>(id)
            &&& value_of(row, "name"@) == Some(d.name)
            &&& reading(row) == d
        } by {
            law_ospf_area_added(id, d);
        }
    }
    assert forall|row: RowView|
        #![trigger stored(row, DesiredOspfArea::to_set(d))]
        {
            let after = stored(row, DesiredOspfArea::to_set(d));
            &&& value_of(after, ".id"@) == value_of(row, ".id"@)
            &&& value_of(after, "name"@) == value_of(row, "name"@)
        } by {
        law_ospf_area_set(row, d);
    }
    if let Ok(Some((_, row))) = named(rows, d.name) {
        law_ospf_area_set(row, d);
    }
    lemma_object_settles::<DesiredOspfArea>(rows, d.name, reading, found, d, new_ids);
}

/// Whether the object of `/routing/bgp/instance` can be made what it should be. It is created
/// enabled, and an update leaves `routing_table` and `disabled` as they are.
pub open spec fn bgp_instance_can_settle(
    found: Option<(Seq<char>, DesiredBgpInstanceView)>,
    d: DesiredBgpInstanceView,
) -> bool {
    match found {
        None => !d.disabled,
        Some((_, existing)) => {
            &&& existing.routing_table == d.routing_table
            &&& existing.disabled == d.disabled
        },
    }
}

/// Once a run has created or updated the object of `/routing/bgp/instance`, or has left it as it
/// was because it was as it should be, the next one leaves it as it is.
pub proof fn law_bgp_instance_settles(
    rows: Seq<RowView>,
    found: Option<(Seq<char>, DesiredBgpInstanceView)>,
    d: DesiredBgpInstanceView,
    new_ids: Seq<Seq<char>>,
)
    requires
        singleton_row(rows, d.name, bgp_instance_of(d.name)) == Ok::<
            Option<(Seq<char>, DesiredBgpInstanceView)>,
            ErrorView,
        >(found),
        new_ids.len() == singleton_requests::<DesiredBgpInstance>(singleton_of(found, d)).len(),
        bgp_instance_can_settle(found, d),
    ensures
        ({
            let requests = singleton_requests::<DesiredBgpInstance>(singleton_of(found, d));
            let after = table_after::<DesiredBgpInstance>(rows, requests, new_ids);
            singleton_row(after, d.name, bgp_instance_of(d.name)) matches Ok(now)
                && singleton_of(now, d) is NoOp
        }),
{
    let reading = bgp_instance_of(d.name);
    if found is None {
        assert forall|id: Seq<char>| #![trigger blank(id)] {
            let row = stored(blank(id), DesiredBgpInstance::to_add(d));
            &&& id_of(row) == Ok::<Seq<char>, ErrorView>(id)
            &&& value_of(row, "name"@) == Some(d.name)
            &&& reading(row) == d
        } by {
            law_bgp_instance_added(id, d);
        }
    }
    assert forall|row: RowView|
        #![trigger stored(row, DesiredBgpInstance::to_set(d))]
        {
            let after = stored(row, DesiredBgpInstance::to_set(d));
            &&& value_of(after, ".id"@) == value_of(row, ".id"@)
            &&& value_of(after, "name"@) == value_of(row, "name"@)
        } by {
        law_bgp_instance_set(row, d);
    }
    if let Ok(Some((_, row))) = named(rows, d.name) {
        law_bgp_instance_set(row, d);
    }
    lemma_object_settles::<DesiredBgpInstance>(rows, d.name, reading, found, d, new_ids);
}

/// Whether every row that a state asks for is one that is read as this tool's once it is there:
/// but for link-local addresses, which are never read so.
pub open spec fn is_read_back(state: DesiredStateView) -> bool {
    &&& forall|j: int|
        0 <= j < state.ip_addresses.len() ==> in_footprint(
            (#[trigger] state.ip_addresses[j]).interface,
            our_names(state),
        )
    &&& forall|j: int|
        0 <= j < state.ip_v6_addresses.len() ==> in_footprint(
            (#[trigger] state.ip_v6_addresses[j]).interface,
            our_names(state),
        )
    &&& forall|j: int|
        0 <= j < state.list_members.len() ==> {
            &&& (#[trigger] state.list_members[j]).list == LAN_LIST@
            &&& in_footprint(
                state.list_members[j].interface,
                interface_names(state.wireguard_interfaces),
            )
        }
    &&& forall|j: int|
        0 <= j < state.bgp_networks.len() ==> (#[trigger] state.bgp_networks[j]).list
            == BGP_NETWORKS_LIST@
    &&& forall|j: int|
        0 <= j < state.bgp_connections.len() ==> {
            &&& (#[trigger] state.bgp_connections[j]).local_address.len() == 8
            &&& state.bgp_connections[j].remote_address.len() == 8
        }
}

/// What a device should look like asks for no row that would not be read back as this tool's, but
/// for link-local addresses.
pub proof fn law_desired_rows_are_read_back(
    awg: AwgConfigView,
    router: RouterConfigView,
    connected: Seq<(Seq<char>, Seq<char>)>,
)
    ensures
        desired_of(awg, router, connected) matches Ok(state) ==> is_read_back(state),
{
    if let Ok(state) = desired_of(awg, router, connected) {
        let n = awg.interfaces.len() as int;
        let names = interface_names(state.wireguard_interfaces);
        let ours = our_names(state);
        assert(ours[names.len() as int] == LOOPBACK_BRIDGE@);
        assert forall|name: Seq<char>| is_mesh_interface(awg.interfaces, name) implies {
            &&& #[trigger] names.contains(name)
            &&& ours.contains(name)
        } by {
            let k = choose|k: int|
                0 <= k < awg.interfaces.len() && (#[trigger] awg.interfaces[k]).name == name;
            assert(names[k] == name && ours[k] == name);
        }
        lemma_mesh_ipv4(awg.interfaces, n);
        lemma_mesh_ipv6(awg.interfaces, n);
        assert forall|j: int| 0 <= j < state.ip_addresses.len() implies in_footprint(
            (#[trigger] state.ip_addresses[j]).interface,
            ours,
        ) by {
            if j > 0 {
                let row = mesh_ipv4(awg.interfaces, n)[j - 1];
                assert(state.ip_addresses[j] == row);
                assert(names.contains(row.interface));
            }
        }
        let mesh = mesh_ipv6(awg.interfaces, n);
        assert forall|j: int| 0 <= j < state.ip_v6_addresses.len() implies in_footprint(
            (#[trigger] state.ip_v6_addresses[j]).interface,
            ours,
        ) by {
            let first = state.ip_v6_addresses.len() - mesh.len();
            if j >= first {
                let row = mesh[j - first];
                assert(state.ip_v6_addresses[j] == row);
                assert(names.contains(row.interface));
            }
        }
        assert forall|j: int| 0 <= j < state.list_members.len() implies {
            &&& (#[trigger] state.list_members[j]).list == LAN_LIST@
            &&& in_footprint(state.list_members[j].interface, names)
        } by {
            assert(is_mesh_interface(awg.interfaces, awg.interfaces[j].name));
            assert(names.contains(awg.interfaces[j].name));
        }
        let v6 = loopbacks_of(router.node.loopback_addresses)->Ok_0.1;
        let entries = router.node.loopback_addresses;
        lemma_loopback_groups(entries, entries.len() as int);
        lemma_connection_groups(v6, router.bgp_peers, router.bgp_peers.len() as int);
    }
}

/// What a device should look like has each object of which there is one enabled.
pub proof fn law_desired_objects_are_enabled(
    awg: AwgConfigView,
    router: RouterConfigView,
    connected: Seq<(Seq<char>, Seq<char>)>,
)
    ensures
        desired_of(awg, router, connected) matches Ok(state) ==> {
            &&& !state.loopback_bridge.disabled
            &&& !state.ospf_instance.disabled
            &&& !state.ospf_area.disabled
            &&& !state.bgp_instance.disabled
        },
{
}

proof fn lemma_interface_ipv4(i: InterfaceEntryView, n: int)
    ensures
        forall|k: int|
            0 <= k < interface_ipv4(i, n).len() ==> (#[trigger] interface_ipv4(i, n)[k]).interface
                == i.name,
    decreases n,
{
    if n > 0 {
        lemma_interface_ipv4(i, n - 1);
        let before = interface_ipv4(i, n - 1);
        let after = interface_ipv4(i, n);
        assert forall|k: int| 0 <= k < after.len() implies (#[trigger] after[k]).interface
            == i.name by {
            if k < before.len() {
                assert(after[k] == before[k]);
            }
        }
    }
}

proof fn lemma_interface_ipv6(i: InterfaceEntryView, n: int)
    ensures
        forall|k: int|
            0 <= k < interface_ipv6(i, n).len() ==> (#[trigger] interface_ipv6(i, n)[k]).interface
                == i.name,
    decreases n,
{
    if n > 0 {
        lemma_interface_ipv6(i, n - 1);
        let before = interface_ipv6(i, n - 1);
        let after = interface_ipv6(i, n);
        assert forall|k: int| 0 <= k < after.len() implies (#[trigger] after[k]).interface
            == i.name by {
            if k < before.len() {
                assert(after[k] == before[k]);
            }
        }
    }
}

proof fn lemma_mesh_ipv4(interfaces: Seq<InterfaceEntryView>, n: int)
    requires
        0 <= n <= interfaces.len(),
    ensures
        forall|k: int|
            0 <= k < mesh_ipv4(interfaces, n).len() ==> is_mesh_interface(
                interfaces,
                (#[trigger] mesh_ipv4(interfaces, n)[k]).interface,
            ),
    decreases n,
{
    if n > 0 {
        lemma_mesh_ipv4(interfaces, n - 1);
        let i = interfaces[n - 1];
        lemma_interface_ipv4(i, i.addresses.len() as int);
        assert(is_mesh_interface(interfaces, i.name));
        let before = mesh_ipv4(interfaces, n - 1);
        let more = interface_ipv4(i, i.addresses.len() as int);
        let after = mesh_ipv4(interfaces, n);
        assert forall|k: int| 0 <= k < after.len() implies is_mesh_interface(
            interfaces,
            (#[trigger] after[k]).interface,
        ) by {
            if k < before.len() {
                assert(after[k] == before[k]);
            } else {
                assert(after[k] == more[k - before.len()]);
            }
        }
    }
}

proof fn lemma_mesh_ipv6(interfaces: Seq<InterfaceEntryView>, n: int)
    requires
        0 <= n <= interfaces.len(),
    ensures
        forall|k: int|
            0 <= k < mesh_ipv6(interfaces, n).len() ==> is_mesh_interface(
                interfaces,
                (#[trigger] mesh_ipv6(interfaces, n)[k]).interface,
            ),
    decreases n,
{
    if n > 0 {
        lemma_mesh_ipv6(interfaces, n - 1);
        let i = interfaces[n - 1];
        lemma_interface_ipv6(i, i.addresses.len() as int);
        assert(is_mesh_interface(interfaces, i.name));
        let before = mesh_ipv6(interfaces, n - 1);
        let more = interface_ipv6(i, i.addresses.len() as int);
        let after = mesh_ipv6(interfaces, n);
        assert forall|k: int| 0 <= k < after.len() implies is_mesh_interface(
            interfaces,
            (#[trigger] after[k]).interface,
        ) by {
            if k < before.len() {
                assert(after[k] == before[k]);
            } else {
                assert(after[k] == more[k - before.len()]);
            }
        }
    }
}

proof fn lemma_loopback_groups(entries: Seq<Seq<char>>, n: int)
    requires
        0 <= n <= entries.len(),
    ensures
        loopbacks_before(entries, n) matches Ok((_, Some(v6))) ==> v6.len() == 8,
    decreases n,
{
    if n > 0 {
        lemma_loopback_groups(entries, n - 1);
        if let Some((ip, _)) = split_once(entries[n - 1], '/') {
            lemma_eight_groups(ip);
        }
    }
}

proof fn lemma_connection_groups(own: Seq<u16>, peers: Seq<BgpPeerEntryView>, n: int)
    requires
        own.len() == 8,
        0 <= n <= peers.len(),
    ensures
        connection_rows(own, peers, n) matches Ok(rows) ==> forall|k: int|
            0 <= k < rows.len() ==> {
                &&& (#[trigger] rows[k]).local_address.len() == 8
                &&& rows[k].remote_address.len() == 8
            },
    decreases n,
{
    if n > 0 {
        lemma_connection_groups(own, peers, n - 1);
        lemma_eight_groups(peers[n - 1].address);
    }
}

} // verus!
