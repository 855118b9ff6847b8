//! A second run over the whole device finds nothing to do, but for link-local addresses.
//!
//! The device is twelve tables, one for each stage of a run. A request changes the table that its
//! word names and no other, so a run reads every table as it was before the run.

use crate::apply::{
    add_requests, exclusive_requests, shared_requests, singleton_requests, Writable,
    ADDRESS_LIST_PATH, BGP_CONNECTION_PATH, BGP_INSTANCE_PATH, BRIDGE_PATH, IPV6_ADDRESS_PATH,
    IP_ADDRESS_PATH, LIST_MEMBER_PATH, OSPF_AREA_PATH, OSPF_INSTANCE_PATH, OSPF_TEMPLATE_PATH,
    WIREGUARD_PATH, WIREGUARD_PEERS_PATH,
};
use crate::config::{desired_of, DesiredStateView, BGP_NETWORKS_LIST};
use crate::converge::{
    advanced, begun, belongs, fresh_members, interface_names, law_requests_belong, our_names, run,
    stale_members, step_of, without_removals, writes_to, SessionView, Stage, StepView,
};
use crate::documents::{AwgConfigView, RouterConfigView};
use crate::error::ErrorView;
use crate::diff::{
    singleton_of, BgpConnections, BgpNetworks, IpAddresses, Ipv6Addresses, ListMembers,
    OspfInterfaceTemplates, WireguardInterfaces, WireguardPeers,
};
use crate::mikrotik::{
    bgp_instance_of, bridge_of, entry_is_on, ip_address_is_ours, ipv6_address_is_ours,
    is_link_local_entry, list_member_is_ours, ospf_area_of, ospf_instance_of, singleton_row,
    table_of,
};
use crate::plan::{plan_of, PlanView};
use crate::report::{empty_report, law_empty_plan_is_silent};
use crate::request::{add_request, RequestView};
use crate::row::{value_of, RowView};
use crate::rows::{
    CurrentAddressListEntry, CurrentBgpConnection, CurrentIpAddress, CurrentIpv6Address,
    CurrentListMember, CurrentOspfInterfaceTemplate, CurrentWireguardInterface,
    CurrentWireguardPeer, DesiredAddressListEntry, DesiredBgpConnection, DesiredBgpInstance,
    DesiredBridge, DesiredIpAddress, DesiredIpv6Address, DesiredIpv6AddressView, DesiredListMember,
    DesiredOspfArea, DesiredOspfInstance, DesiredOspfInterfaceTemplate, DesiredWireguardInterface,
    DesiredWireguardPeer,
};
use crate::second_run::{
    bgp_instance_can_settle, can_settle, is_read_back, law_bgp_connections_settle,
    law_bgp_instance_settles, law_bgp_networks_settle, law_bridge_settles,
    law_desired_rows_are_read_back, law_ip_addresses_settle, law_ipv6_addresses_settle,
    law_list_members_settle, law_ospf_area_settles, law_ospf_instance_settles,
    law_ospf_interface_templates_settle, law_wireguard_interfaces_settle,
    law_wireguard_peers_settle, no_link_local, ospf_area_can_settle, ospf_instance_can_settle,
};
use crate::settle::{carried_out, gives_new_ids, lemma_concat};
use vstd::prelude::*;

verus! {

/// The stage before which this many tables are read.
pub open spec fn stage_at(k: int) -> Stage
    decreases k,
{
    if k <= 0 {
        Stage::ListMembers
    } else {
        stage_at(k - 1).next()
    }
}

/// The table that is read at this stage.
pub open spec fn path_at(k: int) -> Seq<char> {
    stage_at(k).path()->Some_0
}

/// The tables once the requests have been carried out.
pub open spec fn tables_after(
    tables: Seq<Seq<RowView>>,
    requests: Seq<RequestView>,
    new_ids: Seq<Seq<char>>,
) -> Seq<Seq<RowView>> {
    Seq::new(
        tables.len(),
        |k: int|
            carried_out(path_at(k), tables[k], requests, new_ids, requests.len() as int),
    )
}

proof fn lemma_stages()
    ensures
        stage_at(0) == Stage::ListMembers,
        stage_at(1) == Stage::WireguardInterfaces,
        stage_at(2) == Stage::LoopbackBridge,
        stage_at(3) == Stage::IpAddresses,
        stage_at(4) == Stage::Ipv6Addresses,
        stage_at(5) == Stage::WireguardPeers,
        stage_at(6) == Stage::OspfInstance,
        stage_at(7) == Stage::OspfArea,
        stage_at(8) == Stage::OspfInterfaceTemplates,
        stage_at(9) == Stage::BgpNetworks,
        stage_at(10) == Stage::BgpInstance,
        stage_at(11) == Stage::BgpConnections,
        stage_at(12) == Stage::Finished,
{
    assert(stage_at(1) == stage_at(0).next());
    assert(stage_at(2) == stage_at(1).next());
    assert(stage_at(3) == stage_at(2).next());
    assert(stage_at(4) == stage_at(3).next());
    assert(stage_at(5) == stage_at(4).next());
    assert(stage_at(6) == stage_at(5).next());
    assert(stage_at(7) == stage_at(6).next());
    assert(stage_at(8) == stage_at(7).next());
    assert(stage_at(9) == stage_at(8).next());
    assert(stage_at(10) == stage_at(9).next());
    assert(stage_at(11) == stage_at(10).next());
    assert(stage_at(12) == stage_at(11).next());
}

/// The paths of the tables differ.
proof fn lemma_paths(a: Stage, b: Stage)
    requires
        a != b,
        a != Stage::Finished,
        b != Stage::Finished,
    ensures
        a.path()->Some_0 != b.path()->Some_0,
{
    reveal_strlit("/interface/list/member");
    reveal_strlit("/interface/wireguard");
    reveal_strlit("/interface/bridge");
    reveal_strlit("/ip/address");
    reveal_strlit("/ipv6/address");
    reveal_strlit("/interface/wireguard/peers");
    reveal_strlit("/routing/ospf/instance");
    reveal_strlit("/routing/ospf/area");
    reveal_strlit("/routing/ospf/interface-template");
    reveal_strlit("/ip/firewall/address-list");
    reveal_strlit("/routing/bgp/instance");
    reveal_strlit("/routing/bgp/connection");
    assert(LIST_MEMBER_PATH@.len() == 22 && LIST_MEMBER_PATH@[1] == 'i');
    assert(OSPF_INSTANCE_PATH@.len() == 22 && OSPF_INSTANCE_PATH@[1] == 'r');
    assert(WIREGUARD_PATH@.len() == 20);
    assert(BRIDGE_PATH@.len() == 17);
    assert(IP_ADDRESS_PATH@.len() == 11);
    assert(IPV6_ADDRESS_PATH@.len() == 13);
    assert(WIREGUARD_PEERS_PATH@.len() == 26);
    assert(OSPF_AREA_PATH@.len() == 18);
    assert(OSPF_TEMPLATE_PATH@.len() == 32);
    assert(ADDRESS_LIST_PATH@.len() == 25);
    assert(BGP_INSTANCE_PATH@.len() == 21);
    assert(BGP_CONNECTION_PATH@.len() == 23);
}

/// A word that ends in a slash and something without one has only one path before it.
proof fn lemma_last_slash(p: Seq<char>, x: Seq<char>, q: Seq<char>, y: Seq<char>)
    requires
        p + x == q + y,
        x.len() > 0 && x[0] == '/',
        y.len() > 0 && y[0] == '/',
        forall|i: int| 0 < i < x.len() ==> x[i] != '/',
        forall|i: int| 0 < i < y.len() ==> y[i] != '/',
    ensures
        p == q,
{
    let word = p + x;
    assert(word.len() == p.len() + x.len() && word.len() == q.len() + y.len());
    assert(word[p.len() as int] == x[0]);
    assert(word[q.len() as int] == (q + y)[q.len() as int]);
    if p.len() < q.len() {
        assert(word[q.len() as int] == x[q.len() - p.len()]);
    } else if q.len() < p.len() {
        assert((q + y)[p.len() as int] == y[p.len() - q.len()]);
    } else {
        assert(p =~= word.take(p.len() as int));
        assert(q =~= (q + y).take(q.len() as int));
    }
}

/// A request writes to one table only.
proof fn lemma_one_table(p: Seq<char>, q: Seq<char>, request: RequestView)
    requires
        writes_to(p, request),
        writes_to(q, request),
    ensures
        p == q,
{
    reveal_strlit("/remove");
    reveal_strlit("/set");
    reveal_strlit("/add");
    let x = if request.word == p + "/add"@ {
        "/add"@
    } else if request.word == p + "/set"@ {
        "/set"@
    } else {
        "/remove"@
    };
    let y = if request.word == q + "/add"@ {
        "/add"@
    } else if request.word == q + "/set"@ {
        "/set"@
    } else {
        "/remove"@
    };
    lemma_last_slash(p, x, q, y);
}

/// Whether no request of a stage writes to the table.
spec fn avoids(stage: Stage, path: Seq<char>) -> bool {
    forall|request: RequestView|
        #![trigger belongs(stage, request)]
        belongs(stage, request) ==> !writes_to(path, request)
}

/// A stage writes to its own table only, but for the list members, which are added once the
/// interfaces are there.
proof fn lemma_avoids(a: Stage, b: Stage)
    requires
        a != b,
        b != Stage::Finished,
        a == Stage::WireguardPeers ==> b != Stage::ListMembers,
    ensures
        avoids(a, b.path()->Some_0),
{
    let path = b.path()->Some_0;
    assert forall|request: RequestView| #![trigger belongs(a, request)] belongs(
        a,
        request,
    ) implies !writes_to(path, request) by {
        if writes_to(path, request) {
            if a == Stage::WireguardPeers && writes_to(LIST_MEMBER_PATH@, request) {
                lemma_one_table(LIST_MEMBER_PATH@, path, request);
                lemma_paths(Stage::ListMembers, b);
            } else {
                lemma_one_table(a.path()->Some_0, path, request);
                lemma_paths(a, b);
            }
        }
    }
}

/// Requests that do not write to a table leave it as it is.
proof fn lemma_untouched(
    path: Seq<char>,
    rows: Seq<RowView>,
    requests: Seq<RequestView>,
    new_ids: Seq<Seq<char>>,
    n: int,
    m: int,
)
    requires
        0 <= n <= m <= requests.len(),
        forall|i: int| n <= i < m ==> !writes_to(path, #[trigger] requests[i]),
    ensures
        carried_out(path, rows, requests, new_ids, m) == carried_out(
            path,
            rows,
            requests,
            new_ids,
            n,
        ),
    decreases m - n,
{
    if n < m {
        lemma_untouched(path, rows, requests, new_ids, n, m - 1);
        assert(!writes_to(path, requests[m - 1]));
    }
}

/// Some of the requests in a row, carried out on their own.
proof fn lemma_part(
    path: Seq<char>,
    rows: Seq<RowView>,
    requests: Seq<RequestView>,
    new_ids: Seq<Seq<char>>,
    first: int,
    part: Seq<RequestView>,
    n: int,
)
    requires
        0 <= first,
        0 <= n <= part.len(),
        first + part.len() <= requests.len(),
        new_ids.len() == requests.len(),
        part == requests.subrange(first, first + part.len()),
    ensures
        carried_out(path, rows, requests, new_ids, first + n) == carried_out(
            path,
            carried_out(path, rows, requests, new_ids, first),
            part,
            new_ids.subrange(first, first + part.len()),
            n,
        ),
    decreases n,
{
    if n > 0 {
        lemma_part(path, rows, requests, new_ids, first, part, n - 1);
        assert(part[n - 1] == requests[first + n - 1]);
        assert(new_ids.subrange(first, first + part.len())[n - 1] == new_ids[first + n - 1]);
    }
}

/// A table to which only the requests of two parts write is what these make of it.
proof fn lemma_two_parts(
    path: Seq<char>,
    rows: Seq<RowView>,
    requests: Seq<RequestView>,
    new_ids: Seq<Seq<char>>,
    first: int,
    a: Seq<RequestView>,
    second: int,
    b: Seq<RequestView>,
)
    requires
        0 <= first,
        first + a.len() <= second,
        second + b.len() <= requests.len(),
        new_ids.len() == requests.len(),
        a == requests.subrange(first, first + a.len()),
        b == requests.subrange(second, second + b.len()),
        forall|i: int|
            0 <= i < first || first + a.len() <= i < second || second + b.len() <= i
                < requests.len() ==> !writes_to(path, #[trigger] requests[i]),
        gives_new_ids(path, rows, requests, new_ids),
    ensures
        ({
            let ids = new_ids.subrange(first, first + a.len()) + new_ids.subrange(
                second,
                second + b.len(),
            );
            &&& ids.len() == (a + b).len()
            &&& gives_new_ids(path, rows, a + b, ids)
            &&& carried_out(path, rows, requests, new_ids, requests.len() as int) == carried_out(
                path,
                rows,
                a + b,
                ids,
                (a + b).len() as int,
            )
        }),
{
    let a_ids = new_ids.subrange(first, first + a.len());
    let b_ids = new_ids.subrange(second, second + b.len());
    let ids = a_ids + b_ids;
    lemma_untouched(path, rows, requests, new_ids, 0, first);
    lemma_part(path, rows, requests, new_ids, first, a, a.len() as int);
    lemma_untouched(path, rows, requests, new_ids, first + a.len(), second);
    lemma_part(path, rows, requests, new_ids, second, b, b.len() as int);
    lemma_untouched(
        path,
        rows,
        requests,
        new_ids,
        second + b.len(),
        requests.len() as int,
    );
    lemma_concat(path, rows, a, b, a_ids, b_ids, b.len() as int);
    assert forall|i: int, k: int|
        0 <= i < rows.len() && 0 <= k < (a + b).len() && (a + b)[k].word == path
            + "/add"@ implies value_of(#[trigger] rows[i], ".id"@) != Some(
        #[trigger] ids[k],
    ) by {
        let at = if k < a.len() {
            first + k
        } else {
            second + k - a.len()
        };
        assert(ids[k] == new_ids[at]);
        assert((a + b)[k] == requests[at]);
    }
}

/// The session once the first `k` tables have been read.
spec fn session_at(state: DesiredStateView, tables: Seq<Seq<RowView>>, k: int) -> SessionView {
    run(begun(state, true), tables.take(k))->Ok_0.0
}

/// What has been sent once the first `k` tables have been read.
pub open spec fn sent_at(
    state: DesiredStateView,
    tables: Seq<Seq<RowView>>,
    k: int,
) -> Seq<RequestView> {
    run(begun(state, true), tables.take(k))->Ok_0.1
}

/// What the next table comes to once the first `k` have been read.
spec fn step_at(state: DesiredStateView, tables: Seq<Seq<RowView>>, k: int) -> StepView {
    step_of(session_at(state, tables, k), tables[k])->Ok_0
}

/// A run that goes through goes through up to each of its stages.
proof fn lemma_goes_through(state: DesiredStateView, tables: Seq<Seq<RowView>>, k: int)
    requires
        0 <= k <= tables.len(),
        run(begun(state, true), tables) is Ok,
    ensures
        run(begun(state, true), tables.take(k)) is Ok,
        k < tables.len() ==> {
            &&& step_of(session_at(state, tables, k), tables[k]) is Ok
            &&& run(begun(state, true), tables.take(k + 1)) is Ok
            &&& session_at(state, tables, k + 1) == advanced(
                session_at(state, tables, k),
                step_at(state, tables, k),
            )
            &&& session_at(state, tables, k).apply ==> sent_at(state, tables, k + 1) == sent_at(
                state,
                tables,
                k,
            ) + step_at(state, tables, k).requests
        },
    decreases tables.len() - k,
{
    if k == tables.len() {
        assert(tables.take(k) =~= tables);
    } else {
        lemma_goes_through(state, tables, k + 1);
        assert(tables.take(k + 1).drop_last() =~= tables.take(k));
        assert(tables.take(k + 1).last() == tables[k]);
    }
}

/// What a session is once the first `k` tables have been read.
proof fn lemma_session(state: DesiredStateView, tables: Seq<Seq<RowView>>, k: int)
    requires
        0 <= k <= tables.len(),
        run(begun(state, true), tables) is Ok,
    ensures
        session_at(state, tables, k).desired == state,
        session_at(state, tables, k).apply,
        session_at(state, tables, k).stage == stage_at(k),
        k == 0 ==> session_at(state, tables, k) == begun(state, true) && sent_at(state, tables, k)
            == Seq::<RequestView>::empty(),
        k > 0 ==> session_at(state, tables, k).members == step_at(state, tables, 0).members,
    decreases k,
{
    if k > 0 {
        lemma_session(state, tables, k - 1);
        lemma_goes_through(state, tables, k - 1);
    }
}

/// Whether `new_ids` are the ids that a device with these tables gives while it carries out the
/// requests, one to each: a row that is added to a table gets one that no row of it had.
pub open spec fn gives_ids(
    tables: Seq<Seq<RowView>>,
    requests: Seq<RequestView>,
    new_ids: Seq<Seq<char>>,
) -> bool {
    &&& new_ids.len() == requests.len()
    &&& forall|k: int|
        0 <= k < tables.len() ==> gives_new_ids(
            path_at(k),
            #[trigger] tables[k],
            requests,
            new_ids,
        )
}

/// Whether a run with these tables goes through, and the device gives these ids to what it adds.
pub open spec fn is_first_run(
    state: DesiredStateView,
    tables: Seq<Seq<RowView>>,
    new_ids: Seq<Seq<char>>,
) -> bool {
    &&& tables.len() == 12
    &&& run(begun(state, true), tables) matches Ok((_, requests)) && gives_ids(
        tables,
        requests,
        new_ids,
    )
}

/// The tables that a run with these tables leaves behind.
pub open spec fn left_behind(
    state: DesiredStateView,
    tables: Seq<Seq<RowView>>,
    new_ids: Seq<Seq<char>>,
) -> Seq<Seq<RowView>> {
    tables_after(tables, run(begun(state, true), tables)->Ok_0.1, new_ids)
}

/// The other stages do not write to the table of one, but for the list members.
proof fn lemma_other_stages(k: int)
    requires
        0 <= k < 12,
    ensures
        forall|j: int| 0 <= j < k ==> avoids(#[trigger] stage_at(j), path_at(k)),
        k > 0 ==> forall|j: int| k < j < 12 ==> avoids(#[trigger] stage_at(j), path_at(k)),
        k == 0 ==> forall|j: int|
            0 < j < 12 && j != 5 ==> avoids(#[trigger] stage_at(j), path_at(k)),
{
    lemma_stages();
    assert forall|j: int|
        0 <= j < 12 && j != k && (k == 0 ==> j != 5) implies avoids(
        #[trigger] stage_at(j),
        path_at(k),
    ) by {
        lemma_avoids(stage_at(j), stage_at(k));
    }
}

/// Where the requests of a stage stand among all that are sent.
proof fn lemma_place(state: DesiredStateView, tables: Seq<Seq<RowView>>, k: int)
    requires
        0 <= k < 12,
        tables.len() == 12,
        run(begun(state, true), tables) is Ok,
    ensures
        ({
            let requests = run(begun(state, true), tables)->Ok_0.1;
            let before = sent_at(state, tables, k);
            let part = step_at(state, tables, k).requests;
            let upto = sent_at(state, tables, k + 1);
            &&& upto == before + part
            &&& upto.len() <= requests.len()
            &&& part == requests.subrange(before.len() as int, upto.len() as int)
        }),
{
    assert(tables.take(12) =~= tables);
    lemma_session(state, tables, k);
    lemma_goes_through(state, tables, k);
    lemma_ahead(state, tables, k + 1, 12);
    lemma_middle(
        sent_at(state, tables, k),
        step_at(state, tables, k).requests,
        sent_at(state, tables, 12),
    );
}

proof fn lemma_middle<V>(before: Seq<V>, part: Seq<V>, whole: Seq<V>)
    requires
        (before + part).len() <= whole.len(),
        whole.take((before + part).len() as int) == before + part,
    ensures
        part == whole.subrange(before.len() as int, (before + part).len() as int),
{
    let upto = before + part;
    assert forall|i: int| 0 <= i < part.len() implies part[i] == whole[before.len() + i] by {
        assert(upto[before.len() + i] == part[i]);
        assert(whole.take(upto.len() as int)[before.len() + i] == whole[before.len() + i]);
    }
    assert(part =~= whole.subrange(before.len() as int, upto.len() as int));
}

/// What is sent up to a stage comes first in what is sent up to a later one.
proof fn lemma_ahead(state: DesiredStateView, tables: Seq<Seq<RowView>>, n: int, m: int)
    requires
        0 <= n <= m <= tables.len(),
        run(begun(state, true), tables) is Ok,
    ensures
        sent_at(state, tables, n).len() <= sent_at(state, tables, m).len(),
        sent_at(state, tables, m).take(sent_at(state, tables, n).len() as int) == sent_at(
            state,
            tables,
            n,
        ),
    decreases m - n,
{
    let a = sent_at(state, tables, n);
    let b = sent_at(state, tables, m);
    if n < m {
        lemma_ahead(state, tables, n, m - 1);
        lemma_goes_through(state, tables, m - 1);
        lemma_session(state, tables, m - 1);
        let before = sent_at(state, tables, m - 1);
        assert(b.take(a.len() as int) =~= before.take(a.len() as int));
    } else {
        assert(b.take(a.len() as int) =~= a);
    }
}

/// No request of the stages from `n` up to `m` writes to a table that these avoid.
proof fn lemma_between(
    state: DesiredStateView,
    tables: Seq<Seq<RowView>>,
    n: int,
    m: int,
    path: Seq<char>,
)
    requires
        0 <= n <= m <= 12,
        tables.len() == 12,
        run(begun(state, true), tables) is Ok,
        forall|j: int| n <= j < m ==> avoids(#[trigger] stage_at(j), path),
    ensures
        ({
            let requests = run(begun(state, true), tables)->Ok_0.1;
            let from = sent_at(state, tables, n).len();
            let to = sent_at(state, tables, m).len();
            &&& from <= to <= requests.len()
            &&& m == 12 ==> to == requests.len()
            &&& forall|i: int| from <= i < to ==> !writes_to(path, #[trigger] requests[i])
        }),
    decreases m - n,
{
    let requests = run(begun(state, true), tables)->Ok_0.1;
    assert(tables.take(12) =~= tables);
    if n < m {
        lemma_between(state, tables, n, m - 1, path);
        lemma_place(state, tables, m - 1);
        lemma_session(state, tables, m - 1);
        law_requests_belong(session_at(state, tables, m - 1), tables[m - 1]);
        lemma_goes_through(state, tables, m - 1);
        let from = sent_at(state, tables, m - 1).len();
        let to = sent_at(state, tables, m).len();
        let part = step_at(state, tables, m - 1).requests;
        assert(avoids(stage_at(m - 1), path));
        assert forall|i: int| from <= i < to implies !writes_to(path, #[trigger] requests[i]) by {
            assert(requests[i] == part[i - from]);
            assert(belongs(stage_at(m - 1), part[i - from]));
        }
    } else {
        lemma_ahead(state, tables, n, 12);
    }
}

/// Nothing that a run sends before it reads a table changes that table.
pub proof fn law_tables_are_read_before_they_are_written(
    state: DesiredStateView,
    tables: Seq<Seq<RowView>>,
    new_ids: Seq<Seq<char>>,
    k: int,
)
    requires
        0 <= k < 12,
        tables.len() == 12,
        run(begun(state, true), tables) is Ok,
    ensures
        ({
            let requests = sent_at(state, tables, k);
            carried_out(path_at(k), tables[k], requests, new_ids, requests.len() as int)
                == tables[k]
        }),
{
    let path = path_at(k);
    let all = run(begun(state, true), tables)->Ok_0.1;
    let requests = sent_at(state, tables, k);
    lemma_other_stages(k);
    lemma_session(state, tables, 0);
    lemma_between(state, tables, 0, k, path);
    assert(tables.take(12) =~= tables);
    lemma_ahead(state, tables, k, 12);
    assert forall|i: int| 0 <= i < requests.len() implies !writes_to(
        path,
        #[trigger] requests[i],
    ) by {
        assert(all.take(requests.len() as int)[i] == all[i]);
    }
    lemma_untouched(path, tables[k], requests, new_ids, 0, requests.len() as int);
}

/// A table to which only one part of the requests writes, and no more than the first of these, is
/// what they make of it.
proof fn lemma_one_part(
    path: Seq<char>,
    rows: Seq<RowView>,
    requests: Seq<RequestView>,
    new_ids: Seq<Seq<char>>,
    first: int,
    own: Seq<RequestView>,
    others: Seq<RequestView>,
) -> (ids: Seq<Seq<char>>)
    requires
        0 <= first,
        first + (own + others).len() <= requests.len(),
        new_ids.len() == requests.len(),
        own + others == requests.subrange(first, first + (own + others).len()),
        forall|i: int|
            0 <= i < first || first + (own + others).len() <= i < requests.len() ==> !writes_to(
                path,
                #[trigger] requests[i],
            ),
        forall|i: int| 0 <= i < others.len() ==> !writes_to(path, #[trigger] others[i]),
        gives_new_ids(path, rows, requests, new_ids),
    ensures
        ids.len() == own.len(),
        gives_new_ids(path, rows, own, ids),
        carried_out(path, rows, requests, new_ids, requests.len() as int) == carried_out(
            path,
            rows,
            own,
            ids,
            own.len() as int,
        ),
{
    let part = own + others;
    let second = first + own.len();
    let none = Seq::<RequestView>::empty();
    assert forall|i: int| 0 <= i < part.len() implies #[trigger] part[i] == requests[first
        + i] by {}
    assert(own =~= requests.subrange(first, second)) by {
        assert forall|i: int| 0 <= i < own.len() implies own[i] == requests[first + i] by {
            assert(part[i] == own[i]);
        }
    }
    assert(none =~= requests.subrange(second, second));
    assert forall|i: int|
        0 <= i < first || second <= i < requests.len() implies !writes_to(
        path,
        #[trigger] requests[i],
    ) by {
        if second <= i < second + others.len() {
            assert(part[i - first] == others[i - second]);
        }
    }
    lemma_two_parts(path, rows, requests, new_ids, first, own, second, none);
    assert(own + none =~= own);
    new_ids.subrange(first, second) + new_ids.subrange(second, second)
}

/// A table that is only written at its own stage, by the first of the requests there, is what they
/// make of it.
proof fn lemma_left_behind(
    state: DesiredStateView,
    tables: Seq<Seq<RowView>>,
    new_ids: Seq<Seq<char>>,
    k: int,
    own: Seq<RequestView>,
    others: Seq<RequestView>,
) -> (ids: Seq<Seq<char>>)
    requires
        0 < k < 12,
        is_first_run(state, tables, new_ids),
        step_at(state, tables, k).requests == own + others,
        forall|i: int| 0 <= i < others.len() ==> !writes_to(path_at(k), #[trigger] others[i]),
    ensures
        ids.len() == own.len(),
        gives_new_ids(path_at(k), tables[k], own, ids),
        left_behind(state, tables, new_ids)[k] == carried_out(
            path_at(k),
            tables[k],
            own,
            ids,
            own.len() as int,
        ),
{
    let path = path_at(k);
    let requests = run(begun(state, true), tables)->Ok_0.1;
    lemma_other_stages(k);
    lemma_session(state, tables, 0);
    lemma_between(state, tables, 0, k, path);
    lemma_place(state, tables, k);
    lemma_between(state, tables, k + 1, 12, path);
    assert(gives_new_ids(path, tables[k], requests, new_ids));
    lemma_one_part(
        path,
        tables[k],
        requests,
        new_ids,
        sent_at(state, tables, k).len() as int,
        own,
        others,
    )
}

/// Whether each table can be made what it should be: no two of its rows have the same id, each row
/// that is to be updated takes what it is set to, and each object of which there is one takes what
/// it is created or updated with.
pub open spec fn tables_can_settle(state: DesiredStateView, tables: Seq<Seq<RowView>>) -> bool {
    &&& table_of::<CurrentListMember>(tables[0]) matches Ok(all)
        ==> can_settle::<ListMembers>(
        all,
        all.filter(list_member_is_ours(interface_names(state.wireguard_interfaces))),
        state.list_members,
    )
    &&& table_of::<CurrentWireguardInterface>(tables[1]) matches Ok(all)
        ==> can_settle::<WireguardInterfaces>(all, all, state.wireguard_interfaces)
    &&& table_of::<CurrentIpAddress>(tables[3]) matches Ok(all)
        ==> can_settle::<IpAddresses>(
        all,
        all.filter(ip_address_is_ours(our_names(state))),
        state.ip_addresses,
    )
    &&& table_of::<CurrentIpv6Address>(tables[4]) matches Ok(all)
        ==> can_settle::<Ipv6Addresses>(
        all,
        all.filter(ipv6_address_is_ours(our_names(state))),
        state.ip_v6_addresses,
    )
    &&& table_of::<CurrentWireguardPeer>(tables[5]) matches Ok(all)
        ==> can_settle::<WireguardPeers>(all, all, state.wireguard_peers)
    &&& table_of::<CurrentOspfInterfaceTemplate>(tables[8]) matches Ok(all)
        ==> can_settle::<OspfInterfaceTemplates>(all, all, state.ospf_interface_templates)
    &&& table_of::<CurrentAddressListEntry>(tables[9]) matches Ok(all)
        ==> can_settle::<BgpNetworks>(
        all,
        all.filter(entry_is_on(BGP_NETWORKS_LIST@)),
        state.bgp_networks,
    )
    &&& table_of::<CurrentBgpConnection>(tables[11]) matches Ok(all)
        ==> can_settle::<BgpConnections>(all, all, state.bgp_connections)
    &&& singleton_row(
        tables[6],
        state.ospf_instance.name,
        ospf_instance_of(state.ospf_instance.name),
    ) matches Ok(found) ==> ospf_instance_can_settle(found, state.ospf_instance)
    &&& singleton_row(
        tables[7],
        state.ospf_area.name,
        ospf_area_of(state.ospf_area.name),
    ) matches Ok(found) ==> ospf_area_can_settle(found, state.ospf_area)
    &&& singleton_row(
        tables[10],
        state.bgp_instance.name,
        bgp_instance_of(state.bgp_instance.name),
    ) matches Ok(found) ==> bgp_instance_can_settle(found, state.bgp_instance)
}

/// Whether a run with these tables goes through and the device can be made what it should be.
pub open spec fn can_converge(
    state: DesiredStateView,
    tables: Seq<Seq<RowView>>,
    new_ids: Seq<Seq<char>>,
) -> bool {
    &&& is_first_run(state, tables, new_ids)
    &&& is_read_back(state)
    &&& tables_can_settle(state, tables)
}

/// A step that does nothing.
spec fn nothing(t: SessionView) -> StepView {
    StepView { report: t.report, requests: Seq::empty(), members: t.members }
}

/// The requests of a plan write to its table only.
proof fn lemma_plan_elsewhere<D: Writable>(plan: PlanView<D::V>, path: Seq<char>)
    requires
        path != D::path(),
    ensures
        forall|i: int|
            0 <= i < exclusive_requests::<D>(plan).len() ==> !writes_to(
                path,
                #[trigger] exclusive_requests::<D>(plan)[i],
            ),
        forall|i: int|
            0 <= i < shared_requests::<D>(plan).len() ==> !writes_to(
                path,
                #[trigger] shared_requests::<D>(plan)[i],
            ),
{
    let a = exclusive_requests::<D>(plan);
    assert forall|i: int| 0 <= i < a.len() implies !writes_to(path, #[trigger] a[i]) by {
        assert(writes_to(D::path(), a[i]));
        if writes_to(path, a[i]) {
            lemma_one_table(path, D::path(), a[i]);
        }
    }
    let b = shared_requests::<D>(plan);
    assert forall|i: int| 0 <= i < b.len() implies !writes_to(path, #[trigger] b[i]) by {
        assert(writes_to(D::path(), b[i]));
        if writes_to(path, b[i]) {
            lemma_one_table(path, D::path(), b[i]);
        }
    }
}

proof fn lemma_wireguard_interfaces_again(
    state: DesiredStateView,
    tables: Seq<Seq<RowView>>,
    new_ids: Seq<Seq<char>>,
    t: SessionView,
)
    requires
        can_converge(state, tables, new_ids),
        t.desired == state,
        t.stage == stage_at(1),
    ensures
        step_of(t, left_behind(state, tables, new_ids)[1]) == Ok::<StepView, ErrorView>(nothing(t)),
{
    lemma_stages();
    lemma_session(state, tables, 1);
    lemma_goes_through(state, tables, 1);
    let all = table_of::<CurrentWireguardInterface>(tables[1])->Ok_0;
    let plan = plan_of::<WireguardInterfaces>(all, state.wireguard_interfaces);
    let own = exclusive_requests::<DesiredWireguardInterface>(plan);
    let others = Seq::<RequestView>::empty();
    assert(step_at(state, tables, 1).requests =~= own + others);
    let ids = lemma_left_behind(state, tables, new_ids, 1, own, others);
    law_wireguard_interfaces_settle(tables[1], all, state.wireguard_interfaces, ids);
    let now = table_of::<CurrentWireguardInterface>(left_behind(state, tables, new_ids)[1])->Ok_0;
    let current = now;
    let next = plan_of::<WireguardInterfaces>(current, state.wireguard_interfaces);
    law_empty_plan_is_silent::<CurrentWireguardInterface, DesiredWireguardInterface>(
        t.report,
        "interface wireguard"@,
        current,
        next,
    );
    assert(exclusive_requests::<DesiredWireguardInterface>(next) =~= Seq::<RequestView>::empty());
}

proof fn lemma_ip_addresses_again(
    state: DesiredStateView,
    tables: Seq<Seq<RowView>>,
    new_ids: Seq<Seq<char>>,
    t: SessionView,
)
    requires
        can_converge(state, tables, new_ids),
        t.desired == state,
        t.stage == stage_at(3),
    ensures
        step_of(t, left_behind(state, tables, new_ids)[3]) == Ok::<StepView, ErrorView>(nothing(t)),
{
    lemma_stages();
    lemma_session(state, tables, 3);
    lemma_goes_through(state, tables, 3);
    let all = table_of::<CurrentIpAddress>(tables[3])->Ok_0;
    let plan = plan_of::<IpAddresses>(
        all.filter(ip_address_is_ours(our_names(state))),
        state.ip_addresses,
    );
    let own = shared_requests::<DesiredIpAddress>(plan);
    let others = Seq::<RequestView>::empty();
    assert(step_at(state, tables, 3).requests =~= own + others);
    let ids = lemma_left_behind(state, tables, new_ids, 3, own, others);
    law_ip_addresses_settle(tables[3], all, state.ip_addresses, ids, our_names(state));
    let now = table_of::<CurrentIpAddress>(left_behind(state, tables, new_ids)[3])->Ok_0;
    let current = now.filter(ip_address_is_ours(our_names(state)));
    let next = plan_of::<IpAddresses>(current, state.ip_addresses);
    law_empty_plan_is_silent::<CurrentIpAddress, DesiredIpAddress>(
        t.report,
        "ip address"@,
        current,
        next,
    );
    assert(shared_requests::<DesiredIpAddress>(next) =~= Seq::<RequestView>::empty());
}

proof fn lemma_wireguard_peers_again(
    state: DesiredStateView,
    tables: Seq<Seq<RowView>>,
    new_ids: Seq<Seq<char>>,
    t: SessionView,
)
    requires
        can_converge(state, tables, new_ids),
        t.desired == state,
        t.stage == stage_at(5),
        t.members.is_empty(),
    ensures
        step_of(t, left_behind(state, tables, new_ids)[5]) == Ok::<StepView, ErrorView>(nothing(t)),
{
    lemma_stages();
    lemma_session(state, tables, 5);
    lemma_goes_through(state, tables, 5);
    let all = table_of::<CurrentWireguardPeer>(tables[5])->Ok_0;
    let plan = plan_of::<WireguardPeers>(all, state.wireguard_peers);
    let own = exclusive_requests::<DesiredWireguardPeer>(plan);
    let others = fresh_members(step_at(state, tables, 0).members);
    assert(step_at(state, tables, 5).requests =~= own + others);
    lemma_paths(Stage::ListMembers, Stage::WireguardPeers);
    lemma_plan_elsewhere::<DesiredListMember>(
        without_removals(step_at(state, tables, 0).members),
        path_at(5),
    );
    let ids = lemma_left_behind(state, tables, new_ids, 5, own, others);
    law_wireguard_peers_settle(tables[5], all, state.wireguard_peers, ids);
    let now = table_of::<CurrentWireguardPeer>(left_behind(state, tables, new_ids)[5])->Ok_0;
    let current = now;
    let next = plan_of::<WireguardPeers>(current, state.wireguard_peers);
    law_empty_plan_is_silent::<CurrentWireguardPeer, DesiredWireguardPeer>(
        t.report,
        "interface wireguard peers"@,
        current,
        next,
    );
    assert(fresh_members(t.members) =~= Seq::<RequestView>::empty());
    assert(exclusive_requests::<DesiredWireguardPeer>(next) =~= Seq::<RequestView>::empty());
}

proof fn lemma_ospf_interface_templates_again(
    state: DesiredStateView,
    tables: Seq<Seq<RowView>>,
    new_ids: Seq<Seq<char>>,
    t: SessionView,
)
    requires
        can_converge(state, tables, new_ids),
        t.desired == state,
        t.stage == stage_at(8),
    ensures
        step_of(t, left_behind(state, tables, new_ids)[8]) == Ok::<StepView, ErrorView>(nothing(t)),
{
    lemma_stages();
    lemma_session(state, tables, 8);
    lemma_goes_through(state, tables, 8);
    let all = table_of::<CurrentOspfInterfaceTemplate>(tables[8])->Ok_0;
    let plan = plan_of::<OspfInterfaceTemplates>(all, state.ospf_interface_templates);
    let own = exclusive_requests::<DesiredOspfInterfaceTemplate>(plan);
    let others = Seq::<RequestView>::empty();
    assert(step_at(state, tables, 8).requests =~= own + others);
    let ids = lemma_left_behind(state, tables, new_ids, 8, own, others);
    law_ospf_interface_templates_settle(tables[8], all, state.ospf_interface_templates, ids);
    let now = table_of::<CurrentOspfInterfaceTemplate>(
        left_behind(state, tables, new_ids)[8],
    )->Ok_0;
    let current = now;
    let next = plan_of::<OspfInterfaceTemplates>(current, state.ospf_interface_templates);
    law_empty_plan_is_silent::<CurrentOspfInterfaceTemplate, DesiredOspfInterfaceTemplate>(
        t.report,
        "routing ospf interface-template"@,
        current,
        next,
    );
    let none = Seq::<RequestView>::empty();
    assert(exclusive_requests::<DesiredOspfInterfaceTemplate>(next) =~= none);
}

proof fn lemma_bgp_networks_again(
    state: DesiredStateView,
    tables: Seq<Seq<RowView>>,
    new_ids: Seq<Seq<char>>,
    t: SessionView,
)
    requires
        can_converge(state, tables, new_ids),
        t.desired == state,
        t.stage == stage_at(9),
    ensures
        step_of(t, left_behind(state, tables, new_ids)[9]) == Ok::<StepView, ErrorView>(nothing(t)),
{
    lemma_stages();
    lemma_session(state, tables, 9);
    lemma_goes_through(state, tables, 9);
    let all = table_of::<CurrentAddressListEntry>(tables[9])->Ok_0;
    let plan = plan_of::<BgpNetworks>(
        all.filter(entry_is_on(BGP_NETWORKS_LIST@)),
        state.bgp_networks,
    );
    let own = shared_requests::<DesiredAddressListEntry>(plan);
    let others = Seq::<RequestView>::empty();
    assert(step_at(state, tables, 9).requests =~= own + others);
    let ids = lemma_left_behind(state, tables, new_ids, 9, own, others);
    law_bgp_networks_settle(tables[9], all, state.bgp_networks, ids, BGP_NETWORKS_LIST@);
    let now = table_of::<CurrentAddressListEntry>(left_behind(state, tables, new_ids)[9])->Ok_0;
    let current = now.filter(entry_is_on(BGP_NETWORKS_LIST@));
    let next = plan_of::<BgpNetworks>(current, state.bgp_networks);
    law_empty_plan_is_silent::<CurrentAddressListEntry, DesiredAddressListEntry>(
        t.report,
        "ip firewall address-list"@,
        current,
        next,
    );
    assert(shared_requests::<DesiredAddressListEntry>(next) =~= Seq::<RequestView>::empty());
}

proof fn lemma_bgp_connections_again(
    state: DesiredStateView,
    tables: Seq<Seq<RowView>>,
    new_ids: Seq<Seq<char>>,
    t: SessionView,
)
    requires
        can_converge(state, tables, new_ids),
        t.desired == state,
        t.stage == stage_at(11),
    ensures
        step_of(
            t,
            left_behind(state, tables, new_ids)[11],
        ) == Ok::<StepView, ErrorView>(nothing(t)),
{
    lemma_stages();
    lemma_session(state, tables, 11);
    lemma_goes_through(state, tables, 11);
    let all = table_of::<CurrentBgpConnection>(tables[11])->Ok_0;
    let plan = plan_of::<BgpConnections>(all, state.bgp_connections);
    let own = exclusive_requests::<DesiredBgpConnection>(plan);
    let others = Seq::<RequestView>::empty();
    assert(step_at(state, tables, 11).requests =~= own + others);
    let ids = lemma_left_behind(state, tables, new_ids, 11, own, others);
    law_bgp_connections_settle(tables[11], all, state.bgp_connections, ids);
    let now = table_of::<CurrentBgpConnection>(left_behind(state, tables, new_ids)[11])->Ok_0;
    let current = now;
    let next = plan_of::<BgpConnections>(current, state.bgp_connections);
    law_empty_plan_is_silent::<CurrentBgpConnection, DesiredBgpConnection>(
        t.report,
        "routing bgp connection"@,
        current,
        next,
    );
    assert(exclusive_requests::<DesiredBgpConnection>(next) =~= Seq::<RequestView>::empty());
}

proof fn lemma_bridge_again(
    state: DesiredStateView,
    tables: Seq<Seq<RowView>>,
    new_ids: Seq<Seq<char>>,
    t: SessionView,
)
    requires
        can_converge(state, tables, new_ids),
        t.desired == state,
        t.stage == stage_at(2),
    ensures
        step_of(t, left_behind(state, tables, new_ids)[2]) == Ok::<StepView, ErrorView>(nothing(t)),
{
    lemma_stages();
    lemma_session(state, tables, 2);
    lemma_goes_through(state, tables, 2);
    let d = state.loopback_bridge;
    let found = singleton_row(tables[2], d.name, bridge_of(d.name))->Ok_0;
    let own = singleton_requests::<DesiredBridge>(singleton_of(found, d));
    let none = Seq::<RequestView>::empty();
    assert(step_at(state, tables, 2).requests =~= own + none);
    let ids = lemma_left_behind(state, tables, new_ids, 2, own, none);
    law_bridge_settles(tables[2], found, d, ids);
}

proof fn lemma_ospf_instance_again(
    state: DesiredStateView,
    tables: Seq<Seq<RowView>>,
    new_ids: Seq<Seq<char>>,
    t: SessionView,
)
    requires
        can_converge(state, tables, new_ids),
        t.desired == state,
        t.stage == stage_at(6),
    ensures
        step_of(t, left_behind(state, tables, new_ids)[6]) == Ok::<StepView, ErrorView>(nothing(t)),
{
    lemma_stages();
    lemma_session(state, tables, 6);
    lemma_goes_through(state, tables, 6);
    let d = state.ospf_instance;
    let found = singleton_row(tables[6], d.name, ospf_instance_of(d.name))->Ok_0;
    let own = singleton_requests::<DesiredOspfInstance>(singleton_of(found, d));
    let none = Seq::<RequestView>::empty();
    assert(step_at(state, tables, 6).requests =~= own + none);
    let ids = lemma_left_behind(state, tables, new_ids, 6, own, none);
    law_ospf_instance_settles(tables[6], found, d, ids);
}

proof fn lemma_ospf_area_again(
    state: DesiredStateView,
    tables: Seq<Seq<RowView>>,
    new_ids: Seq<Seq<char>>,
    t: SessionView,
)
    requires
        can_converge(state, tables, new_ids),
        t.desired == state,
        t.stage == stage_at(7),
    ensures
        step_of(t, left_behind(state, tables, new_ids)[7]) == Ok::<StepView, ErrorView>(nothing(t)),
{
    lemma_stages();
    lemma_session(state, tables, 7);
    lemma_goes_through(state, tables, 7);
    let d = state.ospf_area;
    let found = singleton_row(tables[7], d.name, ospf_area_of(d.name))->Ok_0;
    let own = singleton_requests::<DesiredOspfArea>(singleton_of(found, d));
    let none = Seq::<RequestView>::empty();
    assert(step_at(state, tables, 7).requests =~= own + none);
    let ids = lemma_left_behind(state, tables, new_ids, 7, own, none);
    law_ospf_area_settles(tables[7], found, d, ids);
}

proof fn lemma_bgp_instance_again(
    state: DesiredStateView,
    tables: Seq<Seq<RowView>>,
    new_ids: Seq<Seq<char>>,
    t: SessionView,
)
    requires
        can_converge(state, tables, new_ids),
        t.desired == state,
        t.stage == stage_at(10),
    ensures
        step_of(
            t,
            left_behind(state, tables, new_ids)[10],
        ) == Ok::<StepView, ErrorView>(nothing(t)),
{
    lemma_stages();
    lemma_session(state, tables, 10);
    lemma_goes_through(state, tables, 10);
    let d = state.bgp_instance;
    let found = singleton_row(tables[10], d.name, bgp_instance_of(d.name))->Ok_0;
    let own = singleton_requests::<DesiredBgpInstance>(singleton_of(found, d));
    let none = Seq::<RequestView>::empty();
    assert(step_at(state, tables, 10).requests =~= own + none);
    let ids = lemma_left_behind(state, tables, new_ids, 10, own, none);
    law_bgp_instance_settles(tables[10], found, d, ids);
}

/// A table to which only the requests in front write, and the last of another part, is what they
/// make of it.
proof fn lemma_front_and_part(
    path: Seq<char>,
    rows: Seq<RowView>,
    requests: Seq<RequestView>,
    new_ids: Seq<Seq<char>>,
    front: Seq<RequestView>,
    from: int,
    others: Seq<RequestView>,
    own: Seq<RequestView>,
) -> (ids: Seq<Seq<char>>)
    requires
        front.len() <= from,
        from + (others + own).len() <= requests.len(),
        new_ids.len() == requests.len(),
        front == requests.subrange(0, front.len() as int),
        others + own == requests.subrange(from, from + (others + own).len()),
        forall|i: int|
            front.len() <= i < from || from + (others + own).len() <= i < requests.len()
                ==> !writes_to(path, #[trigger] requests[i]),
        forall|i: int| 0 <= i < others.len() ==> !writes_to(path, #[trigger] others[i]),
        gives_new_ids(path, rows, requests, new_ids),
    ensures
        ids.len() == (front + own).len(),
        gives_new_ids(path, rows, front + own, ids),
        carried_out(path, rows, requests, new_ids, requests.len() as int) == carried_out(
            path,
            rows,
            front + own,
            ids,
            (front + own).len() as int,
        ),
{
    let part = others + own;
    let second = from + others.len();
    let last = second + own.len();
    assert forall|i: int| 0 <= i < part.len() implies #[trigger] part[i] == requests[from + i] by {}
    assert(own =~= requests.subrange(second, last)) by {
        assert forall|i: int| 0 <= i < own.len() implies own[i] == requests[second + i] by {
            assert(part[others.len() + i] == own[i]);
        }
    }
    assert forall|i: int|
        front.len() <= i < second || last <= i < requests.len() implies !writes_to(
        path,
        #[trigger] requests[i],
    ) by {
        if from <= i < second {
            assert(part[i - from] == others[i - from]);
        }
    }
    lemma_two_parts(path, rows, requests, new_ids, 0, front, second, own);
    new_ids.subrange(0, front.len() as int) + new_ids.subrange(second, last)
}

/// The list members are written at two stages, and are what both make of them.
proof fn lemma_members_left_behind(
    state: DesiredStateView,
    tables: Seq<Seq<RowView>>,
    new_ids: Seq<Seq<char>>,
    stale: Seq<RequestView>,
    peers: Seq<RequestView>,
    fresh: Seq<RequestView>,
) -> (ids: Seq<Seq<char>>)
    requires
        is_first_run(state, tables, new_ids),
        step_at(state, tables, 0).requests == stale,
        step_at(state, tables, 5).requests == peers + fresh,
        forall|i: int| 0 <= i < peers.len() ==> !writes_to(path_at(0), #[trigger] peers[i]),
    ensures
        ids.len() == (stale + fresh).len(),
        gives_new_ids(path_at(0), tables[0], stale + fresh, ids),
        left_behind(state, tables, new_ids)[0] == carried_out(
            path_at(0),
            tables[0],
            stale + fresh,
            ids,
            (stale + fresh).len() as int,
        ),
{
    let path = path_at(0);
    let requests = run(begun(state, true), tables)->Ok_0.1;
    lemma_other_stages(0);
    lemma_session(state, tables, 0);
    lemma_place(state, tables, 0);
    lemma_between(state, tables, 1, 5, path);
    lemma_place(state, tables, 5);
    lemma_between(state, tables, 6, 12, path);
    assert(gives_new_ids(path, tables[0], requests, new_ids));
    lemma_front_and_part(
        path,
        tables[0],
        requests,
        new_ids,
        stale,
        sent_at(state, tables, 5).len() as int,
        peers,
        fresh,
    )
}

proof fn lemma_list_members_again(
    state: DesiredStateView,
    tables: Seq<Seq<RowView>>,
    new_ids: Seq<Seq<char>>,
    t: SessionView,
)
    requires
        can_converge(state, tables, new_ids),
        t.desired == state,
        t.stage == stage_at(0),
    ensures
        step_of(t, left_behind(state, tables, new_ids)[0]) matches Ok(step) && {
            &&& step.report == t.report
            &&& step.requests.len() == 0
            &&& step.members.is_empty()
        },
{
    lemma_stages();
    lemma_session(state, tables, 0);
    lemma_goes_through(state, tables, 0);
    lemma_session(state, tables, 5);
    lemma_goes_through(state, tables, 5);
    let names = interface_names(state.wireguard_interfaces);
    let all = table_of::<CurrentListMember>(tables[0])->Ok_0;
    let plan = plan_of::<ListMembers>(all.filter(list_member_is_ours(names)), state.list_members);
    let peers = table_of::<CurrentWireguardPeer>(tables[5])->Ok_0;
    let peer_plan = plan_of::<WireguardPeers>(peers, state.wireguard_peers);
    assert(step_at(state, tables, 0).members == plan);
    lemma_paths(Stage::ListMembers, Stage::WireguardPeers);
    lemma_plan_elsewhere::<DesiredWireguardPeer>(peer_plan, path_at(0));
    let ids = lemma_members_left_behind(
        state,
        tables,
        new_ids,
        stale_members(plan),
        exclusive_requests::<DesiredWireguardPeer>(peer_plan),
        fresh_members(plan),
    );
    law_list_members_settle(tables[0], all, state.list_members, ids, names);
    let now = table_of::<CurrentListMember>(left_behind(state, tables, new_ids)[0])->Ok_0;
    let current = now.filter(list_member_is_ours(names));
    law_empty_plan_is_silent::<CurrentListMember, DesiredListMember>(
        t.report,
        "interface list member"@,
        current,
        plan_of::<ListMembers>(current, state.list_members),
    );
}

/// What a run still finds to do to the addresses in a table of `/ipv6/address`.
spec fn addresses_again(state: DesiredStateView, rows: Seq<RowView>) -> PlanView<
    DesiredIpv6AddressView,
> {
    let now = table_of::<CurrentIpv6Address>(rows)->Ok_0;
    plan_of::<Ipv6Addresses>(
        now.filter(ipv6_address_is_ours(our_names(state))),
        state.ip_v6_addresses,
    )
}

proof fn lemma_ipv6_addresses_again(
    state: DesiredStateView,
    tables: Seq<Seq<RowView>>,
    new_ids: Seq<Seq<char>>,
    t: SessionView,
)
    requires
        can_converge(state, tables, new_ids),
        t.desired == state,
        t.stage == stage_at(4),
    ensures
        ({
            let rows = left_behind(state, tables, new_ids)[4];
            let next = addresses_again(state, rows);
            &&& step_of(t, rows) matches Ok(step) && {
                &&& step.requests == add_requests::<DesiredIpv6Address>(next.add)
                &&& step.members == t.members
                &&& step.report.added == t.report.added + next.add.len()
                &&& step.report.updated == t.report.updated
                &&& step.report.removed == t.report.removed
                &&& next.add.len() == 0 ==> step.report == t.report
            }
            &&& forall|k: int|
                0 <= k < next.add.len() ==> state.ip_v6_addresses.contains(#[trigger] next.add[k])
                    && is_link_local_entry(next.add[k].address)
            &&& no_link_local(state.ip_v6_addresses) ==> next.add.len() == 0
        }),
{
    lemma_stages();
    lemma_session(state, tables, 4);
    lemma_goes_through(state, tables, 4);
    let keep = ipv6_address_is_ours(our_names(state));
    let all = table_of::<CurrentIpv6Address>(tables[4])->Ok_0;
    let plan = plan_of::<Ipv6Addresses>(all.filter(keep), state.ip_v6_addresses);
    let own = shared_requests::<DesiredIpv6Address>(plan);
    let none = Seq::<RequestView>::empty();
    assert(step_at(state, tables, 4).requests =~= own + none);
    let ids = lemma_left_behind(state, tables, new_ids, 4, own, none);
    law_ipv6_addresses_settle(tables[4], all, state.ip_v6_addresses, ids, our_names(state));
    let rows = left_behind(state, tables, new_ids)[4];
    let current = table_of::<CurrentIpv6Address>(rows)->Ok_0.filter(keep);
    let next = addresses_again(state, rows);
    assert(shared_requests::<DesiredIpv6Address>(next) =~= add_requests::<DesiredIpv6Address>(
        next.add,
    ));
    if next.add.len() == 0 {
        law_empty_plan_is_silent::<CurrentIpv6Address, DesiredIpv6Address>(
            t.report,
            "ipv6 address"@,
            current,
            next,
        );
    }
}

/// How far a second run has come once the first `k` tables have been read.
spec fn is_again(
    state: DesiredStateView,
    after: Seq<Seq<RowView>>,
    k: int,
    t: SessionView,
    sent: Seq<RequestView>,
) -> bool {
    let add = addresses_again(state, after[4]).add;
    &&& t.desired == state
    &&& t.apply
    &&& t.stage == stage_at(k)
    &&& t.members.is_empty()
    &&& k <= 4 ==> sent.len() == 0 && t.report == empty_report()
    &&& k > 4 ==> {
        &&& sent == add_requests::<DesiredIpv6Address>(add)
        &&& t.report.added == add.len()
        &&& t.report.updated == 0
        &&& t.report.removed == 0
        &&& add.len() == 0 ==> t.report == empty_report()
    }
}

/// What a stage of a second run comes to.
proof fn lemma_stage_again(
    state: DesiredStateView,
    tables: Seq<Seq<RowView>>,
    new_ids: Seq<Seq<char>>,
    k: int,
    t: SessionView,
    sent: Seq<RequestView>,
)
    requires
        can_converge(state, tables, new_ids),
        0 <= k < 12,
        is_again(state, left_behind(state, tables, new_ids), k, t, sent),
    ensures
        ({
            let after = left_behind(state, tables, new_ids);
            step_of(t, after[k]) matches Ok(step) && is_again(
                state,
                after,
                k + 1,
                advanced(t, step),
                sent + step.requests,
            )
        }),
{
    let after = left_behind(state, tables, new_ids);
    if k == 0 {
        lemma_list_members_again(state, tables, new_ids, t);
    } else if k == 4 {
        lemma_ipv6_addresses_again(state, tables, new_ids, t);
        let step = step_of(t, after[4])->Ok_0;
        assert(sent + step.requests =~= step.requests);
    } else {
        if k == 1 {
            lemma_wireguard_interfaces_again(state, tables, new_ids, t);
        } else if k == 2 {
            lemma_bridge_again(state, tables, new_ids, t);
        } else if k == 3 {
            lemma_ip_addresses_again(state, tables, new_ids, t);
        } else if k == 5 {
            lemma_wireguard_peers_again(state, tables, new_ids, t);
        } else if k == 6 {
            lemma_ospf_instance_again(state, tables, new_ids, t);
        } else if k == 7 {
            lemma_ospf_area_again(state, tables, new_ids, t);
        } else if k == 8 {
            lemma_ospf_interface_templates_again(state, tables, new_ids, t);
        } else if k == 9 {
            lemma_bgp_networks_again(state, tables, new_ids, t);
        } else if k == 10 {
            lemma_bgp_instance_again(state, tables, new_ids, t);
        } else {
            lemma_bgp_connections_again(state, tables, new_ids, t);
        }
        assert(sent + Seq::<RequestView>::empty() =~= sent);
    }
}

proof fn lemma_run_again(
    state: DesiredStateView,
    tables: Seq<Seq<RowView>>,
    new_ids: Seq<Seq<char>>,
    k: int,
)
    requires
        can_converge(state, tables, new_ids),
        0 <= k <= 12,
    ensures
        ({
            let after = left_behind(state, tables, new_ids);
            run(begun(state, true), after.take(k)) matches Ok((t, sent)) && is_again(
                state,
                after,
                k,
                t,
                sent,
            )
        }),
    decreases k,
{
    let after = left_behind(state, tables, new_ids);
    if k > 0 {
        lemma_run_again(state, tables, new_ids, k - 1);
        assert(after.take(k).drop_last() =~= after.take(k - 1));
        assert(after.take(k).last() == after[k - 1]);
        let (t, sent) = run(begun(state, true), after.take(k - 1))->Ok_0;
        lemma_stage_again(state, tables, new_ids, k - 1, t, sent);
    }
}

/// Whether a request adds a link-local address that should be there.
pub open spec fn adds_link_local(state: DesiredStateView, request: RequestView) -> bool {
    exists|j: int|
        0 <= j < state.ip_v6_addresses.len() && is_link_local_entry(
            (#[trigger] state.ip_v6_addresses[j]).address,
        ) && request == add_request(
            DesiredIpv6Address::path(),
            DesiredIpv6Address::to_add(state.ip_v6_addresses[j]),
        )
}

/// Whether a run with these tables goes through and finds nothing to do. A run never takes a
/// link-local address for its own, so it adds those that should be there whatever it reads: it
/// sends nothing else, and reports no update, no removal and as many additions as it sends. Where
/// no link-local address should be there it sends nothing at all, and its report is empty.
pub open spec fn is_silent(state: DesiredStateView, tables: Seq<Seq<RowView>>) -> bool {
    run(begun(state, true), tables) matches Ok((t, sent)) && {
        &&& t.stage == Stage::Finished
        &&& forall|i: int| 0 <= i < sent.len() ==> adds_link_local(state, #[trigger] sent[i])
        &&& t.report.added == sent.len()
        &&& t.report.updated == 0
        &&& t.report.removed == 0
        &&& sent.len() == 0 ==> t.report == empty_report()
        &&& no_link_local(state.ip_v6_addresses) ==> sent.len() == 0
    }
}

/// A second run, which reads the tables as the first one has left them, finds nothing to do, but
/// for link-local addresses.
pub proof fn law_second_run_is_silent(
    state: DesiredStateView,
    tables: Seq<Seq<RowView>>,
    new_ids: Seq<Seq<char>>,
)
    requires
        can_converge(state, tables, new_ids),
    ensures
        is_silent(state, left_behind(state, tables, new_ids)),
{
    let after = left_behind(state, tables, new_ids);
    lemma_run_again(state, tables, new_ids, 4);
    lemma_ipv6_addresses_again(
        state,
        tables,
        new_ids,
        run(begun(state, true), after.take(4))->Ok_0.0,
    );
    lemma_run_again(state, tables, new_ids, 12);
    assert(after.take(12) =~= after);
    lemma_stages();
    let add = addresses_again(state, after[4]).add;
    let sent = run(begun(state, true), after)->Ok_0.1;
    assert forall|i: int| 0 <= i < sent.len() implies adds_link_local(
        state,
        #[trigger] sent[i],
    ) by {
        assert(state.ip_v6_addresses.contains(add[i]));
        let j = choose|j: int|
            0 <= j < state.ip_v6_addresses.len() && state.ip_v6_addresses[j] == add[i];
        assert(is_link_local_entry(state.ip_v6_addresses[j].address));
    }
}

/// What a node's documents ask for is found by a second run to be there, but for link-local
/// addresses.
pub proof fn law_second_run_of_a_node_is_silent(
    awg: AwgConfigView,
    router: RouterConfigView,
    connected: Seq<(Seq<char>, Seq<char>)>,
    state: DesiredStateView,
    tables: Seq<Seq<RowView>>,
    new_ids: Seq<Seq<char>>,
)
    requires
        desired_of(awg, router, connected) == Ok::<DesiredStateView, ErrorView>(state),
        is_first_run(state, tables, new_ids),
        tables_can_settle(state, tables),
    ensures
        is_silent(state, left_behind(state, tables, new_ids)),
{
    law_desired_rows_are_read_back(awg, router, connected);
    law_second_run_is_silent(state, tables, new_ids);
}

} // verus!
