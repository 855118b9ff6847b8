//! What the plan of each table comes to, stated on the fields of its rows.
//!
//! A row that should not be there is removed, one that is not what it should be is updated, and one
//! that is missing is added; nothing else is done.

use crate::diff::{
    BgpConnections, BgpNetworks, IpAddresses, Ipv6Addresses, ListMembers, OspfInterfaceTemplates,
    WireguardInterfaces, WireguardPeers,
};
use crate::keys::same_private_key;
use crate::plan::{
    additions, is_new, lemma_wish, plan_of, removals, stays, updates, wish, PlanView, Table,
};
use crate::rows::{
    CurrentAddressListEntryView, CurrentBgpConnectionView, CurrentIpAddressView,
    CurrentIpv6AddressView, CurrentListMemberView, CurrentOspfInterfaceTemplateView,
    CurrentWireguardInterfaceView, CurrentWireguardPeerView, DesiredAddressListEntryView,
    DesiredBgpConnectionView, DesiredIpAddressView, DesiredIpv6AddressView, DesiredListMemberView,
    DesiredOspfInterfaceTemplateView, DesiredWireguardInterfaceView, DesiredWireguardPeerView,
};
use vstd::prelude::*;

verus! {

/// What a table's rows are found by, and when one is what it should be.
#[verifier::reject_recursive_types(C)]
#[verifier::reject_recursive_types(D)]
pub struct Rule<C, D, K> {
    pub id: spec_fn(C) -> Seq<char>,
    pub current_key: spec_fn(C) -> K,
    pub desired_key: spec_fn(D) -> K,
    /// Whether a row with the key of a desired one is that in all other fields too.
    pub equal: spec_fn(C, D) -> bool,
}

/// Whether the desired row `j` is the last with its key.
pub open spec fn stands<C, D, K>(rule: Rule<C, D, K>, desired: Seq<D>, j: int) -> bool {
    &&& 0 <= j < desired.len()
    &&& forall|k: int|
        j < k < desired.len() ==> (rule.desired_key)(#[trigger] desired[k]) != (rule.desired_key)(
            desired[j],
        )
}

/// Whether the current row `i` is the first with its key.
pub open spec fn leads<C, D, K>(rule: Rule<C, D, K>, current: Seq<C>, i: int) -> bool {
    &&& 0 <= i < current.len()
    &&& forall|k: int|
        0 <= k < i ==> (rule.current_key)(#[trigger] current[k]) != (rule.current_key)(current[i])
}

/// Whether a desired row has the key of this one.
pub open spec fn is_wanted<C, D, K>(rule: Rule<C, D, K>, desired: Seq<D>, c: C) -> bool {
    exists|j: int|
        0 <= j < desired.len() && (rule.desired_key)(#[trigger] desired[j]) == (rule.current_key)(c)
}

/// Whether a current row has the key of this one.
pub open spec fn is_there<C, D, K>(rule: Rule<C, D, K>, current: Seq<C>, d: D) -> bool {
    exists|i: int|
        0 <= i < current.len() && (rule.current_key)(#[trigger] current[i]) == (rule.desired_key)(d)
}

/// Whether the current row `i` should not be there: no desired row has its key, or a row in front
/// of it has the same one.
pub open spec fn goes<C, D, K>(
    rule: Rule<C, D, K>,
    current: Seq<C>,
    desired: Seq<D>,
    i: int,
) -> bool {
    &&& 0 <= i < current.len()
    &&& !is_wanted(rule, desired, current[i]) || !leads(rule, current, i)
}

/// Whether the current row `i` should be the desired row `j` and is not.
pub open spec fn differs<C, D, K>(
    rule: Rule<C, D, K>,
    current: Seq<C>,
    desired: Seq<D>,
    i: int,
    j: int,
) -> bool {
    &&& leads(rule, current, i)
    &&& stands(rule, desired, j)
    &&& (rule.current_key)(current[i]) == (rule.desired_key)(desired[j])
    &&& !(rule.equal)(current[i], desired[j])
}

/// Whether a row with this id should not be there.
pub open spec fn is_removal<C, D, K>(
    rule: Rule<C, D, K>,
    current: Seq<C>,
    desired: Seq<D>,
    id: Seq<char>,
) -> bool {
    exists|i: int| #[trigger] goes(rule, current, desired, i) && (rule.id)(current[i]) == id
}

/// Whether the row with this id should be this desired one and is not.
pub open spec fn is_update<C, D, K>(
    rule: Rule<C, D, K>,
    current: Seq<C>,
    desired: Seq<D>,
    u: (Seq<char>, D),
) -> bool {
    exists|i: int, j: int| #[trigger]
        differs(rule, current, desired, i, j) && u == ((rule.id)(current[i]), desired[j])
}

/// Whether a plan removes exactly the rows that should not be there, updates exactly those that
/// are not what they should be, each to that, and adds exactly those that are missing, each key
/// once. With distinct ids it does only one thing to a row.
pub open spec fn is_right_plan<C, D, K>(
    rule: Rule<C, D, K>,
    current: Seq<C>,
    desired: Seq<D>,
    plan: PlanView<D>,
) -> bool {
    &&& forall|i: int| #[trigger] goes(rule, current, desired, i) ==> plan.remove.contains(
        (rule.id)(current[i]),
    )
    &&& forall|k: int|
        0 <= k < plan.remove.len() ==> is_removal(rule, current, desired, #[trigger] plan.remove[k])
    &&& forall|i: int, j: int| #[trigger]
        differs(rule, current, desired, i, j) ==> plan.update.contains(
            ((rule.id)(current[i]), desired[j]),
        )
    &&& forall|k: int|
        0 <= k < plan.update.len() ==> is_update(rule, current, desired, #[trigger] plan.update[k])
    &&& forall|j: int| #[trigger]
        stands(rule, desired, j) && !is_there(rule, current, desired[j]) ==> plan.add.contains(
            desired[j],
        )
    &&& forall|k: int|
        0 <= k < plan.add.len() ==> !is_there(rule, current, #[trigger] plan.add[k]) && exists|
            j: int,
        | #[trigger]
            stands(rule, desired, j) && desired[j] == plan.add[k]
    &&& forall|k: int, m: int|
        0 <= k < m < plan.add.len() ==> (rule.desired_key)(#[trigger] plan.add[k]) != (
        rule.desired_key)(#[trigger] plan.add[m])
    &&& plan.remove.len() + plan.update.len() <= current.len()
}

/// Where a plan is empty each desired row that is the last with its key is there, as it should be,
/// and no other row is there.
pub open spec fn is_all_there<C, D, K>(
    rule: Rule<C, D, K>,
    current: Seq<C>,
    desired: Seq<D>,
) -> bool {
    &&& forall|j: int| #[trigger]
        stands(rule, desired, j) ==> exists|i: int|
            0 <= i < current.len() && (rule.current_key)(#[trigger] current[i]) == (
            rule.desired_key)(desired[j]) && (rule.equal)(current[i], desired[j])
    &&& forall|i: int|
        0 <= i < current.len() ==> leads(rule, current, i) && is_wanted(
            rule,
            desired,
            #[trigger] current[i],
        )
}

proof fn lemma_all_there<C, D, K>(
    rule: Rule<C, D, K>,
    current: Seq<C>,
    desired: Seq<D>,
    plan: PlanView<D>,
)
    requires
        is_right_plan(rule, current, desired, plan),
        plan.is_empty(),
    ensures
        is_all_there(rule, current, desired),
{
    assert forall|i: int| 0 <= i < current.len() implies leads(rule, current, i) && is_wanted(
        rule,
        desired,
        #[trigger] current[i],
    ) by {
        if goes(rule, current, desired, i) {
            assert(plan.remove.contains((rule.id)(current[i])));
        }
    }
    assert forall|j: int| #[trigger] stands(rule, desired, j) implies exists|i: int|
        0 <= i < current.len() && (rule.current_key)(#[trigger] current[i]) == (rule.desired_key)(
            desired[j],
        ) && (rule.equal)(current[i], desired[j]) by {
        if !is_there(rule, current, desired[j]) {
            assert(plan.add.contains(desired[j]));
        }
        let i = choose|i: int|
            0 <= i < current.len() && (rule.current_key)(#[trigger] current[i]) == (
            rule.desired_key)(desired[j]);
        assert(leads(rule, current, i) && is_wanted(rule, desired, current[i]));
        if differs(rule, current, desired, i, j) {
            assert(plan.update.contains(((rule.id)(current[i]), desired[j])));
        }
    }
}

/// Whether a rule is that of a table.
spec fn is_rule_of<T: Table>(rule: Rule<T::CurrentView, T::DesiredView, T::Key>) -> bool {
    &&& forall|c: T::CurrentView| #[trigger] (rule.id)(c) == T::row_id(c)
    &&& forall|c: T::CurrentView| #[trigger] (rule.current_key)(c) == T::current_key(c)
    &&& forall|d: T::DesiredView| #[trigger] (rule.desired_key)(d) == T::desired_key(d)
    &&& forall|c: T::CurrentView, d: T::DesiredView| #[trigger]
        (rule.equal)(c, d) == T::settled(c, d)
}

proof fn lemma_stands<T: Table>(
    rule: Rule<T::CurrentView, T::DesiredView, T::Key>,
    desired: Seq<T::DesiredView>,
    j: int,
)
    requires
        is_rule_of::<T>(rule),
        0 <= j < desired.len(),
    ensures
        stands(rule, desired, j) == (wish::<T>(desired, T::desired_key(desired[j])) == j),
{
    let key = T::desired_key(desired[j]);
    lemma_wish::<T>(desired, key, desired.len() as int);
    let w = wish::<T>(desired, key);
    assert((rule.desired_key)(desired[j]) == key);
    if w == j {
        assert forall|k: int| j < k < desired.len() implies (rule.desired_key)(
            #[trigger] desired[k],
        ) != (rule.desired_key)(desired[j]) by {
            assert((rule.desired_key)(desired[k]) == T::desired_key(desired[k]));
        }
    } else {
        assert((rule.desired_key)(desired[w]) == T::desired_key(desired[w]));
        assert(j <= w);
    }
}

proof fn lemma_goes<T: Table>(
    rule: Rule<T::CurrentView, T::DesiredView, T::Key>,
    current: Seq<T::CurrentView>,
    desired: Seq<T::DesiredView>,
    i: int,
)
    requires
        is_rule_of::<T>(rule),
        0 <= i < current.len(),
    ensures
        goes(rule, current, desired, i) == !stays::<T>(current, desired, i),
        stays::<T>(current, desired, i) ==> leads(rule, current, i) && stands(
            rule,
            desired,
            wish::<T>(desired, T::current_key(current[i])),
        ) && T::desired_key(desired[wish::<T>(desired, T::current_key(current[i]))])
            == T::current_key(current[i]),
{
    let key = T::current_key(current[i]);
    lemma_wish::<T>(desired, key, desired.len() as int);
    let w = wish::<T>(desired, key);
    assert((rule.current_key)(current[i]) == key);
    assert forall|k: int| 0 <= k < current.len() implies (rule.current_key)(#[trigger] current[k])
        == T::current_key(current[k]) by {}
    assert forall|k: int| 0 <= k < desired.len() implies (rule.desired_key)(#[trigger] desired[k])
        == T::desired_key(desired[k]) by {}
    if w >= 0 {
        assert((rule.desired_key)(desired[w]) == key);
        lemma_stands::<T>(rule, desired, w);
    }
}

proof fn lemma_touched_rows<T: Table>(
    rule: Rule<T::CurrentView, T::DesiredView, T::Key>,
    current: Seq<T::CurrentView>,
    desired: Seq<T::DesiredView>,
    n: int,
)
    requires
        is_rule_of::<T>(rule),
        0 <= n <= current.len(),
    ensures
        ({
            let remove = removals::<T>(current, desired, n);
            let update = updates::<T>(current, desired, n);
            &&& forall|i: int|
                i < n && #[trigger] goes(rule, current, desired, i) ==> remove.contains(
                    (rule.id)(current[i]),
                )
            &&& forall|k: int|
                0 <= k < remove.len() ==> is_removal(rule, current, desired, #[trigger] remove[k])
            &&& forall|i: int, j: int|
                i < n && #[trigger] differs(rule, current, desired, i, j) ==> update.contains(
                    ((rule.id)(current[i]), desired[j]),
                )
            &&& forall|k: int|
                0 <= k < update.len() ==> is_update(rule, current, desired, #[trigger] update[k])
            &&& remove.len() + update.len() <= n
        }),
    decreases n,
{
    if n > 0 {
        lemma_touched_rows::<T>(rule, current, desired, n - 1);
        let c = current[n - 1];
        let key = T::current_key(c);
        let w = wish::<T>(desired, key);
        lemma_goes::<T>(rule, current, desired, n - 1);
        lemma_wish::<T>(desired, key, desired.len() as int);
        let remove_before = removals::<T>(current, desired, n - 1);
        let update_before = updates::<T>(current, desired, n - 1);
        let remove = removals::<T>(current, desired, n);
        let update = updates::<T>(current, desired, n);
        assert((rule.id)(c) == T::row_id(c));
        assert((rule.current_key)(c) == key);
        assert forall|i: int|
            i < n && #[trigger] goes(rule, current, desired, i) implies remove.contains(
            (rule.id)(current[i]),
        ) by {
            if i == n - 1 {
                assert(remove[remove_before.len() as int] == (rule.id)(current[i]));
            } else {
                let m = choose|m: int|
                    0 <= m < remove_before.len() && remove_before[m] == (rule.id)(current[i]);
                assert(remove[m] == remove_before[m]);
            }
        }
        assert forall|k: int| 0 <= k < remove.len() implies is_removal(
            rule,
            current,
            desired,
            #[trigger] remove[k],
        ) by {
            if k < remove_before.len() {
                assert(remove[k] == remove_before[k]);
            } else {
                assert(goes(rule, current, desired, n - 1));
            }
        }
        assert forall|i: int, j: int|
            i < n && #[trigger] differs(rule, current, desired, i, j) implies update.contains(
            ((rule.id)(current[i]), desired[j]),
        ) by {
            let u = ((rule.id)(current[i]), desired[j]);
            if i == n - 1 {
                assert((rule.desired_key)(desired[j]) == T::desired_key(desired[j]));
                lemma_stands::<T>(rule, desired, j);
                assert(w == j);
                assert(is_wanted(rule, desired, c));
                assert(stays::<T>(current, desired, n - 1));
                assert((rule.equal)(c, desired[j]) == T::settled(c, desired[j]));
                assert(update[update_before.len() as int] == u);
            } else {
                let m = choose|m: int| 0 <= m < update_before.len() && update_before[m] == u;
                assert(update[m] == update_before[m]);
            }
        }
        assert forall|k: int| 0 <= k < update.len() implies is_update(
            rule,
            current,
            desired,
            #[trigger] update[k],
        ) by {
            if k < update_before.len() {
                assert(update[k] == update_before[k]);
            } else {
                assert((rule.desired_key)(desired[w]) == T::desired_key(desired[w]));
                assert((rule.equal)(c, desired[w]) == T::settled(c, desired[w]));
                assert(differs(rule, current, desired, n - 1, w));
            }
        }
    }
}

proof fn lemma_added_rows<T: Table>(
    rule: Rule<T::CurrentView, T::DesiredView, T::Key>,
    current: Seq<T::CurrentView>,
    desired: Seq<T::DesiredView>,
    n: int,
)
    requires
        is_rule_of::<T>(rule),
        0 <= n <= desired.len(),
    ensures
        ({
            let add = additions::<T>(current, desired, n);
            &&& forall|j: int|
                j < n && #[trigger] stands(rule, desired, j) && !is_there(
                    rule,
                    current,
                    desired[j],
                ) ==> add.contains(desired[j])
            &&& forall|k: int|
                0 <= k < add.len() ==> !is_there(rule, current, #[trigger] add[k]) && exists|
                    j: int,
                |
                    j < n && #[trigger] stands(rule, desired, j) && desired[j] == add[k]
            &&& forall|k: int, m: int|
                0 <= k < m < add.len() ==> (rule.desired_key)(#[trigger] add[k]) != (
                rule.desired_key)(#[trigger] add[m])
        }),
    decreases n,
{
    if n > 0 {
        lemma_added_rows::<T>(rule, current, desired, n - 1);
        let d = desired[n - 1];
        lemma_stands::<T>(rule, desired, n - 1);
        assert((rule.desired_key)(d) == T::desired_key(d));
        assert forall|k: int| 0 <= k < current.len() implies (rule.current_key)(
            #[trigger] current[k],
        ) == T::current_key(current[k]) by {}
        assert(is_new::<T>(current, desired, n - 1) == (stands(rule, desired, n - 1) && !is_there(
            rule,
            current,
            d,
        )));
        let before = additions::<T>(current, desired, n - 1);
        let add = additions::<T>(current, desired, n);
        assert forall|j: int|
            j < n && #[trigger] stands(rule, desired, j) && !is_there(
                rule,
                current,
                desired[j],
            ) implies add.contains(desired[j]) by {
            if j == n - 1 {
                assert(add[before.len() as int] == desired[j]);
            } else {
                let m = choose|m: int| 0 <= m < before.len() && before[m] == desired[j];
                assert(add[m] == before[m]);
            }
        }
        assert forall|k: int| 0 <= k < add.len() implies !is_there(
            rule,
            current,
            #[trigger] add[k],
        ) && exists|j: int|
            j < n && #[trigger] stands(rule, desired, j) && desired[j] == add[k] by {
            if k < before.len() {
                assert(add[k] == before[k]);
                let j = choose|j: int|
                    j < n - 1 && #[trigger] stands(rule, desired, j) && desired[j] == before[k];
                assert(j < n && stands(rule, desired, j) && desired[j] == add[k]);
            } else {
                assert(stands(rule, desired, n - 1));
            }
        }
        assert forall|k: int, m: int| 0 <= k < m < add.len() implies (rule.desired_key)(
            #[trigger] add[k],
        ) != (rule.desired_key)(#[trigger] add[m]) by {
            assert(add[k] == before[k]);
            if m < before.len() {
                assert(add[m] == before[m]);
            } else {
                let j = choose|j: int|
                    j < n - 1 && #[trigger] stands(rule, desired, j) && desired[j] == before[k];
                assert((rule.desired_key)(desired[n - 1]) != (rule.desired_key)(desired[j]));
            }
        }
    }
}

proof fn lemma_right_plan<T: Table>(
    rule: Rule<T::CurrentView, T::DesiredView, T::Key>,
    current: Seq<T::CurrentView>,
    desired: Seq<T::DesiredView>,
)
    requires
        is_rule_of::<T>(rule),
    ensures
        is_right_plan(rule, current, desired, plan_of::<T>(current, desired)),
        plan_of::<T>(current, desired).is_empty() ==> is_all_there(rule, current, desired),
{
    lemma_touched_rows::<T>(rule, current, desired, current.len() as int);
    lemma_added_rows::<T>(rule, current, desired, desired.len() as int);
    if plan_of::<T>(current, desired).is_empty() {
        lemma_all_there(rule, current, desired, plan_of::<T>(current, desired));
    }
}

/// A row of `/interface/wireguard` is found by its name, and is what it should be where it is so in
/// every other field.
pub open spec fn wireguard_interface_rule() -> Rule<
    CurrentWireguardInterfaceView,
    DesiredWireguardInterfaceView,
    Seq<char>,
> {
    Rule {
        id: |c: CurrentWireguardInterfaceView| c.id,
        current_key: |c: CurrentWireguardInterfaceView| c.name,
        desired_key: |d: DesiredWireguardInterfaceView| d.name,
        equal: |c: CurrentWireguardInterfaceView, d: DesiredWireguardInterfaceView|
            {
                &&& c.listen_port == d.listen_port
                &&& same_private_key(c.private_key_b64, d.private_key_b64)
                &&& c.disabled == d.disabled
            },
    }
}

/// The plan of `/interface/wireguard` does what has to be done and nothing else. Where it is empty,
/// every row that should be there is there, equal in every field, and no other is.
pub proof fn law_wireguard_interface_plan(
    current: Seq<CurrentWireguardInterfaceView>,
    desired: Seq<DesiredWireguardInterfaceView>,
)
    ensures
        is_right_plan(
            wireguard_interface_rule(),
            current,
            desired,
            plan_of::<WireguardInterfaces>(current, desired),
        ),
        plan_of::<WireguardInterfaces>(current, desired).is_empty() ==> {
            &&& forall|j: int| #[trigger]
                stands(
                    wireguard_interface_rule(),
                    desired,
                    j,
                ) ==> exists|i: int| 0 <= i < current.len() && {
                    let (c, d) = (#[trigger] current[i], desired[j]);
                    &&& c.name == d.name
                    &&& c.listen_port == d.listen_port
                    &&& same_private_key(c.private_key_b64, d.private_key_b64)
                    &&& c.disabled == d.disabled
                }
            &&& forall|i: int|
                0 <= i < current.len() ==> leads(
                    wireguard_interface_rule(),
                    current,
                    i,
                ) && is_wanted(
                    wireguard_interface_rule(),
                    desired,
                    #[trigger] current[i],
                )
        },
{
    let rule = wireguard_interface_rule();
    lemma_right_plan::<WireguardInterfaces>(rule, current, desired);
    if plan_of::<WireguardInterfaces>(current, desired).is_empty() {
        assert forall|j: int| #[trigger] stands(rule, desired, j) implies exists|i: int|
            0 <= i < current.len() && {
                let (c, d) = (#[trigger] current[i], desired[j]);
                &&& c.name == d.name
                &&& c.listen_port == d.listen_port
                &&& same_private_key(c.private_key_b64, d.private_key_b64)
                &&& c.disabled == d.disabled
            } by {
            let i = choose|i: int|
                0 <= i < current.len() && (rule.current_key)(#[trigger] current[i]) == (
                rule.desired_key)(desired[j]) && (rule.equal)(current[i], desired[j]);
            let (c, d) = (current[i], desired[j]);
            assert(c.name == d.name);
        }
    }
}

/// A row of `/interface/wireguard/peers` is found by its interface and name, and is what it should
/// be where it is so in every other field.
pub open spec fn wireguard_peer_rule() -> Rule<
    CurrentWireguardPeerView,
    DesiredWireguardPeerView,
    (Seq<char>, Seq<char>),
> {
    Rule {
        id: |c: CurrentWireguardPeerView| c.id,
        current_key: |c: CurrentWireguardPeerView| (c.interface, c.name),
        desired_key: |d: DesiredWireguardPeerView| (d.interface, d.name),
        equal: |c: CurrentWireguardPeerView, d: DesiredWireguardPeerView|
            {
                &&& c.public_key_b64 == d.public_key_b64
                &&& c.allowed_address == d.allowed_address
                &&& c.endpoint_address == d.endpoint_address
                &&& c.endpoint_port == d.endpoint_port
                &&& c.persistent_keepalive == d.persistent_keepalive
                &&& c.disabled == d.disabled
            },
    }
}

/// The plan of `/interface/wireguard/peers` does what has to be done and nothing else. Where it is
/// empty, every row that should be there is there, equal in every field, and no other is.
pub proof fn law_wireguard_peer_plan(
    current: Seq<CurrentWireguardPeerView>,
    desired: Seq<DesiredWireguardPeerView>,
)
    ensures
        is_right_plan(
            wireguard_peer_rule(),
            current,
            desired,
            plan_of::<WireguardPeers>(current, desired),
        ),
        plan_of::<WireguardPeers>(current, desired).is_empty() ==> {
            &&& forall|j: int| #[trigger]
                stands(
                    wireguard_peer_rule(),
                    desired,
                    j,
                ) ==> exists|i: int| 0 <= i < current.len() && {
                    let (c, d) = (#[trigger] current[i], desired[j]);
                    &&& c.interface == d.interface
                    &&& c.name == d.name
                    &&& c.public_key_b64 == d.public_key_b64
                    &&& c.allowed_address == d.allowed_address
                    &&& c.endpoint_address == d.endpoint_address
                    &&& c.endpoint_port == d.endpoint_port
                    &&& c.persistent_keepalive == d.persistent_keepalive
                    &&& c.disabled == d.disabled
                }
            &&& forall|i: int|
                0 <= i < current.len() ==> leads(wireguard_peer_rule(), current, i) && is_wanted(
                    wireguard_peer_rule(),
                    desired,
                    #[trigger] current[i],
                )
        },
{
    let rule = wireguard_peer_rule();
    lemma_right_plan::<WireguardPeers>(rule, current, desired);
    if plan_of::<WireguardPeers>(current, desired).is_empty() {
        assert forall|j: int| #[trigger] stands(rule, desired, j) implies exists|i: int|
            0 <= i < current.len() && {
                let (c, d) = (#[trigger] current[i], desired[j]);
                &&& c.interface == d.interface
                &&& c.name == d.name
                &&& c.public_key_b64 == d.public_key_b64
                &&& c.allowed_address == d.allowed_address
                &&& c.endpoint_address == d.endpoint_address
                &&& c.endpoint_port == d.endpoint_port
                &&& c.persistent_keepalive == d.persistent_keepalive
                &&& c.disabled == d.disabled
            } by {
            let i = choose|i: int|
                0 <= i < current.len() && (rule.current_key)(#[trigger] current[i]) == (
                rule.desired_key)(desired[j]) && (rule.equal)(current[i], desired[j]);
            let (c, d) = (current[i], desired[j]);
            assert(c.interface == d.interface && c.name == d.name);
        }
    }
}

/// A row of `/ip/address` is found by its interface and address, and is what it should be where it
/// is so in every other field.
pub open spec fn ip_address_rule() -> Rule<
    CurrentIpAddressView,
    DesiredIpAddressView,
    (Seq<char>, Seq<char>),
> {
    Rule {
        id: |c: CurrentIpAddressView| c.id,
        current_key: |c: CurrentIpAddressView| (c.interface, c.address),
        desired_key: |d: DesiredIpAddressView| (d.interface, d.address),
        equal: |c: CurrentIpAddressView, d: DesiredIpAddressView|
            {
                &&& c.disabled == d.disabled
            },
    }
}

/// The plan of `/ip/address` does what has to be done and nothing else. Where it is empty,
/// every row that should be there is there, equal in every field, and no other is.
pub proof fn law_ip_address_plan(
    current: Seq<CurrentIpAddressView>,
    desired: Seq<DesiredIpAddressView>,
)
    ensures
        is_right_plan(
            ip_address_rule(),
            current,
            desired,
            plan_of::<IpAddresses>(current, desired),
        ),
        plan_of::<IpAddresses>(current, desired).is_empty() ==> {
            &&& forall|j: int| #[trigger]
                stands(ip_address_rule(), desired, j) ==> exists|i: int| 0 <= i < current.len() && {
                    let (c, d) = (#[trigger] current[i], desired[j]);
                    &&& c.interface == d.interface
                    &&& c.address == d.address
                    &&& c.disabled == d.disabled
                }
            &&& forall|i: int|
                0 <= i < current.len() ==> leads(ip_address_rule(), current, i) && is_wanted(
                    ip_address_rule(),
                    desired,
                    #[trigger] current[i],
                )
        },
{
    let rule = ip_address_rule();
    lemma_right_plan::<IpAddresses>(rule, current, desired);
    if plan_of::<IpAddresses>(current, desired).is_empty() {
        assert forall|j: int| #[trigger] stands(rule, desired, j) implies exists|i: int|
            0 <= i < current.len() && {
                let (c, d) = (#[trigger] current[i], desired[j]);
                &&& c.interface == d.interface
                &&& c.address == d.address
                &&& c.disabled == d.disabled
            } by {
            let i = choose|i: int|
                0 <= i < current.len() && (rule.current_key)(#[trigger] current[i]) == (
                rule.desired_key)(desired[j]) && (rule.equal)(current[i], desired[j]);
            let (c, d) = (current[i], desired[j]);
            assert(c.interface == d.interface && c.address == d.address);
        }
    }
}

/// A row of `/ipv6/address` is found by its interface and address, and is what it should be where
/// it is so in every other field.
pub open spec fn ipv6_address_rule() -> Rule<
    CurrentIpv6AddressView,
    DesiredIpv6AddressView,
    (Seq<char>, Seq<char>),
> {
    Rule {
        id: |c: CurrentIpv6AddressView| c.id,
        current_key: |c: CurrentIpv6AddressView| (c.interface, c.address),
        desired_key: |d: DesiredIpv6AddressView| (d.interface, d.address),
        equal: |c: CurrentIpv6AddressView, d: DesiredIpv6AddressView|
            {
                &&& c.advertise == d.advertise
                &&& c.disabled == d.disabled
            },
    }
}

/// The plan of `/ipv6/address` does what has to be done and nothing else. Where it is empty,
/// every row that should be there is there, equal in every field, and no other is.
pub proof fn law_ipv6_address_plan(
    current: Seq<CurrentIpv6AddressView>,
    desired: Seq<DesiredIpv6AddressView>,
)
    ensures
        is_right_plan(
            ipv6_address_rule(),
            current,
            desired,
            plan_of::<Ipv6Addresses>(current, desired),
        ),
        plan_of::<Ipv6Addresses>(current, desired).is_empty() ==> {
            &&& forall|j: int| #[trigger]
                stands(
                    ipv6_address_rule(),
                    desired,
                    j,
                ) ==> exists|i: int| 0 <= i < current.len() && {
                    let (c, d) = (#[trigger] current[i], desired[j]);
                    &&& c.interface == d.interface
                    &&& c.address == d.address
                    &&& c.advertise == d.advertise
                    &&& c.disabled == d.disabled
                }
            &&& forall|i: int|
                0 <= i < current.len() ==> leads(ipv6_address_rule(), current, i) && is_wanted(
                    ipv6_address_rule(),
                    desired,
                    #[trigger] current[i],
                )
        },
{
    let rule = ipv6_address_rule();
    lemma_right_plan::<Ipv6Addresses>(rule, current, desired);
    if plan_of::<Ipv6Addresses>(current, desired).is_empty() {
        assert forall|j: int| #[trigger] stands(rule, desired, j) implies exists|i: int|
            0 <= i < current.len() && {
                let (c, d) = (#[trigger] current[i], desired[j]);
                &&& c.interface == d.interface
                &&& c.address == d.address
                &&& c.advertise == d.advertise
                &&& c.disabled == d.disabled
            } by {
            let i = choose|i: int|
                0 <= i < current.len() && (rule.current_key)(#[trigger] current[i]) == (
                rule.desired_key)(desired[j]) && (rule.equal)(current[i], desired[j]);
            let (c, d) = (current[i], desired[j]);
            assert(c.interface == d.interface && c.address == d.address);
        }
    }
}

/// A row of `/interface/list/member` is found by its list and interface, and is what it should be
/// where it is so in every other field.
pub open spec fn list_member_rule() -> Rule<
    CurrentListMemberView,
    DesiredListMemberView,
    (Seq<char>, Seq<char>),
> {
    Rule {
        id: |c: CurrentListMemberView| c.id,
        current_key: |c: CurrentListMemberView| (c.list, c.interface),
        desired_key: |d: DesiredListMemberView| (d.list, d.interface),
        equal: |c: CurrentListMemberView, d: DesiredListMemberView|
            {
                &&& c.disabled == d.disabled
            },
    }
}

/// The plan of `/interface/list/member` does what has to be done and nothing else. Where it is
/// empty, every row that should be there is there, equal in every field, and no other is.
pub proof fn law_list_member_plan(
    current: Seq<CurrentListMemberView>,
    desired: Seq<DesiredListMemberView>,
)
    ensures
        is_right_plan(
            list_member_rule(),
            current,
            desired,
            plan_of::<ListMembers>(current, desired),
        ),
        plan_of::<ListMembers>(current, desired).is_empty() ==> {
            &&& forall|j: int| #[trigger]
                stands(
                    list_member_rule(),
                    desired,
                    j,
                ) ==> exists|i: int| 0 <= i < current.len() && {
                    let (c, d) = (#[trigger] current[i], desired[j]);
                    &&& c.list == d.list
                    &&& c.interface == d.interface
                    &&& c.disabled == d.disabled
                }
            &&& forall|i: int|
                0 <= i < current.len() ==> leads(list_member_rule(), current, i) && is_wanted(
                    list_member_rule(),
                    desired,
                    #[trigger] current[i],
                )
        },
{
    let rule = list_member_rule();
    lemma_right_plan::<ListMembers>(rule, current, desired);
    if plan_of::<ListMembers>(current, desired).is_empty() {
        assert forall|j: int| #[trigger] stands(rule, desired, j) implies exists|i: int|
            0 <= i < current.len() && {
                let (c, d) = (#[trigger] current[i], desired[j]);
                &&& c.list == d.list
                &&& c.interface == d.interface
                &&& c.disabled == d.disabled
            } by {
            let i = choose|i: int|
                0 <= i < current.len() && (rule.current_key)(#[trigger] current[i]) == (
                rule.desired_key)(desired[j]) && (rule.equal)(current[i], desired[j]);
            let (c, d) = (current[i], desired[j]);
            assert(c.list == d.list && c.interface == d.interface);
        }
    }
}

/// A row of `/routing/ospf/interface-template` is found by its interfaces, and is what it should be
/// where it is so in every other field.
pub open spec fn ospf_interface_template_rule() -> Rule<
    CurrentOspfInterfaceTemplateView,
    DesiredOspfInterfaceTemplateView,
    Seq<char>,
> {
    Rule {
        id: |c: CurrentOspfInterfaceTemplateView| c.id,
        current_key: |c: CurrentOspfInterfaceTemplateView| c.interfaces,
        desired_key: |d: DesiredOspfInterfaceTemplateView| d.interfaces,
        equal: |c: CurrentOspfInterfaceTemplateView, d: DesiredOspfInterfaceTemplateView|
            {
                &&& c.area == d.area
                &&& c.type_ == d.type_
                &&& c.cost == d.cost
                &&& c.hello_interval == d.hello_interval
                &&& c.dead_interval == d.dead_interval
                &&& c.disabled == d.disabled
                &&& (c.passive_raw == Some(""@) || c.passive_raw == Some("true"@)) == d.passive
            },
    }
}

/// The plan of `/routing/ospf/interface-template` does what has to be done and nothing else. Where
/// it is empty, every row that should be there is there, equal in every field, and no other is.
pub proof fn law_ospf_interface_template_plan(
    current: Seq<CurrentOspfInterfaceTemplateView>,
    desired: Seq<DesiredOspfInterfaceTemplateView>,
)
    ensures
        is_right_plan(
            ospf_interface_template_rule(),
            current,
            desired,
            plan_of::<OspfInterfaceTemplates>(current, desired),
        ),
        plan_of::<OspfInterfaceTemplates>(current, desired).is_empty() ==> {
            &&& forall|j: int| #[trigger]
                stands(
                    ospf_interface_template_rule(),
                    desired,
                    j,
                ) ==> exists|i: int| 0 <= i < current.len() && {
                    let (c, d) = (#[trigger] current[i], desired[j]);
                    &&& c.interfaces == d.interfaces
                    &&& c.area == d.area
                    &&& c.type_ == d.type_
                    &&& c.cost == d.cost
                    &&& c.hello_interval == d.hello_interval
                    &&& c.dead_interval == d.dead_interval
                    &&& c.disabled == d.disabled
                    &&& (c.passive_raw == Some(""@) || c.passive_raw == Some("true"@)) == d.passive
                }
            &&& forall|i: int|
                0 <= i < current.len() ==> leads(
                    ospf_interface_template_rule(),
                    current,
                    i,
                ) && is_wanted(
                    ospf_interface_template_rule(),
                    desired,
                    #[trigger] current[i],
                )
        },
{
    let rule = ospf_interface_template_rule();
    lemma_right_plan::<OspfInterfaceTemplates>(rule, current, desired);
    if plan_of::<OspfInterfaceTemplates>(current, desired).is_empty() {
        assert forall|j: int| #[trigger] stands(rule, desired, j) implies exists|i: int|
            0 <= i < current.len() && {
                let (c, d) = (#[trigger] current[i], desired[j]);
                &&& c.interfaces == d.interfaces
                &&& c.area == d.area
                &&& c.type_ == d.type_
                &&& c.cost == d.cost
                &&& c.hello_interval == d.hello_interval
                &&& c.dead_interval == d.dead_interval
                &&& c.disabled == d.disabled
                &&& (c.passive_raw == Some(""@) || c.passive_raw == Some("true"@)) == d.passive
            } by {
            let i = choose|i: int|
                0 <= i < current.len() && (rule.current_key)(#[trigger] current[i]) == (
                rule.desired_key)(desired[j]) && (rule.equal)(current[i], desired[j]);
            let (c, d) = (current[i], desired[j]);
            assert(c.interfaces == d.interfaces);
        }
    }
}

/// A row of `/ip/firewall/address-list` is found by its list and address, and is what it should be
/// where it is so in every other field.
pub open spec fn bgp_network_rule() -> Rule<
    CurrentAddressListEntryView,
    DesiredAddressListEntryView,
    (Seq<char>, Seq<char>),
> {
    Rule {
        id: |c: CurrentAddressListEntryView| c.id,
        current_key: |c: CurrentAddressListEntryView| (c.list, c.address),
        desired_key: |d: DesiredAddressListEntryView| (d.list, d.address),
        equal: |c: CurrentAddressListEntryView, d: DesiredAddressListEntryView|
            {
                &&& c.disabled == d.disabled
            },
    }
}

/// The plan of `/ip/firewall/address-list` does what has to be done and nothing else. Where it is
/// empty, every row that should be there is there, equal in every field, and no other is.
pub proof fn law_bgp_network_plan(
    current: Seq<CurrentAddressListEntryView>,
    desired: Seq<DesiredAddressListEntryView>,
)
    ensures
        is_right_plan(
            bgp_network_rule(),
            current,
            desired,
            plan_of::<BgpNetworks>(current, desired),
        ),
        plan_of::<BgpNetworks>(current, desired).is_empty() ==> {
            &&& forall|j: int| #[trigger]
                stands(
                    bgp_network_rule(),
                    desired,
                    j,
                ) ==> exists|i: int| 0 <= i < current.len() && {
                    let (c, d) = (#[trigger] current[i], desired[j]);
                    &&& c.list == d.list
                    &&& c.address == d.address
                    &&& c.disabled == d.disabled
                }
            &&& forall|i: int|
                0 <= i < current.len() ==> leads(bgp_network_rule(), current, i) && is_wanted(
                    bgp_network_rule(),
                    desired,
                    #[trigger] current[i],
                )
        },
{
    let rule = bgp_network_rule();
    lemma_right_plan::<BgpNetworks>(rule, current, desired);
    if plan_of::<BgpNetworks>(current, desired).is_empty() {
        assert forall|j: int| #[trigger] stands(rule, desired, j) implies exists|i: int|
            0 <= i < current.len() && {
                let (c, d) = (#[trigger] current[i], desired[j]);
                &&& c.list == d.list
                &&& c.address == d.address
                &&& c.disabled == d.disabled
            } by {
            let i = choose|i: int|
                0 <= i < current.len() && (rule.current_key)(#[trigger] current[i]) == (
                rule.desired_key)(desired[j]) && (rule.equal)(current[i], desired[j]);
            let (c, d) = (current[i], desired[j]);
            assert(c.list == d.list && c.address == d.address);
        }
    }
}

/// A row of `/routing/bgp/connection` is found by its name, and is what it should be where it is so
/// in every other field.
pub open spec fn bgp_connection_rule() -> Rule<
    CurrentBgpConnectionView,
    DesiredBgpConnectionView,
    Seq<char>,
> {
    Rule {
        id: |c: CurrentBgpConnectionView| c.id,
        current_key: |c: CurrentBgpConnectionView| c.name,
        desired_key: |d: DesiredBgpConnectionView| d.name,
        equal: |c: CurrentBgpConnectionView, d: DesiredBgpConnectionView|
            {
                &&& c.instance == d.instance
                &&& c.local_address == d.local_address
                &&& c.local_role == d.local_role
                &&& c.remote_address == d.remote_address
                &&& c.multihop == d.multihop
                &&& c.afi == d.afi
                &&& c.output_network == d.output_network
                &&& c.disabled == d.disabled
            },
    }
}

/// The plan of `/routing/bgp/connection` does what has to be done and nothing else. Where it is
/// empty, every row that should be there is there, equal in every field, and no other is.
pub proof fn law_bgp_connection_plan(
    current: Seq<CurrentBgpConnectionView>,
    desired: Seq<DesiredBgpConnectionView>,
)
    ensures
        is_right_plan(
            bgp_connection_rule(),
            current,
            desired,
            plan_of::<BgpConnections>(current, desired),
        ),
        plan_of::<BgpConnections>(current, desired).is_empty() ==> {
            &&& forall|j: int| #[trigger]
                stands(
                    bgp_connection_rule(),
                    desired,
                    j,
                ) ==> exists|i: int| 0 <= i < current.len() && {
                    let (c, d) = (#[trigger] current[i], desired[j]);
                    &&& c.name == d.name
                    &&& c.instance == d.instance
                    &&& c.local_address == d.local_address
                    &&& c.local_role == d.local_role
                    &&& c.remote_address == d.remote_address
                    &&& c.multihop == d.multihop
                    &&& c.afi == d.afi
                    &&& c.output_network == d.output_network
                    &&& c.disabled == d.disabled
                }
            &&& forall|i: int|
                0 <= i < current.len() ==> leads(bgp_connection_rule(), current, i) && is_wanted(
                    bgp_connection_rule(),
                    desired,
                    #[trigger] current[i],
                )
        },
{
    let rule = bgp_connection_rule();
    lemma_right_plan::<BgpConnections>(rule, current, desired);
    if plan_of::<BgpConnections>(current, desired).is_empty() {
        assert forall|j: int| #[trigger] stands(rule, desired, j) implies exists|i: int|
            0 <= i < current.len() && {
                let (c, d) = (#[trigger] current[i], desired[j]);
                &&& c.name == d.name
                &&& c.instance == d.instance
                &&& c.local_address == d.local_address
                &&& c.local_role == d.local_role
                &&& c.remote_address == d.remote_address
                &&& c.multihop == d.multihop
                &&& c.afi == d.afi
                &&& c.output_network == d.output_network
                &&& c.disabled == d.disabled
            } by {
            let i = choose|i: int|
                0 <= i < current.len() && (rule.current_key)(#[trigger] current[i]) == (
                rule.desired_key)(desired[j]) && (rule.equal)(current[i], desired[j]);
            let (c, d) = (current[i], desired[j]);
            assert(c.name == d.name);
        }
    }
}

} // verus!
