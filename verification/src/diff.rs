//! What to do to every RouterOS table that is converged: the rows that were read and the rows
//! that should be there give a [`Plan`].
//!
//! Some of these tables are this tool's alone, so every row that should not be there is removed.
//! Others are shared with the rest of the device's configuration: of those, only the rows that
//! this tool could have written may be handed to the functions here.

use crate::keys::{is_same_private_key, same_private_key};
use crate::number::{digit_of, is_digit};
use crate::plan::{diff, plan_of, Plan, Table};
use crate::rows::{
    borrow_text, same_text, CurrentAddressListEntry, CurrentAddressListEntryView,
    CurrentBgpConnection, CurrentBgpConnectionView, CurrentIpAddress, CurrentIpAddressView,
    CurrentIpv6Address, CurrentIpv6AddressView, CurrentListMember, CurrentListMemberView,
    CurrentOspfInterfaceTemplate, CurrentOspfInterfaceTemplateView, CurrentWireguardInterface,
    CurrentWireguardInterfaceView, CurrentWireguardPeer, CurrentWireguardPeerView,
    DesiredAddressListEntry, DesiredAddressListEntryView, DesiredBgpConnection,
    DesiredBgpConnectionView, DesiredBgpInstance, DesiredBridge, DesiredFilterRule,
    DesiredIpAddress, DesiredIpAddressView, DesiredIpv6Address, DesiredIpv6AddressView,
    DesiredListMember, DesiredListMemberView, DesiredOspfArea, DesiredOspfInstance,
    DesiredOspfInterfaceTemplate, DesiredOspfInterfaceTemplateView, DesiredWireguardInterface,
    DesiredWireguardInterfaceView, DesiredWireguardPeer, DesiredWireguardPeerView,
};
use crate::text::{begins_with, chars_of, holds, same, strip_prefix, without_prefix};
use vstd::prelude::*;
use vstd::std_specs::cmp::PartialEqSpec;

verus! {

/// What to do to an object of which the device has at most one.
#[derive(Debug, Clone, PartialEq, Eq)]
pub enum SingletonOp<T> {
    /// It is there and is what it should be.
    NoOp,
    /// It is not there.
    Create(T),
    /// It is there, under this `.id`, and is not what it should be.
    Update(String, T),
}

/// What a [`SingletonOp`] is.
pub enum SingletonOpView<V> {
    NoOp,
    Create(V),
    Update(Seq<char>, V),
}

impl<T: DeepView> DeepView for SingletonOp<T> {
    type V = SingletonOpView<T::V>;

    open spec fn deep_view(&self) -> SingletonOpView<T::V> {
        match self {
            SingletonOp::NoOp => SingletonOpView::NoOp,
            SingletonOp::Create(t) => SingletonOpView::Create(t.deep_view()),
            SingletonOp::Update(id, t) => SingletonOpView::Update(id@, t.deep_view()),
        }
    }
}

/// What to do to an object that was read as `current` and should be `desired`.
pub open spec fn singleton_of<V>(current: Option<(Seq<char>, V)>, desired: V) -> SingletonOpView<
    V,
> {
    match current {
        None => SingletonOpView::Create(desired),
        Some((id, existing)) => if existing == desired {
            SingletonOpView::NoOp
        } else {
            SingletonOpView::Update(id, desired)
        },
    }
}

/// Creates the object if it is not there, and updates it under its `.id` unless it already equals
/// what it should be.
pub fn singleton<T: PartialEq>(current: Option<(String, T)>, desired: T) -> (r: SingletonOp<T>)
    ensures
        match current {
            None => r == SingletonOp::Create(desired),
            Some((id, existing)) => {
                &&& r == SingletonOp::<T>::NoOp || r == SingletonOp::Update(id, desired)
                &&& T::obeys_eq_spec() ==> (r is NoOp <==> existing.eq_spec(&desired))
            },
        },
{
    match current {
        None => SingletonOp::Create(desired),
        Some((id, existing)) => {
            if existing == desired {
                SingletonOp::NoOp
            } else {
                SingletonOp::Update(id, desired)
            }
        },
    }
}

/// Whether a flag that was read is set: RouterOS answers a set flag with an empty value, and
/// `true` is taken as well.
pub open spec fn flag_set(raw: Option<Seq<char>>) -> bool {
    raw == Some(""@) || raw == Some("true"@)
}

/// Whether a flag that was read is set.
pub fn passive_flag_is_true(raw: Option<&str>) -> (r: bool)
    ensures
        r == flag_set(raw.deep_view()),
{
    match raw {
        Some(s) => same(s, "") || same(s, "true"),
        None => false,
    }
}

/// Whether `interface` is the raw id that RouterOS shows in place of an interface that is gone:
/// `*` and a hexadecimal number.
pub open spec fn is_orphan_id(interface: Seq<char>) -> bool {
    match strip_prefix(interface, "*"@) {
        Some(rest) => rest.len() > 0 && forall|i: int|
            0 <= i < rest.len() ==> is_digit(#[trigger] rest[i], 16),
        None => false,
    }
}

/// Whether only this tool could have named the interface so.
pub open spec fn is_ours(interface: Seq<char>) -> bool {
    strip_prefix(interface, "mesh-"@) is Some || is_orphan_id(interface)
}

/// Whether only this tool could have put the interface on a list: it is one of those that should
/// be there, or is named as only this tool names them.
pub open spec fn in_footprint(interface: Seq<char>, desired: Seq<Seq<char>>) -> bool {
    desired.contains(interface) || is_ours(interface)
}

/// Whether `interface` is the raw id that RouterOS shows in place of an interface that is gone.
pub fn is_raw_orphan_id(interface: &str) -> (r: bool)
    ensures
        r == is_orphan_id(interface@),
{
    match without_prefix(interface, "*") {
        Some(rest) => {
            let chars = chars_of(rest.as_str());
            let mut i: usize = 0;
            while i < chars.len()
                invariant
                    i <= chars@.len(),
                    chars@ == rest@,
                    strip_prefix(interface@, "*"@) == Some(rest@),
                    forall|k: int| 0 <= k < i ==> is_digit(#[trigger] rest@[k], 16),
                decreases chars@.len() - i,
            {
                if digit_of(chars[i], 16).is_none() {
                    assert(!is_digit(rest@[i as int], 16));
                    return false;
                }
                i = i + 1;
            }
            chars.len() > 0
        },
        None => false,
    }
}

/// Whether only this tool could have named the interface so.
pub fn is_our_interface_name(interface: &str) -> (r: bool)
    ensures
        r == is_ours(interface@),
{
    begins_with(interface, "mesh-") || is_raw_orphan_id(interface)
}

/// Whether only this tool could have put the interface on a list. Any other member of a list,
/// such as a physical interface, must never be taken for one that should be removed.
pub fn is_our_list_member_footprint(interface: &str, desired_interfaces: &[String]) -> (r: bool)
    ensures
        r == in_footprint(interface@, desired_interfaces.deep_view()),
{
    holds(desired_interfaces, interface) || is_our_interface_name(interface)
}

/// The table of [`CurrentWireguardInterface`]s and [`DesiredWireguardInterface`]s.
pub struct WireguardInterfaces;

impl Table for WireguardInterfaces {
    type CurrentView = CurrentWireguardInterfaceView;

    type DesiredView = DesiredWireguardInterfaceView;

    type Current = CurrentWireguardInterface;

    type Desired = DesiredWireguardInterface;

    type Key = Seq<char>;

    open spec fn current_key(c: CurrentWireguardInterfaceView) -> Seq<char> {
        c.name
    }

    open spec fn desired_key(d: DesiredWireguardInterfaceView) -> Seq<char> {
        d.name
    }

    open spec fn row_id(c: CurrentWireguardInterfaceView) -> Seq<char> {
        c.id
    }

    open spec fn settled(
        c: CurrentWireguardInterfaceView,
        d: DesiredWireguardInterfaceView,
    ) -> bool {
        &&& c.listen_port == d.listen_port
        &&& same_private_key(c.private_key_b64, d.private_key_b64)
        &&& c.disabled == d.disabled
    }

    open spec fn takes(c: CurrentWireguardInterfaceView, d: DesiredWireguardInterfaceView) -> bool {
        true
    }

    open spec fn written(
        c: CurrentWireguardInterfaceView,
        d: DesiredWireguardInterfaceView,
    ) -> CurrentWireguardInterfaceView {
        CurrentWireguardInterfaceView {
            id: c.id,
            name: c.name,
            listen_port: d.listen_port,
            private_key_b64: d.private_key_b64,
            disabled: d.disabled,
        }
    }

    open spec fn created(
        id: Seq<char>,
        d: DesiredWireguardInterfaceView,
    ) -> CurrentWireguardInterfaceView {
        CurrentWireguardInterfaceView {
            id,
            name: d.name,
            listen_port: d.listen_port,
            private_key_b64: d.private_key_b64,
            disabled: d.disabled,
        }
    }

    proof fn writing(
        c: CurrentWireguardInterfaceView,
        id: Seq<char>,
        d: DesiredWireguardInterfaceView,
    ) {
    }

    fn is_for(c: &CurrentWireguardInterface, d: &DesiredWireguardInterface) -> (r: bool) {
        c.name == d.name
    }

    fn same_row(a: &CurrentWireguardInterface, b: &CurrentWireguardInterface) -> (r: bool) {
        a.name == b.name
    }

    fn same_wish(a: &DesiredWireguardInterface, b: &DesiredWireguardInterface) -> (r: bool) {
        a.name == b.name
    }

    fn id_of(c: &CurrentWireguardInterface) -> (r: String) {
        c.id.clone()
    }

    fn unchanged(c: &CurrentWireguardInterface, d: &DesiredWireguardInterface) -> (r: bool) {
        c.listen_port == d.listen_port
            && is_same_private_key(c.private_key_b64.as_str(), d.private_key_b64.as_str())
            && c.disabled == d.disabled
    }

    fn copy_of(d: &DesiredWireguardInterface) -> (r: DesiredWireguardInterface) {
        d.clone()
    }
}

/// What to do to `/interface/wireguard`. A private key is compared as the device keeps it, clamped.
pub fn wireguard_interfaces(
    current: &[CurrentWireguardInterface],
    desired: &[DesiredWireguardInterface],
) -> (r: Plan<DesiredWireguardInterface>)
    ensures
        r.deep_view() == plan_of::<WireguardInterfaces>(current.deep_view(), desired.deep_view()),
{
    diff::<WireguardInterfaces>(current, desired)
}

/// The table of [`CurrentWireguardPeer`]s and [`DesiredWireguardPeer`]s.
pub struct WireguardPeers;

impl Table for WireguardPeers {
    type CurrentView = CurrentWireguardPeerView;

    type DesiredView = DesiredWireguardPeerView;

    type Current = CurrentWireguardPeer;

    type Desired = DesiredWireguardPeer;

    type Key = (Seq<char>, Seq<char>);

    open spec fn current_key(c: CurrentWireguardPeerView) -> (Seq<char>, Seq<char>) {
        (c.interface, c.name)
    }

    open spec fn desired_key(d: DesiredWireguardPeerView) -> (Seq<char>, Seq<char>) {
        (d.interface, d.name)
    }

    open spec fn row_id(c: CurrentWireguardPeerView) -> Seq<char> {
        c.id
    }

    open spec fn settled(c: CurrentWireguardPeerView, d: DesiredWireguardPeerView) -> bool {
        &&& c.public_key_b64 == d.public_key_b64
        &&& c.allowed_address == d.allowed_address
        &&& c.endpoint_address == d.endpoint_address
        &&& c.endpoint_port == d.endpoint_port
        &&& c.persistent_keepalive == d.persistent_keepalive
        &&& c.disabled == d.disabled
    }

    open spec fn takes(c: CurrentWireguardPeerView, d: DesiredWireguardPeerView) -> bool {
        &&& (d.endpoint_port is None ==> c.endpoint_port is None)
        &&& (d.persistent_keepalive is None ==> c.persistent_keepalive is None)
    }

    open spec fn written(
        c: CurrentWireguardPeerView,
        d: DesiredWireguardPeerView,
    ) -> CurrentWireguardPeerView {
        CurrentWireguardPeerView {
            id: c.id,
            interface: c.interface,
            name: c.name,
            public_key_b64: d.public_key_b64,
            allowed_address: d.allowed_address,
            endpoint_address: d.endpoint_address,
            endpoint_port: if d.endpoint_port is Some {
                d.endpoint_port
            } else {
                c.endpoint_port
            },
            persistent_keepalive: if d.persistent_keepalive is Some {
                d.persistent_keepalive
            } else {
                c.persistent_keepalive
            },
            disabled: d.disabled,
        }
    }

    open spec fn created(id: Seq<char>, d: DesiredWireguardPeerView) -> CurrentWireguardPeerView {
        CurrentWireguardPeerView {
            id,
            interface: d.interface,
            name: d.name,
            public_key_b64: d.public_key_b64,
            allowed_address: d.allowed_address,
            endpoint_address: d.endpoint_address,
            endpoint_port: d.endpoint_port,
            persistent_keepalive: d.persistent_keepalive,
            disabled: d.disabled,
        }
    }

    proof fn writing(c: CurrentWireguardPeerView, id: Seq<char>, d: DesiredWireguardPeerView) {
    }

    fn is_for(c: &CurrentWireguardPeer, d: &DesiredWireguardPeer) -> (r: bool) {
        c.interface == d.interface && c.name == d.name
    }

    fn same_row(a: &CurrentWireguardPeer, b: &CurrentWireguardPeer) -> (r: bool) {
        a.interface == b.interface && a.name == b.name
    }

    fn same_wish(a: &DesiredWireguardPeer, b: &DesiredWireguardPeer) -> (r: bool) {
        a.interface == b.interface && a.name == b.name
    }

    fn id_of(c: &CurrentWireguardPeer) -> (r: String) {
        c.id.clone()
    }

    fn unchanged(c: &CurrentWireguardPeer, d: &DesiredWireguardPeer) -> (r: bool) {
        c.public_key_b64 == d.public_key_b64
            && c.allowed_address == d.allowed_address
            && same_text(&c.endpoint_address, &d.endpoint_address)
            && c.endpoint_port == d.endpoint_port
            && c.persistent_keepalive == d.persistent_keepalive
            && c.disabled == d.disabled
    }

    fn copy_of(d: &DesiredWireguardPeer) -> (r: DesiredWireguardPeer) {
        d.clone()
    }
}

/// What to do to `/interface/wireguard/peers`.
pub fn wireguard_peers(
    current: &[CurrentWireguardPeer],
    desired: &[DesiredWireguardPeer],
) -> (r: Plan<DesiredWireguardPeer>)
    ensures
        r.deep_view() == plan_of::<WireguardPeers>(current.deep_view(), desired.deep_view()),
{
    diff::<WireguardPeers>(current, desired)
}

/// The table of [`CurrentIpAddress`]s and [`DesiredIpAddress`]s.
pub struct IpAddresses;

impl Table for IpAddresses {
    type CurrentView = CurrentIpAddressView;

    type DesiredView = DesiredIpAddressView;

    type Current = CurrentIpAddress;

    type Desired = DesiredIpAddress;

    type Key = (Seq<char>, Seq<char>);

    open spec fn current_key(c: CurrentIpAddressView) -> (Seq<char>, Seq<char>) {
        (c.interface, c.address)
    }

    open spec fn desired_key(d: DesiredIpAddressView) -> (Seq<char>, Seq<char>) {
        (d.interface, d.address)
    }

    open spec fn row_id(c: CurrentIpAddressView) -> Seq<char> {
        c.id
    }

    open spec fn settled(c: CurrentIpAddressView, d: DesiredIpAddressView) -> bool {
        c.disabled == d.disabled
    }

    open spec fn takes(c: CurrentIpAddressView, d: DesiredIpAddressView) -> bool {
        true
    }

    open spec fn written(c: CurrentIpAddressView, d: DesiredIpAddressView) -> CurrentIpAddressView {
        CurrentIpAddressView {
            id: c.id,
            interface: c.interface,
            address: c.address,
            disabled: d.disabled,
        }
    }

    open spec fn created(id: Seq<char>, d: DesiredIpAddressView) -> CurrentIpAddressView {
        CurrentIpAddressView {
            id,
            interface: d.interface,
            address: d.address,
            disabled: d.disabled,
        }
    }

    proof fn writing(c: CurrentIpAddressView, id: Seq<char>, d: DesiredIpAddressView) {
    }

    fn is_for(c: &CurrentIpAddress, d: &DesiredIpAddress) -> (r: bool) {
        c.interface == d.interface && c.address == d.address
    }

    fn same_row(a: &CurrentIpAddress, b: &CurrentIpAddress) -> (r: bool) {
        a.interface == b.interface && a.address == b.address
    }

    fn same_wish(a: &DesiredIpAddress, b: &DesiredIpAddress) -> (r: bool) {
        a.interface == b.interface && a.address == b.address
    }

    fn id_of(c: &CurrentIpAddress) -> (r: String) {
        c.id.clone()
    }

    fn unchanged(c: &CurrentIpAddress, d: &DesiredIpAddress) -> (r: bool) {
        c.disabled == d.disabled
    }

    fn copy_of(d: &DesiredIpAddress) -> (r: DesiredIpAddress) {
        d.clone()
    }
}

/// What to do to `/ip/address`. A row is found by its interface and its address together: a link
/// can keep its address and move to another interface, or the other way round.
pub fn ip_addresses(
    current: &[CurrentIpAddress],
    desired: &[DesiredIpAddress],
) -> (r: Plan<DesiredIpAddress>)
    ensures
        r.deep_view() == plan_of::<IpAddresses>(current.deep_view(), desired.deep_view()),
{
    diff::<IpAddresses>(current, desired)
}

/// The table of [`CurrentIpv6Address`]s and [`DesiredIpv6Address`]s.
pub struct Ipv6Addresses;

impl Table for Ipv6Addresses {
    type CurrentView = CurrentIpv6AddressView;

    type DesiredView = DesiredIpv6AddressView;

    type Current = CurrentIpv6Address;

    type Desired = DesiredIpv6Address;

    type Key = (Seq<char>, Seq<char>);

    open spec fn current_key(c: CurrentIpv6AddressView) -> (Seq<char>, Seq<char>) {
        (c.interface, c.address)
    }

    open spec fn desired_key(d: DesiredIpv6AddressView) -> (Seq<char>, Seq<char>) {
        (d.interface, d.address)
    }

    open spec fn row_id(c: CurrentIpv6AddressView) -> Seq<char> {
        c.id
    }

    open spec fn settled(c: CurrentIpv6AddressView, d: DesiredIpv6AddressView) -> bool {
        &&& c.advertise == d.advertise
        &&& c.disabled == d.disabled
    }

    open spec fn takes(c: CurrentIpv6AddressView, d: DesiredIpv6AddressView) -> bool {
        true
    }

    open spec fn written(
        c: CurrentIpv6AddressView,
        d: DesiredIpv6AddressView,
    ) -> CurrentIpv6AddressView {
        CurrentIpv6AddressView {
            id: c.id,
            interface: c.interface,
            address: c.address,
            advertise: d.advertise,
            disabled: d.disabled,
        }
    }

    open spec fn created(id: Seq<char>, d: DesiredIpv6AddressView) -> CurrentIpv6AddressView {
        CurrentIpv6AddressView {
            id,
            interface: d.interface,
            address: d.address,
            advertise: d.advertise,
            disabled: d.disabled,
        }
    }

    proof fn writing(c: CurrentIpv6AddressView, id: Seq<char>, d: DesiredIpv6AddressView) {
    }

    fn is_for(c: &CurrentIpv6Address, d: &DesiredIpv6Address) -> (r: bool) {
        c.interface == d.interface && c.address == d.address
    }

    fn same_row(a: &CurrentIpv6Address, b: &CurrentIpv6Address) -> (r: bool) {
        a.interface == b.interface && a.address == b.address
    }

    fn same_wish(a: &DesiredIpv6Address, b: &DesiredIpv6Address) -> (r: bool) {
        a.interface == b.interface && a.address == b.address
    }

    fn id_of(c: &CurrentIpv6Address) -> (r: String) {
        c.id.clone()
    }

    fn unchanged(c: &CurrentIpv6Address, d: &DesiredIpv6Address) -> (r: bool) {
        c.advertise == d.advertise
            && c.disabled == d.disabled
    }

    fn copy_of(d: &DesiredIpv6Address) -> (r: DesiredIpv6Address) {
        d.clone()
    }
}

/// What to do to `/ipv6/address`. A row is found by its interface and its address together.
pub fn ipv6_addresses(
    current: &[CurrentIpv6Address],
    desired: &[DesiredIpv6Address],
) -> (r: Plan<DesiredIpv6Address>)
    ensures
        r.deep_view() == plan_of::<Ipv6Addresses>(current.deep_view(), desired.deep_view()),
{
    diff::<Ipv6Addresses>(current, desired)
}

/// The table of [`CurrentListMember`]s and [`DesiredListMember`]s.
pub struct ListMembers;

impl Table for ListMembers {
    type CurrentView = CurrentListMemberView;

    type DesiredView = DesiredListMemberView;

    type Current = CurrentListMember;

    type Desired = DesiredListMember;

    type Key = (Seq<char>, Seq<char>);

    open spec fn current_key(c: CurrentListMemberView) -> (Seq<char>, Seq<char>) {
        (c.list, c.interface)
    }

    open spec fn desired_key(d: DesiredListMemberView) -> (Seq<char>, Seq<char>) {
        (d.list, d.interface)
    }

    open spec fn row_id(c: CurrentListMemberView) -> Seq<char> {
        c.id
    }

    open spec fn settled(c: CurrentListMemberView, d: DesiredListMemberView) -> bool {
        c.disabled == d.disabled
    }

    open spec fn takes(c: CurrentListMemberView, d: DesiredListMemberView) -> bool {
        true
    }

    open spec fn written(
        c: CurrentListMemberView,
        d: DesiredListMemberView,
    ) -> CurrentListMemberView {
        CurrentListMemberView {
            id: c.id,
            list: c.list,
            interface: c.interface,
            disabled: d.disabled,
        }
    }

    open spec fn created(id: Seq<char>, d: DesiredListMemberView) -> CurrentListMemberView {
        CurrentListMemberView {
            id,
            list: d.list,
            interface: d.interface,
            disabled: d.disabled,
        }
    }

    proof fn writing(c: CurrentListMemberView, id: Seq<char>, d: DesiredListMemberView) {
    }

    fn is_for(c: &CurrentListMember, d: &DesiredListMember) -> (r: bool) {
        c.list == d.list && c.interface == d.interface
    }

    fn same_row(a: &CurrentListMember, b: &CurrentListMember) -> (r: bool) {
        a.list == b.list && a.interface == b.interface
    }

    fn same_wish(a: &DesiredListMember, b: &DesiredListMember) -> (r: bool) {
        a.list == b.list && a.interface == b.interface
    }

    fn id_of(c: &CurrentListMember) -> (r: String) {
        c.id.clone()
    }

    fn unchanged(c: &CurrentListMember, d: &DesiredListMember) -> (r: bool) {
        c.disabled == d.disabled
    }

    fn copy_of(d: &DesiredListMember) -> (r: DesiredListMember) {
        d.clone()
    }
}

/// What to do to `/interface/list/member`. Its removals come before those of the interfaces: a
/// member whose interface is gone shows a raw id that leads back to no name.
pub fn list_members(
    current: &[CurrentListMember],
    desired: &[DesiredListMember],
) -> (r: Plan<DesiredListMember>)
    ensures
        r.deep_view() == plan_of::<ListMembers>(current.deep_view(), desired.deep_view()),
{
    diff::<ListMembers>(current, desired)
}

/// The table of [`CurrentOspfInterfaceTemplate`]s and [`DesiredOspfInterfaceTemplate`]s.
pub struct OspfInterfaceTemplates;

impl Table for OspfInterfaceTemplates {
    type CurrentView = CurrentOspfInterfaceTemplateView;

    type DesiredView = DesiredOspfInterfaceTemplateView;

    type Current = CurrentOspfInterfaceTemplate;

    type Desired = DesiredOspfInterfaceTemplate;

    type Key = Seq<char>;

    open spec fn current_key(c: CurrentOspfInterfaceTemplateView) -> Seq<char> {
        c.interfaces
    }

    open spec fn desired_key(d: DesiredOspfInterfaceTemplateView) -> Seq<char> {
        d.interfaces
    }

    open spec fn row_id(c: CurrentOspfInterfaceTemplateView) -> Seq<char> {
        c.id
    }

    open spec fn settled(
        c: CurrentOspfInterfaceTemplateView,
        d: DesiredOspfInterfaceTemplateView,
    ) -> bool {
        &&& c.area == d.area
        &&& c.type_ == d.type_
        &&& c.cost == d.cost
        &&& c.hello_interval == d.hello_interval
        &&& c.dead_interval == d.dead_interval
        &&& c.disabled == d.disabled
        &&& flag_set(c.passive_raw) == d.passive
    }

    open spec fn takes(
        c: CurrentOspfInterfaceTemplateView,
        d: DesiredOspfInterfaceTemplateView,
    ) -> bool {
        &&& (d.type_ is None ==> c.type_ is None)
        &&& (d.cost is None ==> c.cost is None)
        &&& (d.hello_interval is None ==> c.hello_interval is None)
        &&& (d.dead_interval is None ==> c.dead_interval is None)
        &&& (flag_set(c.passive_raw) ==> d.passive)
    }

    open spec fn written(
        c: CurrentOspfInterfaceTemplateView,
        d: DesiredOspfInterfaceTemplateView,
    ) -> CurrentOspfInterfaceTemplateView {
        CurrentOspfInterfaceTemplateView {
            id: c.id,
            interfaces: c.interfaces,
            area: d.area,
            type_: if d.type_ is Some {
                d.type_
            } else {
                c.type_
            },
            cost: if d.cost is Some {
                d.cost
            } else {
                c.cost
            },
            hello_interval: if d.hello_interval is Some {
                d.hello_interval
            } else {
                c.hello_interval
            },
            dead_interval: if d.dead_interval is Some {
                d.dead_interval
            } else {
                c.dead_interval
            },
            disabled: d.disabled,
            passive_raw: if d.passive {
                Some(""@)
            } else {
                c.passive_raw
            },
        }
    }

    open spec fn created(
        id: Seq<char>,
        d: DesiredOspfInterfaceTemplateView,
    ) -> CurrentOspfInterfaceTemplateView {
        CurrentOspfInterfaceTemplateView {
            id,
            interfaces: d.interfaces,
            area: d.area,
            type_: d.type_,
            cost: d.cost,
            hello_interval: d.hello_interval,
            dead_interval: d.dead_interval,
            disabled: d.disabled,
            passive_raw: if d.passive {
                Some(""@)
            } else {
                None
            },
        }
    }

    proof fn writing(
        c: CurrentOspfInterfaceTemplateView,
        id: Seq<char>,
        d: DesiredOspfInterfaceTemplateView,
    ) {
        reveal_strlit("");
        reveal_strlit("true");
    }

    fn is_for(c: &CurrentOspfInterfaceTemplate, d: &DesiredOspfInterfaceTemplate) -> (r: bool) {
        c.interfaces == d.interfaces
    }

    fn same_row(a: &CurrentOspfInterfaceTemplate, b: &CurrentOspfInterfaceTemplate) -> (r: bool) {
        a.interfaces == b.interfaces
    }

    fn same_wish(a: &DesiredOspfInterfaceTemplate, b: &DesiredOspfInterfaceTemplate) -> (r: bool) {
        a.interfaces == b.interfaces
    }

    fn id_of(c: &CurrentOspfInterfaceTemplate) -> (r: String) {
        c.id.clone()
    }

    fn unchanged(c: &CurrentOspfInterfaceTemplate, d: &DesiredOspfInterfaceTemplate) -> (r: bool) {
        c.area == d.area
            && same_text(&c.type_, &d.type_)
            && c.cost == d.cost
            && same_text(&c.hello_interval, &d.hello_interval)
            && same_text(&c.dead_interval, &d.dead_interval)
            && c.disabled == d.disabled
            && passive_flag_is_true(borrow_text(&c.passive_raw)) == d.passive
    }

    fn copy_of(d: &DesiredOspfInterfaceTemplate) -> (r: DesiredOspfInterfaceTemplate) {
        d.clone()
    }
}

/// What to do to `/routing/ospf/interface-template`.
pub fn ospf_interface_templates(
    current: &[CurrentOspfInterfaceTemplate],
    desired: &[DesiredOspfInterfaceTemplate],
) -> (r: Plan<DesiredOspfInterfaceTemplate>)
    ensures
        r.deep_view() == plan_of::<OspfInterfaceTemplates>(
            current.deep_view(),
            desired.deep_view(),
        ),
{
    diff::<OspfInterfaceTemplates>(current, desired)
}

/// The table of [`CurrentAddressListEntry`]s and [`DesiredAddressListEntry`]s.
pub struct BgpNetworks;

impl Table for BgpNetworks {
    type CurrentView = CurrentAddressListEntryView;

    type DesiredView = DesiredAddressListEntryView;

    type Current = CurrentAddressListEntry;

    type Desired = DesiredAddressListEntry;

    type Key = (Seq<char>, Seq<char>);

    open spec fn current_key(c: CurrentAddressListEntryView) -> (Seq<char>, Seq<char>) {
        (c.list, c.address)
    }

    open spec fn desired_key(d: DesiredAddressListEntryView) -> (Seq<char>, Seq<char>) {
        (d.list, d.address)
    }

    open spec fn row_id(c: CurrentAddressListEntryView) -> Seq<char> {
        c.id
    }

    open spec fn settled(c: CurrentAddressListEntryView, d: DesiredAddressListEntryView) -> bool {
        c.disabled == d.disabled
    }

    open spec fn takes(c: CurrentAddressListEntryView, d: DesiredAddressListEntryView) -> bool {
        true
    }

    open spec fn written(
        c: CurrentAddressListEntryView,
        d: DesiredAddressListEntryView,
    ) -> CurrentAddressListEntryView {
        CurrentAddressListEntryView {
            id: c.id,
            list: c.list,
            address: c.address,
            disabled: d.disabled,
        }
    }

    open spec fn created(
        id: Seq<char>,
        d: DesiredAddressListEntryView,
    ) -> CurrentAddressListEntryView {
        CurrentAddressListEntryView {
            id,
            list: d.list,
            address: d.address,
            disabled: d.disabled,
        }
    }

    proof fn writing(
        c: CurrentAddressListEntryView,
        id: Seq<char>,
        d: DesiredAddressListEntryView,
    ) {
    }

    fn is_for(c: &CurrentAddressListEntry, d: &DesiredAddressListEntry) -> (r: bool) {
        c.list == d.list && c.address == d.address
    }

    fn same_row(a: &CurrentAddressListEntry, b: &CurrentAddressListEntry) -> (r: bool) {
        a.list == b.list && a.address == b.address
    }

    fn same_wish(a: &DesiredAddressListEntry, b: &DesiredAddressListEntry) -> (r: bool) {
        a.list == b.list && a.address == b.address
    }

    fn id_of(c: &CurrentAddressListEntry) -> (r: String) {
        c.id.clone()
    }

    fn unchanged(c: &CurrentAddressListEntry, d: &DesiredAddressListEntry) -> (r: bool) {
        c.disabled == d.disabled
    }

    fn copy_of(d: &DesiredAddressListEntry) -> (r: DesiredAddressListEntry) {
        d.clone()
    }
}

/// What to do to `/ip/firewall/address-list`.
pub fn bgp_networks(
    current: &[CurrentAddressListEntry],
    desired: &[DesiredAddressListEntry],
) -> (r: Plan<DesiredAddressListEntry>)
    ensures
        r.deep_view() == plan_of::<BgpNetworks>(current.deep_view(), desired.deep_view()),
{
    diff::<BgpNetworks>(current, desired)
}

/// The table of [`CurrentBgpConnection`]s and [`DesiredBgpConnection`]s.
pub struct BgpConnections;

impl Table for BgpConnections {
    type CurrentView = CurrentBgpConnectionView;

    type DesiredView = DesiredBgpConnectionView;

    type Current = CurrentBgpConnection;

    type Desired = DesiredBgpConnection;

    type Key = Seq<char>;

    open spec fn current_key(c: CurrentBgpConnectionView) -> Seq<char> {
        c.name
    }

    open spec fn desired_key(d: DesiredBgpConnectionView) -> Seq<char> {
        d.name
    }

    open spec fn row_id(c: CurrentBgpConnectionView) -> Seq<char> {
        c.id
    }

    open spec fn settled(c: CurrentBgpConnectionView, d: DesiredBgpConnectionView) -> bool {
        &&& c.instance == d.instance
        &&& c.local_address == d.local_address
        &&& c.local_role == d.local_role
        &&& c.remote_address == d.remote_address
        &&& c.multihop == d.multihop
        &&& c.afi == d.afi
        &&& c.output_network == d.output_network
        &&& c.disabled == d.disabled
    }

    open spec fn takes(c: CurrentBgpConnectionView, d: DesiredBgpConnectionView) -> bool {
        true
    }

    open spec fn written(
        c: CurrentBgpConnectionView,
        d: DesiredBgpConnectionView,
    ) -> CurrentBgpConnectionView {
        CurrentBgpConnectionView {
            id: c.id,
            name: c.name,
            instance: d.instance,
            local_address: d.local_address,
            local_role: d.local_role,
            remote_address: d.remote_address,
            multihop: d.multihop,
            afi: d.afi,
            output_network: d.output_network,
            disabled: d.disabled,
        }
    }

    open spec fn created(id: Seq<char>, d: DesiredBgpConnectionView) -> CurrentBgpConnectionView {
        CurrentBgpConnectionView {
            id,
            name: d.name,
            instance: d.instance,
            local_address: d.local_address,
            local_role: d.local_role,
            remote_address: d.remote_address,
            multihop: d.multihop,
            afi: d.afi,
            output_network: d.output_network,
            disabled: d.disabled,
        }
    }

    proof fn writing(c: CurrentBgpConnectionView, id: Seq<char>, d: DesiredBgpConnectionView) {
    }

    fn is_for(c: &CurrentBgpConnection, d: &DesiredBgpConnection) -> (r: bool) {
        c.name == d.name
    }

    fn same_row(a: &CurrentBgpConnection, b: &CurrentBgpConnection) -> (r: bool) {
        a.name == b.name
    }

    fn same_wish(a: &DesiredBgpConnection, b: &DesiredBgpConnection) -> (r: bool) {
        a.name == b.name
    }

    fn id_of(c: &CurrentBgpConnection) -> (r: String) {
        c.id.clone()
    }

    fn unchanged(c: &CurrentBgpConnection, d: &DesiredBgpConnection) -> (r: bool) {
        c.instance == d.instance
            && c.local_address.same(&d.local_address)
            && c.local_role == d.local_role
            && c.remote_address.same(&d.remote_address)
            && c.multihop == d.multihop
            && c.afi == d.afi
            && c.output_network == d.output_network
            && c.disabled == d.disabled
    }

    fn copy_of(d: &DesiredBgpConnection) -> (r: DesiredBgpConnection) {
        d.clone()
    }
}

/// What to do to `/routing/bgp/connection`.
pub fn bgp_connections(
    current: &[CurrentBgpConnection],
    desired: &[DesiredBgpConnection],
) -> (r: Plan<DesiredBgpConnection>)
    ensures
        r.deep_view() == plan_of::<BgpConnections>(current.deep_view(), desired.deep_view()),
{
    diff::<BgpConnections>(current, desired)
}

/// An object that is missing is created as it should be; one that is there is left alone exactly if
/// it is as it should be, and otherwise updated to that under its own id.
pub proof fn law_singleton<V>(current: Option<(Seq<char>, V)>, desired: V)
    ensures
        current is None ==> singleton_of(current, desired) == SingletonOpView::Create(desired),
        current matches Some((id, existing)) ==> singleton_of(current, desired) == (if existing
            == desired {
            SingletonOpView::NoOp
        } else {
            SingletonOpView::Update(id, desired)
        }),
{
}

/// A flag is set exactly if it was answered with an empty value or with `true`.
pub proof fn law_flag(raw: Option<Seq<char>>)
    ensures
        flag_set(raw) == (raw is Some && (raw->Some_0.len() == 0 || raw->Some_0 == "true"@)),
{
    reveal_strlit("");
    if let Some(s) = raw {
        if s.len() == 0 {
            assert(s =~= ""@);
        }
    }
}

/// Two [`DesiredBridge`]s are equal exactly if they are so in every field.
pub proof fn law_equal_desired_bridges(a: DesiredBridge, b: DesiredBridge)
    ensures
        a.eq_spec(&b) == {
            &&& a.name@ == b.name@
            &&& a.disabled == b.disabled
        },
{
}

/// Two [`DesiredFilterRule`]s are equal exactly if they are so in every field.
pub proof fn law_equal_desired_filter_rules(a: DesiredFilterRule, b: DesiredFilterRule)
    ensures
        a.eq_spec(&b) == {
            &&& a.chain@ == b.chain@
            &&& a.rule@ == b.rule@
            &&& a.disabled == b.disabled
        },
{
}

/// Two [`DesiredOspfInstance`]s are equal exactly if they are so in every field.
pub proof fn law_equal_desired_ospf_instances(a: DesiredOspfInstance, b: DesiredOspfInstance)
    ensures
        a.eq_spec(&b) == {
            &&& a.name@ == b.name@
            &&& a.version == b.version
            &&& a.router_id == b.router_id
            &&& a.redistribute_connected == b.redistribute_connected
            &&& a.disabled == b.disabled
        },
{
}

/// Two [`DesiredOspfArea`]s are equal exactly if they are so in every field.
pub proof fn law_equal_desired_ospf_areas(a: DesiredOspfArea, b: DesiredOspfArea)
    ensures
        a.eq_spec(&b) == {
            &&& a.name@ == b.name@
            &&& a.area_id@ == b.area_id@
            &&& a.instance@ == b.instance@
            &&& a.disabled == b.disabled
        },
{
}

/// Two [`DesiredBgpInstance`]s are equal exactly if they are so in every field.
pub proof fn law_equal_desired_bgp_instances(a: DesiredBgpInstance, b: DesiredBgpInstance)
    ensures
        a.eq_spec(&b) == {
            &&& a.name@ == b.name@
            &&& a.as_number == b.as_number
            &&& a.router_id == b.router_id
            &&& a.routing_table@ == b.routing_table@
            &&& a.disabled == b.disabled
        },
{
}

} // verus!
