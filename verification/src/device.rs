//! What a device makes of what is written to it, and that it is read back.
//!
//! A row holds the attributes that it was added and set with. A flag that was written `yes` or `no`
//! is answered `true` or `false`, and an attribute without a value is a field without one.

use crate::addr::{ipv4_text, ipv6_text, law_ipv4_round_trip, law_ipv6_round_trip};
use crate::apply::{redistribution, yes_no, Writable};
use crate::diff::{
    flag_set, BgpConnections, BgpNetworks, IpAddresses, Ipv6Addresses, ListMembers,
    OspfInterfaceTemplates, WireguardInterfaces, WireguardPeers,
};
use crate::error::ErrorView;
use crate::mikrotik::{
    address_list_entry_of, bgp_connection_of, bgp_instance_of, bridge_of, ip_address_of,
    ipv6_address_of, list_member_of, ospf_area_of, ospf_instance_of, ospf_template_of,
    redistributes_connected, wireguard_interface_of, wireguard_peer_of,
};
use crate::number::{decimal, is_digit, law_decimal_round_trip, lemma_numeral};
use crate::plan::Table;
use crate::request::Attribute;
use crate::row::{id_of, value_of, RowView};
use crate::rows::{
    CurrentAddressListEntryView, CurrentBgpConnectionView, CurrentIpAddressView,
    CurrentIpv6AddressView, CurrentListMemberView, CurrentOspfInterfaceTemplateView,
    CurrentWireguardInterfaceView, CurrentWireguardPeerView, DesiredAddressListEntry,
    DesiredAddressListEntryView, DesiredBgpConnection, DesiredBgpConnectionView,
    DesiredBgpInstance, DesiredBgpInstanceView, DesiredBridge, DesiredBridgeView, DesiredIpAddress,
    DesiredIpAddressView, DesiredIpv6Address, DesiredIpv6AddressView, DesiredListMember,
    DesiredListMemberView, DesiredOspfArea, DesiredOspfAreaView, DesiredOspfInstance,
    DesiredOspfInstanceView, DesiredOspfInterfaceTemplate, DesiredOspfInterfaceTemplateView,
    DesiredWireguardInterface, DesiredWireguardInterfaceView, DesiredWireguardPeer,
    DesiredWireguardPeerView,
};
use crate::text::{lemma_split_whole, split, trim_end_char};
use vstd::prelude::*;

verus! {

/// Whether a field is a flag that carries its value.
pub open spec fn is_flag(key: Seq<char>) -> bool {
    key == "disabled"@ || key == "advertise"@ || key == "multihop"@
}

/// What a device answers for an attribute that was written.
pub open spec fn answered(key: Seq<char>, value: Option<Seq<char>>) -> Option<Seq<char>> {
    if is_flag(key) && value == Some("yes"@) {
        Some("true"@)
    } else if is_flag(key) && value == Some("no"@) {
        Some("false"@)
    } else {
        value
    }
}

/// A row once the attributes have been written to it.
pub open spec fn stored(row: RowView, attributes: Seq<Attribute>) -> RowView
    decreases attributes.len(),
{
    if attributes.len() == 0 {
        row
    } else {
        let last = attributes.last();
        stored(row, attributes.drop_last()).insert(last.0, answered(last.0, last.1))
    }
}

/// A row that was just added under `id`, before anything is written to it.
pub open spec fn blank(id: Seq<char>) -> RowView {
    Map::empty().insert(".id"@, Some(id))
}

/// What one more attribute makes of a row.
pub proof fn lemma_stored_push(row: RowView, attributes: Seq<Attribute>, a: Attribute)
    ensures
        stored(row, attributes.push(a)) == stored(row, attributes).insert(
            a.0,
            answered(a.0, a.1),
        ),
{
    assert(attributes.push(a).drop_last() =~= attributes);
}

/// What tells the names of the fields apart: the length, and the first character.
pub proof fn lemma_names()
    ensures
        ".id"@.len() == 3 && ".id"@[0] == '.',
        "address"@.len() == 7 && "address"@[0] == 'a',
        "advertise"@.len() == 9 && "advertise"@[0] == 'a',
        "afi"@.len() == 3 && "afi"@[0] == 'a',
        "allowed-address"@.len() == 15 && "allowed-address"@[0] == 'a',
        "area"@.len() == 4 && "area"@[0] == 'a',
        "area-id"@.len() == 7 && "area-id"@[0] == 'a',
        "as"@.len() == 2 && "as"@[0] == 'a',
        "comment"@.len() == 7 && "comment"@[0] == 'c',
        "cost"@.len() == 4 && "cost"@[0] == 'c',
        "dead-interval"@.len() == 13 && "dead-interval"@[0] == 'd',
        "disabled"@.len() == 8 && "disabled"@[0] == 'd',
        "endpoint-address"@.len() == 16 && "endpoint-address"@[0] == 'e',
        "endpoint-port"@.len() == 13 && "endpoint-port"@[0] == 'e',
        "hello-interval"@.len() == 14 && "hello-interval"@[0] == 'h',
        "instance"@.len() == 8 && "instance"@[0] == 'i',
        "interface"@.len() == 9 && "interface"@[0] == 'i',
        "interfaces"@.len() == 10 && "interfaces"@[0] == 'i',
        "list"@.len() == 4 && "list"@[0] == 'l',
        "listen-port"@.len() == 11 && "listen-port"@[0] == 'l',
        "local.address"@.len() == 13 && "local.address"@[0] == 'l',
        "local.role"@.len() == 10 && "local.role"@[0] == 'l',
        "multihop"@.len() == 8 && "multihop"@[0] == 'm',
        "name"@.len() == 4 && "name"@[0] == 'n',
        "output.network"@.len() == 14 && "output.network"@[0] == 'o',
        "passive"@.len() == 7 && "passive"@[0] == 'p',
        "persistent-keepalive"@.len() == 20 && "persistent-keepalive"@[0] == 'p',
        "private-key"@.len() == 11 && "private-key"@[0] == 'p',
        "protocol-mode"@.len() == 13 && "protocol-mode"@[0] == 'p',
        "public-key"@.len() == 10 && "public-key"@[0] == 'p',
        "redistribute"@.len() == 12 && "redistribute"@[0] == 'r',
        "remote.address"@.len() == 14 && "remote.address"@[0] == 'r',
        "router-id"@.len() == 9 && "router-id"@[0] == 'r',
        "routing-table"@.len() == 13 && "routing-table"@[0] == 'r',
        "type"@.len() == 4 && "type"@[0] == 't',
        "version"@.len() == 7 && "version"@[0] == 'v',
{
    reveal_strlit(".id");
    reveal_strlit("address");
    reveal_strlit("advertise");
    reveal_strlit("afi");
    reveal_strlit("allowed-address");
    reveal_strlit("area");
    reveal_strlit("area-id");
    reveal_strlit("as");
    reveal_strlit("comment");
    reveal_strlit("cost");
    reveal_strlit("dead-interval");
    reveal_strlit("disabled");
    reveal_strlit("endpoint-address");
    reveal_strlit("endpoint-port");
    reveal_strlit("hello-interval");
    reveal_strlit("instance");
    reveal_strlit("interface");
    reveal_strlit("interfaces");
    reveal_strlit("list");
    reveal_strlit("listen-port");
    reveal_strlit("local.address");
    reveal_strlit("local.role");
    reveal_strlit("multihop");
    reveal_strlit("name");
    reveal_strlit("output.network");
    reveal_strlit("passive");
    reveal_strlit("persistent-keepalive");
    reveal_strlit("private-key");
    reveal_strlit("protocol-mode");
    reveal_strlit("public-key");
    reveal_strlit("redistribute");
    reveal_strlit("remote.address");
    reveal_strlit("router-id");
    reveal_strlit("routing-table");
    reveal_strlit("type");
    reveal_strlit("version");
}

/// A flag is answered as it was written.
proof fn lemma_flag(key: Seq<char>, b: bool)
    requires
        is_flag(key),
    ensures
        flag_set(answered(key, Some(yes_no(b)))) == b,
{
    reveal_strlit("yes");
    reveal_strlit("no");
    reveal_strlit("true");
    reveal_strlit("false");
    reveal_strlit("");
    assert("yes"@.len() == 3 && "no"@.len() == 2);
    assert("true"@.len() == 4 && "false"@.len() == 5 && ""@.len() == 0);
}

/// A number of seconds has no unit to be taken off.
proof fn lemma_no_unit(n: nat)
    ensures
        trim_end_char(decimal(n), 's') == decimal(n),
{
    lemma_numeral(n, 10);
    assert(is_digit(decimal(n).last(), 10));
}

/// A row that was added to `/interface/wireguard` is read back as what was to be added.
pub proof fn law_wireguard_interface_added(id: Seq<char>, d: DesiredWireguardInterfaceView)
    ensures
        wireguard_interface_of(stored(blank(id), DesiredWireguardInterface::to_add(d))) == Ok::<
            CurrentWireguardInterfaceView,
            ErrorView,
        >(WireguardInterfaces::created(id, d)),
{
    lemma_names();
    law_decimal_round_trip(d.listen_port as nat, u16::MAX as nat);
    lemma_flag("disabled"@, d.disabled);
    let s0 = Seq::<Attribute>::empty();
    let a0 = ("name"@, Some(d.name));
    let s1 = s0.push(a0);
    lemma_stored_push(blank(id), s0, a0);
    let a1 = ("listen-port"@, Some(decimal(d.listen_port as nat)));
    let s2 = s1.push(a1);
    lemma_stored_push(blank(id), s1, a1);
    let a2 = ("private-key"@, Some(d.private_key_b64));
    let s3 = s2.push(a2);
    lemma_stored_push(blank(id), s2, a2);
    let a3 = ("disabled"@, Some(yes_no(d.disabled)));
    let s4 = s3.push(a3);
    lemma_stored_push(blank(id), s3, a3);
    assert(DesiredWireguardInterface::to_add(d) =~= s4);
}

/// A row of `/interface/wireguard` that was set is read back as what it was set
/// to, under its own `.id`.
pub proof fn law_wireguard_interface_set(
    row: RowView,
    c: CurrentWireguardInterfaceView,
    d: DesiredWireguardInterfaceView,
)
    requires
        wireguard_interface_of(row) == Ok::<CurrentWireguardInterfaceView, ErrorView>(c),
        WireguardInterfaces::current_key(c) == WireguardInterfaces::desired_key(d),
    ensures
        wireguard_interface_of(stored(row, DesiredWireguardInterface::to_set(d))) == Ok::<
            CurrentWireguardInterfaceView,
            ErrorView,
        >(WireguardInterfaces::written(c, d)),
{
    lemma_names();
    law_decimal_round_trip(d.listen_port as nat, u16::MAX as nat);
    lemma_flag("disabled"@, d.disabled);
    let s0 = Seq::<Attribute>::empty();
    let a0 = ("listen-port"@, Some(decimal(d.listen_port as nat)));
    let s1 = s0.push(a0);
    lemma_stored_push(row, s0, a0);
    let a1 = ("private-key"@, Some(d.private_key_b64));
    let s2 = s1.push(a1);
    lemma_stored_push(row, s1, a1);
    let a2 = ("disabled"@, Some(yes_no(d.disabled)));
    let s3 = s2.push(a2);
    lemma_stored_push(row, s2, a2);
    assert(DesiredWireguardInterface::to_set(d) =~= s3);
}

/// A row that was added to `/interface/wireguard/peers` is read back as what was to be added.
pub proof fn law_wireguard_peer_added(id: Seq<char>, d: DesiredWireguardPeerView)
    ensures
        wireguard_peer_of(stored(blank(id), DesiredWireguardPeer::to_add(d))) == Ok::<
            CurrentWireguardPeerView,
            ErrorView,
        >(WireguardPeers::created(id, d)),
{
    lemma_names();
    lemma_flag("disabled"@, d.disabled);
    if d.endpoint_port is Some {
        law_decimal_round_trip(d.endpoint_port->Some_0 as nat, u16::MAX as nat);
    }
    if d.persistent_keepalive is Some {
        law_decimal_round_trip(d.persistent_keepalive->Some_0 as nat, u16::MAX as nat);
        lemma_no_unit(d.persistent_keepalive->Some_0 as nat);
    }
    let s0 = Seq::<Attribute>::empty();
    let a0 = ("interface"@, Some(d.interface));
    let s1 = s0.push(a0);
    lemma_stored_push(blank(id), s0, a0);
    let a1 = ("comment"@, Some(d.name));
    let s2 = s1.push(a1);
    lemma_stored_push(blank(id), s1, a1);
    let a2 = ("public-key"@, Some(d.public_key_b64));
    let s3 = s2.push(a2);
    lemma_stored_push(blank(id), s2, a2);
    let a3 = ("allowed-address"@, Some(d.allowed_address));
    let s4 = s3.push(a3);
    lemma_stored_push(blank(id), s3, a3);
    let a4 = ("endpoint-address"@, d.endpoint_address);
    let s5 = s4.push(a4);
    lemma_stored_push(blank(id), s4, a4);
    let a5 = ("disabled"@, Some(yes_no(d.disabled)));
    let s6 = s5.push(a5);
    lemma_stored_push(blank(id), s5, a5);
    let a6 = ("endpoint-port"@, Some(decimal(d.endpoint_port->Some_0 as nat)));
    let s7 = if d.endpoint_port is Some {
        s6.push(a6)
    } else {
        s6
    };
    lemma_stored_push(blank(id), s6, a6);
    let a7 = ("persistent-keepalive"@, Some(decimal(d.persistent_keepalive->Some_0 as nat)));
    let s8 = if d.persistent_keepalive is Some {
        s7.push(a7)
    } else {
        s7
    };
    lemma_stored_push(blank(id), s7, a7);
    assert(DesiredWireguardPeer::to_add(d) =~= s8);
}

/// A row of `/interface/wireguard/peers` that was set is read back as what it was set
/// to, under its own `.id`.
pub proof fn law_wireguard_peer_set(
    row: RowView,
    c: CurrentWireguardPeerView,
    d: DesiredWireguardPeerView,
)
    requires
        wireguard_peer_of(row) == Ok::<CurrentWireguardPeerView, ErrorView>(c),
        WireguardPeers::current_key(c) == WireguardPeers::desired_key(d),
    ensures
        wireguard_peer_of(stored(row, DesiredWireguardPeer::to_set(d))) == Ok::<
            CurrentWireguardPeerView,
            ErrorView,
        >(WireguardPeers::written(c, d)),
{
    lemma_names();
    lemma_flag("disabled"@, d.disabled);
    if d.endpoint_port is Some {
        law_decimal_round_trip(d.endpoint_port->Some_0 as nat, u16::MAX as nat);
    }
    if d.persistent_keepalive is Some {
        law_decimal_round_trip(d.persistent_keepalive->Some_0 as nat, u16::MAX as nat);
        lemma_no_unit(d.persistent_keepalive->Some_0 as nat);
    }
    let s0 = Seq::<Attribute>::empty();
    let a0 = ("interface"@, Some(d.interface));
    let s1 = s0.push(a0);
    lemma_stored_push(row, s0, a0);
    let a1 = ("comment"@, Some(d.name));
    let s2 = s1.push(a1);
    lemma_stored_push(row, s1, a1);
    let a2 = ("public-key"@, Some(d.public_key_b64));
    let s3 = s2.push(a2);
    lemma_stored_push(row, s2, a2);
    let a3 = ("allowed-address"@, Some(d.allowed_address));
    let s4 = s3.push(a3);
    lemma_stored_push(row, s3, a3);
    let a4 = ("endpoint-address"@, d.endpoint_address);
    let s5 = s4.push(a4);
    lemma_stored_push(row, s4, a4);
    let a5 = ("disabled"@, Some(yes_no(d.disabled)));
    let s6 = s5.push(a5);
    lemma_stored_push(row, s5, a5);
    let a6 = ("endpoint-port"@, Some(decimal(d.endpoint_port->Some_0 as nat)));
    let s7 = if d.endpoint_port is Some {
        s6.push(a6)
    } else {
        s6
    };
    lemma_stored_push(row, s6, a6);
    let a7 = ("persistent-keepalive"@, Some(decimal(d.persistent_keepalive->Some_0 as nat)));
    let s8 = if d.persistent_keepalive is Some {
        s7.push(a7)
    } else {
        s7
    };
    lemma_stored_push(row, s7, a7);
    assert(DesiredWireguardPeer::to_set(d) =~= s8);
}

/// A row that was added to `/ip/address` is read back as what was to be added.
pub proof fn law_ip_address_added(id: Seq<char>, d: DesiredIpAddressView)
    ensures
        ip_address_of(stored(blank(id), DesiredIpAddress::to_add(d))) == Ok::<
            CurrentIpAddressView,
            ErrorView,
        >(IpAddresses::created(id, d)),
{
    lemma_names();
    lemma_flag("disabled"@, d.disabled);
    let s0 = Seq::<Attribute>::empty();
    let a0 = ("address"@, Some(d.address));
    let s1 = s0.push(a0);
    lemma_stored_push(blank(id), s0, a0);
    let a1 = ("interface"@, Some(d.interface));
    let s2 = s1.push(a1);
    lemma_stored_push(blank(id), s1, a1);
    let a2 = ("disabled"@, Some(yes_no(d.disabled)));
    let s3 = s2.push(a2);
    lemma_stored_push(blank(id), s2, a2);
    assert(DesiredIpAddress::to_add(d) =~= s3);
}

/// A row of `/ip/address` that was set is read back as what it was set
/// to, under its own `.id`.
pub proof fn law_ip_address_set(row: RowView, c: CurrentIpAddressView, d: DesiredIpAddressView)
    requires
        ip_address_of(row) == Ok::<CurrentIpAddressView, ErrorView>(c),
        IpAddresses::current_key(c) == IpAddresses::desired_key(d),
    ensures
        ip_address_of(stored(row, DesiredIpAddress::to_set(d))) == Ok::<
            CurrentIpAddressView,
            ErrorView,
        >(IpAddresses::written(c, d)),
{
    lemma_names();
    lemma_flag("disabled"@, d.disabled);
    let s0 = Seq::<Attribute>::empty();
    let a0 = ("disabled"@, Some(yes_no(d.disabled)));
    let s1 = s0.push(a0);
    lemma_stored_push(row, s0, a0);
    assert(DesiredIpAddress::to_set(d) =~= s1);
}

/// A row that was added to `/ipv6/address` is read back as what was to be added.
pub proof fn law_ipv6_address_added(id: Seq<char>, d: DesiredIpv6AddressView)
    ensures
        ipv6_address_of(stored(blank(id), DesiredIpv6Address::to_add(d))) == Ok::<
            CurrentIpv6AddressView,
            ErrorView,
        >(Ipv6Addresses::created(id, d)),
{
    lemma_names();
    lemma_flag("advertise"@, d.advertise);
    lemma_flag("disabled"@, d.disabled);
    let s0 = Seq::<Attribute>::empty();
    let a0 = ("address"@, Some(d.address));
    let s1 = s0.push(a0);
    lemma_stored_push(blank(id), s0, a0);
    let a1 = ("interface"@, Some(d.interface));
    let s2 = s1.push(a1);
    lemma_stored_push(blank(id), s1, a1);
    let a2 = ("advertise"@, Some(yes_no(d.advertise)));
    let s3 = s2.push(a2);
    lemma_stored_push(blank(id), s2, a2);
    let a3 = ("disabled"@, Some(yes_no(d.disabled)));
    let s4 = s3.push(a3);
    lemma_stored_push(blank(id), s3, a3);
    assert(DesiredIpv6Address::to_add(d) =~= s4);
}

/// A row of `/ipv6/address` that was set is read back as what it was set
/// to, under its own `.id`.
pub proof fn law_ipv6_address_set(
    row: RowView,
    c: CurrentIpv6AddressView,
    d: DesiredIpv6AddressView,
)
    requires
        ipv6_address_of(row) == Ok::<CurrentIpv6AddressView, ErrorView>(c),
        Ipv6Addresses::current_key(c) == Ipv6Addresses::desired_key(d),
    ensures
        ipv6_address_of(stored(row, DesiredIpv6Address::to_set(d))) == Ok::<
            CurrentIpv6AddressView,
            ErrorView,
        >(Ipv6Addresses::written(c, d)),
{
    lemma_names();
    lemma_flag("advertise"@, d.advertise);
    lemma_flag("disabled"@, d.disabled);
    let s0 = Seq::<Attribute>::empty();
    let a0 = ("advertise"@, Some(yes_no(d.advertise)));
    let s1 = s0.push(a0);
    lemma_stored_push(row, s0, a0);
    let a1 = ("disabled"@, Some(yes_no(d.disabled)));
    let s2 = s1.push(a1);
    lemma_stored_push(row, s1, a1);
    assert(DesiredIpv6Address::to_set(d) =~= s2);
}

/// A row that was added to `/interface/list/member` is read back as what was to be added.
pub proof fn law_list_member_added(id: Seq<char>, d: DesiredListMemberView)
    ensures
        list_member_of(stored(blank(id), DesiredListMember::to_add(d))) == Ok::<
            CurrentListMemberView,
            ErrorView,
        >(ListMembers::created(id, d)),
{
    lemma_names();
    lemma_flag("disabled"@, d.disabled);
    let s0 = Seq::<Attribute>::empty();
    let a0 = ("list"@, Some(d.list));
    let s1 = s0.push(a0);
    lemma_stored_push(blank(id), s0, a0);
    let a1 = ("interface"@, Some(d.interface));
    let s2 = s1.push(a1);
    lemma_stored_push(blank(id), s1, a1);
    let a2 = ("disabled"@, Some(yes_no(d.disabled)));
    let s3 = s2.push(a2);
    lemma_stored_push(blank(id), s2, a2);
    assert(DesiredListMember::to_add(d) =~= s3);
}

/// A row of `/interface/list/member` that was set is read back as what it was set
/// to, under its own `.id`.
pub proof fn law_list_member_set(row: RowView, c: CurrentListMemberView, d: DesiredListMemberView)
    requires
        list_member_of(row) == Ok::<CurrentListMemberView, ErrorView>(c),
        ListMembers::current_key(c) == ListMembers::desired_key(d),
    ensures
        list_member_of(stored(row, DesiredListMember::to_set(d))) == Ok::<
            CurrentListMemberView,
            ErrorView,
        >(ListMembers::written(c, d)),
{
    lemma_names();
    lemma_flag("disabled"@, d.disabled);
    let s0 = Seq::<Attribute>::empty();
    let a0 = ("disabled"@, Some(yes_no(d.disabled)));
    let s1 = s0.push(a0);
    lemma_stored_push(row, s0, a0);
    assert(DesiredListMember::to_set(d) =~= s1);
}

/// A row that was added to `/routing/ospf/interface-template` is read back as what was to be added.
pub proof fn law_ospf_interface_template_added(id: Seq<char>, d: DesiredOspfInterfaceTemplateView)
    ensures
        ospf_template_of(stored(blank(id), DesiredOspfInterfaceTemplate::to_add(d))) == Ok::<
            CurrentOspfInterfaceTemplateView,
            ErrorView,
        >(OspfInterfaceTemplates::created(id, d)),
{
    lemma_names();
    lemma_flag("disabled"@, d.disabled);
    if d.cost is Some {
        law_decimal_round_trip(d.cost->Some_0 as nat, u16::MAX as nat);
    }
    let s0 = Seq::<Attribute>::empty();
    let a0 = ("interfaces"@, Some(d.interfaces));
    let s1 = s0.push(a0);
    lemma_stored_push(blank(id), s0, a0);
    let a1 = ("area"@, Some(d.area));
    let s2 = s1.push(a1);
    lemma_stored_push(blank(id), s1, a1);
    let a2 = ("type"@, d.type_);
    let s3 = if d.type_ is Some {
        s2.push(a2)
    } else {
        s2
    };
    lemma_stored_push(blank(id), s2, a2);
    let a3 = ("hello-interval"@, d.hello_interval);
    let s4 = if d.hello_interval is Some {
        s3.push(a3)
    } else {
        s3
    };
    lemma_stored_push(blank(id), s3, a3);
    let a4 = ("dead-interval"@, d.dead_interval);
    let s5 = if d.dead_interval is Some {
        s4.push(a4)
    } else {
        s4
    };
    lemma_stored_push(blank(id), s4, a4);
    let a5 = ("passive"@, None::<Seq<char>>);
    let s6 = if d.passive {
        s5.push(a5)
    } else {
        s5
    };
    lemma_stored_push(blank(id), s5, a5);
    let a6 = ("disabled"@, Some(yes_no(d.disabled)));
    let s7 = s6.push(a6);
    lemma_stored_push(blank(id), s6, a6);
    let a7 = ("cost"@, Some(decimal(d.cost->Some_0 as nat)));
    let s8 = if d.cost is Some {
        s7.push(a7)
    } else {
        s7
    };
    lemma_stored_push(blank(id), s7, a7);
    assert(DesiredOspfInterfaceTemplate::to_add(d) =~= s8);
}

/// A row of `/routing/ospf/interface-template` that was set is read back as what it was set
/// to, under its own `.id`.
pub proof fn law_ospf_interface_template_set(
    row: RowView,
    c: CurrentOspfInterfaceTemplateView,
    d: DesiredOspfInterfaceTemplateView,
)
    requires
        ospf_template_of(row) == Ok::<CurrentOspfInterfaceTemplateView, ErrorView>(c),
        OspfInterfaceTemplates::current_key(c) == OspfInterfaceTemplates::desired_key(d),
    ensures
        ospf_template_of(stored(row, DesiredOspfInterfaceTemplate::to_set(d))) == Ok::<
            CurrentOspfInterfaceTemplateView,
            ErrorView,
        >(OspfInterfaceTemplates::written(c, d)),
{
    lemma_names();
    lemma_flag("disabled"@, d.disabled);
    if d.cost is Some {
        law_decimal_round_trip(d.cost->Some_0 as nat, u16::MAX as nat);
    }
    let s0 = Seq::<Attribute>::empty();
    let a0 = ("interfaces"@, Some(d.interfaces));
    let s1 = s0.push(a0);
    lemma_stored_push(row, s0, a0);
    let a1 = ("area"@, Some(d.area));
    let s2 = s1.push(a1);
    lemma_stored_push(row, s1, a1);
    let a2 = ("type"@, d.type_);
    let s3 = if d.type_ is Some {
        s2.push(a2)
    } else {
        s2
    };
    lemma_stored_push(row, s2, a2);
    let a3 = ("hello-interval"@, d.hello_interval);
    let s4 = if d.hello_interval is Some {
        s3.push(a3)
    } else {
        s3
    };
    lemma_stored_push(row, s3, a3);
    let a4 = ("dead-interval"@, d.dead_interval);
    let s5 = if d.dead_interval is Some {
        s4.push(a4)
    } else {
        s4
    };
    lemma_stored_push(row, s4, a4);
    let a5 = ("passive"@, None::<Seq<char>>);
    let s6 = if d.passive {
        s5.push(a5)
    } else {
        s5
    };
    lemma_stored_push(row, s5, a5);
    let a6 = ("disabled"@, Some(yes_no(d.disabled)));
    let s7 = s6.push(a6);
    lemma_stored_push(row, s6, a6);
    let a7 = ("cost"@, Some(decimal(d.cost->Some_0 as nat)));
    let s8 = if d.cost is Some {
        s7.push(a7)
    } else {
        s7
    };
    lemma_stored_push(row, s7, a7);
    assert(DesiredOspfInterfaceTemplate::to_set(d) =~= s8);
}

/// A row that was added to `/ip/firewall/address-list` is read back as what was to be added.
pub proof fn law_address_list_entry_added(id: Seq<char>, d: DesiredAddressListEntryView)
    ensures
        address_list_entry_of(stored(blank(id), DesiredAddressListEntry::to_add(d))) == Ok::<
            CurrentAddressListEntryView,
            ErrorView,
        >(BgpNetworks::created(id, d)),
{
    lemma_names();
    lemma_flag("disabled"@, d.disabled);
    let s0 = Seq::<Attribute>::empty();
    let a0 = ("list"@, Some(d.list));
    let s1 = s0.push(a0);
    lemma_stored_push(blank(id), s0, a0);
    let a1 = ("address"@, Some(d.address));
    let s2 = s1.push(a1);
    lemma_stored_push(blank(id), s1, a1);
    let a2 = ("disabled"@, Some(yes_no(d.disabled)));
    let s3 = s2.push(a2);
    lemma_stored_push(blank(id), s2, a2);
    assert(DesiredAddressListEntry::to_add(d) =~= s3);
}

/// A row of `/ip/firewall/address-list` that was set is read back as what it was set
/// to, under its own `.id`.
pub proof fn law_address_list_entry_set(
    row: RowView,
    c: CurrentAddressListEntryView,
    d: DesiredAddressListEntryView,
)
    requires
        address_list_entry_of(row) == Ok::<CurrentAddressListEntryView, ErrorView>(c),
        BgpNetworks::current_key(c) == BgpNetworks::desired_key(d),
    ensures
        address_list_entry_of(stored(row, DesiredAddressListEntry::to_set(d))) == Ok::<
            CurrentAddressListEntryView,
            ErrorView,
        >(BgpNetworks::written(c, d)),
{
    lemma_names();
    lemma_flag("disabled"@, d.disabled);
    let s0 = Seq::<Attribute>::empty();
    let a0 = ("disabled"@, Some(yes_no(d.disabled)));
    let s1 = s0.push(a0);
    lemma_stored_push(row, s0, a0);
    assert(DesiredAddressListEntry::to_set(d) =~= s1);
}

/// A row that was added to `/routing/bgp/connection` is read back as what was to be added.
pub proof fn law_bgp_connection_added(id: Seq<char>, d: DesiredBgpConnectionView)
    requires
        d.local_address.len() == 8,
        d.remote_address.len() == 8,
    ensures
        bgp_connection_of(stored(blank(id), DesiredBgpConnection::to_add(d))) == Ok::<
            CurrentBgpConnectionView,
            ErrorView,
        >(BgpConnections::created(id, d)),
{
    lemma_names();
    lemma_flag("multihop"@, d.multihop);
    lemma_flag("disabled"@, d.disabled);
    law_ipv6_round_trip(d.local_address);
    law_ipv6_round_trip(d.remote_address);
    let s0 = Seq::<Attribute>::empty();
    let a0 = ("name"@, Some(d.name));
    let s1 = s0.push(a0);
    lemma_stored_push(blank(id), s0, a0);
    let a1 = ("instance"@, Some(d.instance));
    let s2 = s1.push(a1);
    lemma_stored_push(blank(id), s1, a1);
    let a2 = ("local.role"@, Some(d.local_role));
    let s3 = s2.push(a2);
    lemma_stored_push(blank(id), s2, a2);
    let a3 = ("multihop"@, Some(yes_no(d.multihop)));
    let s4 = s3.push(a3);
    lemma_stored_push(blank(id), s3, a3);
    let a4 = ("afi"@, Some(d.afi));
    let s5 = s4.push(a4);
    lemma_stored_push(blank(id), s4, a4);
    let a5 = ("output.network"@, Some(d.output_network));
    let s6 = s5.push(a5);
    lemma_stored_push(blank(id), s5, a5);
    let a6 = ("disabled"@, Some(yes_no(d.disabled)));
    let s7 = s6.push(a6);
    lemma_stored_push(blank(id), s6, a6);
    let a7 = ("local.address"@, Some(ipv6_text(d.local_address)));
    let s8 = s7.push(a7);
    lemma_stored_push(blank(id), s7, a7);
    let a8 = ("remote.address"@, Some(ipv6_text(d.remote_address)));
    let s9 = s8.push(a8);
    lemma_stored_push(blank(id), s8, a8);
    assert(DesiredBgpConnection::to_add(d) =~= s9);
}

/// A row of `/routing/bgp/connection` that was set is read back as what it was set
/// to, under its own `.id`.
pub proof fn law_bgp_connection_set(
    row: RowView,
    c: CurrentBgpConnectionView,
    d: DesiredBgpConnectionView,
)
    requires
        bgp_connection_of(row) == Ok::<CurrentBgpConnectionView, ErrorView>(c),
        BgpConnections::current_key(c) == BgpConnections::desired_key(d),
        d.local_address.len() == 8,
        d.remote_address.len() == 8,
    ensures
        bgp_connection_of(stored(row, DesiredBgpConnection::to_set(d))) == Ok::<
            CurrentBgpConnectionView,
            ErrorView,
        >(BgpConnections::written(c, d)),
{
    lemma_names();
    lemma_flag("multihop"@, d.multihop);
    lemma_flag("disabled"@, d.disabled);
    law_ipv6_round_trip(d.local_address);
    law_ipv6_round_trip(d.remote_address);
    let s0 = Seq::<Attribute>::empty();
    let a0 = ("name"@, Some(d.name));
    let s1 = s0.push(a0);
    lemma_stored_push(row, s0, a0);
    let a1 = ("instance"@, Some(d.instance));
    let s2 = s1.push(a1);
    lemma_stored_push(row, s1, a1);
    let a2 = ("local.role"@, Some(d.local_role));
    let s3 = s2.push(a2);
    lemma_stored_push(row, s2, a2);
    let a3 = ("multihop"@, Some(yes_no(d.multihop)));
    let s4 = s3.push(a3);
    lemma_stored_push(row, s3, a3);
    let a4 = ("afi"@, Some(d.afi));
    let s5 = s4.push(a4);
    lemma_stored_push(row, s4, a4);
    let a5 = ("output.network"@, Some(d.output_network));
    let s6 = s5.push(a5);
    lemma_stored_push(row, s5, a5);
    let a6 = ("disabled"@, Some(yes_no(d.disabled)));
    let s7 = s6.push(a6);
    lemma_stored_push(row, s6, a6);
    let a7 = ("local.address"@, Some(ipv6_text(d.local_address)));
    let s8 = s7.push(a7);
    lemma_stored_push(row, s7, a7);
    let a8 = ("remote.address"@, Some(ipv6_text(d.remote_address)));
    let s9 = s8.push(a8);
    lemma_stored_push(row, s8, a8);
    assert(DesiredBgpConnection::to_set(d) =~= s9);
}

/// Which routes are redistributed is answered as it was written.
proof fn lemma_redistribution(connected: bool)
    ensures
        redistributes_connected(redistribution(connected)) == connected,
{
    reveal_strlit("connected");
    reveal_strlit("");
    let s = redistribution(connected);
    assert("connected"@.len() == 9 && ""@.len() == 0);
    assert(!s.contains(',')) by {
        assert forall|i: int| 0 <= i < s.len() implies s[i] != ',' by {
            assert("connected"@ =~= seq!['c', 'o', 'n', 'n', 'e', 'c', 't', 'e', 'd']);
        }
    }
    lemma_split_whole(s, ',');
    assert(split(s, ',')[0] == s);
}

/// The row that was added to `/interface/bridge` is read back as what was to be added.
pub proof fn law_bridge_added(id: Seq<char>, d: DesiredBridgeView)
    ensures
        id_of(stored(blank(id), DesiredBridge::to_add(d))) == Ok::<Seq<char>, ErrorView>(id),
        value_of(stored(blank(id), DesiredBridge::to_add(d)), "name"@) == Some(d.name),
        bridge_of(d.name)(stored(blank(id), DesiredBridge::to_add(d))) == d,
{
    lemma_names();
    lemma_flag("disabled"@, d.disabled);
    let s0 = Seq::<Attribute>::empty();
    let a0 = ("name"@, Some(d.name));
    let s1 = s0.push(a0);
    lemma_stored_push(blank(id), s0, a0);
    let a1 = ("protocol-mode"@, Some("none"@));
    let s2 = s1.push(a1);
    lemma_stored_push(blank(id), s1, a1);
    let a2 = ("disabled"@, Some(yes_no(d.disabled)));
    let s3 = s2.push(a2);
    lemma_stored_push(blank(id), s2, a2);
    assert(DesiredBridge::to_add(d) =~= s3);
}

/// The row of `/interface/bridge` that was set keeps its id and its name, and is read back as
/// what it was set to.
pub proof fn law_bridge_set(row: RowView, d: DesiredBridgeView)
    ensures
        value_of(stored(row, DesiredBridge::to_set(d)), ".id"@) == value_of(row, ".id"@),
        value_of(stored(row, DesiredBridge::to_set(d)), "name"@) == value_of(row, "name"@),
        bridge_of(d.name)(stored(row, DesiredBridge::to_set(d))) == d,
{
    lemma_names();
    lemma_flag("disabled"@, d.disabled);
    let s0 = Seq::<Attribute>::empty();
    let a0 = ("disabled"@, Some(yes_no(d.disabled)));
    let s1 = s0.push(a0);
    lemma_stored_push(row, s0, a0);
    assert(DesiredBridge::to_set(d) =~= s1);
}

/// The row that was added to `/routing/ospf/instance` is read back as what was to be added. It is
/// added enabled, whatever it should be, so one that should be disabled is not.
pub proof fn law_ospf_instance_added(id: Seq<char>, d: DesiredOspfInstanceView)
    requires
        !d.disabled,
    ensures
        id_of(stored(blank(id), DesiredOspfInstance::to_add(d))) == Ok::<Seq<char>, ErrorView>(id),
        value_of(stored(blank(id), DesiredOspfInstance::to_add(d)), "name"@) == Some(d.name),
        ospf_instance_of(d.name)(stored(blank(id), DesiredOspfInstance::to_add(d))) == d,
{
    lemma_names();
    law_decimal_round_trip(d.version as nat, u8::MAX as nat);
    law_ipv4_round_trip(d.router_id);
    lemma_redistribution(d.redistribute_connected);
    let s0 = Seq::<Attribute>::empty();
    let a0 = ("name"@, Some(d.name));
    let s1 = s0.push(a0);
    lemma_stored_push(blank(id), s0, a0);
    let a1 = ("version"@, Some(decimal(d.version as nat)));
    let s2 = s1.push(a1);
    lemma_stored_push(blank(id), s1, a1);
    let a2 = ("router-id"@, Some(ipv4_text(d.router_id)));
    let s3 = s2.push(a2);
    lemma_stored_push(blank(id), s2, a2);
    let a3 = ("redistribute"@, Some(redistribution(d.redistribute_connected)));
    let s4 = s3.push(a3);
    lemma_stored_push(blank(id), s3, a3);
    assert(DesiredOspfInstance::to_add(d) =~= s4);
}

/// The row of `/routing/ospf/instance` that was set keeps its id and its name. It is read back as
/// what it was set to exactly if it was so already in what setting does not write: `disabled`.
pub proof fn law_ospf_instance_set(row: RowView, d: DesiredOspfInstanceView)
    ensures
        value_of(stored(row, DesiredOspfInstance::to_set(d)), ".id"@) == value_of(row, ".id"@),
        value_of(stored(row, DesiredOspfInstance::to_set(d)), "name"@) == value_of(row, "name"@),
        ospf_instance_of(d.name)(stored(row, DesiredOspfInstance::to_set(d))) == d <==> {
            &&& ospf_instance_of(d.name)(row).disabled == d.disabled
        },
{
    lemma_names();
    law_decimal_round_trip(d.version as nat, u8::MAX as nat);
    law_ipv4_round_trip(d.router_id);
    lemma_redistribution(d.redistribute_connected);
    let s0 = Seq::<Attribute>::empty();
    let a0 = ("version"@, Some(decimal(d.version as nat)));
    let s1 = s0.push(a0);
    lemma_stored_push(row, s0, a0);
    let a1 = ("router-id"@, Some(ipv4_text(d.router_id)));
    let s2 = s1.push(a1);
    lemma_stored_push(row, s1, a1);
    let a2 = ("redistribute"@, Some(redistribution(d.redistribute_connected)));
    let s3 = s2.push(a2);
    lemma_stored_push(row, s2, a2);
    assert(DesiredOspfInstance::to_set(d) =~= s3);
}

/// The row that was added to `/routing/ospf/area` is read back as what was to be added. It is
/// added enabled, whatever it should be, so one that should be disabled is not.
pub proof fn law_ospf_area_added(id: Seq<char>, d: DesiredOspfAreaView)
    requires
        !d.disabled,
    ensures
        id_of(stored(blank(id), DesiredOspfArea::to_add(d))) == Ok::<Seq<char>, ErrorView>(id),
        value_of(stored(blank(id), DesiredOspfArea::to_add(d)), "name"@) == Some(d.name),
        ospf_area_of(d.name)(stored(blank(id), DesiredOspfArea::to_add(d))) == d,
{
    lemma_names();
    let s0 = Seq::<Attribute>::empty();
    let a0 = ("name"@, Some(d.name));
    let s1 = s0.push(a0);
    lemma_stored_push(blank(id), s0, a0);
    let a1 = ("area-id"@, Some(d.area_id));
    let s2 = s1.push(a1);
    lemma_stored_push(blank(id), s1, a1);
    let a2 = ("instance"@, Some(d.instance));
    let s3 = s2.push(a2);
    lemma_stored_push(blank(id), s2, a2);
    assert(DesiredOspfArea::to_add(d) =~= s3);
}

/// The row of `/routing/ospf/area` that was set keeps its id and its name. It is read back as
/// what it was set to exactly if it was so already in what setting does not write:
/// `area_id` and `disabled`.
pub proof fn law_ospf_area_set(row: RowView, d: DesiredOspfAreaView)
    ensures
        value_of(stored(row, DesiredOspfArea::to_set(d)), ".id"@) == value_of(row, ".id"@),
        value_of(stored(row, DesiredOspfArea::to_set(d)), "name"@) == value_of(row, "name"@),
        ospf_area_of(d.name)(stored(row, DesiredOspfArea::to_set(d))) == d <==> {
            &&& ospf_area_of(d.name)(row).area_id == d.area_id
            &&& ospf_area_of(d.name)(row).disabled == d.disabled
        },
{
    lemma_names();
    let s0 = Seq::<Attribute>::empty();
    let a0 = ("instance"@, Some(d.instance));
    let s1 = s0.push(a0);
    lemma_stored_push(row, s0, a0);
    assert(DesiredOspfArea::to_set(d) =~= s1);
}

/// The row that was added to `/routing/bgp/instance` is read back as what was to be added. It is
/// added enabled, whatever it should be, so one that should be disabled is not.
pub proof fn law_bgp_instance_added(id: Seq<char>, d: DesiredBgpInstanceView)
    requires
        !d.disabled,
    ensures
        id_of(stored(blank(id), DesiredBgpInstance::to_add(d))) == Ok::<Seq<char>, ErrorView>(id),
        value_of(stored(blank(id), DesiredBgpInstance::to_add(d)), "name"@) == Some(d.name),
        bgp_instance_of(d.name)(stored(blank(id), DesiredBgpInstance::to_add(d))) == d,
{
    lemma_names();
    law_decimal_round_trip(d.as_number as nat, u32::MAX as nat);
    law_ipv4_round_trip(d.router_id);
    let s0 = Seq::<Attribute>::empty();
    let a0 = ("name"@, Some(d.name));
    let s1 = s0.push(a0);
    lemma_stored_push(blank(id), s0, a0);
    let a1 = ("as"@, Some(decimal(d.as_number as nat)));
    let s2 = s1.push(a1);
    lemma_stored_push(blank(id), s1, a1);
    let a2 = ("router-id"@, Some(ipv4_text(d.router_id)));
    let s3 = s2.push(a2);
    lemma_stored_push(blank(id), s2, a2);
    let a3 = ("routing-table"@, Some(d.routing_table));
    let s4 = s3.push(a3);
    lemma_stored_push(blank(id), s3, a3);
    assert(DesiredBgpInstance::to_add(d) =~= s4);
}

/// The row of `/routing/bgp/instance` that was set keeps its id and its name. It is read back as
/// what it was set to exactly if it was so already in what setting does not write:
/// `routing_table` and `disabled`.
pub proof fn law_bgp_instance_set(row: RowView, d: DesiredBgpInstanceView)
    ensures
        value_of(stored(row, DesiredBgpInstance::to_set(d)), ".id"@) == value_of(row, ".id"@),
        value_of(stored(row, DesiredBgpInstance::to_set(d)), "name"@) == value_of(row, "name"@),
        bgp_instance_of(d.name)(stored(row, DesiredBgpInstance::to_set(d))) == d <==> {
            &&& bgp_instance_of(d.name)(row).routing_table == d.routing_table
            &&& bgp_instance_of(d.name)(row).disabled == d.disabled
        },
{
    lemma_names();
    law_decimal_round_trip(d.as_number as nat, u32::MAX as nat);
    law_ipv4_round_trip(d.router_id);
    let s0 = Seq::<Attribute>::empty();
    let a0 = ("as"@, Some(decimal(d.as_number as nat)));
    let s1 = s0.push(a0);
    lemma_stored_push(row, s0, a0);
    let a1 = ("router-id"@, Some(ipv4_text(d.router_id)));
    let s2 = s1.push(a1);
    lemma_stored_push(row, s1, a1);
    assert(DesiredBgpInstance::to_set(d) =~= s2);
}

} // verus!
