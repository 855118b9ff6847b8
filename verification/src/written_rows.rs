//! What is left in a row that was added or set, field by field.
//!
//! A law here speaks of the row's fields by the names that RouterOS gives them, and for the tables
//! of which the device has many rows, of the row that is read back as well.

use crate::addr::{ipv4_text, ipv6_text};
use crate::apply::{with_number, with_some, yes_no, Writable};
use crate::device::{
    blank, law_address_list_entry_added, law_address_list_entry_set, law_bgp_connection_added,
    law_bgp_connection_set, law_ip_address_added, law_ip_address_set, law_ipv6_address_added,
    law_ipv6_address_set, law_list_member_added, law_list_member_set,
    law_ospf_interface_template_added, law_ospf_interface_template_set,
    law_wireguard_interface_added, law_wireguard_interface_set, law_wireguard_peer_added,
    law_wireguard_peer_set, lemma_names, lemma_stored_push, stored,
};
use crate::error::ErrorView;
use crate::mikrotik::{
    address_list_entry_of, bgp_connection_of, ip_address_of, ipv6_address_of, list_member_of,
    ospf_template_of, wireguard_interface_of, wireguard_peer_of,
};
use crate::number::decimal;
use crate::request::Attribute;
use crate::row::{value_of, RowView};
use crate::rows::{
    CurrentAddressListEntryView, CurrentBgpConnectionView, CurrentIpAddressView,
    CurrentIpv6AddressView, CurrentListMemberView, CurrentOspfInterfaceTemplateView,
    CurrentWireguardInterfaceView, CurrentWireguardPeerView, DesiredAddressListEntry,
    DesiredAddressListEntryView, DesiredBgpConnection, DesiredBgpConnectionView, DesiredBgpInstance,
    DesiredBgpInstanceView, DesiredBridge, DesiredBridgeView, DesiredIpAddress,
    DesiredIpAddressView, DesiredIpv6Address, DesiredIpv6AddressView, DesiredListMember,
    DesiredListMemberView, DesiredOspfArea, DesiredOspfAreaView, DesiredOspfInstance,
    DesiredOspfInstanceView, DesiredOspfInterfaceTemplate, DesiredOspfInterfaceTemplateView,
    DesiredWireguardInterface, DesiredWireguardInterfaceView, DesiredWireguardPeer,
    DesiredWireguardPeerView,
};
use vstd::prelude::*;

verus! {

/// How a device answers a flag.
pub open spec fn flag_text(b: bool) -> Seq<char> {
    if b {
        "true"@
    } else {
        "false"@
    }
}

/// Whether a row has the same in a field as before, or still lacks it.
pub open spec fn is_kept(before: RowView, after: RowView, key: Seq<char>) -> bool {
    &&& after.contains_key(key) == before.contains_key(key)
    &&& value_of(after, key) == value_of(before, key)
}

proof fn lemma_stored_some(
    row: RowView,
    s: Seq<Attribute>,
    key: Seq<char>,
    value: Option<Seq<char>>,
)
    ensures
        stored(row, with_some(s, key, value)) == match value {
            Some(v) => stored(row, s.push((key, Some(v)))),
            None => stored(row, s),
        },
{
}

proof fn lemma_stored_number(row: RowView, s: Seq<Attribute>, key: Seq<char>, value: Option<u16>)
    ensures
        stored(row, with_number(s, key, value)) == match value {
            Some(n) => stored(row, s.push((key, Some(decimal(n as nat))))),
            None => stored(row, s),
        },
{
}

proof fn lemma_flags()
    ensures
        "yes"@ != "no"@,
{
    reveal_strlit("yes");
    reveal_strlit("no");
    assert("yes"@.len() == 3 && "no"@.len() == 2);
}

/// A row that is added to `/interface/wireguard` has these fields as they should be, and every
/// other field as it was.
pub proof fn law_wireguard_interface_fields_added(row: RowView, d: DesiredWireguardInterfaceView)
    ensures
        DesiredWireguardInterface::path() == "/interface/wireguard"@,
        ({
            let after = stored(row, DesiredWireguardInterface::to_add(d));
            &&& value_of(after, "name"@) == Some(d.name)
            &&& value_of(after, "listen-port"@) == Some(decimal(d.listen_port as nat))
            &&& value_of(after, "private-key"@) == Some(d.private_key_b64)
            &&& value_of(after, "disabled"@) == Some(flag_text(d.disabled))
            &&& forall|key: Seq<char>|
                !seq![
                    "name"@, "listen-port"@, "private-key"@,
                    "disabled"@,
                ].contains(key) ==> #[trigger] is_kept(row, after, key)
        }),
{
    lemma_names();
    lemma_flags();
    let s0 = Seq::<Attribute>::empty();
    let a0 = ("name"@, Some(d.name));
    let s1 = s0.push(a0);
    lemma_stored_push(row, s0, a0);
    let a1 = ("listen-port"@, Some(decimal(d.listen_port as nat)));
    let s2 = s1.push(a1);
    lemma_stored_push(row, s1, a1);
    let a2 = ("private-key"@, Some(d.private_key_b64));
    let s3 = s2.push(a2);
    lemma_stored_push(row, s2, a2);
    let a3 = ("disabled"@, Some(yes_no(d.disabled)));
    let s4 = s3.push(a3);
    lemma_stored_push(row, s3, a3);
    assert(DesiredWireguardInterface::to_add(d) =~= s4);
    let after = stored(row, DesiredWireguardInterface::to_add(d));
    let names = seq!["name"@, "listen-port"@, "private-key"@, "disabled"@];
    assert(names[0] == "name"@);
    assert(names[1] == "listen-port"@);
    assert(names[2] == "private-key"@);
    assert(names[3] == "disabled"@);
    assert forall|key: Seq<char>| !names.contains(key) implies #[trigger] is_kept(
        row,
        after,
        key,
    ) by {
        assert(key != "name"@);
        assert(key != "listen-port"@);
        assert(key != "private-key"@);
        assert(key != "disabled"@);
    }
}

/// A row that is set in `/interface/wireguard` has these fields as they should be, and every
/// other field as it was.
pub proof fn law_wireguard_interface_fields_set(row: RowView, d: DesiredWireguardInterfaceView)
    ensures
        DesiredWireguardInterface::path() == "/interface/wireguard"@,
        ({
            let after = stored(row, DesiredWireguardInterface::to_set(d));
            &&& value_of(after, "listen-port"@) == Some(decimal(d.listen_port as nat))
            &&& value_of(after, "private-key"@) == Some(d.private_key_b64)
            &&& value_of(after, "disabled"@) == Some(flag_text(d.disabled))
            &&& forall|key: Seq<char>|
                !seq![
                    "listen-port"@, "private-key"@, "disabled"@,
                ].contains(key) ==> #[trigger] is_kept(row, after, key)
        }),
{
    lemma_names();
    lemma_flags();
    let s0 = Seq::<Attribute>::empty();
    let a0 = ("listen-port"@, Some(decimal(d.listen_port as nat)));
    let s1 = s0.push(a0);
    lemma_stored_push(row, s0, a0);
    let a1 = ("private-key"@, Some(d.private_key_b64));
    let s2 = s1.push(a1);
    lemma_stored_push(row, s1, a1);
    let a2 = ("disabled"@, Some(yes_no(d.disabled)));
    let s3 = s2.push(a2);
    lemma_stored_push(row, s2, a2);
    assert(DesiredWireguardInterface::to_set(d) =~= s3);
    let after = stored(row, DesiredWireguardInterface::to_set(d));
    let names = seq!["listen-port"@, "private-key"@, "disabled"@];
    assert(names[0] == "listen-port"@);
    assert(names[1] == "private-key"@);
    assert(names[2] == "disabled"@);
    assert forall|key: Seq<char>| !names.contains(key) implies #[trigger] is_kept(
        row,
        after,
        key,
    ) by {
        assert(key != "listen-port"@);
        assert(key != "private-key"@);
        assert(key != "disabled"@);
    }
}

/// A row that is added to `/interface/wireguard` is read back as the desired one in every field,
/// under the id that the device gave it.
pub proof fn law_wireguard_interface_read_after_adding(
    id: Seq<char>,
    d: DesiredWireguardInterfaceView,
)
    ensures
        wireguard_interface_of(
            stored(blank(id), DesiredWireguardInterface::to_add(d)),
        ) matches Ok(now) && {
            &&& now.id == id
            &&& now.name == d.name
            &&& now.listen_port == d.listen_port
            &&& now.private_key_b64 == d.private_key_b64
            &&& now.disabled == d.disabled
        },
{
    law_wireguard_interface_added(id, d);
}

/// A row that is set in `/interface/wireguard` is read back as the desired one, whatever it held
/// before, under its own id.
pub proof fn law_wireguard_interface_read_after_setting(
    row: RowView,
    c: CurrentWireguardInterfaceView,
    d: DesiredWireguardInterfaceView,
)
    requires
        wireguard_interface_of(row) == Ok::<CurrentWireguardInterfaceView, ErrorView>(c),
        c.name == d.name,
    ensures
        wireguard_interface_of(
            stored(row, DesiredWireguardInterface::to_set(d)),
        ) matches Ok(now) && {
            &&& now.id == c.id
            &&& now.name == d.name
            &&& now.listen_port == d.listen_port
            &&& now.private_key_b64 == d.private_key_b64
            &&& now.disabled == d.disabled
        },
{
    law_wireguard_interface_set(row, c, d);
}

/// A row that is added to `/interface/wireguard/peers` has these fields as they should be, and
/// every other field as it was.
pub proof fn law_wireguard_peer_fields_added(row: RowView, d: DesiredWireguardPeerView)
    ensures
        DesiredWireguardPeer::path() == "/interface/wireguard/peers"@,
        ({
            let after = stored(row, DesiredWireguardPeer::to_add(d));
            &&& value_of(after, "interface"@) == Some(d.interface)
            &&& value_of(after, "comment"@) == Some(d.name)
            &&& value_of(after, "public-key"@) == Some(d.public_key_b64)
            &&& value_of(after, "allowed-address"@) == Some(d.allowed_address)
            &&& value_of(after, "endpoint-address"@) == d.endpoint_address
            &&& value_of(after, "disabled"@) == Some(flag_text(d.disabled))
            &&& match d.endpoint_port {
                Some(v) => value_of(after, "endpoint-port"@) == Some(decimal(v as nat)),
                None => is_kept(row, after, "endpoint-port"@),
            }
            &&& match d.persistent_keepalive {
                Some(v) => value_of(after, "persistent-keepalive"@) == Some(decimal(v as nat)),
                None => is_kept(row, after, "persistent-keepalive"@),
            }
            &&& forall|key: Seq<char>|
                !seq![
                    "interface"@, "comment"@, "public-key"@, "allowed-address"@,
                    "endpoint-address"@, "disabled"@, "endpoint-port"@,
                    "persistent-keepalive"@,
                ].contains(key) ==> #[trigger] is_kept(row, after, key)
        }),
{
    lemma_names();
    lemma_flags();
    let s0 = Seq::<Attribute>::empty();
    let a0 = ("interface"@, Some(d.interface));
    let s1 = s0.push(a0);
    lemma_stored_push(row, s0, a0);
    let a1 = ("comment"@, Some(d.name));
    let s2 = s1.push(a1);
    lemma_stored_push(row, s1, a1);
    let a2 = ("public-key"@, Some(d.public_key_b64));
    let s3 = s2.push(a2);
    lemma_stored_push(row, s2, a2);
    let a3 = ("allowed-address"@, Some(d.allowed_address));
    let s4 = s3.push(a3);
    lemma_stored_push(row, s3, a3);
    let a4 = ("endpoint-address"@, d.endpoint_address);
    let s5 = s4.push(a4);
    lemma_stored_push(row, s4, a4);
    let a5 = ("disabled"@, Some(yes_no(d.disabled)));
    let s6 = s5.push(a5);
    lemma_stored_push(row, s5, a5);
    let s7 = with_number(s6, "endpoint-port"@, d.endpoint_port);
    lemma_stored_number(row, s6, "endpoint-port"@, d.endpoint_port);
    if let Some(v) = d.endpoint_port {
        lemma_stored_push(row, s6, ("endpoint-port"@, Some(decimal(v as nat))));
    }
    let s8 = with_number(s7, "persistent-keepalive"@, d.persistent_keepalive);
    lemma_stored_number(row, s7, "persistent-keepalive"@, d.persistent_keepalive);
    if let Some(v) = d.persistent_keepalive {
        lemma_stored_push(row, s7, ("persistent-keepalive"@, Some(decimal(v as nat))));
    }
    assert(DesiredWireguardPeer::to_add(d) =~= s8);
    let after = stored(row, DesiredWireguardPeer::to_add(d));
    let names = seq![
        "interface"@, "comment"@, "public-key"@, "allowed-address"@, "endpoint-address"@,
        "disabled"@, "endpoint-port"@, "persistent-keepalive"@,
    ];
    assert(names[0] == "interface"@);
    assert(names[1] == "comment"@);
    assert(names[2] == "public-key"@);
    assert(names[3] == "allowed-address"@);
    assert(names[4] == "endpoint-address"@);
    assert(names[5] == "disabled"@);
    assert(names[6] == "endpoint-port"@);
    assert(names[7] == "persistent-keepalive"@);
    assert forall|key: Seq<char>| !names.contains(key) implies #[trigger] is_kept(
        row,
        after,
        key,
    ) by {
        assert(key != "interface"@);
        assert(key != "comment"@);
        assert(key != "public-key"@);
        assert(key != "allowed-address"@);
        assert(key != "endpoint-address"@);
        assert(key != "disabled"@);
        assert(key != "endpoint-port"@);
        assert(key != "persistent-keepalive"@);
    }
}

/// A row that is set in `/interface/wireguard/peers` has these fields as they should be, and every
/// other field as it was.
pub proof fn law_wireguard_peer_fields_set(row: RowView, d: DesiredWireguardPeerView)
    ensures
        DesiredWireguardPeer::path() == "/interface/wireguard/peers"@,
        ({
            let after = stored(row, DesiredWireguardPeer::to_set(d));
            &&& value_of(after, "interface"@) == Some(d.interface)
            &&& value_of(after, "comment"@) == Some(d.name)
            &&& value_of(after, "public-key"@) == Some(d.public_key_b64)
            &&& value_of(after, "allowed-address"@) == Some(d.allowed_address)
            &&& value_of(after, "endpoint-address"@) == d.endpoint_address
            &&& value_of(after, "disabled"@) == Some(flag_text(d.disabled))
            &&& match d.endpoint_port {
                Some(v) => value_of(after, "endpoint-port"@) == Some(decimal(v as nat)),
                None => is_kept(row, after, "endpoint-port"@),
            }
            &&& match d.persistent_keepalive {
                Some(v) => value_of(after, "persistent-keepalive"@) == Some(decimal(v as nat)),
                None => is_kept(row, after, "persistent-keepalive"@),
            }
            &&& forall|key: Seq<char>|
                !seq![
                    "interface"@, "comment"@, "public-key"@, "allowed-address"@,
                    "endpoint-address"@, "disabled"@, "endpoint-port"@,
                    "persistent-keepalive"@,
                ].contains(key) ==> #[trigger] is_kept(row, after, key)
        }),
{
    lemma_names();
    lemma_flags();
    let s0 = Seq::<Attribute>::empty();
    let a0 = ("interface"@, Some(d.interface));
    let s1 = s0.push(a0);
    lemma_stored_push(row, s0, a0);
    let a1 = ("comment"@, Some(d.name));
    let s2 = s1.push(a1);
    lemma_stored_push(row, s1, a1);
    let a2 = ("public-key"@, Some(d.public_key_b64));
    let s3 = s2.push(a2);
    lemma_stored_push(row, s2, a2);
    let a3 = ("allowed-address"@, Some(d.allowed_address));
    let s4 = s3.push(a3);
    lemma_stored_push(row, s3, a3);
    let a4 = ("endpoint-address"@, d.endpoint_address);
    let s5 = s4.push(a4);
    lemma_stored_push(row, s4, a4);
    let a5 = ("disabled"@, Some(yes_no(d.disabled)));
    let s6 = s5.push(a5);
    lemma_stored_push(row, s5, a5);
    let s7 = with_number(s6, "endpoint-port"@, d.endpoint_port);
    lemma_stored_number(row, s6, "endpoint-port"@, d.endpoint_port);
    if let Some(v) = d.endpoint_port {
        lemma_stored_push(row, s6, ("endpoint-port"@, Some(decimal(v as nat))));
    }
    let s8 = with_number(s7, "persistent-keepalive"@, d.persistent_keepalive);
    lemma_stored_number(row, s7, "persistent-keepalive"@, d.persistent_keepalive);
    if let Some(v) = d.persistent_keepalive {
        lemma_stored_push(row, s7, ("persistent-keepalive"@, Some(decimal(v as nat))));
    }
    assert(DesiredWireguardPeer::to_set(d) =~= s8);
    let after = stored(row, DesiredWireguardPeer::to_set(d));
    let names = seq![
        "interface"@, "comment"@, "public-key"@, "allowed-address"@, "endpoint-address"@,
        "disabled"@, "endpoint-port"@, "persistent-keepalive"@,
    ];
    assert(names[0] == "interface"@);
    assert(names[1] == "comment"@);
    assert(names[2] == "public-key"@);
    assert(names[3] == "allowed-address"@);
    assert(names[4] == "endpoint-address"@);
    assert(names[5] == "disabled"@);
    assert(names[6] == "endpoint-port"@);
    assert(names[7] == "persistent-keepalive"@);
    assert forall|key: Seq<char>| !names.contains(key) implies #[trigger] is_kept(
        row,
        after,
        key,
    ) by {
        assert(key != "interface"@);
        assert(key != "comment"@);
        assert(key != "public-key"@);
        assert(key != "allowed-address"@);
        assert(key != "endpoint-address"@);
        assert(key != "disabled"@);
        assert(key != "endpoint-port"@);
        assert(key != "persistent-keepalive"@);
    }
}

/// A row that is added to `/interface/wireguard/peers` is read back as the desired one in every
/// field, under the id that the device gave it.
pub proof fn law_wireguard_peer_read_after_adding(id: Seq<char>, d: DesiredWireguardPeerView)
    ensures
        wireguard_peer_of(stored(blank(id), DesiredWireguardPeer::to_add(d))) matches Ok(now) && {
            &&& now.id == id
            &&& now.interface == d.interface
            &&& now.name == d.name
            &&& now.public_key_b64 == d.public_key_b64
            &&& now.allowed_address == d.allowed_address
            &&& now.endpoint_address == d.endpoint_address
            &&& now.disabled == d.disabled
            &&& now.endpoint_port == d.endpoint_port
            &&& now.persistent_keepalive == d.persistent_keepalive
        },
{
    law_wireguard_peer_added(id, d);
}

/// A row that is set in `/interface/wireguard/peers` is read back as the desired one, whatever it
/// held before, under its own id. Only what the desired row says nothing of is as it was.
pub proof fn law_wireguard_peer_read_after_setting(
    row: RowView,
    c: CurrentWireguardPeerView,
    d: DesiredWireguardPeerView,
)
    requires
        wireguard_peer_of(row) == Ok::<CurrentWireguardPeerView, ErrorView>(c),
        c.interface == d.interface,
        c.name == d.name,
    ensures
        wireguard_peer_of(stored(row, DesiredWireguardPeer::to_set(d))) matches Ok(now) && {
            &&& now.id == c.id
            &&& now.interface == d.interface
            &&& now.name == d.name
            &&& now.public_key_b64 == d.public_key_b64
            &&& now.allowed_address == d.allowed_address
            &&& now.endpoint_address == d.endpoint_address
            &&& now.disabled == d.disabled
            &&& now.endpoint_port == (
                if d.endpoint_port is Some { d.endpoint_port } else { c.endpoint_port }
            )
            &&& now.persistent_keepalive == (
                if d.persistent_keepalive is Some {
                    d.persistent_keepalive
                } else {
                    c.persistent_keepalive
                }
            )
        },
{
    law_wireguard_peer_set(row, c, d);
}

/// A row that is added to `/ip/address` has these fields as they should be, and every
/// other field as it was.
pub proof fn law_ip_address_fields_added(row: RowView, d: DesiredIpAddressView)
    ensures
        DesiredIpAddress::path() == "/ip/address"@,
        ({
            let after = stored(row, DesiredIpAddress::to_add(d));
            &&& value_of(after, "address"@) == Some(d.address)
            &&& value_of(after, "interface"@) == Some(d.interface)
            &&& value_of(after, "disabled"@) == Some(flag_text(d.disabled))
            &&& forall|key: Seq<char>|
                !seq![
                    "address"@, "interface"@, "disabled"@,
                ].contains(key) ==> #[trigger] is_kept(row, after, key)
        }),
{
    lemma_names();
    lemma_flags();
    let s0 = Seq::<Attribute>::empty();
    let a0 = ("address"@, Some(d.address));
    let s1 = s0.push(a0);
    lemma_stored_push(row, s0, a0);
    let a1 = ("interface"@, Some(d.interface));
    let s2 = s1.push(a1);
    lemma_stored_push(row, s1, a1);
    let a2 = ("disabled"@, Some(yes_no(d.disabled)));
    let s3 = s2.push(a2);
    lemma_stored_push(row, s2, a2);
    assert(DesiredIpAddress::to_add(d) =~= s3);
    let after = stored(row, DesiredIpAddress::to_add(d));
    let names = seq!["address"@, "interface"@, "disabled"@];
    assert(names[0] == "address"@);
    assert(names[1] == "interface"@);
    assert(names[2] == "disabled"@);
    assert forall|key: Seq<char>| !names.contains(key) implies #[trigger] is_kept(
        row,
        after,
        key,
    ) by {
        assert(key != "address"@);
        assert(key != "interface"@);
        assert(key != "disabled"@);
    }
}

/// A row that is set in `/ip/address` has these fields as they should be, and every
/// other field as it was.
pub proof fn law_ip_address_fields_set(row: RowView, d: DesiredIpAddressView)
    ensures
        DesiredIpAddress::path() == "/ip/address"@,
        ({
            let after = stored(row, DesiredIpAddress::to_set(d));
            &&& value_of(after, "disabled"@) == Some(flag_text(d.disabled))
            &&& forall|key: Seq<char>|
                !seq!["disabled"@].contains(key) ==> #[trigger] is_kept(row, after, key)
        }),
{
    lemma_names();
    lemma_flags();
    let s0 = Seq::<Attribute>::empty();
    let a0 = ("disabled"@, Some(yes_no(d.disabled)));
    let s1 = s0.push(a0);
    lemma_stored_push(row, s0, a0);
    assert(DesiredIpAddress::to_set(d) =~= s1);
    let after = stored(row, DesiredIpAddress::to_set(d));
    let names = seq!["disabled"@];
    assert(names[0] == "disabled"@);
    assert forall|key: Seq<char>| !names.contains(key) implies #[trigger] is_kept(
        row,
        after,
        key,
    ) by {
        assert(key != "disabled"@);
    }
}

/// A row that is added to `/ip/address` is read back as the desired one in every field,
/// under the id that the device gave it.
pub proof fn law_ip_address_read_after_adding(id: Seq<char>, d: DesiredIpAddressView)
    ensures
        ip_address_of(stored(blank(id), DesiredIpAddress::to_add(d))) matches Ok(now) && {
            &&& now.id == id
            &&& now.address == d.address
            &&& now.interface == d.interface
            &&& now.disabled == d.disabled
        },
{
    law_ip_address_added(id, d);
}

/// A row that is set in `/ip/address` is read back as the desired one, whatever it held before,
/// under its own id.
pub proof fn law_ip_address_read_after_setting(
    row: RowView,
    c: CurrentIpAddressView,
    d: DesiredIpAddressView,
)
    requires
        ip_address_of(row) == Ok::<CurrentIpAddressView, ErrorView>(c),
        c.address == d.address,
        c.interface == d.interface,
    ensures
        ip_address_of(stored(row, DesiredIpAddress::to_set(d))) matches Ok(now) && {
            &&& now.id == c.id
            &&& now.address == d.address
            &&& now.interface == d.interface
            &&& now.disabled == d.disabled
        },
{
    law_ip_address_set(row, c, d);
}

/// A row that is added to `/ipv6/address` has these fields as they should be, and every
/// other field as it was.
pub proof fn law_ipv6_address_fields_added(row: RowView, d: DesiredIpv6AddressView)
    ensures
        DesiredIpv6Address::path() == "/ipv6/address"@,
        ({
            let after = stored(row, DesiredIpv6Address::to_add(d));
            &&& value_of(after, "address"@) == Some(d.address)
            &&& value_of(after, "interface"@) == Some(d.interface)
            &&& value_of(after, "advertise"@) == Some(flag_text(d.advertise))
            &&& value_of(after, "disabled"@) == Some(flag_text(d.disabled))
            &&& forall|key: Seq<char>|
                !seq![
                    "address"@, "interface"@, "advertise"@,
                    "disabled"@,
                ].contains(key) ==> #[trigger] is_kept(row, after, key)
        }),
{
    lemma_names();
    lemma_flags();
    let s0 = Seq::<Attribute>::empty();
    let a0 = ("address"@, Some(d.address));
    let s1 = s0.push(a0);
    lemma_stored_push(row, s0, a0);
    let a1 = ("interface"@, Some(d.interface));
    let s2 = s1.push(a1);
    lemma_stored_push(row, s1, a1);
    let a2 = ("advertise"@, Some(yes_no(d.advertise)));
    let s3 = s2.push(a2);
    lemma_stored_push(row, s2, a2);
    let a3 = ("disabled"@, Some(yes_no(d.disabled)));
    let s4 = s3.push(a3);
    lemma_stored_push(row, s3, a3);
    assert(DesiredIpv6Address::to_add(d) =~= s4);
    let after = stored(row, DesiredIpv6Address::to_add(d));
    let names = seq!["address"@, "interface"@, "advertise"@, "disabled"@];
    assert(names[0] == "address"@);
    assert(names[1] == "interface"@);
    assert(names[2] == "advertise"@);
    assert(names[3] == "disabled"@);
    assert forall|key: Seq<char>| !names.contains(key) implies #[trigger] is_kept(
        row,
        after,
        key,
    ) by {
        assert(key != "address"@);
        assert(key != "interface"@);
        assert(key != "advertise"@);
        assert(key != "disabled"@);
    }
}

/// A row that is set in `/ipv6/address` has these fields as they should be, and every
/// other field as it was.
pub proof fn law_ipv6_address_fields_set(row: RowView, d: DesiredIpv6AddressView)
    ensures
        DesiredIpv6Address::path() == "/ipv6/address"@,
        ({
            let after = stored(row, DesiredIpv6Address::to_set(d));
            &&& value_of(after, "advertise"@) == Some(flag_text(d.advertise))
            &&& value_of(after, "disabled"@) == Some(flag_text(d.disabled))
            &&& forall|key: Seq<char>|
                !seq!["advertise"@, "disabled"@].contains(key) ==> #[trigger] is_kept(
                    row,
                    after,
                    key,
                )
        }),
{
    lemma_names();
    lemma_flags();
    let s0 = Seq::<Attribute>::empty();
    let a0 = ("advertise"@, Some(yes_no(d.advertise)));
    let s1 = s0.push(a0);
    lemma_stored_push(row, s0, a0);
    let a1 = ("disabled"@, Some(yes_no(d.disabled)));
    let s2 = s1.push(a1);
    lemma_stored_push(row, s1, a1);
    assert(DesiredIpv6Address::to_set(d) =~= s2);
    let after = stored(row, DesiredIpv6Address::to_set(d));
    let names = seq!["advertise"@, "disabled"@];
    assert(names[0] == "advertise"@);
    assert(names[1] == "disabled"@);
    assert forall|key: Seq<char>| !names.contains(key) implies #[trigger] is_kept(
        row,
        after,
        key,
    ) by {
        assert(key != "advertise"@);
        assert(key != "disabled"@);
    }
}

/// A row that is added to `/ipv6/address` is read back as the desired one in every field,
/// under the id that the device gave it.
pub proof fn law_ipv6_address_read_after_adding(id: Seq<char>, d: DesiredIpv6AddressView)
    ensures
        ipv6_address_of(stored(blank(id), DesiredIpv6Address::to_add(d))) matches Ok(now) && {
            &&& now.id == id
            &&& now.address == d.address
            &&& now.interface == d.interface
            &&& now.advertise == d.advertise
            &&& now.disabled == d.disabled
        },
{
    law_ipv6_address_added(id, d);
}

/// A row that is set in `/ipv6/address` is read back as the desired one, whatever it held before,
/// under its own id.
pub proof fn law_ipv6_address_read_after_setting(
    row: RowView,
    c: CurrentIpv6AddressView,
    d: DesiredIpv6AddressView,
)
    requires
        ipv6_address_of(row) == Ok::<CurrentIpv6AddressView, ErrorView>(c),
        c.address == d.address,
        c.interface == d.interface,
    ensures
        ipv6_address_of(stored(row, DesiredIpv6Address::to_set(d))) matches Ok(now) && {
            &&& now.id == c.id
            &&& now.address == d.address
            &&& now.interface == d.interface
            &&& now.advertise == d.advertise
            &&& now.disabled == d.disabled
        },
{
    law_ipv6_address_set(row, c, d);
}

/// A row that is added to `/interface/list/member` has these fields as they should be, and every
/// other field as it was.
pub proof fn law_list_member_fields_added(row: RowView, d: DesiredListMemberView)
    ensures
        DesiredListMember::path() == "/interface/list/member"@,
        ({
            let after = stored(row, DesiredListMember::to_add(d));
            &&& value_of(after, "list"@) == Some(d.list)
            &&& value_of(after, "interface"@) == Some(d.interface)
            &&& value_of(after, "disabled"@) == Some(flag_text(d.disabled))
            &&& forall|key: Seq<char>|
                !seq!["list"@, "interface"@, "disabled"@].contains(key) ==> #[trigger] is_kept(
                    row,
                    after,
                    key,
                )
        }),
{
    lemma_names();
    lemma_flags();
    let s0 = Seq::<Attribute>::empty();
    let a0 = ("list"@, Some(d.list));
    let s1 = s0.push(a0);
    lemma_stored_push(row, s0, a0);
    let a1 = ("interface"@, Some(d.interface));
    let s2 = s1.push(a1);
    lemma_stored_push(row, s1, a1);
    let a2 = ("disabled"@, Some(yes_no(d.disabled)));
    let s3 = s2.push(a2);
    lemma_stored_push(row, s2, a2);
    assert(DesiredListMember::to_add(d) =~= s3);
    let after = stored(row, DesiredListMember::to_add(d));
    let names = seq!["list"@, "interface"@, "disabled"@];
    assert(names[0] == "list"@);
    assert(names[1] == "interface"@);
    assert(names[2] == "disabled"@);
    assert forall|key: Seq<char>| !names.contains(key) implies #[trigger] is_kept(
        row,
        after,
        key,
    ) by {
        assert(key != "list"@);
        assert(key != "interface"@);
        assert(key != "disabled"@);
    }
}

/// A row that is set in `/interface/list/member` has these fields as they should be, and every
/// other field as it was.
pub proof fn law_list_member_fields_set(row: RowView, d: DesiredListMemberView)
    ensures
        DesiredListMember::path() == "/interface/list/member"@,
        ({
            let after = stored(row, DesiredListMember::to_set(d));
            &&& value_of(after, "disabled"@) == Some(flag_text(d.disabled))
            &&& forall|key: Seq<char>|
                !seq!["disabled"@].contains(key) ==> #[trigger] is_kept(row, after, key)
        }),
{
    lemma_names();
    lemma_flags();
    let s0 = Seq::<Attribute>::empty();
    let a0 = ("disabled"@, Some(yes_no(d.disabled)));
    let s1 = s0.push(a0);
    lemma_stored_push(row, s0, a0);
    assert(DesiredListMember::to_set(d) =~= s1);
    let after = stored(row, DesiredListMember::to_set(d));
    let names = seq!["disabled"@];
    assert(names[0] == "disabled"@);
    assert forall|key: Seq<char>| !names.contains(key) implies #[trigger] is_kept(
        row,
        after,
        key,
    ) by {
        assert(key != "disabled"@);
    }
}

/// A row that is added to `/interface/list/member` is read back as the desired one in every field,
/// under the id that the device gave it.
pub proof fn law_list_member_read_after_adding(id: Seq<char>, d: DesiredListMemberView)
    ensures
        list_member_of(stored(blank(id), DesiredListMember::to_add(d))) matches Ok(now) && {
            &&& now.id == id
            &&& now.list == d.list
            &&& now.interface == d.interface
            &&& now.disabled == d.disabled
        },
{
    law_list_member_added(id, d);
}

/// A row that is set in `/interface/list/member` is read back as the desired one, whatever it held
/// before, under its own id.
pub proof fn law_list_member_read_after_setting(
    row: RowView,
    c: CurrentListMemberView,
    d: DesiredListMemberView,
)
    requires
        list_member_of(row) == Ok::<CurrentListMemberView, ErrorView>(c),
        c.list == d.list,
        c.interface == d.interface,
    ensures
        list_member_of(stored(row, DesiredListMember::to_set(d))) matches Ok(now) && {
            &&& now.id == c.id
            &&& now.list == d.list
            &&& now.interface == d.interface
            &&& now.disabled == d.disabled
        },
{
    law_list_member_set(row, c, d);
}

/// A row that is added to `/routing/ospf/interface-template` has these fields as they should be,
/// and every other field as it was.
pub proof fn law_ospf_interface_template_fields_added(
    row: RowView,
    d: DesiredOspfInterfaceTemplateView,
)
    ensures
        DesiredOspfInterfaceTemplate::path() == "/routing/ospf/interface-template"@,
        ({
            let after = stored(row, DesiredOspfInterfaceTemplate::to_add(d));
            &&& value_of(after, "interfaces"@) == Some(d.interfaces)
            &&& value_of(after, "area"@) == Some(d.area)
            &&& match d.type_ { Some(v) => value_of(after, "type"@) == Some(v), None => is_kept(
                row,
                after,
                "type"@,
            ) }
            &&& match d.hello_interval {
                Some(v) => value_of(after, "hello-interval"@) == Some(v),
                None => is_kept(row, after, "hello-interval"@),
            }
            &&& match d.dead_interval {
                Some(v) => value_of(after, "dead-interval"@) == Some(v),
                None => is_kept(row, after, "dead-interval"@),
            }
            &&& if d.passive { after.contains_key("passive"@) } else { is_kept(
                row,
                after,
                "passive"@,
            ) }
            &&& value_of(after, "disabled"@) == Some(flag_text(d.disabled))
            &&& match d.cost {
                Some(v) => value_of(after, "cost"@) == Some(decimal(v as nat)),
                None => is_kept(row, after, "cost"@),
            }
            &&& forall|key: Seq<char>|
                !seq![
                    "interfaces"@, "area"@, "type"@, "hello-interval"@, "dead-interval"@,
                    "passive"@, "disabled"@, "cost"@,
                ].contains(key) ==> #[trigger] is_kept(row, after, key)
        }),
{
    lemma_names();
    lemma_flags();
    let s0 = Seq::<Attribute>::empty();
    let a0 = ("interfaces"@, Some(d.interfaces));
    let s1 = s0.push(a0);
    lemma_stored_push(row, s0, a0);
    let a1 = ("area"@, Some(d.area));
    let s2 = s1.push(a1);
    lemma_stored_push(row, s1, a1);
    let s3 = with_some(s2, "type"@, d.type_);
    lemma_stored_some(row, s2, "type"@, d.type_);
    if let Some(v) = d.type_ {
        lemma_stored_push(row, s2, ("type"@, Some(v)));
    }
    let s4 = with_some(s3, "hello-interval"@, d.hello_interval);
    lemma_stored_some(row, s3, "hello-interval"@, d.hello_interval);
    if let Some(v) = d.hello_interval {
        lemma_stored_push(row, s3, ("hello-interval"@, Some(v)));
    }
    let s5 = with_some(s4, "dead-interval"@, d.dead_interval);
    lemma_stored_some(row, s4, "dead-interval"@, d.dead_interval);
    if let Some(v) = d.dead_interval {
        lemma_stored_push(row, s4, ("dead-interval"@, Some(v)));
    }
    let s6 = if d.passive {
        s5.push(("passive"@, None))
    } else {
        s5
    };
    lemma_stored_push(row, s5, ("passive"@, None));
    let a6 = ("disabled"@, Some(yes_no(d.disabled)));
    let s7 = s6.push(a6);
    lemma_stored_push(row, s6, a6);
    let s8 = with_number(s7, "cost"@, d.cost);
    lemma_stored_number(row, s7, "cost"@, d.cost);
    if let Some(v) = d.cost {
        lemma_stored_push(row, s7, ("cost"@, Some(decimal(v as nat))));
    }
    assert(DesiredOspfInterfaceTemplate::to_add(d) =~= s8);
    let after = stored(row, DesiredOspfInterfaceTemplate::to_add(d));
    let names = seq![
        "interfaces"@, "area"@, "type"@, "hello-interval"@, "dead-interval"@, "passive"@,
        "disabled"@, "cost"@,
    ];
    assert(names[0] == "interfaces"@);
    assert(names[1] == "area"@);
    assert(names[2] == "type"@);
    assert(names[3] == "hello-interval"@);
    assert(names[4] == "dead-interval"@);
    assert(names[5] == "passive"@);
    assert(names[6] == "disabled"@);
    assert(names[7] == "cost"@);
    assert forall|key: Seq<char>| !names.contains(key) implies #[trigger] is_kept(
        row,
        after,
        key,
    ) by {
        assert(key != "interfaces"@);
        assert(key != "area"@);
        assert(key != "type"@);
        assert(key != "hello-interval"@);
        assert(key != "dead-interval"@);
        assert(key != "passive"@);
        assert(key != "disabled"@);
        assert(key != "cost"@);
    }
}

/// A row that is set in `/routing/ospf/interface-template` has these fields as they should be, and
/// every other field as it was.
pub proof fn law_ospf_interface_template_fields_set(
    row: RowView,
    d: DesiredOspfInterfaceTemplateView,
)
    ensures
        DesiredOspfInterfaceTemplate::path() == "/routing/ospf/interface-template"@,
        ({
            let after = stored(row, DesiredOspfInterfaceTemplate::to_set(d));
            &&& value_of(after, "interfaces"@) == Some(d.interfaces)
            &&& value_of(after, "area"@) == Some(d.area)
            &&& match d.type_ { Some(v) => value_of(after, "type"@) == Some(v), None => is_kept(
                row,
                after,
                "type"@,
            ) }
            &&& match d.hello_interval {
                Some(v) => value_of(after, "hello-interval"@) == Some(v),
                None => is_kept(row, after, "hello-interval"@),
            }
            &&& match d.dead_interval {
                Some(v) => value_of(after, "dead-interval"@) == Some(v),
                None => is_kept(row, after, "dead-interval"@),
            }
            &&& if d.passive { after.contains_key("passive"@) } else { is_kept(
                row,
                after,
                "passive"@,
            ) }
            &&& value_of(after, "disabled"@) == Some(flag_text(d.disabled))
            &&& match d.cost {
                Some(v) => value_of(after, "cost"@) == Some(decimal(v as nat)),
                None => is_kept(row, after, "cost"@),
            }
            &&& forall|key: Seq<char>|
                !seq![
                    "interfaces"@, "area"@, "type"@, "hello-interval"@, "dead-interval"@,
                    "passive"@, "disabled"@, "cost"@,
                ].contains(key) ==> #[trigger] is_kept(row, after, key)
        }),
{
    lemma_names();
    lemma_flags();
    let s0 = Seq::<Attribute>::empty();
    let a0 = ("interfaces"@, Some(d.interfaces));
    let s1 = s0.push(a0);
    lemma_stored_push(row, s0, a0);
    let a1 = ("area"@, Some(d.area));
    let s2 = s1.push(a1);
    lemma_stored_push(row, s1, a1);
    let s3 = with_some(s2, "type"@, d.type_);
    lemma_stored_some(row, s2, "type"@, d.type_);
    if let Some(v) = d.type_ {
        lemma_stored_push(row, s2, ("type"@, Some(v)));
    }
    let s4 = with_some(s3, "hello-interval"@, d.hello_interval);
    lemma_stored_some(row, s3, "hello-interval"@, d.hello_interval);
    if let Some(v) = d.hello_interval {
        lemma_stored_push(row, s3, ("hello-interval"@, Some(v)));
    }
    let s5 = with_some(s4, "dead-interval"@, d.dead_interval);
    lemma_stored_some(row, s4, "dead-interval"@, d.dead_interval);
    if let Some(v) = d.dead_interval {
        lemma_stored_push(row, s4, ("dead-interval"@, Some(v)));
    }
    let s6 = if d.passive {
        s5.push(("passive"@, None))
    } else {
        s5
    };
    lemma_stored_push(row, s5, ("passive"@, None));
    let a6 = ("disabled"@, Some(yes_no(d.disabled)));
    let s7 = s6.push(a6);
    lemma_stored_push(row, s6, a6);
    let s8 = with_number(s7, "cost"@, d.cost);
    lemma_stored_number(row, s7, "cost"@, d.cost);
    if let Some(v) = d.cost {
        lemma_stored_push(row, s7, ("cost"@, Some(decimal(v as nat))));
    }
    assert(DesiredOspfInterfaceTemplate::to_set(d) =~= s8);
    let after = stored(row, DesiredOspfInterfaceTemplate::to_set(d));
    let names = seq![
        "interfaces"@, "area"@, "type"@, "hello-interval"@, "dead-interval"@, "passive"@,
        "disabled"@, "cost"@,
    ];
    assert(names[0] == "interfaces"@);
    assert(names[1] == "area"@);
    assert(names[2] == "type"@);
    assert(names[3] == "hello-interval"@);
    assert(names[4] == "dead-interval"@);
    assert(names[5] == "passive"@);
    assert(names[6] == "disabled"@);
    assert(names[7] == "cost"@);
    assert forall|key: Seq<char>| !names.contains(key) implies #[trigger] is_kept(
        row,
        after,
        key,
    ) by {
        assert(key != "interfaces"@);
        assert(key != "area"@);
        assert(key != "type"@);
        assert(key != "hello-interval"@);
        assert(key != "dead-interval"@);
        assert(key != "passive"@);
        assert(key != "disabled"@);
        assert(key != "cost"@);
    }
}

/// A row that is added to `/routing/ospf/interface-template` is read back as the desired one in
/// every field, under the id that the device gave it.
pub proof fn law_ospf_interface_template_read_after_adding(
    id: Seq<char>,
    d: DesiredOspfInterfaceTemplateView,
)
    ensures
        ospf_template_of(
            stored(blank(id), DesiredOspfInterfaceTemplate::to_add(d)),
        ) matches Ok(now) && {
            &&& now.id == id
            &&& now.interfaces == d.interfaces
            &&& now.area == d.area
            &&& now.disabled == d.disabled
            &&& now.type_ == d.type_
            &&& now.cost == d.cost
            &&& now.hello_interval == d.hello_interval
            &&& now.dead_interval == d.dead_interval
            &&& now.passive_raw == (if d.passive { Some(""@) } else { None })
        },
{
    law_ospf_interface_template_added(id, d);
}

/// A row that is set in `/routing/ospf/interface-template` is read back as the desired one,
/// whatever it held before, under its own id. Only what the desired row says nothing of is as it
/// was.
pub proof fn law_ospf_interface_template_read_after_setting(
    row: RowView,
    c: CurrentOspfInterfaceTemplateView,
    d: DesiredOspfInterfaceTemplateView,
)
    requires
        ospf_template_of(row) == Ok::<CurrentOspfInterfaceTemplateView, ErrorView>(c),
        c.interfaces == d.interfaces,
    ensures
        ospf_template_of(stored(row, DesiredOspfInterfaceTemplate::to_set(d))) matches Ok(now) && {
            &&& now.id == c.id
            &&& now.interfaces == d.interfaces
            &&& now.area == d.area
            &&& now.disabled == d.disabled
            &&& now.type_ == (if d.type_ is Some { d.type_ } else { c.type_ })
            &&& now.cost == (if d.cost is Some { d.cost } else { c.cost })
            &&& now.hello_interval == (
                if d.hello_interval is Some { d.hello_interval } else { c.hello_interval }
            )
            &&& now.dead_interval == (
                if d.dead_interval is Some { d.dead_interval } else { c.dead_interval }
            )
            &&& now.passive_raw == (if d.passive { Some(""@) } else { c.passive_raw })
        },
{
    law_ospf_interface_template_set(row, c, d);
}

/// A row that is added to `/ip/firewall/address-list` has these fields as they should be, and every
/// other field as it was.
pub proof fn law_address_list_entry_fields_added(row: RowView, d: DesiredAddressListEntryView)
    ensures
        DesiredAddressListEntry::path() == "/ip/firewall/address-list"@,
        ({
            let after = stored(row, DesiredAddressListEntry::to_add(d));
            &&& value_of(after, "list"@) == Some(d.list)
            &&& value_of(after, "address"@) == Some(d.address)
            &&& value_of(after, "disabled"@) == Some(flag_text(d.disabled))
            &&& forall|key: Seq<char>|
                !seq!["list"@, "address"@, "disabled"@].contains(key) ==> #[trigger] is_kept(
                    row,
                    after,
                    key,
                )
        }),
{
    lemma_names();
    lemma_flags();
    let s0 = Seq::<Attribute>::empty();
    let a0 = ("list"@, Some(d.list));
    let s1 = s0.push(a0);
    lemma_stored_push(row, s0, a0);
    let a1 = ("address"@, Some(d.address));
    let s2 = s1.push(a1);
    lemma_stored_push(row, s1, a1);
    let a2 = ("disabled"@, Some(yes_no(d.disabled)));
    let s3 = s2.push(a2);
    lemma_stored_push(row, s2, a2);
    assert(DesiredAddressListEntry::to_add(d) =~= s3);
    let after = stored(row, DesiredAddressListEntry::to_add(d));
    let names = seq!["list"@, "address"@, "disabled"@];
    assert(names[0] == "list"@);
    assert(names[1] == "address"@);
    assert(names[2] == "disabled"@);
    assert forall|key: Seq<char>| !names.contains(key) implies #[trigger] is_kept(
        row,
        after,
        key,
    ) by {
        assert(key != "list"@);
        assert(key != "address"@);
        assert(key != "disabled"@);
    }
}

/// A row that is set in `/ip/firewall/address-list` has these fields as they should be, and every
/// other field as it was.
pub proof fn law_address_list_entry_fields_set(row: RowView, d: DesiredAddressListEntryView)
    ensures
        DesiredAddressListEntry::path() == "/ip/firewall/address-list"@,
        ({
            let after = stored(row, DesiredAddressListEntry::to_set(d));
            &&& value_of(after, "disabled"@) == Some(flag_text(d.disabled))
            &&& forall|key: Seq<char>|
                !seq!["disabled"@].contains(key) ==> #[trigger] is_kept(row, after, key)
        }),
{
    lemma_names();
    lemma_flags();
    let s0 = Seq::<Attribute>::empty();
    let a0 = ("disabled"@, Some(yes_no(d.disabled)));
    let s1 = s0.push(a0);
    lemma_stored_push(row, s0, a0);
    assert(DesiredAddressListEntry::to_set(d) =~= s1);
    let after = stored(row, DesiredAddressListEntry::to_set(d));
    let names = seq!["disabled"@];
    assert(names[0] == "disabled"@);
    assert forall|key: Seq<char>| !names.contains(key) implies #[trigger] is_kept(
        row,
        after,
        key,
    ) by {
        assert(key != "disabled"@);
    }
}

/// A row that is added to `/ip/firewall/address-list` is read back as the desired one in every
/// field, under the id that the device gave it.
pub proof fn law_address_list_entry_read_after_adding(id: Seq<char>, d: DesiredAddressListEntryView)
    ensures
        address_list_entry_of(
            stored(blank(id), DesiredAddressListEntry::to_add(d)),
        ) matches Ok(now) && {
            &&& now.id == id
            &&& now.list == d.list
            &&& now.address == d.address
            &&& now.disabled == d.disabled
        },
{
    law_address_list_entry_added(id, d);
}

/// A row that is set in `/ip/firewall/address-list` is read back as the desired one, whatever it
/// held before, under its own id.
pub proof fn law_address_list_entry_read_after_setting(
    row: RowView,
    c: CurrentAddressListEntryView,
    d: DesiredAddressListEntryView,
)
    requires
        address_list_entry_of(row) == Ok::<CurrentAddressListEntryView, ErrorView>(c),
        c.list == d.list,
        c.address == d.address,
    ensures
        address_list_entry_of(stored(row, DesiredAddressListEntry::to_set(d))) matches Ok(now) && {
            &&& now.id == c.id
            &&& now.list == d.list
            &&& now.address == d.address
            &&& now.disabled == d.disabled
        },
{
    law_address_list_entry_set(row, c, d);
}

/// A row that is added to `/routing/bgp/connection` has these fields as they should be, and every
/// other field as it was.
pub proof fn law_bgp_connection_fields_added(row: RowView, d: DesiredBgpConnectionView)
    ensures
        DesiredBgpConnection::path() == "/routing/bgp/connection"@,
        ({
            let after = stored(row, DesiredBgpConnection::to_add(d));
            &&& value_of(after, "name"@) == Some(d.name)
            &&& value_of(after, "instance"@) == Some(d.instance)
            &&& value_of(after, "local.role"@) == Some(d.local_role)
            &&& value_of(after, "multihop"@) == Some(flag_text(d.multihop))
            &&& value_of(after, "afi"@) == Some(d.afi)
            &&& value_of(after, "output.network"@) == Some(d.output_network)
            &&& value_of(after, "disabled"@) == Some(flag_text(d.disabled))
            &&& value_of(after, "local.address"@) == Some(ipv6_text(d.local_address))
            &&& value_of(after, "remote.address"@) == Some(ipv6_text(d.remote_address))
            &&& forall|key: Seq<char>|
                !seq![
                    "name"@, "instance"@, "local.role"@, "multihop"@, "afi"@, "output.network"@,
                    "disabled"@, "local.address"@, "remote.address"@,
                ].contains(key) ==> #[trigger] is_kept(row, after, key)
        }),
{
    lemma_names();
    lemma_flags();
    let s0 = Seq::<Attribute>::empty();
    let a0 = ("name"@, Some(d.name));
    let s1 = s0.push(a0);
    lemma_stored_push(row, s0, a0);
    let a1 = ("instance"@, Some(d.instance));
    let s2 = s1.push(a1);
    lemma_stored_push(row, s1, a1);
    let a2 = ("local.role"@, Some(d.local_role));
    let s3 = s2.push(a2);
    lemma_stored_push(row, s2, a2);
    let a3 = ("multihop"@, Some(yes_no(d.multihop)));
    let s4 = s3.push(a3);
    lemma_stored_push(row, s3, a3);
    let a4 = ("afi"@, Some(d.afi));
    let s5 = s4.push(a4);
    lemma_stored_push(row, s4, a4);
    let a5 = ("output.network"@, Some(d.output_network));
    let s6 = s5.push(a5);
    lemma_stored_push(row, s5, a5);
    let a6 = ("disabled"@, Some(yes_no(d.disabled)));
    let s7 = s6.push(a6);
    lemma_stored_push(row, s6, a6);
    let a7 = ("local.address"@, Some(ipv6_text(d.local_address)));
    let s8 = s7.push(a7);
    lemma_stored_push(row, s7, a7);
    let a8 = ("remote.address"@, Some(ipv6_text(d.remote_address)));
    let s9 = s8.push(a8);
    lemma_stored_push(row, s8, a8);
    assert(DesiredBgpConnection::to_add(d) =~= s9);
    let after = stored(row, DesiredBgpConnection::to_add(d));
    let names = seq![
        "name"@, "instance"@, "local.role"@, "multihop"@, "afi"@, "output.network"@, "disabled"@,
        "local.address"@, "remote.address"@,
    ];
    assert(names[0] == "name"@);
    assert(names[1] == "instance"@);
    assert(names[2] == "local.role"@);
    assert(names[3] == "multihop"@);
    assert(names[4] == "afi"@);
    assert(names[5] == "output.network"@);
    assert(names[6] == "disabled"@);
    assert(names[7] == "local.address"@);
    assert(names[8] == "remote.address"@);
    assert forall|key: Seq<char>| !names.contains(key) implies #[trigger] is_kept(
        row,
        after,
        key,
    ) by {
        assert(key != "name"@);
        assert(key != "instance"@);
        assert(key != "local.role"@);
        assert(key != "multihop"@);
        assert(key != "afi"@);
        assert(key != "output.network"@);
        assert(key != "disabled"@);
        assert(key != "local.address"@);
        assert(key != "remote.address"@);
    }
}

/// A row that is set in `/routing/bgp/connection` has these fields as they should be, and every
/// other field as it was.
pub proof fn law_bgp_connection_fields_set(row: RowView, d: DesiredBgpConnectionView)
    ensures
        DesiredBgpConnection::path() == "/routing/bgp/connection"@,
        ({
            let after = stored(row, DesiredBgpConnection::to_set(d));
            &&& value_of(after, "name"@) == Some(d.name)
            &&& value_of(after, "instance"@) == Some(d.instance)
            &&& value_of(after, "local.role"@) == Some(d.local_role)
            &&& value_of(after, "multihop"@) == Some(flag_text(d.multihop))
            &&& value_of(after, "afi"@) == Some(d.afi)
            &&& value_of(after, "output.network"@) == Some(d.output_network)
            &&& value_of(after, "disabled"@) == Some(flag_text(d.disabled))
            &&& value_of(after, "local.address"@) == Some(ipv6_text(d.local_address))
            &&& value_of(after, "remote.address"@) == Some(ipv6_text(d.remote_address))
            &&& forall|key: Seq<char>|
                !seq![
                    "name"@, "instance"@, "local.role"@, "multihop"@, "afi"@, "output.network"@,
                    "disabled"@, "local.address"@, "remote.address"@,
                ].contains(key) ==> #[trigger] is_kept(row, after, key)
        }),
{
    lemma_names();
    lemma_flags();
    let s0 = Seq::<Attribute>::empty();
    let a0 = ("name"@, Some(d.name));
    let s1 = s0.push(a0);
    lemma_stored_push(row, s0, a0);
    let a1 = ("instance"@, Some(d.instance));
    let s2 = s1.push(a1);
    lemma_stored_push(row, s1, a1);
    let a2 = ("local.role"@, Some(d.local_role));
    let s3 = s2.push(a2);
    lemma_stored_push(row, s2, a2);
    let a3 = ("multihop"@, Some(yes_no(d.multihop)));
    let s4 = s3.push(a3);
    lemma_stored_push(row, s3, a3);
    let a4 = ("afi"@, Some(d.afi));
    let s5 = s4.push(a4);
    lemma_stored_push(row, s4, a4);
    let a5 = ("output.network"@, Some(d.output_network));
    let s6 = s5.push(a5);
    lemma_stored_push(row, s5, a5);
    let a6 = ("disabled"@, Some(yes_no(d.disabled)));
    let s7 = s6.push(a6);
    lemma_stored_push(row, s6, a6);
    let a7 = ("local.address"@, Some(ipv6_text(d.local_address)));
    let s8 = s7.push(a7);
    lemma_stored_push(row, s7, a7);
    let a8 = ("remote.address"@, Some(ipv6_text(d.remote_address)));
    let s9 = s8.push(a8);
    lemma_stored_push(row, s8, a8);
    assert(DesiredBgpConnection::to_set(d) =~= s9);
    let after = stored(row, DesiredBgpConnection::to_set(d));
    let names = seq![
        "name"@, "instance"@, "local.role"@, "multihop"@, "afi"@, "output.network"@, "disabled"@,
        "local.address"@, "remote.address"@,
    ];
    assert(names[0] == "name"@);
    assert(names[1] == "instance"@);
    assert(names[2] == "local.role"@);
    assert(names[3] == "multihop"@);
    assert(names[4] == "afi"@);
    assert(names[5] == "output.network"@);
    assert(names[6] == "disabled"@);
    assert(names[7] == "local.address"@);
    assert(names[8] == "remote.address"@);
    assert forall|key: Seq<char>| !names.contains(key) implies #[trigger] is_kept(
        row,
        after,
        key,
    ) by {
        assert(key != "name"@);
        assert(key != "instance"@);
        assert(key != "local.role"@);
        assert(key != "multihop"@);
        assert(key != "afi"@);
        assert(key != "output.network"@);
        assert(key != "disabled"@);
        assert(key != "local.address"@);
        assert(key != "remote.address"@);
    }
}

/// A row that is added to `/routing/bgp/connection` is read back as the desired one in every field,
/// under the id that the device gave it.
pub proof fn law_bgp_connection_read_after_adding(id: Seq<char>, d: DesiredBgpConnectionView)
    requires
        d.local_address.len() == 8,
        d.remote_address.len() == 8,
    ensures
        bgp_connection_of(stored(blank(id), DesiredBgpConnection::to_add(d))) matches Ok(now) && {
            &&& now.id == id
            &&& now.name == d.name
            &&& now.instance == d.instance
            &&& now.local_address == d.local_address
            &&& now.local_role == d.local_role
            &&& now.remote_address == d.remote_address
            &&& now.multihop == d.multihop
            &&& now.afi == d.afi
            &&& now.output_network == d.output_network
            &&& now.disabled == d.disabled
        },
{
    law_bgp_connection_added(id, d);
}

/// A row that is set in `/routing/bgp/connection` is read back as the desired one, whatever it held
/// before, under its own id.
pub proof fn law_bgp_connection_read_after_setting(
    row: RowView,
    c: CurrentBgpConnectionView,
    d: DesiredBgpConnectionView,
)
    requires
        bgp_connection_of(row) == Ok::<CurrentBgpConnectionView, ErrorView>(c),
        c.name == d.name,
        d.local_address.len() == 8,
        d.remote_address.len() == 8,
    ensures
        bgp_connection_of(stored(row, DesiredBgpConnection::to_set(d))) matches Ok(now) && {
            &&& now.id == c.id
            &&& now.name == d.name
            &&& now.instance == d.instance
            &&& now.local_address == d.local_address
            &&& now.local_role == d.local_role
            &&& now.remote_address == d.remote_address
            &&& now.multihop == d.multihop
            &&& now.afi == d.afi
            &&& now.output_network == d.output_network
            &&& now.disabled == d.disabled
        },
{
    law_bgp_connection_set(row, c, d);
}

/// A row that is added to `/interface/bridge` has these fields as they should be, and every
/// other field as it was.
pub proof fn law_bridge_fields_added(row: RowView, d: DesiredBridgeView)
    ensures
        DesiredBridge::path() == "/interface/bridge"@,
        ({
            let after = stored(row, DesiredBridge::to_add(d));
            &&& value_of(after, "name"@) == Some(d.name)
            &&& value_of(after, "protocol-mode"@) == Some("none"@)
            &&& value_of(after, "disabled"@) == Some(flag_text(d.disabled))
            &&& forall|key: Seq<char>|
                !seq![
                    "name"@, "protocol-mode"@, "disabled"@,
                ].contains(key) ==> #[trigger] is_kept(row, after, key)
        }),
{
    lemma_names();
    lemma_flags();
    let s0 = Seq::<Attribute>::empty();
    let a0 = ("name"@, Some(d.name));
    let s1 = s0.push(a0);
    lemma_stored_push(row, s0, a0);
    let a1 = ("protocol-mode"@, Some("none"@));
    let s2 = s1.push(a1);
    lemma_stored_push(row, s1, a1);
    let a2 = ("disabled"@, Some(yes_no(d.disabled)));
    let s3 = s2.push(a2);
    lemma_stored_push(row, s2, a2);
    assert(DesiredBridge::to_add(d) =~= s3);
    let after = stored(row, DesiredBridge::to_add(d));
    let names = seq!["name"@, "protocol-mode"@, "disabled"@];
    assert(names[0] == "name"@);
    assert(names[1] == "protocol-mode"@);
    assert(names[2] == "disabled"@);
    assert forall|key: Seq<char>| !names.contains(key) implies #[trigger] is_kept(
        row,
        after,
        key,
    ) by {
        assert(key != "name"@);
        assert(key != "protocol-mode"@);
        assert(key != "disabled"@);
    }
}

/// A row that is set in `/interface/bridge` has these fields as they should be, and every
/// other field as it was.
pub proof fn law_bridge_fields_set(row: RowView, d: DesiredBridgeView)
    ensures
        DesiredBridge::path() == "/interface/bridge"@,
        ({
            let after = stored(row, DesiredBridge::to_set(d));
            &&& value_of(after, "disabled"@) == Some(flag_text(d.disabled))
            &&& forall|key: Seq<char>|
                !seq!["disabled"@].contains(key) ==> #[trigger] is_kept(row, after, key)
        }),
{
    lemma_names();
    lemma_flags();
    let s0 = Seq::<Attribute>::empty();
    let a0 = ("disabled"@, Some(yes_no(d.disabled)));
    let s1 = s0.push(a0);
    lemma_stored_push(row, s0, a0);
    assert(DesiredBridge::to_set(d) =~= s1);
    let after = stored(row, DesiredBridge::to_set(d));
    let names = seq!["disabled"@];
    assert(names[0] == "disabled"@);
    assert forall|key: Seq<char>| !names.contains(key) implies #[trigger] is_kept(
        row,
        after,
        key,
    ) by {
        assert(key != "disabled"@);
    }
}

/// A row that is added to `/routing/ospf/instance` has these fields as they should be, and every
/// other field as it was.
pub proof fn law_ospf_instance_fields_added(row: RowView, d: DesiredOspfInstanceView)
    ensures
        DesiredOspfInstance::path() == "/routing/ospf/instance"@,
        ({
            let after = stored(row, DesiredOspfInstance::to_add(d));
            &&& value_of(after, "name"@) == Some(d.name)
            &&& value_of(after, "version"@) == Some(decimal(d.version as nat))
            &&& value_of(after, "router-id"@) == Some(ipv4_text(d.router_id))
            &&& value_of(after, "redistribute"@) == Some(
                if d.redistribute_connected { "connected"@ } else { ""@ },
            )
            &&& forall|key: Seq<char>|
                !seq![
                    "name"@, "version"@, "router-id"@, "redistribute"@,
                ].contains(key) ==> #[trigger] is_kept(row, after, key)
        }),
{
    lemma_names();
    lemma_flags();
    let s0 = Seq::<Attribute>::empty();
    let a0 = ("name"@, Some(d.name));
    let s1 = s0.push(a0);
    lemma_stored_push(row, s0, a0);
    let a1 = ("version"@, Some(decimal(d.version as nat)));
    let s2 = s1.push(a1);
    lemma_stored_push(row, s1, a1);
    let a2 = ("router-id"@, Some(ipv4_text(d.router_id)));
    let s3 = s2.push(a2);
    lemma_stored_push(row, s2, a2);
    let a3 = ("redistribute"@, Some(if d.redistribute_connected { "connected"@ } else { ""@ }));
    let s4 = s3.push(a3);
    lemma_stored_push(row, s3, a3);
    assert(DesiredOspfInstance::to_add(d) =~= s4);
    let after = stored(row, DesiredOspfInstance::to_add(d));
    let names = seq!["name"@, "version"@, "router-id"@, "redistribute"@];
    assert(names[0] == "name"@);
    assert(names[1] == "version"@);
    assert(names[2] == "router-id"@);
    assert(names[3] == "redistribute"@);
    assert forall|key: Seq<char>| !names.contains(key) implies #[trigger] is_kept(
        row,
        after,
        key,
    ) by {
        assert(key != "name"@);
        assert(key != "version"@);
        assert(key != "router-id"@);
        assert(key != "redistribute"@);
    }
}

/// A row that is set in `/routing/ospf/instance` has these fields as they should be, and every
/// other field as it was.
pub proof fn law_ospf_instance_fields_set(row: RowView, d: DesiredOspfInstanceView)
    ensures
        DesiredOspfInstance::path() == "/routing/ospf/instance"@,
        ({
            let after = stored(row, DesiredOspfInstance::to_set(d));
            &&& value_of(after, "version"@) == Some(decimal(d.version as nat))
            &&& value_of(after, "router-id"@) == Some(ipv4_text(d.router_id))
            &&& value_of(after, "redistribute"@) == Some(
                if d.redistribute_connected { "connected"@ } else { ""@ },
            )
            &&& forall|key: Seq<char>|
                !seq![
                    "version"@, "router-id"@, "redistribute"@,
                ].contains(key) ==> #[trigger] is_kept(row, after, key)
        }),
{
    lemma_names();
    lemma_flags();
    let s0 = Seq::<Attribute>::empty();
    let a0 = ("version"@, Some(decimal(d.version as nat)));
    let s1 = s0.push(a0);
    lemma_stored_push(row, s0, a0);
    let a1 = ("router-id"@, Some(ipv4_text(d.router_id)));
    let s2 = s1.push(a1);
    lemma_stored_push(row, s1, a1);
    let a2 = ("redistribute"@, Some(if d.redistribute_connected { "connected"@ } else { ""@ }));
    let s3 = s2.push(a2);
    lemma_stored_push(row, s2, a2);
    assert(DesiredOspfInstance::to_set(d) =~= s3);
    let after = stored(row, DesiredOspfInstance::to_set(d));
    let names = seq!["version"@, "router-id"@, "redistribute"@];
    assert(names[0] == "version"@);
    assert(names[1] == "router-id"@);
    assert(names[2] == "redistribute"@);
    assert forall|key: Seq<char>| !names.contains(key) implies #[trigger] is_kept(
        row,
        after,
        key,
    ) by {
        assert(key != "version"@);
        assert(key != "router-id"@);
        assert(key != "redistribute"@);
    }
}

/// A row that is added to `/routing/ospf/area` has these fields as they should be, and every
/// other field as it was.
pub proof fn law_ospf_area_fields_added(row: RowView, d: DesiredOspfAreaView)
    ensures
        DesiredOspfArea::path() == "/routing/ospf/area"@,
        ({
            let after = stored(row, DesiredOspfArea::to_add(d));
            &&& value_of(after, "name"@) == Some(d.name)
            &&& value_of(after, "area-id"@) == Some(d.area_id)
            &&& value_of(after, "instance"@) == Some(d.instance)
            &&& forall|key: Seq<char>|
                !seq!["name"@, "area-id"@, "instance"@].contains(key) ==> #[trigger] is_kept(
                    row,
                    after,
                    key,
                )
        }),
{
    lemma_names();
    lemma_flags();
    let s0 = Seq::<Attribute>::empty();
    let a0 = ("name"@, Some(d.name));
    let s1 = s0.push(a0);
    lemma_stored_push(row, s0, a0);
    let a1 = ("area-id"@, Some(d.area_id));
    let s2 = s1.push(a1);
    lemma_stored_push(row, s1, a1);
    let a2 = ("instance"@, Some(d.instance));
    let s3 = s2.push(a2);
    lemma_stored_push(row, s2, a2);
    assert(DesiredOspfArea::to_add(d) =~= s3);
    let after = stored(row, DesiredOspfArea::to_add(d));
    let names = seq!["name"@, "area-id"@, "instance"@];
    assert(names[0] == "name"@);
    assert(names[1] == "area-id"@);
    assert(names[2] == "instance"@);
    assert forall|key: Seq<char>| !names.contains(key) implies #[trigger] is_kept(
        row,
        after,
        key,
    ) by {
        assert(key != "name"@);
        assert(key != "area-id"@);
        assert(key != "instance"@);
    }
}

/// A row that is set in `/routing/ospf/area` has these fields as they should be, and every
/// other field as it was.
pub proof fn law_ospf_area_fields_set(row: RowView, d: DesiredOspfAreaView)
    ensures
        DesiredOspfArea::path() == "/routing/ospf/area"@,
        ({
            let after = stored(row, DesiredOspfArea::to_set(d));
            &&& value_of(after, "instance"@) == Some(d.instance)
            &&& forall|key: Seq<char>|
                !seq!["instance"@].contains(key) ==> #[trigger] is_kept(row, after, key)
        }),
{
    lemma_names();
    lemma_flags();
    let s0 = Seq::<Attribute>::empty();
    let a0 = ("instance"@, Some(d.instance));
    let s1 = s0.push(a0);
    lemma_stored_push(row, s0, a0);
    assert(DesiredOspfArea::to_set(d) =~= s1);
    let after = stored(row, DesiredOspfArea::to_set(d));
    let names = seq!["instance"@];
    assert(names[0] == "instance"@);
    assert forall|key: Seq<char>| !names.contains(key) implies #[trigger] is_kept(
        row,
        after,
        key,
    ) by {
        assert(key != "instance"@);
    }
}

/// A row that is added to `/routing/bgp/instance` has these fields as they should be, and every
/// other field as it was.
pub proof fn law_bgp_instance_fields_added(row: RowView, d: DesiredBgpInstanceView)
    ensures
        DesiredBgpInstance::path() == "/routing/bgp/instance"@,
        ({
            let after = stored(row, DesiredBgpInstance::to_add(d));
            &&& value_of(after, "name"@) == Some(d.name)
            &&& value_of(after, "as"@) == Some(decimal(d.as_number as nat))
            &&& value_of(after, "router-id"@) == Some(ipv4_text(d.router_id))
            &&& value_of(after, "routing-table"@) == Some(d.routing_table)
            &&& forall|key: Seq<char>|
                !seq![
                    "name"@, "as"@, "router-id"@, "routing-table"@,
                ].contains(key) ==> #[trigger] is_kept(row, after, key)
        }),
{
    lemma_names();
    lemma_flags();
    let s0 = Seq::<Attribute>::empty();
    let a0 = ("name"@, Some(d.name));
    let s1 = s0.push(a0);
    lemma_stored_push(row, s0, a0);
    let a1 = ("as"@, Some(decimal(d.as_number as nat)));
    let s2 = s1.push(a1);
    lemma_stored_push(row, s1, a1);
    let a2 = ("router-id"@, Some(ipv4_text(d.router_id)));
    let s3 = s2.push(a2);
    lemma_stored_push(row, s2, a2);
    let a3 = ("routing-table"@, Some(d.routing_table));
    let s4 = s3.push(a3);
    lemma_stored_push(row, s3, a3);
    assert(DesiredBgpInstance::to_add(d) =~= s4);
    let after = stored(row, DesiredBgpInstance::to_add(d));
    let names = seq!["name"@, "as"@, "router-id"@, "routing-table"@];
    assert(names[0] == "name"@);
    assert(names[1] == "as"@);
    assert(names[2] == "router-id"@);
    assert(names[3] == "routing-table"@);
    assert forall|key: Seq<char>| !names.contains(key) implies #[trigger] is_kept(
        row,
        after,
        key,
    ) by {
        assert(key != "name"@);
        assert(key != "as"@);
        assert(key != "router-id"@);
        assert(key != "routing-table"@);
    }
}

/// A row that is set in `/routing/bgp/instance` has these fields as they should be, and every
/// other field as it was.
pub proof fn law_bgp_instance_fields_set(row: RowView, d: DesiredBgpInstanceView)
    ensures
        DesiredBgpInstance::path() == "/routing/bgp/instance"@,
        ({
            let after = stored(row, DesiredBgpInstance::to_set(d));
            &&& value_of(after, "as"@) == Some(decimal(d.as_number as nat))
            &&& value_of(after, "router-id"@) == Some(ipv4_text(d.router_id))
            &&& forall|key: Seq<char>|
                !seq!["as"@, "router-id"@].contains(key) ==> #[trigger] is_kept(row, after, key)
        }),
{
    lemma_names();
    lemma_flags();
    let s0 = Seq::<Attribute>::empty();
    let a0 = ("as"@, Some(decimal(d.as_number as nat)));
    let s1 = s0.push(a0);
    lemma_stored_push(row, s0, a0);
    let a1 = ("router-id"@, Some(ipv4_text(d.router_id)));
    let s2 = s1.push(a1);
    lemma_stored_push(row, s1, a1);
    assert(DesiredBgpInstance::to_set(d) =~= s2);
    let after = stored(row, DesiredBgpInstance::to_set(d));
    let names = seq!["as"@, "router-id"@];
    assert(names[0] == "as"@);
    assert(names[1] == "router-id"@);
    assert forall|key: Seq<char>| !names.contains(key) implies #[trigger] is_kept(
        row,
        after,
        key,
    ) by {
        assert(key != "as"@);
        assert(key != "router-id"@);
    }
}

} // verus!
