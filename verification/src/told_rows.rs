//! What a report's line tells of a row: each of its fields, by its name.

use crate::addr::{ipv4_text, ipv6_text};
use crate::error::{behind_last_colon, behind_slash, loopback_reason, message_text, ErrorView};
use crate::number::{decimal, decimal_fault};
use crate::quote::quoted;
use crate::rows::{
    bool_text, option_number, option_text, CurrentAddressListEntry, CurrentAddressListEntryView,
    CurrentBgpConnection, CurrentBgpConnectionView, CurrentIpAddress, CurrentIpAddressView,
    CurrentIpv6Address, CurrentIpv6AddressView, CurrentListMember, CurrentListMemberView,
    CurrentOspfInterfaceTemplate, CurrentOspfInterfaceTemplateView, CurrentWireguardInterface,
    CurrentWireguardInterfaceView, CurrentWireguardPeer, CurrentWireguardPeerView, Describe,
    DesiredAddressListEntry, DesiredAddressListEntryView, DesiredBgpConnection,
    DesiredBgpConnectionView, DesiredBgpInstance, DesiredBgpInstanceView, DesiredBridge,
    DesiredBridgeView, DesiredFilterRule, DesiredFilterRuleView, DesiredIpAddress,
    DesiredIpAddressView, DesiredIpv6Address, DesiredIpv6AddressView, DesiredListMember,
    DesiredListMemberView, DesiredOspfArea, DesiredOspfAreaView, DesiredOspfInstance,
    DesiredOspfInstanceView, DesiredOspfInterfaceTemplate, DesiredOspfInterfaceTemplateView,
    DesiredWireguardInterface, DesiredWireguardInterfaceView, DesiredWireguardPeer,
    DesiredWireguardPeerView, HasId,
};
use crate::text::trim_end_char;
use vstd::prelude::*;

verus! {

/// Whether a text holds another.
pub open spec fn tells(text: Seq<char>, part: Seq<char>) -> bool {
    exists|i: int|
        0 <= i && i + part.len() <= text.len() && #[trigger] text.subrange(i, i + part.len())
            == part
}

/// A text tells what it ends in.
proof fn lemma_tells_last(before: Seq<char>, name: Seq<char>, value: Seq<char>)
    ensures
        tells(before + name + value, name + value),
{
    let text = before + name + value;
    let i = before.len() as int;
    assert(text.subrange(i, i + (name + value).len()) =~= name + value);
}

proof fn lemma_tells_itself(text: Seq<char>)
    ensures
        tells(text, text),
{
    assert(text.subrange(0, 0 + text.len() as int) =~= text);
}

proof fn lemma_tells_end(before: Seq<char>, part: Seq<char>)
    ensures
        tells(before + part, part),
{
    let i = before.len() as int;
    assert((before + part).subrange(i, i + part.len()) =~= part);
}

/// What a text tells, it tells with more behind it.
proof fn lemma_tells_still(text: Seq<char>, more: Seq<char>)
    ensures
        forall|part: Seq<char>| #[trigger] tells(text, part) ==> tells(text + more, part),
{
    assert forall|part: Seq<char>| #[trigger] tells(text, part) implies tells(
        text + more,
        part,
    ) by {
        let i = choose|i: int|
            0 <= i && i + part.len() <= text.len() && #[trigger] text.subrange(i, i + part.len())
                == part;
        assert((text + more).subrange(i, i + part.len()) =~= part);
    }
}

/// A flag is shown as `true` or `false`, and what may be absent as `None` or within `Some(…)`.
pub proof fn law_shown_values(b: bool, text: Seq<char>, n: u16)
    ensures
        bool_text(b) == (if b {
            "true"@
        } else {
            "false"@
        }),
        option_text(None) == "None"@,
        option_text(Some(text)) == "Some("@ + quoted(text) + ")"@,
        option_number(None) == "None"@,
        option_number(Some(n)) == "Some("@ + decimal(n as nat) + ")"@,
{
}

/// The line of a [`DesiredWireguardInterface`] tells each of its fields.
pub proof fn law_desired_wireguard_interface_is_told(v: DesiredWireguardInterfaceView)
    ensures
        tells(
            DesiredWireguardInterface::description(v),
            "DesiredWireguardInterface { name: "@ + quoted(v.name),
        ),
        tells(
            DesiredWireguardInterface::description(v),
            ", listen_port: "@ + decimal(v.listen_port as nat),
        ),
        tells(
            DesiredWireguardInterface::description(v),
            ", private_key_b64: "@ + quoted(v.private_key_b64),
        ),
        tells(DesiredWireguardInterface::description(v), ", disabled: "@ + bool_text(v.disabled)),
{
    let t0 = "DesiredWireguardInterface { name: "@ + quoted(v.name);
    lemma_tells_itself(t0);
    let t1 = t0 + ", listen_port: "@ + decimal(v.listen_port as nat);
    lemma_tells_still(t0, ", listen_port: "@);
    lemma_tells_still(t0 + ", listen_port: "@, decimal(v.listen_port as nat));
    lemma_tells_last(t0, ", listen_port: "@, decimal(v.listen_port as nat));
    let t2 = t1 + ", private_key_b64: "@ + quoted(v.private_key_b64);
    lemma_tells_still(t1, ", private_key_b64: "@);
    lemma_tells_still(t1 + ", private_key_b64: "@, quoted(v.private_key_b64));
    lemma_tells_last(t1, ", private_key_b64: "@, quoted(v.private_key_b64));
    let t3 = t2 + ", disabled: "@ + bool_text(v.disabled);
    lemma_tells_still(t2, ", disabled: "@);
    lemma_tells_still(t2 + ", disabled: "@, bool_text(v.disabled));
    lemma_tells_last(t2, ", disabled: "@, bool_text(v.disabled));
    lemma_tells_still(t3, " }"@);
    assert(v.description() == t3 + " }"@);
}

/// The line of a [`CurrentWireguardInterface`] tells each of its fields.
pub proof fn law_current_wireguard_interface_is_told(v: CurrentWireguardInterfaceView)
    ensures
        CurrentWireguardInterface::id_text(v) == v.id,
        tells(
            CurrentWireguardInterface::description(v),
            "CurrentWireguardInterface { id: "@ + quoted(v.id),
        ),
        tells(CurrentWireguardInterface::description(v), ", name: "@ + quoted(v.name)),
        tells(
            CurrentWireguardInterface::description(v),
            ", listen_port: "@ + decimal(v.listen_port as nat),
        ),
        tells(
            CurrentWireguardInterface::description(v),
            ", private_key_b64: "@ + quoted(v.private_key_b64),
        ),
        tells(CurrentWireguardInterface::description(v), ", disabled: "@ + bool_text(v.disabled)),
{
    let t0 = "CurrentWireguardInterface { id: "@ + quoted(v.id);
    lemma_tells_itself(t0);
    let t1 = t0 + ", name: "@ + quoted(v.name);
    lemma_tells_still(t0, ", name: "@);
    lemma_tells_still(t0 + ", name: "@, quoted(v.name));
    lemma_tells_last(t0, ", name: "@, quoted(v.name));
    let t2 = t1 + ", listen_port: "@ + decimal(v.listen_port as nat);
    lemma_tells_still(t1, ", listen_port: "@);
    lemma_tells_still(t1 + ", listen_port: "@, decimal(v.listen_port as nat));
    lemma_tells_last(t1, ", listen_port: "@, decimal(v.listen_port as nat));
    let t3 = t2 + ", private_key_b64: "@ + quoted(v.private_key_b64);
    lemma_tells_still(t2, ", private_key_b64: "@);
    lemma_tells_still(t2 + ", private_key_b64: "@, quoted(v.private_key_b64));
    lemma_tells_last(t2, ", private_key_b64: "@, quoted(v.private_key_b64));
    let t4 = t3 + ", disabled: "@ + bool_text(v.disabled);
    lemma_tells_still(t3, ", disabled: "@);
    lemma_tells_still(t3 + ", disabled: "@, bool_text(v.disabled));
    lemma_tells_last(t3, ", disabled: "@, bool_text(v.disabled));
    lemma_tells_still(t4, " }"@);
    assert(v.description() == t4 + " }"@);
}

/// The line of a [`DesiredWireguardPeer`] tells each of its fields.
pub proof fn law_desired_wireguard_peer_is_told(v: DesiredWireguardPeerView)
    ensures
        tells(
            DesiredWireguardPeer::description(v),
            "DesiredWireguardPeer { interface: "@ + quoted(v.interface),
        ),
        tells(DesiredWireguardPeer::description(v), ", name: "@ + quoted(v.name)),
        tells(
            DesiredWireguardPeer::description(v),
            ", public_key_b64: "@ + quoted(v.public_key_b64),
        ),
        tells(
            DesiredWireguardPeer::description(v),
            ", allowed_address: "@ + quoted(v.allowed_address),
        ),
        tells(
            DesiredWireguardPeer::description(v),
            ", endpoint_address: "@ + option_text(v.endpoint_address),
        ),
        tells(
            DesiredWireguardPeer::description(v),
            ", endpoint_port: "@ + option_number(v.endpoint_port),
        ),
        tells(
            DesiredWireguardPeer::description(v),
            ", persistent_keepalive: "@ + option_number(v.persistent_keepalive),
        ),
        tells(DesiredWireguardPeer::description(v), ", disabled: "@ + bool_text(v.disabled)),
{
    let t0 = "DesiredWireguardPeer { interface: "@ + quoted(v.interface);
    lemma_tells_itself(t0);
    let t1 = t0 + ", name: "@ + quoted(v.name);
    lemma_tells_still(t0, ", name: "@);
    lemma_tells_still(t0 + ", name: "@, quoted(v.name));
    lemma_tells_last(t0, ", name: "@, quoted(v.name));
    let t2 = t1 + ", public_key_b64: "@ + quoted(v.public_key_b64);
    lemma_tells_still(t1, ", public_key_b64: "@);
    lemma_tells_still(t1 + ", public_key_b64: "@, quoted(v.public_key_b64));
    lemma_tells_last(t1, ", public_key_b64: "@, quoted(v.public_key_b64));
    let t3 = t2 + ", allowed_address: "@ + quoted(v.allowed_address);
    lemma_tells_still(t2, ", allowed_address: "@);
    lemma_tells_still(t2 + ", allowed_address: "@, quoted(v.allowed_address));
    lemma_tells_last(t2, ", allowed_address: "@, quoted(v.allowed_address));
    let t4 = t3 + ", endpoint_address: "@ + option_text(v.endpoint_address);
    lemma_tells_still(t3, ", endpoint_address: "@);
    lemma_tells_still(t3 + ", endpoint_address: "@, option_text(v.endpoint_address));
    lemma_tells_last(t3, ", endpoint_address: "@, option_text(v.endpoint_address));
    let t5 = t4 + ", endpoint_port: "@ + option_number(v.endpoint_port);
    lemma_tells_still(t4, ", endpoint_port: "@);
    lemma_tells_still(t4 + ", endpoint_port: "@, option_number(v.endpoint_port));
    lemma_tells_last(t4, ", endpoint_port: "@, option_number(v.endpoint_port));
    let t6 = t5 + ", persistent_keepalive: "@ + option_number(v.persistent_keepalive);
    lemma_tells_still(t5, ", persistent_keepalive: "@);
    lemma_tells_still(t5 + ", persistent_keepalive: "@, option_number(v.persistent_keepalive));
    lemma_tells_last(t5, ", persistent_keepalive: "@, option_number(v.persistent_keepalive));
    let t7 = t6 + ", disabled: "@ + bool_text(v.disabled);
    lemma_tells_still(t6, ", disabled: "@);
    lemma_tells_still(t6 + ", disabled: "@, bool_text(v.disabled));
    lemma_tells_last(t6, ", disabled: "@, bool_text(v.disabled));
    lemma_tells_still(t7, " }"@);
    assert(v.description() == t7 + " }"@);
}

/// The line of a [`CurrentWireguardPeer`] tells each of its fields.
pub proof fn law_current_wireguard_peer_is_told(v: CurrentWireguardPeerView)
    ensures
        CurrentWireguardPeer::id_text(v) == v.id,
        tells(CurrentWireguardPeer::description(v), "CurrentWireguardPeer { id: "@ + quoted(v.id)),
        tells(CurrentWireguardPeer::description(v), ", interface: "@ + quoted(v.interface)),
        tells(CurrentWireguardPeer::description(v), ", name: "@ + quoted(v.name)),
        tells(
            CurrentWireguardPeer::description(v),
            ", public_key_b64: "@ + quoted(v.public_key_b64),
        ),
        tells(
            CurrentWireguardPeer::description(v),
            ", allowed_address: "@ + quoted(v.allowed_address),
        ),
        tells(
            CurrentWireguardPeer::description(v),
            ", endpoint_address: "@ + option_text(v.endpoint_address),
        ),
        tells(
            CurrentWireguardPeer::description(v),
            ", endpoint_port: "@ + option_number(v.endpoint_port),
        ),
        tells(
            CurrentWireguardPeer::description(v),
            ", persistent_keepalive: "@ + option_number(v.persistent_keepalive),
        ),
        tells(CurrentWireguardPeer::description(v), ", disabled: "@ + bool_text(v.disabled)),
{
    let t0 = "CurrentWireguardPeer { id: "@ + quoted(v.id);
    lemma_tells_itself(t0);
    let t1 = t0 + ", interface: "@ + quoted(v.interface);
    lemma_tells_still(t0, ", interface: "@);
    lemma_tells_still(t0 + ", interface: "@, quoted(v.interface));
    lemma_tells_last(t0, ", interface: "@, quoted(v.interface));
    let t2 = t1 + ", name: "@ + quoted(v.name);
    lemma_tells_still(t1, ", name: "@);
    lemma_tells_still(t1 + ", name: "@, quoted(v.name));
    lemma_tells_last(t1, ", name: "@, quoted(v.name));
    let t3 = t2 + ", public_key_b64: "@ + quoted(v.public_key_b64);
    lemma_tells_still(t2, ", public_key_b64: "@);
    lemma_tells_still(t2 + ", public_key_b64: "@, quoted(v.public_key_b64));
    lemma_tells_last(t2, ", public_key_b64: "@, quoted(v.public_key_b64));
    let t4 = t3 + ", allowed_address: "@ + quoted(v.allowed_address);
    lemma_tells_still(t3, ", allowed_address: "@);
    lemma_tells_still(t3 + ", allowed_address: "@, quoted(v.allowed_address));
    lemma_tells_last(t3, ", allowed_address: "@, quoted(v.allowed_address));
    let t5 = t4 + ", endpoint_address: "@ + option_text(v.endpoint_address);
    lemma_tells_still(t4, ", endpoint_address: "@);
    lemma_tells_still(t4 + ", endpoint_address: "@, option_text(v.endpoint_address));
    lemma_tells_last(t4, ", endpoint_address: "@, option_text(v.endpoint_address));
    let t6 = t5 + ", endpoint_port: "@ + option_number(v.endpoint_port);
    lemma_tells_still(t5, ", endpoint_port: "@);
    lemma_tells_still(t5 + ", endpoint_port: "@, option_number(v.endpoint_port));
    lemma_tells_last(t5, ", endpoint_port: "@, option_number(v.endpoint_port));
    let t7 = t6 + ", persistent_keepalive: "@ + option_number(v.persistent_keepalive);
    lemma_tells_still(t6, ", persistent_keepalive: "@);
    lemma_tells_still(t6 + ", persistent_keepalive: "@, option_number(v.persistent_keepalive));
    lemma_tells_last(t6, ", persistent_keepalive: "@, option_number(v.persistent_keepalive));
    let t8 = t7 + ", disabled: "@ + bool_text(v.disabled);
    lemma_tells_still(t7, ", disabled: "@);
    lemma_tells_still(t7 + ", disabled: "@, bool_text(v.disabled));
    lemma_tells_last(t7, ", disabled: "@, bool_text(v.disabled));
    lemma_tells_still(t8, " }"@);
    assert(v.description() == t8 + " }"@);
}

/// The line of a [`DesiredIpAddress`] tells each of its fields.
pub proof fn law_desired_ip_address_is_told(v: DesiredIpAddressView)
    ensures
        tells(
            DesiredIpAddress::description(v),
            "DesiredIpAddress { address: "@ + quoted(v.address),
        ),
        tells(DesiredIpAddress::description(v), ", interface: "@ + quoted(v.interface)),
        tells(DesiredIpAddress::description(v), ", disabled: "@ + bool_text(v.disabled)),
{
    let t0 = "DesiredIpAddress { address: "@ + quoted(v.address);
    lemma_tells_itself(t0);
    let t1 = t0 + ", interface: "@ + quoted(v.interface);
    lemma_tells_still(t0, ", interface: "@);
    lemma_tells_still(t0 + ", interface: "@, quoted(v.interface));
    lemma_tells_last(t0, ", interface: "@, quoted(v.interface));
    let t2 = t1 + ", disabled: "@ + bool_text(v.disabled);
    lemma_tells_still(t1, ", disabled: "@);
    lemma_tells_still(t1 + ", disabled: "@, bool_text(v.disabled));
    lemma_tells_last(t1, ", disabled: "@, bool_text(v.disabled));
    lemma_tells_still(t2, " }"@);
    assert(v.description() == t2 + " }"@);
}

/// The line of a [`CurrentIpAddress`] tells each of its fields.
pub proof fn law_current_ip_address_is_told(v: CurrentIpAddressView)
    ensures
        CurrentIpAddress::id_text(v) == v.id,
        tells(CurrentIpAddress::description(v), "CurrentIpAddress { id: "@ + quoted(v.id)),
        tells(CurrentIpAddress::description(v), ", address: "@ + quoted(v.address)),
        tells(CurrentIpAddress::description(v), ", interface: "@ + quoted(v.interface)),
        tells(CurrentIpAddress::description(v), ", disabled: "@ + bool_text(v.disabled)),
{
    let t0 = "CurrentIpAddress { id: "@ + quoted(v.id);
    lemma_tells_itself(t0);
    let t1 = t0 + ", address: "@ + quoted(v.address);
    lemma_tells_still(t0, ", address: "@);
    lemma_tells_still(t0 + ", address: "@, quoted(v.address));
    lemma_tells_last(t0, ", address: "@, quoted(v.address));
    let t2 = t1 + ", interface: "@ + quoted(v.interface);
    lemma_tells_still(t1, ", interface: "@);
    lemma_tells_still(t1 + ", interface: "@, quoted(v.interface));
    lemma_tells_last(t1, ", interface: "@, quoted(v.interface));
    let t3 = t2 + ", disabled: "@ + bool_text(v.disabled);
    lemma_tells_still(t2, ", disabled: "@);
    lemma_tells_still(t2 + ", disabled: "@, bool_text(v.disabled));
    lemma_tells_last(t2, ", disabled: "@, bool_text(v.disabled));
    lemma_tells_still(t3, " }"@);
    assert(v.description() == t3 + " }"@);
}

/// The line of a [`DesiredIpv6Address`] tells each of its fields.
pub proof fn law_desired_ipv6_address_is_told(v: DesiredIpv6AddressView)
    ensures
        tells(
            DesiredIpv6Address::description(v),
            "DesiredIpv6Address { address: "@ + quoted(v.address),
        ),
        tells(DesiredIpv6Address::description(v), ", interface: "@ + quoted(v.interface)),
        tells(DesiredIpv6Address::description(v), ", advertise: "@ + bool_text(v.advertise)),
        tells(DesiredIpv6Address::description(v), ", disabled: "@ + bool_text(v.disabled)),
{
    let t0 = "DesiredIpv6Address { address: "@ + quoted(v.address);
    lemma_tells_itself(t0);
    let t1 = t0 + ", interface: "@ + quoted(v.interface);
    lemma_tells_still(t0, ", interface: "@);
    lemma_tells_still(t0 + ", interface: "@, quoted(v.interface));
    lemma_tells_last(t0, ", interface: "@, quoted(v.interface));
    let t2 = t1 + ", advertise: "@ + bool_text(v.advertise);
    lemma_tells_still(t1, ", advertise: "@);
    lemma_tells_still(t1 + ", advertise: "@, bool_text(v.advertise));
    lemma_tells_last(t1, ", advertise: "@, bool_text(v.advertise));
    let t3 = t2 + ", disabled: "@ + bool_text(v.disabled);
    lemma_tells_still(t2, ", disabled: "@);
    lemma_tells_still(t2 + ", disabled: "@, bool_text(v.disabled));
    lemma_tells_last(t2, ", disabled: "@, bool_text(v.disabled));
    lemma_tells_still(t3, " }"@);
    assert(v.description() == t3 + " }"@);
}

/// The line of a [`CurrentIpv6Address`] tells each of its fields.
pub proof fn law_current_ipv6_address_is_told(v: CurrentIpv6AddressView)
    ensures
        CurrentIpv6Address::id_text(v) == v.id,
        tells(CurrentIpv6Address::description(v), "CurrentIpv6Address { id: "@ + quoted(v.id)),
        tells(CurrentIpv6Address::description(v), ", address: "@ + quoted(v.address)),
        tells(CurrentIpv6Address::description(v), ", interface: "@ + quoted(v.interface)),
        tells(CurrentIpv6Address::description(v), ", advertise: "@ + bool_text(v.advertise)),
        tells(CurrentIpv6Address::description(v), ", disabled: "@ + bool_text(v.disabled)),
{
    let t0 = "CurrentIpv6Address { id: "@ + quoted(v.id);
    lemma_tells_itself(t0);
    let t1 = t0 + ", address: "@ + quoted(v.address);
    lemma_tells_still(t0, ", address: "@);
    lemma_tells_still(t0 + ", address: "@, quoted(v.address));
    lemma_tells_last(t0, ", address: "@, quoted(v.address));
    let t2 = t1 + ", interface: "@ + quoted(v.interface);
    lemma_tells_still(t1, ", interface: "@);
    lemma_tells_still(t1 + ", interface: "@, quoted(v.interface));
    lemma_tells_last(t1, ", interface: "@, quoted(v.interface));
    let t3 = t2 + ", advertise: "@ + bool_text(v.advertise);
    lemma_tells_still(t2, ", advertise: "@);
    lemma_tells_still(t2 + ", advertise: "@, bool_text(v.advertise));
    lemma_tells_last(t2, ", advertise: "@, bool_text(v.advertise));
    let t4 = t3 + ", disabled: "@ + bool_text(v.disabled);
    lemma_tells_still(t3, ", disabled: "@);
    lemma_tells_still(t3 + ", disabled: "@, bool_text(v.disabled));
    lemma_tells_last(t3, ", disabled: "@, bool_text(v.disabled));
    lemma_tells_still(t4, " }"@);
    assert(v.description() == t4 + " }"@);
}

/// The line of a [`DesiredListMember`] tells each of its fields.
pub proof fn law_desired_list_member_is_told(v: DesiredListMemberView)
    ensures
        tells(DesiredListMember::description(v), "DesiredListMember { list: "@ + quoted(v.list)),
        tells(DesiredListMember::description(v), ", interface: "@ + quoted(v.interface)),
        tells(DesiredListMember::description(v), ", disabled: "@ + bool_text(v.disabled)),
{
    let t0 = "DesiredListMember { list: "@ + quoted(v.list);
    lemma_tells_itself(t0);
    let t1 = t0 + ", interface: "@ + quoted(v.interface);
    lemma_tells_still(t0, ", interface: "@);
    lemma_tells_still(t0 + ", interface: "@, quoted(v.interface));
    lemma_tells_last(t0, ", interface: "@, quoted(v.interface));
    let t2 = t1 + ", disabled: "@ + bool_text(v.disabled);
    lemma_tells_still(t1, ", disabled: "@);
    lemma_tells_still(t1 + ", disabled: "@, bool_text(v.disabled));
    lemma_tells_last(t1, ", disabled: "@, bool_text(v.disabled));
    lemma_tells_still(t2, " }"@);
    assert(v.description() == t2 + " }"@);
}

/// The line of a [`CurrentListMember`] tells each of its fields.
pub proof fn law_current_list_member_is_told(v: CurrentListMemberView)
    ensures
        CurrentListMember::id_text(v) == v.id,
        tells(CurrentListMember::description(v), "CurrentListMember { id: "@ + quoted(v.id)),
        tells(CurrentListMember::description(v), ", list: "@ + quoted(v.list)),
        tells(CurrentListMember::description(v), ", interface: "@ + quoted(v.interface)),
        tells(CurrentListMember::description(v), ", disabled: "@ + bool_text(v.disabled)),
{
    let t0 = "CurrentListMember { id: "@ + quoted(v.id);
    lemma_tells_itself(t0);
    let t1 = t0 + ", list: "@ + quoted(v.list);
    lemma_tells_still(t0, ", list: "@);
    lemma_tells_still(t0 + ", list: "@, quoted(v.list));
    lemma_tells_last(t0, ", list: "@, quoted(v.list));
    let t2 = t1 + ", interface: "@ + quoted(v.interface);
    lemma_tells_still(t1, ", interface: "@);
    lemma_tells_still(t1 + ", interface: "@, quoted(v.interface));
    lemma_tells_last(t1, ", interface: "@, quoted(v.interface));
    let t3 = t2 + ", disabled: "@ + bool_text(v.disabled);
    lemma_tells_still(t2, ", disabled: "@);
    lemma_tells_still(t2 + ", disabled: "@, bool_text(v.disabled));
    lemma_tells_last(t2, ", disabled: "@, bool_text(v.disabled));
    lemma_tells_still(t3, " }"@);
    assert(v.description() == t3 + " }"@);
}

/// The line of a [`DesiredOspfInterfaceTemplate`] tells each of its fields.
pub proof fn law_desired_ospf_interface_template_is_told(v: DesiredOspfInterfaceTemplateView)
    ensures
        tells(
            DesiredOspfInterfaceTemplate::description(v),
            "DesiredOspfInterfaceTemplate { interfaces: "@ + quoted(v.interfaces),
        ),
        tells(DesiredOspfInterfaceTemplate::description(v), ", area: "@ + quoted(v.area)),
        tells(DesiredOspfInterfaceTemplate::description(v), ", type_: "@ + option_text(v.type_)),
        tells(DesiredOspfInterfaceTemplate::description(v), ", cost: "@ + option_number(v.cost)),
        tells(
            DesiredOspfInterfaceTemplate::description(v),
            ", hello_interval: "@ + option_text(v.hello_interval),
        ),
        tells(
            DesiredOspfInterfaceTemplate::description(v),
            ", dead_interval: "@ + option_text(v.dead_interval),
        ),
        tells(DesiredOspfInterfaceTemplate::description(v), ", passive: "@ + bool_text(v.passive)),
        tells(
            DesiredOspfInterfaceTemplate::description(v),
            ", disabled: "@ + bool_text(v.disabled),
        ),
{
    let t0 = "DesiredOspfInterfaceTemplate { interfaces: "@ + quoted(v.interfaces);
    lemma_tells_itself(t0);
    let t1 = t0 + ", area: "@ + quoted(v.area);
    lemma_tells_still(t0, ", area: "@);
    lemma_tells_still(t0 + ", area: "@, quoted(v.area));
    lemma_tells_last(t0, ", area: "@, quoted(v.area));
    let t2 = t1 + ", type_: "@ + option_text(v.type_);
    lemma_tells_still(t1, ", type_: "@);
    lemma_tells_still(t1 + ", type_: "@, option_text(v.type_));
    lemma_tells_last(t1, ", type_: "@, option_text(v.type_));
    let t3 = t2 + ", cost: "@ + option_number(v.cost);
    lemma_tells_still(t2, ", cost: "@);
    lemma_tells_still(t2 + ", cost: "@, option_number(v.cost));
    lemma_tells_last(t2, ", cost: "@, option_number(v.cost));
    let t4 = t3 + ", hello_interval: "@ + option_text(v.hello_interval);
    lemma_tells_still(t3, ", hello_interval: "@);
    lemma_tells_still(t3 + ", hello_interval: "@, option_text(v.hello_interval));
    lemma_tells_last(t3, ", hello_interval: "@, option_text(v.hello_interval));
    let t5 = t4 + ", dead_interval: "@ + option_text(v.dead_interval);
    lemma_tells_still(t4, ", dead_interval: "@);
    lemma_tells_still(t4 + ", dead_interval: "@, option_text(v.dead_interval));
    lemma_tells_last(t4, ", dead_interval: "@, option_text(v.dead_interval));
    let t6 = t5 + ", passive: "@ + bool_text(v.passive);
    lemma_tells_still(t5, ", passive: "@);
    lemma_tells_still(t5 + ", passive: "@, bool_text(v.passive));
    lemma_tells_last(t5, ", passive: "@, bool_text(v.passive));
    let t7 = t6 + ", disabled: "@ + bool_text(v.disabled);
    lemma_tells_still(t6, ", disabled: "@);
    lemma_tells_still(t6 + ", disabled: "@, bool_text(v.disabled));
    lemma_tells_last(t6, ", disabled: "@, bool_text(v.disabled));
    lemma_tells_still(t7, " }"@);
    assert(v.description() == t7 + " }"@);
}

/// The line of a [`CurrentOspfInterfaceTemplate`] tells each of its fields.
pub proof fn law_current_ospf_interface_template_is_told(v: CurrentOspfInterfaceTemplateView)
    ensures
        CurrentOspfInterfaceTemplate::id_text(v) == v.id,
        tells(
            CurrentOspfInterfaceTemplate::description(v),
            "CurrentOspfInterfaceTemplate { id: "@ + quoted(v.id),
        ),
        tells(
            CurrentOspfInterfaceTemplate::description(v),
            ", interfaces: "@ + quoted(v.interfaces),
        ),
        tells(CurrentOspfInterfaceTemplate::description(v), ", area: "@ + quoted(v.area)),
        tells(CurrentOspfInterfaceTemplate::description(v), ", type_: "@ + option_text(v.type_)),
        tells(CurrentOspfInterfaceTemplate::description(v), ", cost: "@ + option_number(v.cost)),
        tells(
            CurrentOspfInterfaceTemplate::description(v),
            ", hello_interval: "@ + option_text(v.hello_interval),
        ),
        tells(
            CurrentOspfInterfaceTemplate::description(v),
            ", dead_interval: "@ + option_text(v.dead_interval),
        ),
        tells(
            CurrentOspfInterfaceTemplate::description(v),
            ", passive_raw: "@ + option_text(v.passive_raw),
        ),
        tells(
            CurrentOspfInterfaceTemplate::description(v),
            ", disabled: "@ + bool_text(v.disabled),
        ),
{
    let t0 = "CurrentOspfInterfaceTemplate { id: "@ + quoted(v.id);
    lemma_tells_itself(t0);
    let t1 = t0 + ", interfaces: "@ + quoted(v.interfaces);
    lemma_tells_still(t0, ", interfaces: "@);
    lemma_tells_still(t0 + ", interfaces: "@, quoted(v.interfaces));
    lemma_tells_last(t0, ", interfaces: "@, quoted(v.interfaces));
    let t2 = t1 + ", area: "@ + quoted(v.area);
    lemma_tells_still(t1, ", area: "@);
    lemma_tells_still(t1 + ", area: "@, quoted(v.area));
    lemma_tells_last(t1, ", area: "@, quoted(v.area));
    let t3 = t2 + ", type_: "@ + option_text(v.type_);
    lemma_tells_still(t2, ", type_: "@);
    lemma_tells_still(t2 + ", type_: "@, option_text(v.type_));
    lemma_tells_last(t2, ", type_: "@, option_text(v.type_));
    let t4 = t3 + ", cost: "@ + option_number(v.cost);
    lemma_tells_still(t3, ", cost: "@);
    lemma_tells_still(t3 + ", cost: "@, option_number(v.cost));
    lemma_tells_last(t3, ", cost: "@, option_number(v.cost));
    let t5 = t4 + ", hello_interval: "@ + option_text(v.hello_interval);
    lemma_tells_still(t4, ", hello_interval: "@);
    lemma_tells_still(t4 + ", hello_interval: "@, option_text(v.hello_interval));
    lemma_tells_last(t4, ", hello_interval: "@, option_text(v.hello_interval));
    let t6 = t5 + ", dead_interval: "@ + option_text(v.dead_interval);
    lemma_tells_still(t5, ", dead_interval: "@);
    lemma_tells_still(t5 + ", dead_interval: "@, option_text(v.dead_interval));
    lemma_tells_last(t5, ", dead_interval: "@, option_text(v.dead_interval));
    let t7 = t6 + ", passive_raw: "@ + option_text(v.passive_raw);
    lemma_tells_still(t6, ", passive_raw: "@);
    lemma_tells_still(t6 + ", passive_raw: "@, option_text(v.passive_raw));
    lemma_tells_last(t6, ", passive_raw: "@, option_text(v.passive_raw));
    let t8 = t7 + ", disabled: "@ + bool_text(v.disabled);
    lemma_tells_still(t7, ", disabled: "@);
    lemma_tells_still(t7 + ", disabled: "@, bool_text(v.disabled));
    lemma_tells_last(t7, ", disabled: "@, bool_text(v.disabled));
    lemma_tells_still(t8, " }"@);
    assert(v.description() == t8 + " }"@);
}

/// The line of a [`DesiredAddressListEntry`] tells each of its fields.
pub proof fn law_desired_address_list_entry_is_told(v: DesiredAddressListEntryView)
    ensures
        tells(
            DesiredAddressListEntry::description(v),
            "DesiredAddressListEntry { list: "@ + quoted(v.list),
        ),
        tells(DesiredAddressListEntry::description(v), ", address: "@ + quoted(v.address)),
        tells(DesiredAddressListEntry::description(v), ", disabled: "@ + bool_text(v.disabled)),
{
    let t0 = "DesiredAddressListEntry { list: "@ + quoted(v.list);
    lemma_tells_itself(t0);
    let t1 = t0 + ", address: "@ + quoted(v.address);
    lemma_tells_still(t0, ", address: "@);
    lemma_tells_still(t0 + ", address: "@, quoted(v.address));
    lemma_tells_last(t0, ", address: "@, quoted(v.address));
    let t2 = t1 + ", disabled: "@ + bool_text(v.disabled);
    lemma_tells_still(t1, ", disabled: "@);
    lemma_tells_still(t1 + ", disabled: "@, bool_text(v.disabled));
    lemma_tells_last(t1, ", disabled: "@, bool_text(v.disabled));
    lemma_tells_still(t2, " }"@);
    assert(v.description() == t2 + " }"@);
}

/// The line of a [`CurrentAddressListEntry`] tells each of its fields.
pub proof fn law_current_address_list_entry_is_told(v: CurrentAddressListEntryView)
    ensures
        CurrentAddressListEntry::id_text(v) == v.id,
        tells(
            CurrentAddressListEntry::description(v),
            "CurrentAddressListEntry { id: "@ + quoted(v.id),
        ),
        tells(CurrentAddressListEntry::description(v), ", list: "@ + quoted(v.list)),
        tells(CurrentAddressListEntry::description(v), ", address: "@ + quoted(v.address)),
        tells(CurrentAddressListEntry::description(v), ", disabled: "@ + bool_text(v.disabled)),
{
    let t0 = "CurrentAddressListEntry { id: "@ + quoted(v.id);
    lemma_tells_itself(t0);
    let t1 = t0 + ", list: "@ + quoted(v.list);
    lemma_tells_still(t0, ", list: "@);
    lemma_tells_still(t0 + ", list: "@, quoted(v.list));
    lemma_tells_last(t0, ", list: "@, quoted(v.list));
    let t2 = t1 + ", address: "@ + quoted(v.address);
    lemma_tells_still(t1, ", address: "@);
    lemma_tells_still(t1 + ", address: "@, quoted(v.address));
    lemma_tells_last(t1, ", address: "@, quoted(v.address));
    let t3 = t2 + ", disabled: "@ + bool_text(v.disabled);
    lemma_tells_still(t2, ", disabled: "@);
    lemma_tells_still(t2 + ", disabled: "@, bool_text(v.disabled));
    lemma_tells_last(t2, ", disabled: "@, bool_text(v.disabled));
    lemma_tells_still(t3, " }"@);
    assert(v.description() == t3 + " }"@);
}

/// The line of a [`DesiredBgpConnection`] tells each of its fields.
pub proof fn law_desired_bgp_connection_is_told(v: DesiredBgpConnectionView)
    ensures
        tells(
            DesiredBgpConnection::description(v),
            "DesiredBgpConnection { name: "@ + quoted(v.name),
        ),
        tells(DesiredBgpConnection::description(v), ", instance: "@ + quoted(v.instance)),
        tells(
            DesiredBgpConnection::description(v),
            ", local_address: "@ + ipv6_text(v.local_address),
        ),
        tells(DesiredBgpConnection::description(v), ", local_role: "@ + quoted(v.local_role)),
        tells(
            DesiredBgpConnection::description(v),
            ", remote_address: "@ + ipv6_text(v.remote_address),
        ),
        tells(DesiredBgpConnection::description(v), ", multihop: "@ + bool_text(v.multihop)),
        tells(DesiredBgpConnection::description(v), ", afi: "@ + quoted(v.afi)),
        tells(
            DesiredBgpConnection::description(v),
            ", output_network: "@ + quoted(v.output_network),
        ),
        tells(DesiredBgpConnection::description(v), ", disabled: "@ + bool_text(v.disabled)),
{
    let t0 = "DesiredBgpConnection { name: "@ + quoted(v.name);
    lemma_tells_itself(t0);
    let t1 = t0 + ", instance: "@ + quoted(v.instance);
    lemma_tells_still(t0, ", instance: "@);
    lemma_tells_still(t0 + ", instance: "@, quoted(v.instance));
    lemma_tells_last(t0, ", instance: "@, quoted(v.instance));
    let t2 = t1 + ", local_address: "@ + ipv6_text(v.local_address);
    lemma_tells_still(t1, ", local_address: "@);
    lemma_tells_still(t1 + ", local_address: "@, ipv6_text(v.local_address));
    lemma_tells_last(t1, ", local_address: "@, ipv6_text(v.local_address));
    let t3 = t2 + ", local_role: "@ + quoted(v.local_role);
    lemma_tells_still(t2, ", local_role: "@);
    lemma_tells_still(t2 + ", local_role: "@, quoted(v.local_role));
    lemma_tells_last(t2, ", local_role: "@, quoted(v.local_role));
    let t4 = t3 + ", remote_address: "@ + ipv6_text(v.remote_address);
    lemma_tells_still(t3, ", remote_address: "@);
    lemma_tells_still(t3 + ", remote_address: "@, ipv6_text(v.remote_address));
    lemma_tells_last(t3, ", remote_address: "@, ipv6_text(v.remote_address));
    let t5 = t4 + ", multihop: "@ + bool_text(v.multihop);
    lemma_tells_still(t4, ", multihop: "@);
    lemma_tells_still(t4 + ", multihop: "@, bool_text(v.multihop));
    lemma_tells_last(t4, ", multihop: "@, bool_text(v.multihop));
    let t6 = t5 + ", afi: "@ + quoted(v.afi);
    lemma_tells_still(t5, ", afi: "@);
    lemma_tells_still(t5 + ", afi: "@, quoted(v.afi));
    lemma_tells_last(t5, ", afi: "@, quoted(v.afi));
    let t7 = t6 + ", output_network: "@ + quoted(v.output_network);
    lemma_tells_still(t6, ", output_network: "@);
    lemma_tells_still(t6 + ", output_network: "@, quoted(v.output_network));
    lemma_tells_last(t6, ", output_network: "@, quoted(v.output_network));
    let t8 = t7 + ", disabled: "@ + bool_text(v.disabled);
    lemma_tells_still(t7, ", disabled: "@);
    lemma_tells_still(t7 + ", disabled: "@, bool_text(v.disabled));
    lemma_tells_last(t7, ", disabled: "@, bool_text(v.disabled));
    lemma_tells_still(t8, " }"@);
    assert(v.description() == t8 + " }"@);
}

/// The line of a [`CurrentBgpConnection`] tells each of its fields.
pub proof fn law_current_bgp_connection_is_told(v: CurrentBgpConnectionView)
    ensures
        CurrentBgpConnection::id_text(v) == v.id,
        tells(CurrentBgpConnection::description(v), "CurrentBgpConnection { id: "@ + quoted(v.id)),
        tells(CurrentBgpConnection::description(v), ", name: "@ + quoted(v.name)),
        tells(CurrentBgpConnection::description(v), ", instance: "@ + quoted(v.instance)),
        tells(
            CurrentBgpConnection::description(v),
            ", local_address: "@ + ipv6_text(v.local_address),
        ),
        tells(CurrentBgpConnection::description(v), ", local_role: "@ + quoted(v.local_role)),
        tells(
            CurrentBgpConnection::description(v),
            ", remote_address: "@ + ipv6_text(v.remote_address),
        ),
        tells(CurrentBgpConnection::description(v), ", multihop: "@ + bool_text(v.multihop)),
        tells(CurrentBgpConnection::description(v), ", afi: "@ + quoted(v.afi)),
        tells(
            CurrentBgpConnection::description(v),
            ", output_network: "@ + quoted(v.output_network),
        ),
        tells(CurrentBgpConnection::description(v), ", disabled: "@ + bool_text(v.disabled)),
{
    let t0 = "CurrentBgpConnection { id: "@ + quoted(v.id);
    lemma_tells_itself(t0);
    let t1 = t0 + ", name: "@ + quoted(v.name);
    lemma_tells_still(t0, ", name: "@);
    lemma_tells_still(t0 + ", name: "@, quoted(v.name));
    lemma_tells_last(t0, ", name: "@, quoted(v.name));
    let t2 = t1 + ", instance: "@ + quoted(v.instance);
    lemma_tells_still(t1, ", instance: "@);
    lemma_tells_still(t1 + ", instance: "@, quoted(v.instance));
    lemma_tells_last(t1, ", instance: "@, quoted(v.instance));
    let t3 = t2 + ", local_address: "@ + ipv6_text(v.local_address);
    lemma_tells_still(t2, ", local_address: "@);
    lemma_tells_still(t2 + ", local_address: "@, ipv6_text(v.local_address));
    lemma_tells_last(t2, ", local_address: "@, ipv6_text(v.local_address));
    let t4 = t3 + ", local_role: "@ + quoted(v.local_role);
    lemma_tells_still(t3, ", local_role: "@);
    lemma_tells_still(t3 + ", local_role: "@, quoted(v.local_role));
    lemma_tells_last(t3, ", local_role: "@, quoted(v.local_role));
    let t5 = t4 + ", remote_address: "@ + ipv6_text(v.remote_address);
    lemma_tells_still(t4, ", remote_address: "@);
    lemma_tells_still(t4 + ", remote_address: "@, ipv6_text(v.remote_address));
    lemma_tells_last(t4, ", remote_address: "@, ipv6_text(v.remote_address));
    let t6 = t5 + ", multihop: "@ + bool_text(v.multihop);
    lemma_tells_still(t5, ", multihop: "@);
    lemma_tells_still(t5 + ", multihop: "@, bool_text(v.multihop));
    lemma_tells_last(t5, ", multihop: "@, bool_text(v.multihop));
    let t7 = t6 + ", afi: "@ + quoted(v.afi);
    lemma_tells_still(t6, ", afi: "@);
    lemma_tells_still(t6 + ", afi: "@, quoted(v.afi));
    lemma_tells_last(t6, ", afi: "@, quoted(v.afi));
    let t8 = t7 + ", output_network: "@ + quoted(v.output_network);
    lemma_tells_still(t7, ", output_network: "@);
    lemma_tells_still(t7 + ", output_network: "@, quoted(v.output_network));
    lemma_tells_last(t7, ", output_network: "@, quoted(v.output_network));
    let t9 = t8 + ", disabled: "@ + bool_text(v.disabled);
    lemma_tells_still(t8, ", disabled: "@);
    lemma_tells_still(t8 + ", disabled: "@, bool_text(v.disabled));
    lemma_tells_last(t8, ", disabled: "@, bool_text(v.disabled));
    lemma_tells_still(t9, " }"@);
    assert(v.description() == t9 + " }"@);
}

/// The line of a [`DesiredBridge`] tells each of its fields.
pub proof fn law_desired_bridge_is_told(v: DesiredBridgeView)
    ensures
        tells(DesiredBridge::description(v), "DesiredBridge { name: "@ + quoted(v.name)),
        tells(DesiredBridge::description(v), ", disabled: "@ + bool_text(v.disabled)),
{
    let t0 = "DesiredBridge { name: "@ + quoted(v.name);
    lemma_tells_itself(t0);
    let t1 = t0 + ", disabled: "@ + bool_text(v.disabled);
    lemma_tells_still(t0, ", disabled: "@);
    lemma_tells_still(t0 + ", disabled: "@, bool_text(v.disabled));
    lemma_tells_last(t0, ", disabled: "@, bool_text(v.disabled));
    lemma_tells_still(t1, " }"@);
    assert(v.description() == t1 + " }"@);
}

/// The line of a [`DesiredFilterRule`] tells each of its fields.
pub proof fn law_desired_filter_rule_is_told(v: DesiredFilterRuleView)
    ensures
        tells(DesiredFilterRule::description(v), "DesiredFilterRule { chain: "@ + quoted(v.chain)),
        tells(DesiredFilterRule::description(v), ", rule: "@ + quoted(v.rule)),
        tells(DesiredFilterRule::description(v), ", disabled: "@ + bool_text(v.disabled)),
{
    let t0 = "DesiredFilterRule { chain: "@ + quoted(v.chain);
    lemma_tells_itself(t0);
    let t1 = t0 + ", rule: "@ + quoted(v.rule);
    lemma_tells_still(t0, ", rule: "@);
    lemma_tells_still(t0 + ", rule: "@, quoted(v.rule));
    lemma_tells_last(t0, ", rule: "@, quoted(v.rule));
    let t2 = t1 + ", disabled: "@ + bool_text(v.disabled);
    lemma_tells_still(t1, ", disabled: "@);
    lemma_tells_still(t1 + ", disabled: "@, bool_text(v.disabled));
    lemma_tells_last(t1, ", disabled: "@, bool_text(v.disabled));
    lemma_tells_still(t2, " }"@);
    assert(v.description() == t2 + " }"@);
}

/// The line of a [`DesiredOspfInstance`] tells each of its fields.
pub proof fn law_desired_ospf_instance_is_told(v: DesiredOspfInstanceView)
    ensures
        tells(
            DesiredOspfInstance::description(v),
            "DesiredOspfInstance { name: "@ + quoted(v.name),
        ),
        tells(DesiredOspfInstance::description(v), ", version: "@ + decimal(v.version as nat)),
        tells(DesiredOspfInstance::description(v), ", router_id: "@ + ipv4_text(v.router_id)),
        tells(
            DesiredOspfInstance::description(v),
            ", redistribute_connected: "@ + bool_text(v.redistribute_connected),
        ),
        tells(DesiredOspfInstance::description(v), ", disabled: "@ + bool_text(v.disabled)),
{
    let t0 = "DesiredOspfInstance { name: "@ + quoted(v.name);
    lemma_tells_itself(t0);
    let t1 = t0 + ", version: "@ + decimal(v.version as nat);
    lemma_tells_still(t0, ", version: "@);
    lemma_tells_still(t0 + ", version: "@, decimal(v.version as nat));
    lemma_tells_last(t0, ", version: "@, decimal(v.version as nat));
    let t2 = t1 + ", router_id: "@ + ipv4_text(v.router_id);
    lemma_tells_still(t1, ", router_id: "@);
    lemma_tells_still(t1 + ", router_id: "@, ipv4_text(v.router_id));
    lemma_tells_last(t1, ", router_id: "@, ipv4_text(v.router_id));
    let t3 = t2 + ", redistribute_connected: "@ + bool_text(v.redistribute_connected);
    lemma_tells_still(t2, ", redistribute_connected: "@);
    lemma_tells_still(t2 + ", redistribute_connected: "@, bool_text(v.redistribute_connected));
    lemma_tells_last(t2, ", redistribute_connected: "@, bool_text(v.redistribute_connected));
    let t4 = t3 + ", disabled: "@ + bool_text(v.disabled);
    lemma_tells_still(t3, ", disabled: "@);
    lemma_tells_still(t3 + ", disabled: "@, bool_text(v.disabled));
    lemma_tells_last(t3, ", disabled: "@, bool_text(v.disabled));
    lemma_tells_still(t4, " }"@);
    assert(v.description() == t4 + " }"@);
}

/// The line of a [`DesiredOspfArea`] tells each of its fields.
pub proof fn law_desired_ospf_area_is_told(v: DesiredOspfAreaView)
    ensures
        tells(DesiredOspfArea::description(v), "DesiredOspfArea { name: "@ + quoted(v.name)),
        tells(DesiredOspfArea::description(v), ", area_id: "@ + quoted(v.area_id)),
        tells(DesiredOspfArea::description(v), ", instance: "@ + quoted(v.instance)),
        tells(DesiredOspfArea::description(v), ", disabled: "@ + bool_text(v.disabled)),
{
    let t0 = "DesiredOspfArea { name: "@ + quoted(v.name);
    lemma_tells_itself(t0);
    let t1 = t0 + ", area_id: "@ + quoted(v.area_id);
    lemma_tells_still(t0, ", area_id: "@);
    lemma_tells_still(t0 + ", area_id: "@, quoted(v.area_id));
    lemma_tells_last(t0, ", area_id: "@, quoted(v.area_id));
    let t2 = t1 + ", instance: "@ + quoted(v.instance);
    lemma_tells_still(t1, ", instance: "@);
    lemma_tells_still(t1 + ", instance: "@, quoted(v.instance));
    lemma_tells_last(t1, ", instance: "@, quoted(v.instance));
    let t3 = t2 + ", disabled: "@ + bool_text(v.disabled);
    lemma_tells_still(t2, ", disabled: "@);
    lemma_tells_still(t2 + ", disabled: "@, bool_text(v.disabled));
    lemma_tells_last(t2, ", disabled: "@, bool_text(v.disabled));
    lemma_tells_still(t3, " }"@);
    assert(v.description() == t3 + " }"@);
}

/// The line of a [`DesiredBgpInstance`] tells each of its fields.
pub proof fn law_desired_bgp_instance_is_told(v: DesiredBgpInstanceView)
    ensures
        tells(DesiredBgpInstance::description(v), "DesiredBgpInstance { name: "@ + quoted(v.name)),
        tells(DesiredBgpInstance::description(v), ", as_number: "@ + decimal(v.as_number as nat)),
        tells(DesiredBgpInstance::description(v), ", router_id: "@ + ipv4_text(v.router_id)),
        tells(DesiredBgpInstance::description(v), ", routing_table: "@ + quoted(v.routing_table)),
        tells(DesiredBgpInstance::description(v), ", disabled: "@ + bool_text(v.disabled)),
{
    let t0 = "DesiredBgpInstance { name: "@ + quoted(v.name);
    lemma_tells_itself(t0);
    let t1 = t0 + ", as_number: "@ + decimal(v.as_number as nat);
    lemma_tells_still(t0, ", as_number: "@);
    lemma_tells_still(t0 + ", as_number: "@, decimal(v.as_number as nat));
    lemma_tells_last(t0, ", as_number: "@, decimal(v.as_number as nat));
    let t2 = t1 + ", router_id: "@ + ipv4_text(v.router_id);
    lemma_tells_still(t1, ", router_id: "@);
    lemma_tells_still(t1 + ", router_id: "@, ipv4_text(v.router_id));
    lemma_tells_last(t1, ", router_id: "@, ipv4_text(v.router_id));
    let t3 = t2 + ", routing_table: "@ + quoted(v.routing_table);
    lemma_tells_still(t2, ", routing_table: "@);
    lemma_tells_still(t2 + ", routing_table: "@, quoted(v.routing_table));
    lemma_tells_last(t2, ", routing_table: "@, quoted(v.routing_table));
    let t4 = t3 + ", disabled: "@ + bool_text(v.disabled);
    lemma_tells_still(t3, ", disabled: "@);
    lemma_tells_still(t3 + ", disabled: "@, bool_text(v.disabled));
    lemma_tells_last(t3, ", disabled: "@, bool_text(v.disabled));
    lemma_tells_still(t4, " }"@);
    assert(v.description() == t4 + " }"@);
}

/// The message of an error tells what it is about.
pub proof fn law_messages(e: ErrorView)
    ensures
        match e {
            ErrorView::NotCidr { text } | ErrorView::CidrAddress { text } | ErrorView::CidrPrefix {
                text,
            } | ErrorView::CidrPrefixRange { text, .. } => tells(message_text(e), quoted(text)),
            ErrorView::EndpointCharacters { endpoint } | ErrorView::EndpointForm {
                endpoint,
            } | ErrorView::EndpointPort { endpoint } => tells(message_text(e), quoted(endpoint)),
            ErrorView::MissingField { id, field } => tells(message_text(e), quoted(id)) && tells(
                message_text(e),
                quoted(field),
            ),
            ErrorView::NotU16 { field, value } | ErrorView::NotKeepalive { field, value } => tells(
                message_text(e),
                quoted(field),
            ) && tells(message_text(e), quoted(value)),
            ErrorView::CredentialsYaml { reason } | ErrorView::Fatal { reason } => tells(
                message_text(e),
                reason,
            ),
            ErrorView::NoConfigFiles { name } | ErrorView::NoDocument { name } => tells(
                message_text(e),
                quoted(name),
            ),
            ErrorView::Loopback { entry } => tells(message_text(e), quoted(entry)),
            ErrorView::BgpPeerAddress { name, address } => tells(message_text(e), quoted(name))
                && tells(message_text(e), quoted(address)),
            ErrorView::Trap { message, category } => tells(message_text(e), message) && tells(
                message_text(e),
                category,
            ),
            _ => true,
        },
{
    match e {
        ErrorView::NotCidr { text } => {
            let t0 = quoted(text);
            lemma_tells_itself(t0);
            let t1 = t0 + " is not a CIDR (missing '/')"@;
            lemma_tells_still(t0, " is not a CIDR (missing '/')"@);
            lemma_tells_end(t0, " is not a CIDR (missing '/')"@);
            assert(message_text(e) == t1);
        },
        ErrorView::CidrAddress { text } => {
            let t0 = quoted(text);
            lemma_tells_itself(t0);
            let t1 = t0 + ": invalid IPv4 address: invalid IPv4 address syntax"@;
            lemma_tells_still(t0, ": invalid IPv4 address: invalid IPv4 address syntax"@);
            lemma_tells_end(t0, ": invalid IPv4 address: invalid IPv4 address syntax"@);
            assert(message_text(e) == t1);
        },
        ErrorView::CidrPrefix { text } => {
            let t0 = quoted(text);
            lemma_tells_itself(t0);
            let t1 = t0 + ": invalid prefix length: "@;
            lemma_tells_still(t0, ": invalid prefix length: "@);
            lemma_tells_end(t0, ": invalid prefix length: "@);
            let t2 = t1 + decimal_fault(behind_slash(text), u8::MAX as nat);
            lemma_tells_still(t1, decimal_fault(behind_slash(text), u8::MAX as nat));
            lemma_tells_end(t1, decimal_fault(behind_slash(text), u8::MAX as nat));
            assert(message_text(e) == t2);
        },
        ErrorView::CidrPrefixRange { text, prefix } => {
            let t0 = quoted(text);
            lemma_tells_itself(t0);
            let t1 = t0 + ": prefix length "@;
            lemma_tells_still(t0, ": prefix length "@);
            lemma_tells_end(t0, ": prefix length "@);
            let t2 = t1 + decimal(prefix as nat);
            lemma_tells_still(t1, decimal(prefix as nat));
            lemma_tells_end(t1, decimal(prefix as nat));
            let t3 = t2 + " exceeds 32"@;
            lemma_tells_still(t2, " exceeds 32"@);
            lemma_tells_end(t2, " exceeds 32"@);
            assert(message_text(e) == t3);
        },
        ErrorView::EndpointCharacters { endpoint } => {
            let t0 = "endpoint "@;
            lemma_tells_itself(t0);
            let t1 = t0 + quoted(endpoint);
            lemma_tells_still(t0, quoted(endpoint));
            lemma_tells_end(t0, quoted(endpoint));
            let t2 = t1 + " contains characters outside [a-zA-Z0-9.:-]"@;
            lemma_tells_still(t1, " contains characters outside [a-zA-Z0-9.:-]"@);
            lemma_tells_end(t1, " contains characters outside [a-zA-Z0-9.:-]"@);
            assert(message_text(e) == t2);
        },
        ErrorView::EndpointForm { endpoint } => {
            let t0 = quoted(endpoint);
            lemma_tells_itself(t0);
            let t1 = t0 + " is not \"host:port\""@;
            lemma_tells_still(t0, " is not \"host:port\""@);
            lemma_tells_end(t0, " is not \"host:port\""@);
            assert(message_text(e) == t1);
        },
        ErrorView::EndpointPort { endpoint } => {
            let t0 = quoted(endpoint);
            lemma_tells_itself(t0);
            let t1 = t0 + ": invalid port: "@;
            lemma_tells_still(t0, ": invalid port: "@);
            lemma_tells_end(t0, ": invalid port: "@);
            let t2 = t1 + decimal_fault(behind_last_colon(endpoint), u16::MAX as nat);
            lemma_tells_still(t1, decimal_fault(behind_last_colon(endpoint), u16::MAX as nat));
            lemma_tells_end(t1, decimal_fault(behind_last_colon(endpoint), u16::MAX as nat));
            assert(message_text(e) == t2);
        },
        ErrorView::MissingField { id, field } => {
            let t0 = "row "@;
            lemma_tells_itself(t0);
            let t1 = t0 + quoted(id);
            lemma_tells_still(t0, quoted(id));
            lemma_tells_end(t0, quoted(id));
            let t2 = t1 + " is missing required field "@;
            lemma_tells_still(t1, " is missing required field "@);
            lemma_tells_end(t1, " is missing required field "@);
            let t3 = t2 + quoted(field);
            lemma_tells_still(t2, quoted(field));
            lemma_tells_end(t2, quoted(field));
            assert(message_text(e) == t3);
        },
        ErrorView::NotU16 { field, value } => {
            let t0 = "field "@;
            lemma_tells_itself(t0);
            let t1 = t0 + quoted(field);
            lemma_tells_still(t0, quoted(field));
            lemma_tells_end(t0, quoted(field));
            let t2 = t1 + " = "@;
            lemma_tells_still(t1, " = "@);
            lemma_tells_end(t1, " = "@);
            let t3 = t2 + quoted(value);
            lemma_tells_still(t2, quoted(value));
            lemma_tells_end(t2, quoted(value));
            let t4 = t3 + " is not a u16: "@;
            lemma_tells_still(t3, " is not a u16: "@);
            lemma_tells_end(t3, " is not a u16: "@);
            let t5 = t4 + decimal_fault(value, u16::MAX as nat);
            lemma_tells_still(t4, decimal_fault(value, u16::MAX as nat));
            lemma_tells_end(t4, decimal_fault(value, u16::MAX as nat));
            assert(message_text(e) == t5);
        },
        ErrorView::NotKeepalive { field, value } => {
            let t0 = "field "@;
            lemma_tells_itself(t0);
            let t1 = t0 + quoted(field);
            lemma_tells_still(t0, quoted(field));
            lemma_tells_end(t0, quoted(field));
            let t2 = t1 + " = "@;
            lemma_tells_still(t1, " = "@);
            lemma_tells_end(t1, " = "@);
            let t3 = t2 + quoted(value);
            lemma_tells_still(t2, quoted(value));
            lemma_tells_end(t2, quoted(value));
            let t4 = t3 + " is not a keepalive duration: "@;
            lemma_tells_still(t3, " is not a keepalive duration: "@);
            lemma_tells_end(t3, " is not a keepalive duration: "@);
            let t5 = t4 + decimal_fault(trim_end_char(value, 's'), u16::MAX as nat);
            lemma_tells_still(t4, decimal_fault(trim_end_char(value, 's'), u16::MAX as nat));
            lemma_tells_end(t4, decimal_fault(trim_end_char(value, 's'), u16::MAX as nat));
            assert(message_text(e) == t5);
        },
        ErrorView::CredentialsYaml { reason } => {
            let t0 = "mikrotik credentials document is not valid YAML: "@;
            lemma_tells_itself(t0);
            let t1 = t0 + reason;
            lemma_tells_still(t0, reason);
            lemma_tells_end(t0, reason);
            assert(message_text(e) == t1);
        },
        ErrorView::Fatal { reason } => {
            let t0 = "RouterOS connection failed: "@;
            lemma_tells_itself(t0);
            let t1 = t0 + reason;
            lemma_tells_still(t0, reason);
            lemma_tells_end(t0, reason);
            assert(message_text(e) == t1);
        },
        ErrorView::NoConfigFiles { name } => {
            let t0 = quoted(name);
            lemma_tells_itself(t0);
            let t1 = t0 + " document has no configFiles entries"@;
            lemma_tells_still(t0, " document has no configFiles entries"@);
            lemma_tells_end(t0, " document has no configFiles entries"@);
            assert(message_text(e) == t1);
        },
        ErrorView::NoDocument { name } => {
            let t0 = "patch file has no ExtensionServiceConfig document named "@;
            lemma_tells_itself(t0);
            let t1 = t0 + quoted(name);
            lemma_tells_still(t0, quoted(name));
            lemma_tells_end(t0, quoted(name));
            assert(message_text(e) == t1);
        },
        ErrorView::Loopback { entry } => {
            let t0 = "invalid loopback_addresses entry "@;
            lemma_tells_itself(t0);
            let t1 = t0 + quoted(entry);
            lemma_tells_still(t0, quoted(entry));
            lemma_tells_end(t0, quoted(entry));
            let t2 = t1 + ": "@;
            lemma_tells_still(t1, ": "@);
            lemma_tells_end(t1, ": "@);
            let t3 = t2 + loopback_reason(entry);
            lemma_tells_still(t2, loopback_reason(entry));
            lemma_tells_end(t2, loopback_reason(entry));
            assert(message_text(e) == t3);
        },
        ErrorView::BgpPeerAddress { name, address } => {
            let t0 = "bgp peer "@;
            lemma_tells_itself(t0);
            let t1 = t0 + quoted(name);
            lemma_tells_still(t0, quoted(name));
            lemma_tells_end(t0, quoted(name));
            let t2 = t1 + ": invalid address "@;
            lemma_tells_still(t1, ": invalid address "@);
            lemma_tells_end(t1, ": invalid address "@);
            let t3 = t2 + quoted(address);
            lemma_tells_still(t2, quoted(address));
            lemma_tells_end(t2, quoted(address));
            let t4 = t3 + ": invalid IPv6 address syntax"@;
            lemma_tells_still(t3, ": invalid IPv6 address syntax"@);
            lemma_tells_end(t3, ": invalid IPv6 address syntax"@);
            assert(message_text(e) == t4);
        },
        ErrorView::Trap { message, category } => {
            let t0 = "RouterOS command failed: "@;
            lemma_tells_itself(t0);
            let t1 = t0 + message;
            lemma_tells_still(t0, message);
            lemma_tells_end(t0, message);
            let t2 = t1 + " (category: "@;
            lemma_tells_still(t1, " (category: "@);
            lemma_tells_end(t1, " (category: "@);
            let t3 = t2 + category;
            lemma_tells_still(t2, category);
            lemma_tells_end(t2, category);
            let t4 = t3 + ")"@;
            lemma_tells_still(t3, ")"@);
            lemma_tells_end(t3, ")"@);
            assert(message_text(e) == t4);
        },
        _ => {},
    }
}

} // verus!
