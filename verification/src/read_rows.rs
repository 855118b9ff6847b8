//! What is read from a device's answer, stated on the fields of its rows.

use crate::addr::{ipv4_text, is_link_local, parse_ipv4, parse_ipv6, zero_groups, Ipv4Addr};
use crate::cidr::{block_size, cidr_of, network};
use crate::diff::{in_footprint, is_orphan_id, is_ours};
use crate::error::ErrorView;
use crate::mikrotik::{
    address_list_entry_of, all_of, bgp_connection_of, bgp_instance_of, bridge_of, entry_is_on,
    ip_address_is_ours, ip_address_of, ipv6_address_is_ours, ipv6_address_of, is_link_local_entry,
    kept, list_member_is_ours, list_member_of, named, named_from, network_of, ospf_area_of,
    ospf_instance_of, ospf_template_of, physical_prefixes, table_of, wireguard_interface_of,
    wireguard_peer_of, Parsed,
};
use crate::number::{decimal, is_digit, parse_decimal};
use crate::row::RowView;
use crate::rows::{
    CurrentAddressListEntry, CurrentAddressListEntryView, CurrentBgpConnectionView,
    CurrentIpAddress, CurrentIpAddressView, CurrentIpv6Address, CurrentIpv6AddressView,
    CurrentListMember, CurrentListMemberView, CurrentOspfInterfaceTemplateView,
    CurrentWireguardInterfaceView, CurrentWireguardPeerView,
};
use crate::text::{
    law_split, law_split_once, law_split_once_of, lemma_split_head, lemma_split_whole, split,
    trim_end_char,
};
use vstd::arithmetic::power2::{lemma_pow2_pos, pow2};
use vstd::prelude::*;

verus! {

/// The rows are read one by one: each gives its own, in the same place, and the first that cannot
/// be read is what is wrong with all.
pub proof fn law_table<T: Parsed>(rows: Seq<RowView>)
    ensures
        match table_of::<T>(rows) {
            Ok(v) => v.len() == rows.len() && forall|i: int|
                0 <= i < rows.len() ==> T::of(#[trigger] rows[i]) == Ok::<T::V, ErrorView>(v[i]),
            Err(e) => exists|i: int|
                0 <= i < rows.len() && T::of(#[trigger] rows[i]) == Err::<T::V, ErrorView>(e)
                    && forall|j: int| 0 <= j < i ==> T::of(#[trigger] rows[j]) is Ok,
        },
{
    lemma_table::<T>(rows, rows.len() as int);
}

proof fn lemma_table<T: Parsed>(rows: Seq<RowView>, n: int)
    requires
        0 <= n <= rows.len(),
    ensures
        match all_of::<T>(rows, n) {
            Ok(v) => v.len() == n && forall|i: int|
                0 <= i < n ==> T::of(#[trigger] rows[i]) == Ok::<T::V, ErrorView>(v[i]),
            Err(e) => exists|i: int|
                0 <= i < n && T::of(#[trigger] rows[i]) == Err::<T::V, ErrorView>(e) && forall|
                    j: int,
                |
                    0 <= j < i ==> T::of(#[trigger] rows[j]) is Ok,
        },
    decreases n,
{
    if n > 0 {
        lemma_table::<T>(rows, n - 1);
        if all_of::<T>(rows, n - 1) is Ok {
            if let Err(e) = T::of(rows[n - 1]) {
                assert(T::of(rows[n - 1]) == Err::<T::V, ErrorView>(e));
            }
        }
    }
}

/// Whether a field has a value.
pub open spec fn valued(row: RowView, key: Seq<char>) -> bool {
    row.contains_key(key) && row[key] is Some
}

/// The value of a field, nothing where there is none.
pub open spec fn text_in(row: RowView, key: Seq<char>) -> Seq<char> {
    if valued(row, key) {
        row[key]->Some_0
    } else {
        ""@
    }
}

/// The value of a field, if there is one.
pub open spec fn text_if_any(row: RowView, key: Seq<char>) -> Option<Seq<char>> {
    if valued(row, key) {
        row[key]
    } else {
        None
    }
}

/// Whether a field is a flag that is set: its value is empty or `true`.
pub open spec fn is_on(row: RowView, key: Seq<char>) -> bool {
    valued(row, key) && (row[key]->Some_0 == ""@ || row[key]->Some_0 == "true"@)
}

/// Whether a text is a number of 16 bits.
pub open spec fn is_u16(text: Seq<char>) -> bool {
    parse_decimal(text, 65535) is Some
}

/// The groups of the IPv6 address in a field, all zero where it holds none.
pub open spec fn groups_in(row: RowView, key: Seq<char>) -> Seq<u16> {
    match parse_ipv6(text_in(row, key)) {
        Some(g) => g,
        None => seq![0u16, 0, 0, 0, 0, 0, 0, 0],
    }
}

/// A row of `/interface/wireguard` is read exactly if it has what it must have and its numbers are
/// numbers, and then field by field.
pub proof fn law_wireguard_interface_fields(row: RowView)
    ensures
        wireguard_interface_of(row) is Ok <==> {
            &&& valued(row, ".id"@)
            &&& valued(row, "name"@)
            &&& valued(row, "listen-port"@)
            &&& is_u16(text_in(row, "listen-port"@))
        },
        wireguard_interface_of(row) matches Ok(c) ==> {
            &&& c.id == text_in(row, ".id"@)
            &&& c.name == text_in(row, "name"@)
            &&& parse_decimal(text_in(row, "listen-port"@), 65535) == Some(c.listen_port as nat)
            &&& c.private_key_b64 == text_in(row, "private-key"@)
            &&& c.disabled == is_on(row, "disabled"@)
        },
{
}

/// A row of `/interface/wireguard/peers` is read exactly if it has what it must have and its
/// numbers are numbers, and then field by field.
pub proof fn law_wireguard_peer_fields(row: RowView)
    ensures
        wireguard_peer_of(row) is Ok <==> {
            &&& valued(row, ".id"@)
            &&& valued(row, "interface"@)
            &&& valued(row, "endpoint-port"@) ==> is_u16(text_in(row, "endpoint-port"@))
            &&& valued(row, "persistent-keepalive"@) ==> is_u16(
                trim_end_char(text_in(row, "persistent-keepalive"@), 's'),
            )
        },
        wireguard_peer_of(row) matches Ok(c) ==> {
            &&& c.id == text_in(row, ".id"@)
            &&& c.interface == text_in(row, "interface"@)
            &&& c.name == text_in(row, "comment"@)
            &&& c.public_key_b64 == text_in(row, "public-key"@)
            &&& c.allowed_address == text_in(row, "allowed-address"@)
            &&& c.endpoint_address == text_if_any(row, "endpoint-address"@)
            &&& c.endpoint_port is Some == valued(row, "endpoint-port"@)
            &&& c.endpoint_port matches Some(n) ==> parse_decimal(
                text_in(row, "endpoint-port"@),
                65535,
            ) == Some(n as nat)
            &&& c.persistent_keepalive is Some == valued(row, "persistent-keepalive"@)
            &&& c.persistent_keepalive matches Some(n) ==> parse_decimal(
                trim_end_char(text_in(row, "persistent-keepalive"@), 's'),
                65535,
            ) == Some(n as nat)
            &&& c.disabled == is_on(row, "disabled"@)
        },
{
}

/// A row of `/ip/address` is read exactly if it has what it must have and its numbers are
/// numbers, and then field by field.
pub proof fn law_ip_address_fields(row: RowView)
    ensures
        ip_address_of(row) is Ok <==> {
            &&& valued(row, ".id"@)
            &&& valued(row, "address"@)
            &&& valued(row, "interface"@)
        },
        ip_address_of(row) matches Ok(c) ==> {
            &&& c.id == text_in(row, ".id"@)
            &&& c.address == text_in(row, "address"@)
            &&& c.interface == text_in(row, "interface"@)
            &&& c.disabled == is_on(row, "disabled"@)
        },
{
}

/// A row of `/ipv6/address` is read exactly if it has what it must have and its numbers are
/// numbers, and then field by field.
pub proof fn law_ipv6_address_fields(row: RowView)
    ensures
        ipv6_address_of(row) is Ok <==> {
            &&& valued(row, ".id"@)
            &&& valued(row, "address"@)
            &&& valued(row, "interface"@)
        },
        ipv6_address_of(row) matches Ok(c) ==> {
            &&& c.id == text_in(row, ".id"@)
            &&& c.address == text_in(row, "address"@)
            &&& c.interface == text_in(row, "interface"@)
            &&& c.advertise == is_on(row, "advertise"@)
            &&& c.disabled == is_on(row, "disabled"@)
        },
{
}

/// A row of `/interface/list/member` is read exactly if it has what it must have and its numbers
/// are numbers, and then field by field.
pub proof fn law_list_member_fields(row: RowView)
    ensures
        list_member_of(row) is Ok <==> {
            &&& valued(row, ".id"@)
            &&& valued(row, "list"@)
            &&& valued(row, "interface"@)
        },
        list_member_of(row) matches Ok(c) ==> {
            &&& c.id == text_in(row, ".id"@)
            &&& c.list == text_in(row, "list"@)
            &&& c.interface == text_in(row, "interface"@)
            &&& c.disabled == is_on(row, "disabled"@)
        },
{
}

/// A row of `/routing/ospf/interface-template` is read exactly if it has what it must have and its
/// numbers are numbers, and then field by field.
pub proof fn law_ospf_template_fields(row: RowView)
    ensures
        ospf_template_of(row) is Ok <==> {
            &&& valued(row, ".id"@)
            &&& valued(row, "interfaces"@)
            &&& valued(row, "cost"@) ==> is_u16(text_in(row, "cost"@))
        },
        ospf_template_of(row) matches Ok(c) ==> {
            &&& c.id == text_in(row, ".id"@)
            &&& c.interfaces == text_in(row, "interfaces"@)
            &&& c.area == text_in(row, "area"@)
            &&& c.type_ == text_if_any(row, "type"@)
            &&& c.cost is Some == valued(row, "cost"@)
            &&& c.cost matches Some(n) ==> parse_decimal(
                text_in(row, "cost"@),
                65535,
            ) == Some(n as nat)
            &&& c.hello_interval == text_if_any(row, "hello-interval"@)
            &&& c.dead_interval == text_if_any(row, "dead-interval"@)
            &&& c.passive_raw == (if row.contains_key("passive"@) { Some(""@) } else { None })
            &&& c.disabled == is_on(row, "disabled"@)
        },
{
}

/// A row of `/ip/firewall/address-list` is read exactly if it has what it must have and its numbers
/// are numbers, and then field by field.
pub proof fn law_address_list_entry_fields(row: RowView)
    ensures
        address_list_entry_of(row) is Ok <==> {
            &&& valued(row, ".id"@)
            &&& valued(row, "list"@)
            &&& valued(row, "address"@)
        },
        address_list_entry_of(row) matches Ok(c) ==> {
            &&& c.id == text_in(row, ".id"@)
            &&& c.list == text_in(row, "list"@)
            &&& c.address == text_in(row, "address"@)
            &&& c.disabled == is_on(row, "disabled"@)
        },
{
}

/// A row of `/routing/bgp/connection` is read exactly if it has what it must have and its numbers
/// are numbers, and then field by field.
pub proof fn law_bgp_connection_fields(row: RowView)
    ensures
        bgp_connection_of(row) is Ok <==> {
            &&& valued(row, ".id"@)
            &&& valued(row, "name"@)
        },
        bgp_connection_of(row) matches Ok(c) ==> {
            &&& c.id == text_in(row, ".id"@)
            &&& c.name == text_in(row, "name"@)
            &&& c.instance == text_in(row, "instance"@)
            &&& c.local_address == groups_in(row, "local.address"@)
            &&& c.local_role == text_in(row, "local.role"@)
            &&& c.remote_address == groups_in(row, "remote.address"@)
            &&& c.multihop == is_on(row, "multihop"@)
            &&& c.afi == text_in(row, "afi"@)
            &&& c.output_network == text_in(row, "output.network"@)
            &&& c.disabled == is_on(row, "disabled"@)
        },
{
    assert(zero_groups(8) =~= seq![0u16, 0, 0, 0, 0, 0, 0, 0]);
}

/// The row of `/interface/bridge` with a name is read field by field.
pub proof fn law_bridge_fields(row: RowView, name: Seq<char>)
    ensures
        ({
            let r = bridge_of(name)(row);
            &&& r.name == name
            &&& r.disabled == is_on(row, "disabled"@)
        }),
{
}

/// The row of `/routing/ospf/instance` with a name is read field by field.
pub proof fn law_ospf_instance_fields(row: RowView, name: Seq<char>)
    ensures
        ({
            let r = ospf_instance_of(name)(row);
            &&& r.name == name
            &&& r.version == (
                match parse_decimal(text_in(row, "version"@), 255) { Some(n) => n, None => 3 }
            )
            &&& r.router_id == (
                match parse_ipv4(
                    text_in(row, "router-id"@),
                ) { Some(a) => a, None => Ipv4Addr { bits: 0 } }
            )
            &&& r.redistribute_connected == split(
                text_in(row, "redistribute"@),
                ',',
            ).contains("connected"@)
            &&& r.disabled == is_on(row, "disabled"@)
        }),
{
    reveal_strlit("");
    assert(parse_decimal(""@, 255) is None && parse_decimal(""@, 4294967295) is None);
}

/// The row of `/routing/ospf/area` with a name is read field by field.
pub proof fn law_ospf_area_fields(row: RowView, name: Seq<char>)
    ensures
        ({
            let r = ospf_area_of(name)(row);
            &&& r.name == name
            &&& r.area_id == text_in(row, "area-id"@)
            &&& r.instance == text_in(row, "instance"@)
            &&& r.disabled == is_on(row, "disabled"@)
        }),
{
}

/// The row of `/routing/bgp/instance` with a name is read field by field.
pub proof fn law_bgp_instance_fields(row: RowView, name: Seq<char>)
    ensures
        ({
            let r = bgp_instance_of(name)(row);
            &&& r.name == name
            &&& r.as_number == (
                match parse_decimal(text_in(row, "as"@), 4294967295) { Some(n) => n, None => 0 }
            )
            &&& r.router_id == (
                match parse_ipv4(
                    text_in(row, "router-id"@),
                ) { Some(a) => a, None => Ipv4Addr { bits: 0 } }
            )
            &&& r.routing_table == text_in(row, "routing-table"@)
            &&& r.disabled == is_on(row, "disabled"@)
        }),
{
    reveal_strlit("");
    assert(parse_decimal(""@, 255) is None && parse_decimal(""@, 4294967295) is None);
}

/// Whether a row of this name has an id, and every row in front of it has one and another name.
pub open spec fn is_found(rows: Seq<RowView>, name: Seq<char>, i: int) -> bool {
    &&& 0 <= i < rows.len()
    &&& valued(rows[i], ".id"@)
    &&& valued(rows[i], "name"@) && text_in(rows[i], "name"@) == name
    &&& forall|j: int|
        0 <= j < i ==> valued(#[trigger] rows[j], ".id"@) && !(valued(rows[j], "name"@) && text_in(
            rows[j],
            "name"@,
        ) == name)
}

proof fn lemma_named(rows: Seq<RowView>, name: Seq<char>, i: int)
    requires
        0 <= i <= rows.len(),
        forall|j: int|
            0 <= j < i ==> valued(
                #[trigger] rows[j],
                ".id"@,
            ) && !(valued(rows[j], "name"@) && text_in(
                rows[j],
                "name"@,
            ) == name),
    ensures
        match named_from(rows, name, i) {
            Ok(Some((id, row))) => exists|k: int| #[trigger]
                is_found(rows, name, k) && rows[k] == row && text_in(row, ".id"@) == id,
            Ok(None) => forall|j: int|
                0 <= j < rows.len() ==> valued(
                    #[trigger] rows[j],
                    ".id"@,
                ) && !(valued(rows[j], "name"@)
                    && text_in(rows[j], "name"@) == name),
            Err(e) => e is MissingId && exists|k: int|
                0 <= k < rows.len() && !valued(#[trigger] rows[k], ".id"@) && forall|j: int|
                    0 <= j < k ==> !is_found(rows, name, j),
        },
    decreases rows.len() - i,
{
    if i < rows.len() {
        if valued(rows[i], ".id"@) {
            if valued(rows[i], "name"@) && text_in(rows[i], "name"@) == name {
                assert(is_found(rows, name, i));
            } else {
                lemma_named(rows, name, i + 1);
            }
        } else {
            assert(!valued(rows[i], ".id"@));
        }
    }
}

/// The first row with a name is found, under its id; none is found only if no row has the name; and
/// a row without an id in front of it is an error.
pub proof fn law_named(rows: Seq<RowView>, name: Seq<char>)
    ensures
        match named(rows, name) {
            Ok(Some((id, row))) => exists|k: int| #[trigger]
                is_found(rows, name, k) && rows[k] == row && text_in(row, ".id"@) == id,
            Ok(None) => forall|j: int|
                0 <= j < rows.len() ==> valued(
                    #[trigger] rows[j],
                    ".id"@,
                ) && !(valued(rows[j], "name"@)
                    && text_in(rows[j], "name"@) == name),
            Err(e) => e is MissingId && exists|k: int|
                0 <= k < rows.len() && !valued(#[trigger] rows[k], ".id"@) && forall|j: int|
                    0 <= j < k ==> !is_found(rows, name, j),
        },
{
    lemma_named(rows, name, 0);
}

/// Whether a character is a hexadecimal digit.
pub open spec fn is_hex(c: char) -> bool {
    '0' <= c <= '9' || 'a' <= c <= 'f' || 'A' <= c <= 'F'
}

/// Whether a name is `*` and a hexadecimal number behind it.
pub open spec fn is_raw_id(name: Seq<char>) -> bool {
    &&& name.len() > 1
    &&& name[0] == '*'
    &&& forall|i: int| 0 < i < name.len() ==> is_hex(#[trigger] name[i])
}

/// Whether only this tool could have named an interface so: `mesh-` in front, or the raw id of one
/// that is gone.
pub open spec fn is_mesh_name(name: Seq<char>) -> bool {
    "mesh-"@.is_prefix_of(name) || is_raw_id(name)
}

/// An interface is this tool's exactly if it is named so.
pub proof fn law_is_ours(name: Seq<char>, names: Seq<Seq<char>>)
    ensures
        is_orphan_id(name) == is_raw_id(name),
        is_ours(name) == is_mesh_name(name),
        in_footprint(name, names) == (names.contains(name) || is_mesh_name(name)),
{
    reveal_strlit("*");
    assert("*"@.len() == 1 && "*"@[0] == '*');
    if "*"@.is_prefix_of(name) {
        let rest = name.skip(1);
        assert(name[0] == '*');
        if is_orphan_id(name) {
            assert forall|i: int| 0 < i < name.len() implies is_hex(#[trigger] name[i]) by {
                assert(is_digit(rest[i - 1], 16));
            }
        }
        if is_raw_id(name) {
            assert forall|i: int| 0 <= i < rest.len() implies is_digit(#[trigger] rest[i], 16) by {
                assert(is_hex(name[i + 1]));
            }
        }
    } else if is_raw_id(name) {
        assert(name.subrange(0, 1) =~= "*"@);
    }
}

proof fn lemma_filter_same<V>(s: Seq<V>, p: spec_fn(V) -> bool, q: spec_fn(V) -> bool)
    requires
        forall|v: V| #[trigger] p(v) == q(v),
    ensures
        s.filter(p) == s.filter(q),
    decreases s.len(),
{
    reveal(Seq::filter);
    if s.len() > 0 {
        lemma_filter_same(s.drop_last(), p, q);
        assert(p(s.last()) == q(s.last()));
    }
}

/// Of `/ip/address` those rows are kept that stand on one of the interfaces or on one named as only
/// this tool names them.
pub proof fn law_ip_addresses_kept(rows: Seq<RowView>, names: Seq<Seq<char>>)
    ensures
        kept(table_of::<CurrentIpAddress>(rows), ip_address_is_ours(names)) == match table_of::<
            CurrentIpAddress,
        >(rows) {
            Err(e) => Err(e),
            Ok(all) => Ok(
                all.filter(
                    |a: CurrentIpAddressView|
                        names.contains(a.interface) || is_mesh_name(a.interface),
                ),
            ),
        },
{
    let q = |a: CurrentIpAddressView| names.contains(a.interface) || is_mesh_name(a.interface);
    let p = ip_address_is_ours(names);
    assert forall|a: CurrentIpAddressView| #[trigger] p(a) == q(a) by {
        law_is_ours(a.interface, names);
    }
    if let Ok(all) = table_of::<CurrentIpAddress>(rows) {
        lemma_filter_same(all, p, q);
    }
}

/// Whether a text is an IPv6 address of `fe80::/10`, with or without a prefix length behind it.
pub open spec fn is_link_local_text(address: Seq<char>) -> bool {
    exists|ip: Seq<char>|
        !ip.contains('/') && (address == ip || (ip + seq!['/']).is_prefix_of(address))
            && (#[trigger] parse_ipv6(ip) matches Some(g) && 0xfe80 <= g[0] <= 0xfebf)
}

/// An address is taken for link-local exactly if it lies in `fe80::/10`.
pub proof fn law_link_local(address: Seq<char>)
    ensures
        is_link_local_entry(address) == is_link_local_text(address),
{
    law_split(address, '/');
    law_split_once(address, '/');
    let front = split(address, '/')[0];
    if address.contains('/') {
        let (a, b) = crate::text::split_once(address, '/')->Some_0;
        lemma_split_head(a, '/', b);
        assert(front == a);
        assert((a + seq!['/']) =~= address.subrange(0, (a + seq!['/']).len() as int));
    } else {
        lemma_split_whole(address, '/');
        assert(front == address);
    }
    assert forall|ip: Seq<char>|
        !ip.contains('/') && (address == ip || #[trigger] (ip + seq!['/']).is_prefix_of(
            address,
        )) implies ip == front by {
        if address != ip {
            let rest = address.skip(ip.len() as int + 1);
            assert(address =~= ip + seq!['/'] + rest);
            law_split_once_of(ip, '/', rest);
            assert(address[ip.len() as int] == '/');
            assert(address.contains('/'));
        }
    }
    if let Some(g) = parse_ipv6(front) {
        lemma_link_local(g);
        if is_link_local_entry(address) {
            assert(!front.contains('/'));
            assert(parse_ipv6(front) matches Some(g) && 0xfe80 <= g[0] <= 0xfebf);
        }
    }
    if is_link_local_text(address) {
        let ip = choose|ip: Seq<char>|
            !ip.contains('/') && (address == ip || (ip + seq!['/']).is_prefix_of(address))
                && (#[trigger] parse_ipv6(ip) matches Some(g) && 0xfe80 <= g[0] <= 0xfebf);
        assert(address == ip || (ip + seq!['/']).is_prefix_of(address));
        assert(ip == front);
    }
}

proof fn lemma_link_local(g: Seq<u16>)
    ensures
        is_link_local(g) == (0xfe80 <= g[0] <= 0xfebf),
{
}

/// Of `/ipv6/address` those rows are kept that are not link-local and stand on one of the
/// interfaces or on one named as only this tool names them.
pub proof fn law_ipv6_addresses_kept(rows: Seq<RowView>, names: Seq<Seq<char>>)
    ensures
        kept(table_of::<CurrentIpv6Address>(rows), ipv6_address_is_ours(names)) == match table_of::<
            CurrentIpv6Address,
        >(rows) {
            Err(e) => Err(e),
            Ok(all) => Ok(
                all.filter(
                    |a: CurrentIpv6AddressView|
                        !is_link_local_text(a.address) && (names.contains(a.interface)
                            || is_mesh_name(a.interface)),
                ),
            ),
        },
{
    let q = |a: CurrentIpv6AddressView|
        !is_link_local_text(a.address) && (names.contains(a.interface) || is_mesh_name(
            a.interface,
        ));
    let p = ipv6_address_is_ours(names);
    assert forall|a: CurrentIpv6AddressView| #[trigger] p(a) == q(a) by {
        law_is_ours(a.interface, names);
        law_link_local(a.address);
    }
    if let Ok(all) = table_of::<CurrentIpv6Address>(rows) {
        lemma_filter_same(all, p, q);
    }
}

/// Of `/interface/list/member` those rows are kept that are on the list `LAN`, with one of the
/// interfaces or one named as only this tool names them.
pub proof fn law_list_members_kept(rows: Seq<RowView>, names: Seq<Seq<char>>)
    ensures
        kept(table_of::<CurrentListMember>(rows), list_member_is_ours(names)) == match table_of::<
            CurrentListMember,
        >(rows) {
            Err(e) => Err(e),
            Ok(all) => Ok(
                all.filter(
                    |m: CurrentListMemberView|
                        m.list == "LAN"@ && (names.contains(m.interface) || is_mesh_name(
                            m.interface,
                        )),
                ),
            ),
        },
{
    let q = |m: CurrentListMemberView|
        m.list == "LAN"@ && (names.contains(m.interface) || is_mesh_name(m.interface));
    let p = list_member_is_ours(names);
    assert forall|m: CurrentListMemberView| #[trigger] p(m) == q(m) by {
        law_is_ours(m.interface, names);
    }
    if let Ok(all) = table_of::<CurrentListMember>(rows) {
        lemma_filter_same(all, p, q);
    }
}

/// Of `/ip/firewall/address-list` those rows are kept that are on the list.
pub proof fn law_bgp_networks_kept(rows: Seq<RowView>, list: Seq<char>)
    ensures
        kept(table_of::<CurrentAddressListEntry>(rows), entry_is_on(list)) == match table_of::<
            CurrentAddressListEntry,
        >(rows) {
            Err(e) => Err(e),
            Ok(all) => Ok(all.filter(|e: CurrentAddressListEntryView| e.list == list)),
        },
{
    let q = |e: CurrentAddressListEntryView| e.list == list;
    let p = entry_is_on(list);
    assert forall|e: CurrentAddressListEntryView| #[trigger] p(e) == q(e) by {}
    if let Ok(all) = table_of::<CurrentAddressListEntry>(rows) {
        lemma_filter_same(all, p, q);
    }
}

/// Whether a text is an IPv4 address, a slash and a prefix length of at most 32.
pub open spec fn is_cidr(text: Seq<char>, a: Ipv4Addr, n: u8) -> bool {
    exists|ip: Seq<char>, prefix: Seq<char>|
        text == #[trigger] (ip + seq!['/'] + prefix) && !ip.contains('/') && parse_ipv4(ip) == Some(
            a,
        ) && parse_decimal(prefix, 255) == Some(n as nat) && n <= 32
}

/// A network is read exactly if it is an address, a slash and a prefix length, and then as these.
pub proof fn law_cidr(text: Seq<char>, a: Ipv4Addr, n: u8)
    ensures
        (cidr_of(text) == Ok::<(Ipv4Addr, u8), ErrorView>((a, n))) == is_cidr(text, a, n),
{
    law_split_once(text, '/');
    if cidr_of(text) == Ok::<(Ipv4Addr, u8), ErrorView>((a, n)) {
        let (ip, prefix) = crate::text::split_once(text, '/')->Some_0;
        assert(text == ip + seq!['/'] + prefix);
    }
    if is_cidr(text, a, n) {
        let (ip, prefix) = choose|ip: Seq<char>, prefix: Seq<char>|
            text == #[trigger] (ip + seq!['/'] + prefix) && !ip.contains('/') && parse_ipv4(ip)
                == Some(a) && parse_decimal(prefix, 255) == Some(n as nat) && n <= 32;
        law_split_once_of(ip, '/', prefix);
    }
}

/// Whether a text is the network, in CIDR notation, of the address that another text has with its
/// prefix length: the bits behind the prefix are zero.
pub open spec fn is_network_of(network: Seq<char>, address: Seq<char>) -> bool {
    exists|a: Ipv4Addr, n: u8, first: Ipv4Addr| #[trigger]
        is_cidr(address, a, n) && network == #[trigger] ipv4_text(first) + "/"@ + decimal(n as nat)
            && first.bits <= a.bits < first.bits + pow2((32 - n) as nat) && first.bits as int
            % pow2((32 - n) as nat) as int == 0
}

/// An address has a network exactly if it is read as one with a prefix length, and then that which
/// starts at the next multiple of its size below.
pub proof fn law_network_of(address: Seq<char>)
    ensures
        network_of(address) is Ok <==> exists|a: Ipv4Addr, n: u8| #[trigger] is_cidr(address, a, n),
        network_of(address) matches Ok(text) ==> is_network_of(text, address),
{
    if let Ok((a, n)) = cidr_of(address) {
        law_cidr(address, a, n);
        let size = pow2((32 - n) as nat) as int;
        lemma_pow2_pos((32 - n) as nat);
        assert(block_size(n) == size);
        let first = network(a, n);
        vstd::arithmetic::div_mod::lemma_fundamental_div_mod(a.bits as int, size);
        let q = a.bits as int / size;
        assert(0 <= size * q) by (nonlinear_arith)
            requires
                size > 0,
                q >= 0,
        ;
        assert(first.bits == size * q);
        assert((size * q) % size == 0) by (nonlinear_arith)
            requires
                size > 0,
        ;
        assert(is_cidr(address, a, n));
        assert(network_of(address)->Ok_0 == ipv4_text(first) + "/"@ + decimal(n as nat));
        assert(is_network_of(network_of(address)->Ok_0, address));
    } else {
        assert forall|a: Ipv4Addr, n: u8| !(#[trigger] is_cidr(address, a, n)) by {
            law_cidr(address, a, n);
        }
    }
}

/// Whether a row stands on an interface that is neither named as only this tool names them nor the
/// loopback bridge, and has an address with a network.
pub open spec fn is_connected(
    a: CurrentIpAddressView,
    bridge: Seq<char>,
    entry: (Seq<char>, Seq<char>),
) -> bool {
    &&& !is_mesh_name(a.interface)
    &&& a.interface != bridge
    &&& entry.0 == a.interface
    &&& is_network_of(entry.1, a.address)
}

/// Whether one of the first `n` rows gives the entry.
pub open spec fn is_given(
    rows: Seq<CurrentIpAddressView>,
    bridge: Seq<char>,
    n: int,
    entry: (Seq<char>, Seq<char>),
) -> bool {
    exists|i: int| 0 <= i < n && is_connected(#[trigger] rows[i], bridge, entry)
}

/// Whether one of the entries is given by the row.
pub open spec fn gives_one(
    entries: Seq<(Seq<char>, Seq<char>)>,
    a: CurrentIpAddressView,
    bridge: Seq<char>,
) -> bool {
    exists|k: int| 0 <= k < entries.len() && is_connected(a, bridge, #[trigger] entries[k])
}

/// Every row with an address in CIDR notation on an interface that is not named `mesh-…`, is not
/// the raw id of one that is gone and is not the loopback bridge gives its interface and its
/// network, and no other row gives anything.
pub proof fn law_connected_networks(rows: Seq<CurrentIpAddressView>, bridge: Seq<char>)
    ensures
        ({
            let entries = physical_prefixes(rows, bridge, rows.len() as int);
            &&& forall|i: int|
                0 <= i < rows.len() && !is_mesh_name((#[trigger] rows[i]).interface)
                    && rows[i].interface != bridge && (exists|a: Ipv4Addr, n: u8| #[trigger]
                    is_cidr(rows[i].address, a, n)) ==> gives_one(entries, rows[i], bridge)
            &&& forall|k: int|
                0 <= k < entries.len() ==> is_given(
                    rows,
                    bridge,
                    rows.len() as int,
                    #[trigger] entries[k],
                )
            &&& entries.len() <= rows.len()
        }),
{
    lemma_connected_networks(rows, bridge, rows.len() as int);
}

proof fn lemma_connected_networks(rows: Seq<CurrentIpAddressView>, bridge: Seq<char>, n: int)
    requires
        0 <= n <= rows.len(),
    ensures
        ({
            let entries = physical_prefixes(rows, bridge, n);
            &&& forall|i: int|
                0 <= i < n && !is_mesh_name((#[trigger] rows[i]).interface) && rows[i].interface
                    != bridge && (exists|a: Ipv4Addr, n: u8| #[trigger]
                    is_cidr(rows[i].address, a, n)) ==> gives_one(entries, rows[i], bridge)
            &&& forall|k: int|
                0 <= k < entries.len() ==> is_given(rows, bridge, n, #[trigger] entries[k])
            &&& entries.len() <= n
        }),
    decreases n,
{
    if n > 0 {
        lemma_connected_networks(rows, bridge, n - 1);
        let last = rows[n - 1];
        law_is_ours(last.interface, Seq::empty());
        law_network_of(last.address);
        let before = physical_prefixes(rows, bridge, n - 1);
        let entries = physical_prefixes(rows, bridge, n);
        assert forall|i: int|
            0 <= i < n && !is_mesh_name((#[trigger] rows[i]).interface) && rows[i].interface
                != bridge && (exists|a: Ipv4Addr, n: u8| #[trigger]
                is_cidr(rows[i].address, a, n)) implies gives_one(entries, rows[i], bridge) by {
            if i < n - 1 {
                assert(gives_one(before, rows[i], bridge));
                let k = choose|k: int|
                    0 <= k < before.len() && is_connected(rows[i], bridge, #[trigger] before[k]);
                assert(entries[k] == before[k]);
            } else {
                assert(is_connected(rows[i], bridge, entries[before.len() as int]));
            }
        }
        assert forall|k: int| 0 <= k < entries.len() implies is_given(
            rows,
            bridge,
            n,
            #[trigger] entries[k],
        ) by {
            if k < before.len() {
                assert(entries[k] == before[k]);
                assert(is_given(rows, bridge, n - 1, before[k]));
                let i = choose|i: int|
                    0 <= i < n - 1 && is_connected(#[trigger] rows[i], bridge, before[k]);
                assert(is_connected(rows[i], bridge, entries[k]));
            } else {
                assert(is_connected(rows[n - 1], bridge, entries[k]));
            }
        }
    }
}

/// What is wrong with a row, if anything: it lacks its id or the first of these fields.
pub open spec fn missing(row: RowView, fields: Seq<Seq<char>>) -> Option<ErrorView>
    decreases fields.len(),
{
    if !valued(row, ".id"@) {
        Some(ErrorView::MissingId)
    } else if fields.len() == 0 {
        None
    } else if !valued(row, fields[0]) {
        Some(ErrorView::MissingField { id: text_in(row, ".id"@), field: fields[0] })
    } else {
        missing(row, fields.skip(1))
    }
}

/// A row of `/interface/wireguard` that cannot be read is told by what it lacks first, and then by
/// the first number that is none.
pub proof fn law_wireguard_interface_errors(row: RowView)
    ensures
        missing(row, seq![
            "name"@, "listen-port"@,
        ]) matches Some(e) ==> wireguard_interface_of(row) == Err::<
            CurrentWireguardInterfaceView,
            ErrorView,
        >(e),
        ({
            &&& missing(row, seq!["name"@, "listen-port"@]) is None
            &&& !is_u16(text_in(row, "listen-port"@))
        }) ==> wireguard_interface_of(row) == Err::<
            CurrentWireguardInterfaceView,
            ErrorView,
        >(
            ErrorView::ListenPort { value: text_in(row, "listen-port"@) },
        ),
{
    reveal_with_fuel(missing, 4);
    let fields = seq!["name"@, "listen-port"@];
    assert(fields.skip(1) =~= seq!["listen-port"@]);
    assert(fields.skip(1).skip(1) =~= Seq::<Seq<char>>::empty());
}

/// A row of `/interface/wireguard/peers` that cannot be read is told by what it lacks first, and
/// then by the first number that is none.
pub proof fn law_wireguard_peer_errors(row: RowView)
    ensures
        missing(row, seq!["interface"@]) matches Some(e) ==> wireguard_peer_of(row) == Err::<
            CurrentWireguardPeerView,
            ErrorView,
        >(e),
        ({
            &&& missing(row, seq!["interface"@]) is None
            &&& valued(row, "endpoint-port"@) && !is_u16(text_in(row, "endpoint-port"@))
        }) ==> wireguard_peer_of(row) == Err::<
            CurrentWireguardPeerView,
            ErrorView,
        >(
            ErrorView::NotU16 { field: "endpoint-port"@, value: text_in(row, "endpoint-port"@) },
        ),
        ({
            &&& missing(row, seq!["interface"@]) is None
            &&& !(valued(row, "endpoint-port"@) && !is_u16(text_in(row, "endpoint-port"@)))
            &&& valued(row, "persistent-keepalive"@)
            &&& !is_u16(trim_end_char(text_in(row, "persistent-keepalive"@), 's'))
        }) ==> wireguard_peer_of(row) == Err::<
            CurrentWireguardPeerView,
            ErrorView,
        >(
            ErrorView::NotKeepalive {
                field: "persistent-keepalive"@,
                value: text_in(row, "persistent-keepalive"@),
            },
        ),
{
    reveal_with_fuel(missing, 4);
    let fields = seq!["interface"@];
    assert(fields.skip(1) =~= seq![]);
    assert(fields.skip(1).skip(0) =~= Seq::<Seq<char>>::empty());
}

/// A row of `/ip/address` that cannot be read is told by what it lacks first, and then by the first
/// number that is none.
pub proof fn law_ip_address_errors(row: RowView)
    ensures
        missing(row, seq![
            "address"@, "interface"@,
        ]) matches Some(e) ==> ip_address_of(row) == Err::<
            CurrentIpAddressView,
            ErrorView,
        >(e),
{
    reveal_with_fuel(missing, 4);
    let fields = seq!["address"@, "interface"@];
    assert(fields.skip(1) =~= seq!["interface"@]);
    assert(fields.skip(1).skip(1) =~= Seq::<Seq<char>>::empty());
}

/// A row of `/ipv6/address` that cannot be read is told by what it lacks first, and then by the
/// first number that is none.
pub proof fn law_ipv6_address_errors(row: RowView)
    ensures
        missing(row, seq![
            "address"@, "interface"@,
        ]) matches Some(e) ==> ipv6_address_of(row) == Err::<
            CurrentIpv6AddressView,
            ErrorView,
        >(e),
{
    reveal_with_fuel(missing, 4);
    let fields = seq!["address"@, "interface"@];
    assert(fields.skip(1) =~= seq!["interface"@]);
    assert(fields.skip(1).skip(1) =~= Seq::<Seq<char>>::empty());
}

/// A row of `/interface/list/member` that cannot be read is told by what it lacks first, and then
/// by the first number that is none.
pub proof fn law_list_member_errors(row: RowView)
    ensures
        missing(row, seq!["list"@, "interface"@]) matches Some(e) ==> list_member_of(row) == Err::<
            CurrentListMemberView,
            ErrorView,
        >(e),
{
    reveal_with_fuel(missing, 4);
    let fields = seq!["list"@, "interface"@];
    assert(fields.skip(1) =~= seq!["interface"@]);
    assert(fields.skip(1).skip(1) =~= Seq::<Seq<char>>::empty());
}

/// A row of `/routing/ospf/interface-template` that cannot be read is told by what it lacks first,
/// and then by the first number that is none.
pub proof fn law_ospf_template_errors(row: RowView)
    ensures
        missing(row, seq!["interfaces"@]) matches Some(e) ==> ospf_template_of(row) == Err::<
            CurrentOspfInterfaceTemplateView,
            ErrorView,
        >(e),
        ({
            &&& missing(row, seq!["interfaces"@]) is None
            &&& valued(row, "cost"@) && !is_u16(text_in(row, "cost"@))
        }) ==> ospf_template_of(row) == Err::<
            CurrentOspfInterfaceTemplateView,
            ErrorView,
        >(
            ErrorView::NotU16 { field: "cost"@, value: text_in(row, "cost"@) },
        ),
{
    reveal_with_fuel(missing, 4);
    let fields = seq!["interfaces"@];
    assert(fields.skip(1) =~= seq![]);
    assert(fields.skip(1).skip(0) =~= Seq::<Seq<char>>::empty());
}

/// A row of `/ip/firewall/address-list` that cannot be read is told by what it lacks first, and
/// then by the first number that is none.
pub proof fn law_address_list_entry_errors(row: RowView)
    ensures
        missing(row, seq![
            "list"@, "address"@,
        ]) matches Some(e) ==> address_list_entry_of(row) == Err::<
            CurrentAddressListEntryView,
            ErrorView,
        >(e),
{
    reveal_with_fuel(missing, 4);
    let fields = seq!["list"@, "address"@];
    assert(fields.skip(1) =~= seq!["address"@]);
    assert(fields.skip(1).skip(1) =~= Seq::<Seq<char>>::empty());
}

/// A row of `/routing/bgp/connection` that cannot be read is told by what it lacks first, and then
/// by the first number that is none.
pub proof fn law_bgp_connection_errors(row: RowView)
    ensures
        missing(row, seq!["name"@]) matches Some(e) ==> bgp_connection_of(row) == Err::<
            CurrentBgpConnectionView,
            ErrorView,
        >(e),
{
    reveal_with_fuel(missing, 4);
    let fields = seq!["name"@];
    assert(fields.skip(1) =~= seq![]);
    assert(fields.skip(1).skip(0) =~= Seq::<Seq<char>>::empty());
}

/// A text that is no network is told by what is wrong first: the slash, the address, the prefix
/// length, its range.
pub proof fn law_cidr_errors(ip: Seq<char>, prefix: Seq<char>)
    ensures
        !ip.contains('/') ==> {
            let text = ip + seq!['/'] + prefix;
            &&& cidr_of(ip) == Err::<(Ipv4Addr, u8), ErrorView>(ErrorView::NotCidr { text: ip })
            &&& parse_ipv4(ip) is None ==> cidr_of(text) == Err::<(Ipv4Addr, u8), ErrorView>(
                ErrorView::CidrAddress { text },
            )
            &&& parse_ipv4(ip) is Some && parse_decimal(prefix, 255) is None ==> cidr_of(text)
                == Err::<(Ipv4Addr, u8), ErrorView>(ErrorView::CidrPrefix { text })
            &&& parse_ipv4(ip) is Some && parse_decimal(prefix, 255) is Some && parse_decimal(
                prefix,
                255,
            )->Some_0 > 32 ==> cidr_of(text) == Err::<(Ipv4Addr, u8), ErrorView>(
                ErrorView::CidrPrefixRange {
                    text,
                    prefix: parse_decimal(prefix, 255)->Some_0 as u8,
                },
            )
        },
{
    if !ip.contains('/') {
        law_split_once(ip, '/');
        law_split_once_of(ip, '/', prefix);
    }
}

} // verus!
