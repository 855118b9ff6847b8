//! What a device should look like, stated on the node's configuration.
//!
//! The laws here go from the entries of the configuration to the rows of the tables and back:
//! every entry has its row, and every row comes from an entry.

use crate::addr::{ipv4_text, ipv6_text, parse_ip, parse_ipv6, IpAddrView};
use crate::cidr::contains;
use crate::config::{
    connection_rows, desired_of, endpoint_of, family_count, glob, has_announced, interface_ipv4,
    interface_ipv6, interface_peers, is_announced, is_direct, is_fixed, is_learned, is_matched,
    is_mesh_interface, law_matched, law_networks, loopback_of, loopbacks_before, loopbacks_of,
    matched, mesh_ipv4, mesh_ipv6, mesh_peers, networks, one_of_each, peer_row, DesiredStateView,
    LOOPBACK_BRIDGE,
};
use crate::documents::{
    AwgConfigView, BgpPeerEntryView, InterfaceEntryView, PeerEntryView, RouterConfigView,
};
use crate::error::ErrorView;
use crate::number::parse_decimal;
use crate::rows::{
    DesiredAddressListEntryView, DesiredBgpConnectionView, DesiredIpAddressView,
    DesiredIpv6AddressView, DesiredWireguardPeerView,
};
use crate::sanitize::{endpoint_fault, law_hosts};
use crate::text::{
    join, law_rsplit_once, law_rsplit_once_of, law_split_once, law_split_once_of, law_strip,
    law_trim_prefixes, repeated,
};
use vstd::prelude::*;

verus! {

/// Whether a name is the pattern, or the pattern is a start of it with a `*` behind.
pub open spec fn fits(pattern: Seq<char>, name: Seq<char>) -> bool {
    if pattern.len() > 0 && pattern.last() == '*' {
        pattern.drop_last().is_prefix_of(name)
    } else {
        pattern == name
    }
}

/// A pattern matches a name exactly if it fits.
pub proof fn law_glob(pattern: Seq<char>, name: Seq<char>)
    ensures
        glob(pattern, name) == fits(pattern, name),
{
    reveal_strlit("*");
    assert("*"@.len() == 1);
    law_strip(pattern, "*"@);
    if pattern.len() > 0 && pattern.last() == '*' {
        assert(pattern =~= pattern.drop_last() + "*"@);
        law_strip(pattern.drop_last(), "*"@);
    } else if "*"@.is_suffix_of(pattern) {
        assert(pattern.last() == '*');
    }
}

/// Whether a text is an endpoint with this host and this port.
pub open spec fn is_endpoint(endpoint: Seq<char>, host: Seq<char>, port: u16) -> bool {
    exists|digits: Seq<char>|
        endpoint == #[trigger] (
            host + seq![':'] + digits
        ) && !digits.contains(':') && parse_decimal(
            digits,
            65535,
        ) == Some(port as nat)
}

/// Whether a host is not empty and has only letters, digits, `.`, `-` and `:`.
pub open spec fn is_host(host: Seq<char>) -> bool {
    &&& host.len() > 0
    &&& forall|i: int|
        0 <= i < host.len() ==> {
            let c = #[trigger] host[i];
            'a' <= c <= 'z' || 'A' <= c <= 'Z' || '0' <= c <= '9' || c == '.' || c == '-' || c
                == ':'
        }
}

/// An endpoint is read exactly if it is a host, a colon and a port; the host and the port are then
/// those.
pub proof fn law_endpoint(endpoint: Seq<char>, host: Seq<char>, port: u16)
    ensures
        (endpoint_of(endpoint) == Ok::<(Seq<char>, u16), ErrorView>((host, port))) == (is_host(host)
            && is_endpoint(endpoint, host, port)),
{
    law_rsplit_once(endpoint, ':');
    if endpoint_of(endpoint) == Ok::<(Seq<char>, u16), ErrorView>((host, port)) {
        let digits = crate::text::rsplit_once(endpoint, ':')->Some_0.1;
        assert(endpoint == host + seq![':'] + digits);
        assert(endpoint_fault(host) is None);
    }
    if is_host(host) && is_endpoint(endpoint, host, port) {
        let digits = choose|digits: Seq<char>|
            endpoint == #[trigger] (host + seq![':'] + digits) && !digits.contains(':')
                && parse_decimal(digits, 65535) == Some(port as nat);
        law_rsplit_once_of(host, ':', digits);
        assert(endpoint_fault(host) is None);
    }
}

/// Whether a row is that of a peer of an interface.
pub open spec fn is_row_of_peer(
    row: DesiredWireguardPeerView,
    interface: Seq<char>,
    p: PeerEntryView,
) -> bool {
    &&& row.interface == interface
    &&& exists|n: nat| interface == #[trigger] repeated("mesh-"@, n) + row.name
    &&& !"mesh-"@.is_prefix_of(row.name)
    &&& row.public_key_b64 == p.public_key
    &&& p.allowed_ips matches Some(ips) ==> row.allowed_address == join(ips, ","@)
    &&& p.allowed_ips is None ==> row.allowed_address == "0.0.0.0/0,::/0"@
    &&& p.endpoint is None ==> row.endpoint_address is None && row.endpoint_port is None
        && row.persistent_keepalive is None
    &&& p.endpoint matches Some(endpoint) ==> {
        &&& row.endpoint_address matches Some(host) && row.endpoint_port matches Some(port)
            && is_host(host) && is_endpoint(endpoint, host, port)
        &&& row.persistent_keepalive == Some(25u16)
    }
    &&& !row.disabled
}

proof fn lemma_peer_row(interface: Seq<char>, p: PeerEntryView)
    ensures
        peer_row(interface, p) is Ok <==> (p.endpoint matches Some(e) ==> endpoint_of(e) is Ok),
        peer_row(interface, p) matches Ok(row) ==> is_row_of_peer(row, interface, p),
        peer_row(interface, p) matches Err(e) ==> p.endpoint is Some && endpoint_of(
            p.endpoint->Some_0,
        ) == Err::<(Seq<char>, u16), ErrorView>(e),
{
    reveal_strlit("mesh-");
    assert("mesh-"@.len() == 5);
    let n = law_trim_prefixes(interface, "mesh-"@);
    if let Some(endpoint) = p.endpoint {
        if let Ok((host, port)) = endpoint_of(endpoint) {
            law_endpoint(endpoint, host, port);
        }
    }
    if let Ok(row) = peer_row(interface, p) {
        assert(interface == repeated("mesh-"@, n) + row.name);
    }
}

/// Whether a row is that of one of the first `n` peers of an interface.
pub open spec fn is_of_interface(
    row: DesiredWireguardPeerView,
    i: InterfaceEntryView,
    n: int,
) -> bool {
    exists|m: int| 0 <= m < n && is_row_of_peer(row, i.name, #[trigger] i.peers[m])
}

/// Whether a row is that of a peer of one of the first `n` interfaces.
pub open spec fn is_of_some_interface(
    row: DesiredWireguardPeerView,
    interfaces: Seq<InterfaceEntryView>,
    n: int,
) -> bool {
    exists|i: int|
        0 <= i < n && is_of_interface(
            row,
            #[trigger] interfaces[i],
            interfaces[i].peers.len() as int,
        )
}

/// How many peers the first `n` interfaces have.
pub open spec fn peer_count(interfaces: Seq<InterfaceEntryView>, n: int) -> nat
    decreases n,
{
    if n <= 0 {
        0
    } else {
        peer_count(interfaces, n - 1) + interfaces[n - 1].peers.len()
    }
}

proof fn lemma_peer_count(interfaces: Seq<InterfaceEntryView>, i: int, n: int)
    requires
        i <= n,
    ensures
        peer_count(interfaces, i) <= peer_count(interfaces, n),
    decreases n - i,
{
    if i < n {
        lemma_peer_count(interfaces, i, n - 1);
    }
}

/// Whether every endpoint of an interface's first `n` peers can be read.
pub open spec fn endpoints_are_sound(i: InterfaceEntryView, n: int) -> bool {
    forall|m: int|
        0 <= m < n ==> ((#[trigger] i.peers[m]).endpoint matches Some(e) ==> endpoint_of(e) is Ok)
}

proof fn lemma_interface_peers(i: InterfaceEntryView, n: int)
    requires
        0 <= n <= i.peers.len(),
    ensures
        interface_peers(i, n) is Ok <==> endpoints_are_sound(i, n),
        interface_peers(i, n) matches Ok(rows) ==> {
            &&& rows.len() == n
            &&& forall|m: int|
                0 <= m < n ==> is_row_of_peer(rows[m], i.name, #[trigger] i.peers[m])
            &&& forall|k: int| 0 <= k < rows.len() ==> is_of_interface(#[trigger] rows[k], i, n)
        },
    decreases n,
{
    if n > 0 {
        lemma_interface_peers(i, n - 1);
        lemma_peer_row(i.name, i.peers[n - 1]);
        if endpoints_are_sound(i, n) {
            assert(endpoints_are_sound(i, n - 1));
            assert(i.peers[n - 1].endpoint matches Some(e) ==> endpoint_of(e) is Ok);
        }
        if let Ok(rows) = interface_peers(i, n) {
            let before = interface_peers(i, n - 1)->Ok_0;
            assert(rows[n - 1] == peer_row(i.name, i.peers[n - 1])->Ok_0);
            assert forall|m: int| 0 <= m < n implies is_row_of_peer(
                rows[m],
                i.name,
                #[trigger] i.peers[m],
            ) by {
                if m < n - 1 {
                    assert(rows[m] == before[m]);
                }
            }
            assert forall|k: int| 0 <= k < rows.len() implies is_of_interface(
                #[trigger] rows[k],
                i,
                n,
            ) by {
                if k < n - 1 {
                    assert(rows[k] == before[k]);
                    let m = choose|m: int|
                        0 <= m < n - 1 && is_row_of_peer(before[k], i.name, #[trigger] i.peers[m]);
                    assert(is_row_of_peer(rows[k], i.name, i.peers[m]));
                } else {
                    assert(is_row_of_peer(rows[k], i.name, i.peers[n - 1]));
                }
            }
        }
    }
}

/// Whether every endpoint of the peers of the first `n` interfaces can be read.
pub open spec fn all_endpoints_are_sound(interfaces: Seq<InterfaceEntryView>, n: int) -> bool {
    forall|i: int|
        0 <= i < n ==> endpoints_are_sound(
            #[trigger] interfaces[i],
            interfaces[i].peers.len() as int,
        )
}

proof fn lemma_mesh_peers(interfaces: Seq<InterfaceEntryView>, n: int)
    requires
        0 <= n <= interfaces.len(),
    ensures
        mesh_peers(interfaces, n) is Ok <==> all_endpoints_are_sound(interfaces, n),
        mesh_peers(interfaces, n) matches Ok(rows) ==> {
            &&& rows.len() == peer_count(interfaces, n)
            &&& forall|i: int, m: int|
                0 <= i < n && 0 <= m < interfaces[i].peers.len() ==> is_row_of_peer(
                    rows[peer_count(interfaces, i) + m],
                    interfaces[i].name,
                    #[trigger] interfaces[i].peers[m],
                )
            &&& forall|k: int|
                0 <= k < rows.len() ==> is_of_some_interface(#[trigger] rows[k], interfaces, n)
        },
    decreases n,
{
    if n > 0 {
        lemma_mesh_peers(interfaces, n - 1);
        let last = interfaces[n - 1];
        lemma_interface_peers(last, last.peers.len() as int);
        if all_endpoints_are_sound(interfaces, n) {
            assert(all_endpoints_are_sound(interfaces, n - 1));
            assert(endpoints_are_sound(interfaces[n - 1], last.peers.len() as int));
        }
        if let Ok(rows) = mesh_peers(interfaces, n) {
            let before = mesh_peers(interfaces, n - 1)->Ok_0;
            let more = interface_peers(last, last.peers.len() as int)->Ok_0;
            assert(rows == before + more);
            assert(all_endpoints_are_sound(interfaces, n)) by {
                assert forall|i: int| 0 <= i < n implies endpoints_are_sound(
                    #[trigger] interfaces[i],
                    interfaces[i].peers.len() as int,
                ) by {}
            }
            assert forall|i: int, m: int|
                0 <= i < n && 0 <= m < interfaces[i].peers.len() implies is_row_of_peer(
                rows[peer_count(interfaces, i) + m],
                interfaces[i].name,
                #[trigger] interfaces[i].peers[m],
            ) by {
                let p = interfaces[i].peers[m];
                let at = peer_count(interfaces, i) + m;
                if i < n - 1 {
                    lemma_peer_count(interfaces, i + 1, n - 1);
                    assert(rows[at] == before[at]);
                } else {
                    assert(last.peers[m] == p);
                    assert(rows[at] == more[m]);
                }
            }
            assert forall|k: int| 0 <= k < rows.len() implies is_of_some_interface(
                #[trigger] rows[k],
                interfaces,
                n,
            ) by {
                if k < before.len() {
                    assert(rows[k] == before[k]);
                    let i = choose|i: int|
                        0 <= i < n - 1 && is_of_interface(
                            before[k],
                            #[trigger] interfaces[i],
                            interfaces[i].peers.len() as int,
                        );
                    assert(is_of_interface(
                        rows[k],
                        interfaces[i],
                        interfaces[i].peers.len() as int,
                    ));
                } else {
                    assert(rows[k] == more[k - before.len()]);
                    assert(is_of_interface(
                        rows[k],
                        interfaces[n - 1],
                        interfaces[n - 1].peers.len() as int,
                    ));
                }
            }
        }
    }
}

/// Every peer of an interface has a row, in the order of the configuration: with the peer's public
/// key, its allowed addresses joined by commas or everything where none are given, and its endpoint
/// with a keepalive or neither. There is no row that is not a peer's.
pub proof fn law_wireguard_peer_rows(
    awg: AwgConfigView,
    router: RouterConfigView,
    connected: Seq<(Seq<char>, Seq<char>)>,
)
    ensures
        desired_of(awg, router, connected) matches Ok(state) ==> {
            let rows = state.wireguard_peers;
            let n = awg.interfaces.len() as int;
            &&& rows.len() == peer_count(awg.interfaces, n)
            &&& forall|i: int, m: int|
                0 <= i < n && 0 <= m < awg.interfaces[i].peers.len() ==> is_row_of_peer(
                    rows[peer_count(awg.interfaces, i) + m],
                    awg.interfaces[i].name,
                    #[trigger] awg.interfaces[i].peers[m],
                )
            &&& forall|k: int|
                0 <= k < rows.len() ==> is_of_some_interface(#[trigger] rows[k], awg.interfaces, n)
        },
{
    lemma_mesh_peers(awg.interfaces, awg.interfaces.len() as int);
}

/// Every mesh interface has its WireGuard interface, with its port and its private key, and is on
/// the list `LAN`; both in the order of the configuration, and no others.
pub proof fn law_interface_rows(
    awg: AwgConfigView,
    router: RouterConfigView,
    connected: Seq<(Seq<char>, Seq<char>)>,
)
    ensures
        desired_of(awg, router, connected) matches Ok(state) ==> {
            &&& state.wireguard_interfaces.len() == awg.interfaces.len()
            &&& state.list_members.len() == awg.interfaces.len()
            &&& forall|k: int|
                0 <= k < awg.interfaces.len() ==> {
                    let i = #[trigger] awg.interfaces[k];
                    &&& state.wireguard_interfaces[k].name == i.name
                    &&& state.wireguard_interfaces[k].listen_port == i.listen_port
                    &&& state.wireguard_interfaces[k].private_key_b64 == i.private_key
                    &&& !state.wireguard_interfaces[k].disabled
                    &&& state.list_members[k].list == "LAN"@
                    &&& state.list_members[k].interface == i.name
                    &&& !state.list_members[k].disabled
                }
        },
{
}

/// Whether one of the first `n` interfaces has this name and this address.
pub open spec fn carries(
    interfaces: Seq<InterfaceEntryView>,
    n: int,
    name: Seq<char>,
    address: Seq<char>,
) -> bool {
    exists|i: int|
        0 <= i < n && (#[trigger] interfaces[i]).name == name && interfaces[i].addresses.contains(
            address,
        )
}

proof fn lemma_interface_addresses(i: InterfaceEntryView, n: int)
    requires
        0 <= n <= i.addresses.len(),
    ensures
        forall|r: DesiredIpAddressView| #[trigger]
            interface_ipv4(i, n).contains(r) <==> r.interface == i.name && !r.disabled
                && !r.address.contains(':') && i.addresses.take(n).contains(r.address),
        forall|r: DesiredIpv6AddressView| #[trigger]
            interface_ipv6(i, n).contains(r) <==> r.interface == i.name && !r.disabled
                && !r.advertise && r.address.contains(':') && i.addresses.take(n).contains(
                r.address,
            ),
        interface_ipv4(i, n).len() + interface_ipv6(i, n).len() == n,
    decreases n,
{
    let t = i.addresses.take(n);
    if n > 0 {
        lemma_interface_addresses(i, n - 1);
        let u = i.addresses.take(n - 1);
        let a = i.addresses[n - 1];
        assert(t =~= u.push(a));
        let (x, y) = (interface_ipv4(i, n - 1), interface_ipv6(i, n - 1));
        let (v, w) = (interface_ipv4(i, n), interface_ipv6(i, n));
        assert forall|b: Seq<char>| #[trigger] t.contains(b) <==> u.contains(b) || b == a by {
            if u.contains(b) {
                let k = choose|k: int| 0 <= k < u.len() && u[k] == b;
                assert(t[k] == b);
            }
            assert(t[n - 1] == a);
            if t.contains(b) && b != a {
                let k = choose|k: int| 0 <= k < t.len() && t[k] == b;
                assert(u[k] == b);
            }
        }
        if a.contains(':') {
            let row = w.last();
            assert(w == y.push(row));
            assert forall|r: DesiredIpv6AddressView| #[trigger] w.contains(
                r,
            ) <==> y.contains(r) || r
                == row by {
                lemma_push_contains(y, row, r);
            }
        } else {
            let row = v.last();
            assert(v == x.push(row));
            assert forall|r: DesiredIpAddressView| #[trigger] v.contains(r) <==> x.contains(r) || r
                == row by {
                lemma_push_contains(x, row, r);
            }
        }
    }
}

proof fn lemma_push_contains<V>(s: Seq<V>, x: V, y: V)
    ensures
        s.push(x).contains(y) <==> s.contains(y) || y == x,
{
    let t = s.push(x);
    assert(t[s.len() as int] == x);
    if s.contains(y) {
        let k = choose|k: int| 0 <= k < s.len() && s[k] == y;
        assert(t[k] == y);
    }
    if t.contains(y) && y != x {
        let k = choose|k: int| 0 <= k < t.len() && t[k] == y;
        assert(s[k] == y);
    }
}

proof fn lemma_concat_contains<V>(s: Seq<V>, t: Seq<V>, y: V)
    ensures
        (s + t).contains(y) <==> s.contains(y) || t.contains(y),
{
    let w = s + t;
    if s.contains(y) {
        let k = choose|k: int| 0 <= k < s.len() && s[k] == y;
        assert(w[k] == y);
    }
    if t.contains(y) {
        let k = choose|k: int| 0 <= k < t.len() && t[k] == y;
        assert(w[s.len() + k] == y);
    }
    if w.contains(y) {
        let k = choose|k: int| 0 <= k < w.len() && w[k] == y;
        if k < s.len() {
            assert(s[k] == y);
        } else {
            assert(t[k - s.len()] == y);
        }
    }
}

proof fn lemma_mesh_addresses(interfaces: Seq<InterfaceEntryView>, n: int)
    requires
        0 <= n <= interfaces.len(),
    ensures
        forall|r: DesiredIpAddressView| #[trigger]
            mesh_ipv4(interfaces, n).contains(r) <==> !r.disabled && !r.address.contains(':')
                && carries(interfaces, n, r.interface, r.address),
        forall|r: DesiredIpv6AddressView| #[trigger]
            mesh_ipv6(interfaces, n).contains(r) <==> !r.disabled && !r.advertise
                && r.address.contains(':') && carries(interfaces, n, r.interface, r.address),
    decreases n,
{
    if n > 0 {
        lemma_mesh_addresses(interfaces, n - 1);
        let last = interfaces[n - 1];
        let m = last.addresses.len() as int;
        lemma_interface_addresses(last, m);
        assert(last.addresses.take(m) =~= last.addresses);
        assert forall|name: Seq<char>, a: Seq<char>| #[trigger]
            carries(interfaces, n, name, a) <==> carries(interfaces, n - 1, name, a) || (last.name
                == name && last.addresses.contains(a)) by {
            if carries(interfaces, n - 1, name, a) {
                let i = choose|i: int|
                    0 <= i < n - 1 && (#[trigger] interfaces[i]).name == name
                        && interfaces[i].addresses.contains(a);
                assert(interfaces[i].name == name);
            }
            if last.name == name && last.addresses.contains(a) {
                assert(interfaces[n - 1].name == name);
            }
        }
        assert forall|r: DesiredIpAddressView| #[trigger]
            mesh_ipv4(interfaces, n).contains(r) <==> mesh_ipv4(interfaces, n - 1).contains(r)
                || interface_ipv4(last, m).contains(r) by {
            lemma_concat_contains(mesh_ipv4(interfaces, n - 1), interface_ipv4(last, m), r);
        }
        assert forall|r: DesiredIpv6AddressView| #[trigger]
            mesh_ipv6(interfaces, n).contains(r) <==> mesh_ipv6(interfaces, n - 1).contains(r)
                || interface_ipv6(last, m).contains(r) by {
            lemma_concat_contains(mesh_ipv6(interfaces, n - 1), interface_ipv6(last, m), r);
        }
    }
}

/// The IPv4 addresses are the node's own on the loopback bridge and those of the mesh interfaces:
/// each address without a colon, on its interface, enabled, and nothing else.
pub proof fn law_ip_address_rows(
    awg: AwgConfigView,
    router: RouterConfigView,
    connected: Seq<(Seq<char>, Seq<char>)>,
)
    ensures
        desired_of(awg, router, connected) matches Ok(state) ==> forall|r: DesiredIpAddressView|
            #[trigger]
            state.ip_addresses.contains(r) <==> !r.disabled && {
                ||| r.interface == "router-lo"@ && r.address == ipv4_text(
                    state.ospf_instance.router_id,
                ) + "/32"@
                ||| !r.address.contains(':') && carries(
                    awg.interfaces,
                    awg.interfaces.len() as int,
                    r.interface,
                    r.address,
                )
            },
{
    if let Ok(state) = desired_of(awg, router, connected) {
        let n = awg.interfaces.len() as int;
        lemma_mesh_addresses(awg.interfaces, n);
        let own = seq![state.ip_addresses[0]];
        let mesh = mesh_ipv4(awg.interfaces, n);
        assert(state.ip_addresses =~= own + mesh);
        assert forall|r: DesiredIpAddressView| #[trigger]
            state.ip_addresses.contains(r) <==> own.contains(r) || mesh.contains(r) by {
            lemma_concat_contains(own, mesh, r);
        }
        assert forall|r: DesiredIpAddressView| #[trigger] own.contains(r) <==> r == own[0] by {
            assert(own[0] == own[0]);
        }
    }
}

/// The IPv6 addresses are the node's own on the loopback bridge, the first IPv6 address of a mesh
/// interface there as well, and those of the mesh interfaces: each address with a colon, on its
/// interface, enabled and not advertised, and nothing else.
pub proof fn law_ipv6_address_rows(
    awg: AwgConfigView,
    router: RouterConfigView,
    connected: Seq<(Seq<char>, Seq<char>)>,
    v4: crate::addr::Ipv4Addr,
    v6: Seq<u16>,
)
    requires
        loopbacks_of(router.node.loopback_addresses) == Ok::<
            (crate::addr::Ipv4Addr, Seq<u16>),
            ErrorView,
        >((v4, v6)),
    ensures
        desired_of(awg, router, connected) matches Ok(state) ==> {
            let n = awg.interfaces.len() as int;
            forall|r: DesiredIpv6AddressView| #[trigger]
                state.ip_v6_addresses.contains(r) <==> !r.disabled && !r.advertise && {
                    ||| r.interface == "router-lo"@ && r.address == ipv6_text(v6) + "/128"@
                    ||| r.interface == "router-lo"@ && is_first_ipv6(awg.interfaces, r.address)
                    ||| r.address.contains(':') && carries(
                        awg.interfaces,
                        n,
                        r.interface,
                        r.address,
                    )
                }
        },
{
    if let Ok(state) = desired_of(awg, router, connected) {
        let n = awg.interfaces.len() as int;
        lemma_mesh_addresses(awg.interfaces, n);
        lemma_first_ipv6(awg.interfaces, n);
        let mesh = mesh_ipv6(awg.interfaces, n);
        let rows = state.ip_v6_addresses;
        let own = if mesh.len() > 0 {
            rows.take(2)
        } else {
            rows.take(1)
        };
        assert(rows =~= own + mesh);
        assert forall|r: DesiredIpv6AddressView| #[trigger] rows.contains(r) <==> own.contains(r)
            || mesh.contains(r) by {
            lemma_concat_contains(own, mesh, r);
        }
        assert forall|r: DesiredIpv6AddressView| #[trigger] own.contains(r) <==> r == own[0] || (
        own.len() == 2 && r == own[1]) by {
            assert(own.contains(own[0]));
            if own.len() == 2 {
                assert(own.contains(own[1]));
            }
        }
    }
}

/// Whether this is the first IPv6 address of the first interface that has one.
pub open spec fn is_first_ipv6(interfaces: Seq<InterfaceEntryView>, address: Seq<char>) -> bool {
    exists|i: int, k: int|
        #![trigger interfaces[i].addresses[k]]
        {
            &&& 0 <= i < interfaces.len()
            &&& 0 <= k < interfaces[i].addresses.len()
            &&& interfaces[i].addresses[k] == address
            &&& is_first_ipv6_at(interfaces, i, k)
        }
}

/// Whether the address `k` of the interface `i` has a colon and none before it has.
pub open spec fn is_first_ipv6_at(interfaces: Seq<InterfaceEntryView>, i: int, k: int) -> bool {
    &&& interfaces[i].addresses[k].contains(':')
    &&& forall|m: int|
        0 <= m < k ==> !(#[trigger] interfaces[i].addresses[m]).contains(':')
    &&& forall|j: int, m: int|
        0 <= j < i && 0 <= m < interfaces[j].addresses.len() ==> !(
        #[trigger] interfaces[j].addresses[m]).contains(':')
}

proof fn lemma_first_of_interface(i: InterfaceEntryView, n: int)
    requires
        0 <= n <= i.addresses.len(),
    ensures
        interface_ipv6(i, n).len() == 0 <==> forall|m: int|
            0 <= m < n ==> !(#[trigger] i.addresses[m]).contains(':'),
        interface_ipv6(i, n).len() > 0 ==> exists|k: int|
            0 <= k < n && (#[trigger] i.addresses[k]) == interface_ipv6(i, n)[0].address
                && i.addresses[k].contains(':') && forall|m: int|
                0 <= m < k ==> !(#[trigger] i.addresses[m]).contains(':'),
    decreases n,
{
    if n > 0 {
        lemma_first_of_interface(i, n - 1);
        let before = interface_ipv6(i, n - 1);
        if before.len() == 0 {
            if i.addresses[n - 1].contains(':') {
                assert(interface_ipv6(i, n)[0].address == i.addresses[n - 1]);
            }
        } else {
            assert(interface_ipv6(i, n)[0] == before[0]);
        }
    }
}

proof fn lemma_first_ipv6(interfaces: Seq<InterfaceEntryView>, n: int)
    requires
        n == interfaces.len(),
    ensures
        ({
            let mesh = mesh_ipv6(interfaces, n);
            forall|a: Seq<char>| #[trigger]
                is_first_ipv6(interfaces, a) <==> mesh.len() > 0 && a == mesh[0].address
        }),
{
    lemma_first_at(interfaces, n);
    let mesh = mesh_ipv6(interfaces, n);
    assert forall|a: Seq<char>| #[trigger] is_first_ipv6(interfaces, a) <==> mesh.len() > 0 && a
        == mesh[0].address by {
        if is_first_ipv6(interfaces, a) {
            let (i, k) = choose|i: int, k: int|
                #![trigger interfaces[i].addresses[k]]
                {
                    &&& 0 <= i < interfaces.len()
                    &&& 0 <= k < interfaces[i].addresses.len()
                    &&& interfaces[i].addresses[k] == a
                    &&& is_first_ipv6_at(interfaces, i, k)
                };
            if mesh.len() == 0 {
                assert(!interfaces[i].addresses[k].contains(':'));
            } else {
                let (j, m) = choose|j: int, m: int|
                    #![trigger interfaces[j].addresses[m]]
                    {
                        &&& 0 <= j < n
                        &&& 0 <= m < interfaces[j].addresses.len()
                        &&& interfaces[j].addresses[m] == mesh[0].address
                        &&& is_first_ipv6_at(interfaces, j, m)
                    };
                assert(interfaces[j].addresses[m].contains(':'));
                assert(interfaces[i].addresses[k].contains(':'));
                assert(i == j && k == m);
            }
        }
    }
}

proof fn lemma_first_at(interfaces: Seq<InterfaceEntryView>, n: int)
    requires
        0 <= n <= interfaces.len(),
    ensures
        ({
            let mesh = mesh_ipv6(interfaces, n);
            &&& mesh.len() == 0 <==> forall|j: int, m: int|
                0 <= j < n && 0 <= m < interfaces[j].addresses.len() ==> !(
                #[trigger] interfaces[j].addresses[m]).contains(':')
            &&& mesh.len() > 0 ==> exists|j: int, m: int|
                #![trigger interfaces[j].addresses[m]]
                {
                    &&& 0 <= j < n
                    &&& 0 <= m < interfaces[j].addresses.len()
                    &&& interfaces[j].addresses[m] == mesh[0].address
                    &&& is_first_ipv6_at(interfaces, j, m)
                }
        }),
    decreases n,
{
    if n > 0 {
        lemma_first_at(interfaces, n - 1);
        let last = interfaces[n - 1];
        let len = last.addresses.len() as int;
        lemma_first_of_interface(last, len);
        let before = mesh_ipv6(interfaces, n - 1);
        let more = interface_ipv6(last, len);
        let mesh = mesh_ipv6(interfaces, n);
        assert(mesh == before + more);
        if before.len() > 0 {
            assert(mesh[0] == before[0]);
            let (j, m) = choose|j: int, m: int|
                #![trigger interfaces[j].addresses[m]]
                {
                    &&& 0 <= j < n - 1
                    &&& 0 <= m < interfaces[j].addresses.len()
                    &&& interfaces[j].addresses[m] == before[0].address
                    &&& is_first_ipv6_at(interfaces, j, m)
                };
            assert(interfaces[j].addresses[m] == mesh[0].address);
            assert(interfaces[j].addresses[m].contains(':'));
        } else if more.len() > 0 {
            assert(mesh[0] == more[0]);
            let k = choose|k: int|
                0 <= k < len && (#[trigger] last.addresses[k]) == more[0].address
                    && last.addresses[k].contains(':') && forall|m: int|
                    0 <= m < k ==> !(#[trigger] last.addresses[m]).contains(':');
            assert(is_first_ipv6_at(interfaces, n - 1, k));
            assert(interfaces[n - 1].addresses[k] == mesh[0].address);
        } else {
            assert forall|j: int, m: int|
                0 <= j < n && 0 <= m < interfaces[j].addresses.len() implies !(
            #[trigger] interfaces[j].addresses[m]).contains(':') by {
                if j == n - 1 {
                    assert(!last.addresses[m].contains(':'));
                }
            }
        }
    }
}

/// Whether a name fits one of the patterns other than the loopback bridge.
pub open spec fn is_chosen(patterns: Seq<Seq<char>>, name: Seq<char>) -> bool {
    exists|p: int|
        0 <= p < patterns.len() && #[trigger] patterns[p] != "router-lo"@ && fits(patterns[p], name)
}

/// OSPF has a passive template for the loopback bridge, and one for each mesh interface that fits a
/// pattern, with the costs and the intervals of the mesh; no interface has two of these, and no
/// other has one.
pub proof fn law_template_rows(
    awg: AwgConfigView,
    router: RouterConfigView,
    connected: Seq<(Seq<char>, Seq<char>)>,
)
    ensures
        desired_of(awg, router, connected) matches Ok(state) ==> {
            let rows = state.ospf_interface_templates;
            &&& rows.len() > 0
            &&& rows[0].interfaces == "router-lo"@
            &&& rows[0].area == "backbone"@
            &&& rows[0].passive && !rows[0].disabled
            &&& rows[0].type_ is None && rows[0].cost is None
            &&& rows[0].hello_interval is None && rows[0].dead_interval is None
            &&& forall|k: int|
                0 < k < rows.len() ==> {
                    let r = #[trigger] rows[k];
                    &&& is_mesh_interface(awg.interfaces, r.interfaces)
                    &&& is_chosen(router.ospf_interfaces, r.interfaces)
                    &&& r.area == "backbone"@
                    &&& r.type_ == Some("ptp"@)
                    &&& r.cost == Some(10u16)
                    &&& r.hello_interval == Some("10s"@)
                    &&& r.dead_interval == Some("40s"@)
                    &&& !r.passive && !r.disabled
                }
            &&& forall|i: int|
                0 <= i < awg.interfaces.len() && is_chosen(
                    router.ospf_interfaces,
                    (#[trigger] awg.interfaces[i]).name,
                ) ==> exists|k: int|
                    0 < k < rows.len() && (#[trigger] rows[k]).interfaces == awg.interfaces[i].name
            &&& forall|k: int, m: int|
                0 < k < m < rows.len() ==> (#[trigger] rows[k]).interfaces != (
                #[trigger] rows[m]).interfaces
        },
{
    if let Ok(state) = desired_of(awg, router, connected) {
        let patterns = router.ospf_interfaces;
        let names = matched(patterns, awg.interfaces, patterns.len() as int);
        law_matched(patterns, awg.interfaces);
        let rows = state.ospf_interface_templates;
        assert forall|name: Seq<char>| #[trigger]
            is_matched(patterns, name, patterns.len() as int) == is_chosen(patterns, name) by {
            assert forall|p: int| 0 <= p < patterns.len() implies glob(#[trigger] patterns[p], name)
                == fits(patterns[p], name) by {
                law_glob(patterns[p], name);
            }
            if is_matched(patterns, name, patterns.len() as int) {
                let p = choose|p: int|
                    0 <= p < patterns.len() && #[trigger] patterns[p] != LOOPBACK_BRIDGE@ && glob(
                        patterns[p],
                        name,
                    );
                assert(patterns[p] != "router-lo"@ && fits(patterns[p], name));
            }
            if is_chosen(patterns, name) {
                let p = choose|p: int|
                    0 <= p < patterns.len() && #[trigger] patterns[p] != "router-lo"@ && fits(
                        patterns[p],
                        name,
                    );
                assert(patterns[p] != LOOPBACK_BRIDGE@ && glob(patterns[p], name));
            }
        }
        assert forall|k: int| 0 < k < rows.len() implies (#[trigger] rows[k]).interfaces == names[k
            - 1] && is_mesh_interface(awg.interfaces, rows[k].interfaces) && is_chosen(
            patterns,
            rows[k].interfaces,
        ) by {
            assert(names.contains(names[k - 1]));
        }
        assert forall|i: int|
            0 <= i < awg.interfaces.len() && is_chosen(
                patterns,
                (#[trigger] awg.interfaces[i]).name,
            ) implies exists|k: int|
            0 < k < rows.len() && (#[trigger] rows[k]).interfaces == awg.interfaces[i].name by {
            assert(is_mesh_interface(awg.interfaces, awg.interfaces[i].name));
            assert(names.contains(awg.interfaces[i].name));
            let k = choose|k: int| 0 <= k < names.len() && names[k] == awg.interfaces[i].name;
            assert(rows[k + 1].interfaces == names[k]);
        }
    }
}

/// A network as the device answers it: a single host without its prefix length.
pub open spec fn as_answered(network: Seq<char>) -> Seq<char> {
    let n = network.len() - 3;
    if n >= 0 && network.skip(n) == "/32"@ {
        network.take(n)
    } else {
        network
    }
}

/// Whether a network is on the list of those that BGP announces.
pub open spec fn is_on_list(rows: Seq<DesiredAddressListEntryView>, network: Seq<char>) -> bool {
    exists|k: int| 0 <= k < rows.len() && (#[trigger] rows[k]).address == as_answered(network)
}

/// Whether a network is announced because it is the node's own, is announced in any case, stands on
/// a direct interface, or lies within a range that is learned from.
pub open spec fn has_reason(
    router: RouterConfigView,
    connected: Seq<(Seq<char>, Seq<char>)>,
    own: Seq<char>,
    network: Seq<char>,
) -> bool {
    ||| network == own
    ||| exists|a: int| 0 <= a < router.announce.len() && (
        #[trigger] router.announce[a]
    ).net == network
    ||| exists|c: int, p: int|
        0 <= c < connected.len() && 0 <= p < router.direct_interfaces.len() && connected[c].1
            == network && fits(#[trigger] router.direct_interfaces[p], (#[trigger] connected[c]).0)
    ||| exists|c: int, l: int|
        0 <= c < connected.len() && 0 <= l < router.learn.len() && connected[c].1 == network
            && contains(#[trigger] router.learn[l], (#[trigger] connected[c]).1) == Ok::<
            bool,
            ErrorView,
        >(true)
}

proof fn lemma_network_row(network: Seq<char>)
    ensures
        crate::config::network_row(network).address == as_answered(network),
{
    reveal_strlit("/32");
    assert("/32"@.len() == 3);
    let n = network.len() - 3;
    law_strip(network, "/32"@);
    if n >= 0 && network.skip(n) == "/32"@ {
        assert(network =~= network.take(n) + "/32"@);
        law_strip(network.take(n), "/32"@);
    } else if "/32"@.is_suffix_of(network) {
        assert(network.skip(n) =~= "/32"@);
    }
}

/// A connected network on an interface that a direct pattern fits is announced, whatever is
/// learned; one within a range that is learned is announced, whatever is direct; so is everything
/// that is announced in any case, and the node's own address. Nothing else is, and every entry is
/// on the list for BGP and enabled.
pub proof fn law_network_rows(
    awg: AwgConfigView,
    router: RouterConfigView,
    connected: Seq<(Seq<char>, Seq<char>)>,
)
    ensures
        desired_of(awg, router, connected) matches Ok(state) ==> {
            let rows = state.bgp_networks;
            let own = ipv4_text(state.ospf_instance.router_id) + "/32"@;
            &&& forall|c: int, p: int|
                0 <= c < connected.len() && 0 <= p < router.direct_interfaces.len() && fits(
                    #[trigger] router.direct_interfaces[p],
                    (#[trigger] connected[c]).0,
                ) ==> is_on_list(rows, connected[c].1)
            &&& forall|c: int, l: int|
                0 <= c < connected.len() && 0 <= l < router.learn.len() && contains(
                    #[trigger] router.learn[l],
                    (#[trigger] connected[c]).1,
                ) == Ok::<bool, ErrorView>(true) ==> is_on_list(rows, connected[c].1)
            &&& forall|a: int|
                0 <= a < router.announce.len() ==> is_on_list(
                    rows,
                    (#[trigger] router.announce[a]).net,
                )
            &&& is_on_list(rows, own)
            &&& forall|k: int|
                0 <= k < rows.len() ==> {
                    &&& (#[trigger] rows[k]).list == "bgp-networks"@
                    &&& !rows[k].disabled
                    &&& exists|network: Seq<char>|
                        rows[k].address == #[trigger] as_answered(network) && has_reason(
                            router,
                            connected,
                            own,
                            network,
                        )
                }
        },
{
    if let Ok(state) = desired_of(awg, router, connected) {
        let rows = state.bgp_networks;
        let v4 = state.ospf_instance.router_id;
        let own = ipv4_text(v4) + "/32"@;
        let all = networks(router, connected, v4);
        law_networks(router, connected, v4);
        assert forall|x: Seq<char>| all.contains(x) implies #[trigger] is_on_list(rows, x) by {
            let k = choose|k: int| 0 <= k < all.len() && all[k] == x;
            lemma_network_row(x);
            assert(rows[k].address == as_answered(x));
        }
        assert forall|c: int, p: int|
            0 <= c < connected.len() && 0 <= p < router.direct_interfaces.len() && fits(
                #[trigger] router.direct_interfaces[p],
                (#[trigger] connected[c]).0,
            ) implies is_on_list(rows, connected[c].1) by {
            law_glob(router.direct_interfaces[p], connected[c].0);
            assert(is_direct(router.direct_interfaces, connected[c].0));
            assert(is_announced(router, connected[c]));
            assert(has_announced(router, connected, connected[c].1));
            assert(all.contains(connected[c].1));
        }
        assert forall|c: int, l: int|
            0 <= c < connected.len() && 0 <= l < router.learn.len() && contains(
                #[trigger] router.learn[l],
                (#[trigger] connected[c]).1,
            ) == Ok::<bool, ErrorView>(true) implies is_on_list(rows, connected[c].1) by {
            assert(is_learned(router.learn, connected[c].1));
            assert(is_announced(router, connected[c]));
            assert(has_announced(router, connected, connected[c].1));
            assert(all.contains(connected[c].1));
        }
        assert forall|a: int| 0 <= a < router.announce.len() implies is_on_list(
            rows,
            (#[trigger] router.announce[a]).net,
        ) by {
            assert(is_fixed(router.announce, router.announce[a].net));
            assert(all.contains(router.announce[a].net));
        }
        assert(all.contains(own));
        assert forall|k: int| 0 <= k < rows.len() implies {
            &&& (#[trigger] rows[k]).list == "bgp-networks"@
            &&& !rows[k].disabled
            &&& exists|network: Seq<char>|
                rows[k].address == #[trigger] as_answered(network) && has_reason(
                    router,
                    connected,
                    own,
                    network,
                )
        } by {
            let x = all[k];
            assert(all.contains(x));
            lemma_network_row(x);
            assert(rows[k].address == as_answered(x));
            if has_announced(router, connected, x) {
                let c = choose|c: int|
                    0 <= c < connected.len() && (#[trigger] connected[c]).1 == x && is_announced(
                        router,
                        connected[c],
                    );
                if is_direct(router.direct_interfaces, connected[c].0) {
                    let p = choose|p: int|
                        0 <= p < router.direct_interfaces.len() && glob(
                            #[trigger] router.direct_interfaces[p],
                            connected[c].0,
                        );
                    law_glob(router.direct_interfaces[p], connected[c].0);
                    assert(fits(router.direct_interfaces[p], connected[c].0));
                } else {
                    let l = choose|l: int|
                        0 <= l < router.learn.len() && contains(
                            #[trigger] router.learn[l],
                            connected[c].1,
                        ) == Ok::<bool, ErrorView>(true);
                    assert(
                        contains(router.learn[l], connected[c].1) == Ok::<bool, ErrorView>(true)
                    );
                }
            }
            assert(has_reason(router, connected, own, x));
        }
    }
}

proof fn lemma_connection_rows(own: Seq<u16>, peers: Seq<BgpPeerEntryView>, n: int)
    requires
        0 <= n <= peers.len(),
    ensures
        connection_rows(own, peers, n) is Ok <==> forall|k: int|
            0 <= k < n ==> parse_ipv6((#[trigger] peers[k]).address) is Some,
        connection_rows(own, peers, n) matches Ok(rows) ==> {
            &&& rows.len() == n
            &&& forall|k: int|
                0 <= k < n ==> {
                    let r = #[trigger] rows[k];
                    &&& r.name == "bgp-"@ + peers[k].name
                    &&& parse_ipv6(peers[k].address) == Some(r.remote_address)
                    &&& r.local_address == own
                    &&& r.instance == "default"@
                    &&& r.local_role == "ibgp"@
                    &&& r.multihop
                    &&& r.afi == "ip"@
                    &&& r.output_network == "bgp-networks"@
                    &&& !r.disabled
                }
        },
    decreases n,
{
    if n > 0 {
        lemma_connection_rows(own, peers, n - 1);
        if connection_rows(own, peers, n) is Ok {
            assert(parse_ipv6(peers[n - 1].address) is Some);
        }
    }
}

/// Every BGP peer has its connection, in the order of the configuration: an iBGP session between
/// the node's own address and the peer's, over several hops, for IPv4 routes, that announces the
/// networks on the list for BGP. There is no other connection.
pub proof fn law_connection_rows(
    awg: AwgConfigView,
    router: RouterConfigView,
    connected: Seq<(Seq<char>, Seq<char>)>,
)
    ensures
        desired_of(awg, router, connected) matches Ok(state) ==> {
            let rows = state.bgp_connections;
            &&& rows.len() == router.bgp_peers.len()
            &&& forall|k: int|
                0 <= k < rows.len() ==> {
                    let r = #[trigger] rows[k];
                    &&& r.name == "bgp-"@ + router.bgp_peers[k].name
                    &&& parse_ipv6(router.bgp_peers[k].address) == Some(r.remote_address)
                    &&& loopbacks_of(router.node.loopback_addresses) matches Ok((_, v6))
                        && r.local_address == v6
                    &&& r.instance == "default"@
                    &&& r.local_role == "ibgp"@
                    &&& r.multihop
                    &&& r.afi == "ip"@
                    &&& r.output_network == "bgp-networks"@
                    &&& !r.disabled
                }
        },
{
    if let Ok((_, v6)) = loopbacks_of(router.node.loopback_addresses) {
        lemma_connection_rows(v6, router.bgp_peers, router.bgp_peers.len() as int);
    }
}

/// The loopback bridge, the OSPF instance and area and the BGP instance have their fixed names and
/// are enabled; both instances go by the node's own IPv4 address, OSPF is of version 3 and hands on
/// connected routes, and BGP has the node's number.
pub proof fn law_single_objects(
    awg: AwgConfigView,
    router: RouterConfigView,
    connected: Seq<(Seq<char>, Seq<char>)>,
)
    ensures
        desired_of(awg, router, connected) matches Ok(state) ==> {
            &&& loopbacks_of(router.node.loopback_addresses) matches Ok((v4, _)) && {
                &&& state.ospf_instance.router_id == v4
                &&& state.bgp_instance.router_id == v4
            }
            &&& state.loopback_bridge.name == "router-lo"@
            &&& !state.loopback_bridge.disabled
            &&& state.ospf_instance.name == "default"@
            &&& state.ospf_instance.version == 3
            &&& state.ospf_instance.redistribute_connected
            &&& !state.ospf_instance.disabled
            &&& state.ospf_area.name == "backbone"@
            &&& state.ospf_area.area_id == "0.0.0.0"@
            &&& state.ospf_area.instance == state.ospf_instance.name
            &&& !state.ospf_area.disabled
            &&& state.bgp_instance.name == "default"@
            &&& state.bgp_instance.as_number == router.bgp_as
            &&& state.bgp_instance.routing_table == "main"@
            &&& !state.bgp_instance.disabled
        },
{
}

/// What a device should look like is known exactly if the loopback entries, the endpoint of every
/// peer that has one and the address of every BGP peer can be read.
pub proof fn law_when_there_is_a_state(
    awg: AwgConfigView,
    router: RouterConfigView,
    connected: Seq<(Seq<char>, Seq<char>)>,
)
    ensures
        desired_of(awg, router, connected) is Ok <==> {
            &&& loopbacks_of(router.node.loopback_addresses) is Ok
            &&& all_endpoints_are_sound(awg.interfaces, awg.interfaces.len() as int)
            &&& forall|k: int|
                0 <= k < router.bgp_peers.len() ==> parse_ipv6(
                    (#[trigger] router.bgp_peers[k]).address,
                ) is Some
        },
{
    lemma_mesh_peers(awg.interfaces, awg.interfaces.len() as int);
    if let Ok((_, v6)) = loopbacks_of(router.node.loopback_addresses) {
        lemma_connection_rows(v6, router.bgp_peers, router.bgp_peers.len() as int);
    }
}

/// Whether an entry is this address, a slash and a prefix length that its family can have.
pub open spec fn is_loopback_entry(entry: Seq<char>, a: IpAddrView) -> bool {
    exists|ip: Seq<char>, prefix: Seq<char>|
        entry == #[trigger] (
            ip + seq!['/'] + prefix
        ) && !ip.contains('/') && parse_ip(ip) == Some(a)
            && parse_decimal(
            prefix,
            if a is V4 {
                32
            } else {
                128
            },
        ) is Some
}

/// A loopback entry is read exactly if it is an address, a slash and a prefix length, and then as
/// that address.
pub proof fn law_loopback_entry(entry: Seq<char>, a: IpAddrView)
    ensures
        (loopback_of(entry) == Ok::<IpAddrView, ErrorView>(a)) == is_loopback_entry(entry, a),
{
    law_split_once(entry, '/');
    if loopback_of(entry) == Ok::<IpAddrView, ErrorView>(a) {
        let (ip, prefix) = crate::text::split_once(entry, '/')->Some_0;
        assert(entry == ip + seq!['/'] + prefix);
    }
    if is_loopback_entry(entry, a) {
        let (ip, prefix) = choose|ip: Seq<char>, prefix: Seq<char>|
            entry == #[trigger] (ip + seq!['/'] + prefix) && !ip.contains('/') && parse_ip(ip)
                == Some(a) && parse_decimal(
                prefix,
                if a is V4 {
                    32
                } else {
                    128
                },
            ) is Some;
        law_split_once_of(ip, '/', prefix);
    }
}

/// Whether the last of the first `n` entries of a family is this address.
pub open spec fn is_last_of_family(entries: Seq<Seq<char>>, n: int, a: IpAddrView) -> bool {
    exists|k: int|
        0 <= k < n && is_loopback_entry(#[trigger] entries[k], a) && forall|m: int, b: IpAddrView|
            k < m < n && #[trigger] is_loopback_entry(entries[m], b) ==> b is V4 != a is V4
}

proof fn lemma_loopbacks_found(entries: Seq<Seq<char>>, n: int)
    requires
        0 <= n <= entries.len(),
    ensures
        loopbacks_before(entries, n) matches Ok((v4, v6)) ==> {
            &&& v4 matches Some(a) ==> is_last_of_family(entries, n, IpAddrView::V4(a))
            &&& v6 matches Some(a) ==> is_last_of_family(entries, n, IpAddrView::V6(a))
        },
    decreases n,
{
    if n > 0 {
        lemma_loopbacks_found(entries, n - 1);
        if let Ok((v4, v6)) = loopbacks_before(entries, n) {
            let e = entries[n - 1];
            let own = loopback_of(e)->Ok_0;
            law_loopback_entry(e, own);
            assert(is_last_of_family(entries, n, own)) by {
                assert(is_loopback_entry(entries[n - 1], own));
            }
            assert forall|b: IpAddrView| #[trigger] is_loopback_entry(e, b) implies b == own by {
                law_loopback_entry(e, b);
            }
            if let Some(a) = v4 {
                if own is V6 {
                    lemma_last_stays(entries, n, IpAddrView::V4(a));
                }
            }
            if let Some(a) = v6 {
                if own is V4 {
                    lemma_last_stays(entries, n, IpAddrView::V6(a));
                }
            }
        }
    }
}

proof fn lemma_last_stays(entries: Seq<Seq<char>>, n: int, a: IpAddrView)
    requires
        0 < n <= entries.len(),
        is_last_of_family(entries, n - 1, a),
        forall|b: IpAddrView| #[trigger]
            is_loopback_entry(entries[n - 1], b) ==> b is V4 != a is V4,
    ensures
        is_last_of_family(entries, n, a),
{
    let k = choose|k: int|
        0 <= k < n - 1 && is_loopback_entry(#[trigger] entries[k], a) && forall|
            m: int,
            b: IpAddrView,
        |
            k < m < n - 1 && #[trigger] is_loopback_entry(entries[m], b) ==> b is V4 != a is V4;
    assert(is_loopback_entry(entries[k], a));
    assert forall|m: int, b: IpAddrView|
        k < m < n && #[trigger] is_loopback_entry(entries[m], b) implies b is V4 != a is V4 by {}
}

/// The node's own addresses are the last IPv4 and the last IPv6 address among its loopback entries.
pub proof fn law_own_loopbacks(entries: Seq<Seq<char>>)
    ensures
        loopbacks_of(entries) matches Ok((v4, v6)) ==> {
            &&& is_last_of_family(entries, entries.len() as int, IpAddrView::V4(v4))
            &&& is_last_of_family(entries, entries.len() as int, IpAddrView::V6(v6))
        },
{
    lemma_loopbacks_found(entries, entries.len() as int);
}

/// Whether an entry is an address of the family with a slash and a prefix length.
pub open spec fn is_of_family(entry: Seq<char>, ipv4: bool) -> bool {
    exists|a: IpAddrView| #[trigger] is_loopback_entry(entry, a) && a is V4 == ipv4
}

/// The node's own addresses are known exactly if every loopback entry can be read and there is one
/// of each family.
pub proof fn law_when_there_are_loopbacks(entries: Seq<Seq<char>>)
    ensures
        loopbacks_of(entries) is Ok <==> {
            &&& forall|i: int|
                0 <= i < entries.len() ==> is_of_family(#[trigger] entries[i], true)
                    || is_of_family(entries[i], false)
            &&& exists|i: int| 0 <= i < entries.len() && is_of_family(#[trigger] entries[i], true)
            &&& exists|i: int| 0 <= i < entries.len() && is_of_family(#[trigger] entries[i], false)
        },
{
    let n = entries.len() as int;
    lemma_loopbacks_read(entries, n);
    assert forall|i: int| 0 <= i < n implies reads_as(#[trigger] entries[i], true) == is_of_family(
        entries[i],
        true,
    ) && reads_as(entries[i], false) == is_of_family(entries[i], false) by {
        lemma_family(entries[i]);
        reveal(reads_as);
    }
}

proof fn lemma_family(entry: Seq<char>)
    ensures
        (loopback_of(entry) is Ok) == (is_of_family(entry, true) || is_of_family(entry, false)),
        is_of_family(entry, true) == (loopback_of(entry) is Ok && loopback_of(entry)->Ok_0 is V4),
        is_of_family(entry, false) == (loopback_of(entry) is Ok && loopback_of(entry)->Ok_0 is V6),
{
    if let Ok(a) = loopback_of(entry) {
        law_loopback_entry(entry, a);
        assert(is_loopback_entry(entry, a));
    }
    if is_of_family(entry, true) {
        let a = choose|a: IpAddrView| #[trigger] is_loopback_entry(entry, a) && a is V4 == true;
        law_loopback_entry(entry, a);
    }
    if is_of_family(entry, false) {
        let a = choose|a: IpAddrView| #[trigger] is_loopback_entry(entry, a) && a is V4 == false;
        law_loopback_entry(entry, a);
    }
}

/// Whether an entry is read as an address of the family.
#[verifier::opaque]
spec fn reads_as(entry: Seq<char>, ipv4: bool) -> bool {
    loopback_of(entry) matches Ok(a) && a is V4 == ipv4
}

proof fn lemma_loopbacks_read(entries: Seq<Seq<char>>, n: int)
    requires
        0 <= n <= entries.len(),
    ensures
        loopbacks_before(entries, n) is Ok <==> forall|i: int|
            0 <= i < n ==> reads_as(#[trigger] entries[i], true) || reads_as(entries[i], false),
        loopbacks_before(entries, n) matches Ok((v4, v6)) ==> {
            &&& v4 is Some <==> exists|i: int| 0 <= i < n && reads_as(#[trigger] entries[i], true)
            &&& v6 is Some <==> exists|i: int| 0 <= i < n && reads_as(#[trigger] entries[i], false)
        },
    decreases n,
{
    if n > 0 {
        lemma_loopbacks_read(entries, n - 1);
        let last = entries[n - 1];
        assert(loopback_of(last) is Ok == (reads_as(last, true) || reads_as(last, false))) by {
            reveal(reads_as);
        }
        if loopbacks_before(entries, n) is Ok {
            let own = loopback_of(last)->Ok_0;
            assert(reads_as(last, true) == (own is V4) && reads_as(last, false) == (own is V6)) by {
                reveal(reads_as);
            }
        }
    }
}

proof fn lemma_counts(entries: Seq<Seq<char>>, n: int)
    requires
        0 <= n <= entries.len(),
        forall|i: int| 0 <= i < n ==> loopback_of(#[trigger] entries[i]) is Ok,
    ensures
        family_count(entries, true, n) + family_count(entries, false, n) == n,
    decreases n,
{
    if n > 0 {
        lemma_counts(entries, n - 1);
        assert(loopback_of(entries[n - 1]) is Ok);
    }
}

/// The loopback entries are sound exactly if they are two, an IPv4 and an IPv6 address in either
/// order.
pub proof fn law_two_loopbacks(entries: Seq<Seq<char>>)
    ensures
        one_of_each(entries) <==> entries.len() == 2 && {
            ||| is_of_family(entries[0], true) && is_of_family(entries[1], false)
            ||| is_of_family(entries[0], false) && is_of_family(entries[1], true)
        },
{
    let n = entries.len() as int;
    if one_of_each(entries) {
        lemma_counts(entries, n);
    }
    if n == 2 {
        lemma_family(entries[0]);
        lemma_family(entries[1]);
        assert(family_count(entries, true, 0) == 0 && family_count(entries, false, 0) == 0);
        assert(family_count(entries, true, 2) == family_count(entries, true, 1) + if loopback_of(
            entries[1],
        ) matches Ok(a) && a is V4 {
            1nat
        } else {
            0
        });
        assert(family_count(entries, false, 2) == family_count(entries, false, 1) + if loopback_of(
            entries[1],
        ) matches Ok(a) && !(a is V4) {
            1nat
        } else {
            0
        });
        assert(family_count(entries, true, 1) == if loopback_of(entries[0]) matches Ok(a)
            && a is V4 {
            1nat
        } else {
            0
        });
        assert(family_count(entries, false, 1) == if loopback_of(entries[0]) matches Ok(a) && !(
        a is V4) {
            1nat
        } else {
            0
        });
    }
}

/// A text that is no endpoint is told by what is wrong first: the colon, the host, the port.
pub proof fn law_endpoint_errors(host: Seq<char>, digits: Seq<char>)
    ensures
        !digits.contains(':') ==> {
            let endpoint = host + seq![':'] + digits;
            &&& endpoint_of(digits) == Err::<(Seq<char>, u16), ErrorView>(
                ErrorView::EndpointForm { endpoint: digits },
            )
            &&& host.len() == 0 ==> endpoint_of(endpoint) == Err::<(Seq<char>, u16), ErrorView>(
                ErrorView::EndpointEmpty,
            )
            &&& host.len() > 0 && !is_host(host) ==> endpoint_of(endpoint) == Err::<
                (Seq<char>, u16),
                ErrorView,
            >(ErrorView::EndpointCharacters { endpoint: host })
            &&& is_host(host) && parse_decimal(digits, 65535) is None ==> endpoint_of(endpoint)
                == Err::<(Seq<char>, u16), ErrorView>(ErrorView::EndpointPort { endpoint })
        },
{
    if !digits.contains(':') {
        law_rsplit_once(digits, ':');
        law_rsplit_once_of(host, ':', digits);
        law_hosts(host);
    }
}

/// Whether the endpoint of the peer `m` of the interface `i` is the first that cannot be read.
pub open spec fn is_first_unsound(interfaces: Seq<InterfaceEntryView>, i: int, m: int) -> bool {
    &&& 0 <= i < interfaces.len()
    &&& 0 <= m < interfaces[i].peers.len()
    &&& interfaces[i].peers[m].endpoint matches Some(e) && endpoint_of(e) is Err
    &&& endpoints_are_sound(interfaces[i], m)
    &&& all_endpoints_are_sound(interfaces, i)
}

proof fn lemma_interface_peers_error(i: InterfaceEntryView, m: int, n: int)
    requires
        0 <= m < n <= i.peers.len(),
        i.peers[m].endpoint matches Some(e) && endpoint_of(e) is Err,
        endpoints_are_sound(i, m),
    ensures
        interface_peers(i, n) == Err::<Seq<DesiredWireguardPeerView>, ErrorView>(
            endpoint_of(i.peers[m].endpoint->Some_0)->Err_0,
        ),
    decreases n,
{
    if m < n - 1 {
        lemma_interface_peers_error(i, m, n - 1);
    } else {
        lemma_interface_peers(i, m);
        lemma_peer_row(i.name, i.peers[m]);
    }
}

proof fn lemma_mesh_peers_error(interfaces: Seq<InterfaceEntryView>, i: int, m: int, n: int)
    requires
        is_first_unsound(interfaces, i, m),
        i < n <= interfaces.len(),
    ensures
        mesh_peers(interfaces, n) == Err::<Seq<DesiredWireguardPeerView>, ErrorView>(
            endpoint_of(interfaces[i].peers[m].endpoint->Some_0)->Err_0,
        ),
    decreases n,
{
    if i < n - 1 {
        lemma_mesh_peers_error(interfaces, i, m, n - 1);
    } else {
        lemma_mesh_peers(interfaces, i);
        lemma_interface_peers_error(interfaces[i], m, interfaces[i].peers.len() as int);
    }
}

/// What is wrong with a configuration is told in this order: the loopback entries, then the first
/// endpoint that cannot be read.
pub proof fn law_first_error(
    awg: AwgConfigView,
    router: RouterConfigView,
    connected: Seq<(Seq<char>, Seq<char>)>,
    i: int,
    m: int,
)
    ensures
        loopbacks_of(router.node.loopback_addresses) matches Err(e) ==> desired_of(
            awg,
            router,
            connected,
        ) == Err::<DesiredStateView, ErrorView>(e),
        loopbacks_of(router.node.loopback_addresses) is Ok && is_first_unsound(
            awg.interfaces,
            i,
            m,
        ) ==> desired_of(awg, router, connected) == Err::<DesiredStateView, ErrorView>(
            endpoint_of(awg.interfaces[i].peers[m].endpoint->Some_0)->Err_0,
        ),
{
    if is_first_unsound(awg.interfaces, i, m) {
        lemma_mesh_peers_error(awg.interfaces, i, m, awg.interfaces.len() as int);
    }
}

proof fn lemma_connection_error(own: Seq<u16>, peers: Seq<BgpPeerEntryView>, k: int, n: int)
    requires
        0 <= k < n <= peers.len(),
        parse_ipv6(peers[k].address) is None,
        forall|j: int| 0 <= j < k ==> parse_ipv6((#[trigger] peers[j]).address) is Some,
    ensures
        connection_rows(own, peers, n) == Err::<Seq<DesiredBgpConnectionView>, ErrorView>(
            ErrorView::BgpPeerAddress { name: peers[k].name, address: peers[k].address },
        ),
    decreases n,
{
    if k < n - 1 {
        lemma_connection_error(own, peers, k, n - 1);
    } else {
        lemma_connection_rows(own, peers, k);
    }
}

/// Where nothing else is wrong, the first BGP peer whose address is none is told by its name and
/// that address.
pub proof fn law_first_wrong_bgp_peer(
    awg: AwgConfigView,
    router: RouterConfigView,
    connected: Seq<(Seq<char>, Seq<char>)>,
    k: int,
)
    requires
        loopbacks_of(router.node.loopback_addresses) is Ok,
        all_endpoints_are_sound(awg.interfaces, awg.interfaces.len() as int),
        0 <= k < router.bgp_peers.len(),
        parse_ipv6(router.bgp_peers[k].address) is None,
        forall|j: int|
            0 <= j < k ==> parse_ipv6((#[trigger] router.bgp_peers[j]).address) is Some,
    ensures
        desired_of(awg, router, connected) == Err::<DesiredStateView, ErrorView>(
            ErrorView::BgpPeerAddress {
                name: router.bgp_peers[k].name,
                address: router.bgp_peers[k].address,
            },
        ),
{
    lemma_mesh_peers(awg.interfaces, awg.interfaces.len() as int);
    if let Ok((_, v6)) = loopbacks_of(router.node.loopback_addresses) {
        lemma_connection_error(v6, router.bgp_peers, k, router.bgp_peers.len() as int);
    }
}

} // verus!
