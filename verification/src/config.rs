//! What a RouterOS device should look like, computed from the node's configuration.

use crate::addr::{
    ipv4_text, ipv6_text, parse_ip, parse_ipv6, IpAddr, IpAddrView, Ipv4Addr, Ipv6Addr,
};
use crate::cidr::{cidr_contains, contains};
use crate::documents::{
    AnnounceEntryView, AwgConfig, AwgConfigView, BgpPeerEntry, BgpPeerEntryView, InterfaceEntry,
    InterfaceEntryView, PeerEntry, PeerEntryView, RouterConfig, RouterConfigView,
};
use crate::error::{outcome, Error, ErrorView};
use crate::number::{parse_decimal, read_decimal};
use crate::rows::{
    DesiredAddressListEntry, DesiredAddressListEntryView, DesiredBgpConnection,
    DesiredBgpConnectionView, DesiredBgpInstance, DesiredBgpInstanceView, DesiredBridge,
    DesiredBridgeView, DesiredIpAddress, DesiredIpAddressView, DesiredIpv6Address,
    DesiredIpv6AddressView, DesiredListMember, DesiredListMemberView, DesiredOspfArea,
    DesiredOspfAreaView, DesiredOspfInstance, DesiredOspfInstanceView,
    DesiredOspfInterfaceTemplate, DesiredOspfInterfaceTemplateView, DesiredWireguardInterface,
    DesiredWireguardInterfaceView, DesiredWireguardPeer, DesiredWireguardPeerView,
};
use crate::sanitize::{endpoint_fault, validate_endpoint};
use crate::sorted::{insert_sorted, inserted, is_sorted, law_inserted};
use crate::text::{
    begins_with, has_char, holds, join, joined, owned, rsplit_once, same, split_at_first,
    split_at_last, split_once, strip_suffix, trim_prefixes, without_prefixes, without_suffix,
};
use vstd::prelude::*;
use vstd::string::*;

verus! {

/// The bridge that carries the node's own addresses.
pub const LOOPBACK_BRIDGE: &'static str = "router-lo";

/// The interface list that the mesh interfaces join.
pub const LAN_LIST: &'static str = "LAN";

/// The OSPF instance.
pub const OSPF_INSTANCE: &'static str = "default";

/// The OSPF area.
pub const OSPF_AREA: &'static str = "backbone";

/// The BGP instance.
pub const BGP_INSTANCE: &'static str = "default";

/// The firewall address list of the networks that BGP announces.
pub const BGP_NETWORKS_LIST: &'static str = "bgp-networks";

/// How often a peer that is behind an endpoint is kept alive, in seconds.
pub const MESH_PERSISTENT_KEEPALIVE: u16 = 25;

/// What an OSPF hop over a mesh interface costs.
pub const OSPF_PEER_COST: u16 = 10;

/// How often OSPF says hello on a mesh interface.
pub const OSPF_HELLO_INTERVAL: &'static str = "10s";

/// When OSPF gives up a neighbour on a mesh interface.
pub const OSPF_DEAD_INTERVAL: &'static str = "40s";

/// The address family of a BGP connection: IPv4 routes are spoken of over IPv6.
pub const BGP_AFI_IPV4: &'static str = "ip";

/// What a device should look like.
#[derive(Debug, Clone, PartialEq)]
pub struct DesiredState {
    pub wireguard_interfaces: Vec<DesiredWireguardInterface>,
    pub ip_addresses: Vec<DesiredIpAddress>,
    pub ip_v6_addresses: Vec<DesiredIpv6Address>,
    pub wireguard_peers: Vec<DesiredWireguardPeer>,
    pub list_members: Vec<DesiredListMember>,
    pub loopback_bridge: DesiredBridge,
    pub ospf_instance: DesiredOspfInstance,
    pub ospf_area: DesiredOspfArea,
    pub ospf_interface_templates: Vec<DesiredOspfInterfaceTemplate>,
    pub bgp_networks: Vec<DesiredAddressListEntry>,
    pub bgp_instance: DesiredBgpInstance,
    pub bgp_connections: Vec<DesiredBgpConnection>,
}

/// What a [`DesiredState`] is.
pub struct DesiredStateView {
    pub wireguard_interfaces: Seq<DesiredWireguardInterfaceView>,
    pub ip_addresses: Seq<DesiredIpAddressView>,
    pub ip_v6_addresses: Seq<DesiredIpv6AddressView>,
    pub wireguard_peers: Seq<DesiredWireguardPeerView>,
    pub list_members: Seq<DesiredListMemberView>,
    pub loopback_bridge: DesiredBridgeView,
    pub ospf_instance: DesiredOspfInstanceView,
    pub ospf_area: DesiredOspfAreaView,
    pub ospf_interface_templates: Seq<DesiredOspfInterfaceTemplateView>,
    pub bgp_networks: Seq<DesiredAddressListEntryView>,
    pub bgp_instance: DesiredBgpInstanceView,
    pub bgp_connections: Seq<DesiredBgpConnectionView>,
}

impl DeepView for DesiredState {
    type V = DesiredStateView;

    open spec fn deep_view(&self) -> DesiredStateView {
        DesiredStateView {
            wireguard_interfaces: self.wireguard_interfaces.deep_view(),
            ip_addresses: self.ip_addresses.deep_view(),
            ip_v6_addresses: self.ip_v6_addresses.deep_view(),
            wireguard_peers: self.wireguard_peers.deep_view(),
            list_members: self.list_members.deep_view(),
            loopback_bridge: self.loopback_bridge.deep_view(),
            ospf_instance: self.ospf_instance.deep_view(),
            ospf_area: self.ospf_area.deep_view(),
            ospf_interface_templates: self.ospf_interface_templates.deep_view(),
            bgp_networks: self.bgp_networks.deep_view(),
            bgp_instance: self.bgp_instance.deep_view(),
            bgp_connections: self.bgp_connections.deep_view(),
        }
    }
}

/// The address that a loopback entry writes: an address, a slash and a prefix length of at most 32
/// bits for IPv4 and 128 for IPv6.
pub open spec fn loopback_of(entry: Seq<char>) -> Result<IpAddrView, ErrorView> {
    match split_once(entry, '/') {
        None => Err(ErrorView::Loopback { entry }),
        Some((ip, prefix)) => match parse_ip(ip) {
            Some(IpAddrView::V4(a)) => if parse_decimal(prefix, 32) is Some {
                Ok(IpAddrView::V4(a))
            } else {
                Err(ErrorView::Loopback { entry })
            },
            Some(IpAddrView::V6(a)) => if parse_decimal(prefix, 128) is Some {
                Ok(IpAddrView::V6(a))
            } else {
                Err(ErrorView::Loopback { entry })
            },
            None => Err(ErrorView::Loopback { entry }),
        },
    }
}

/// Reads a loopback entry.
pub fn parse_loopback_address(entry: &str) -> (r: Result<IpAddr, Error>)
    ensures
        outcome(r) == loopback_of(entry@),
{
    match split_at_first(entry, '/') {
        None => Err(Error::Loopback { entry: owned(entry) }),
        Some((ip, prefix)) => match IpAddr::parse(ip.as_str()) {
            Some(IpAddr::V4(a)) => {
                if read_decimal(prefix.as_str(), 32).is_some() {
                    Ok(IpAddr::V4(a))
                } else {
                    Err(Error::Loopback { entry: owned(entry) })
                }
            },
            Some(IpAddr::V6(a)) => {
                if read_decimal(prefix.as_str(), 128).is_some() {
                    Ok(IpAddr::V6(a))
                } else {
                    Err(Error::Loopback { entry: owned(entry) })
                }
            },
            None => Err(Error::Loopback { entry: owned(entry) }),
        },
    }
}

/// The last IPv4 and the last IPv6 address among the first `n` entries.
pub open spec fn loopbacks_before(entries: Seq<Seq<char>>, n: int) -> Result<
    (Option<Ipv4Addr>, Option<Seq<u16>>),
    ErrorView,
>
    decreases n,
{
    if n <= 0 {
        Ok((None, None))
    } else {
        match loopbacks_before(entries, n - 1) {
            Err(e) => Err(e),
            Ok((v4, v6)) => match loopback_of(entries[n - 1]) {
                Err(e) => Err(e),
                Ok(IpAddrView::V4(a)) => Ok((Some(a), v6)),
                Ok(IpAddrView::V6(a)) => Ok((v4, Some(a))),
            },
        }
    }
}

/// The node's own IPv4 and IPv6 address.
pub open spec fn loopbacks_of(entries: Seq<Seq<char>>) -> Result<(Ipv4Addr, Seq<u16>), ErrorView> {
    match loopbacks_before(entries, entries.len() as int) {
        Err(e) => Err(e),
        Ok((None, _)) => Err(ErrorView::NoIpv4Loopback),
        Ok((Some(_), None)) => Err(ErrorView::NoIpv6Loopback),
        Ok((Some(v4), Some(v6))) => Ok((v4, v6)),
    }
}

proof fn lemma_loopbacks_error(entries: Seq<Seq<char>>, n: int, m: int)
    requires
        0 <= n <= m,
        loopbacks_before(entries, n) is Err,
    ensures
        loopbacks_before(entries, m) == loopbacks_before(entries, n),
    decreases m,
{
    if n < m {
        lemma_loopbacks_error(entries, n, m - 1);
    }
}

/// The node's own IPv4 and IPv6 address.
pub fn own_loopbacks(router: &RouterConfig) -> (r: Result<(Ipv4Addr, Ipv6Addr), Error>)
    ensures
        outcome(r) == loopbacks_of(router.deep_view().node.loopback_addresses),
{
    let entries = &router.node.loopback_addresses;
    let ghost d = entries.deep_view();
    let mut v4: Option<Ipv4Addr> = None;
    let mut v6: Option<Ipv6Addr> = None;
    let mut i: usize = 0;
    while i < entries.len()
        invariant
            i <= entries@.len(),
            d == entries.deep_view(),
            d == router.deep_view().node.loopback_addresses,
            loopbacks_before(d, i as int) == Ok::<
                (Option<Ipv4Addr>, Option<Seq<u16>>),
                ErrorView,
            >((v4, v6.deep_view())),
        decreases entries@.len() - i,
    {
        assert(d[i as int] == entries[i as int]@);
        match parse_loopback_address(entries[i].as_str()) {
            Ok(IpAddr::V4(a)) => {
                v4 = Some(a);
            },
            Ok(IpAddr::V6(a)) => {
                v6 = Some(a);
            },
            Err(e) => {
                proof {
                    lemma_loopbacks_error(d, i + 1, d.len() as int);
                }
                return Err(e);
            },
        }
        i = i + 1;
    }
    match (v4, v6) {
        (None, _) => Err(Error::NoIpv4Loopback),
        (Some(_), None) => Err(Error::NoIpv6Loopback),
        (Some(a), Some(b)) => Ok((a, b)),
    }
}

/// How many of the first `n` entries are addresses of the family.
pub open spec fn family_count(entries: Seq<Seq<char>>, ipv4: bool, n: int) -> nat
    decreases n,
{
    if n <= 0 {
        0
    } else {
        family_count(entries, ipv4, n - 1) + if loopback_of(entries[n - 1]) matches Ok(a)
            && a is V4 == ipv4 {
            1nat
        } else {
            0
        }
    }
}

/// Whether the entries are exactly one IPv4 and one IPv6 address: each of them is an address, and
/// there is one of each family.
pub open spec fn one_of_each(entries: Seq<Seq<char>>) -> bool {
    let n = entries.len() as int;
    &&& forall|i: int| 0 <= i < n ==> loopback_of(#[trigger] entries[i]) is Ok
    &&& family_count(entries, true, n) == 1
    &&& family_count(entries, false, n) == 1
}

/// What is wrong with the loopback entries, if anything: the first one that is malformed, then the
/// number of IPv4 entries, then that of IPv6 entries.
pub open spec fn loopback_fault(entries: Seq<Seq<char>>) -> Option<ErrorView> {
    let n = entries.len() as int;
    if let Err(e) = loopbacks_before(entries, n) {
        Some(e)
    } else if family_count(entries, true, n) == 0 {
        Some(ErrorView::NoIpv4Loopback)
    } else if family_count(entries, true, n) > 1 {
        Some(ErrorView::SeveralIpv4Loopbacks)
    } else if family_count(entries, false, n) == 0 {
        Some(ErrorView::NoIpv6Loopback)
    } else if family_count(entries, false, n) > 1 {
        Some(ErrorView::SeveralIpv6Loopbacks)
    } else {
        None
    }
}

proof fn lemma_loopbacks(entries: Seq<Seq<char>>, n: int)
    requires
        0 <= n <= entries.len(),
    ensures
        loopbacks_before(entries, n) is Ok <==> forall|i: int|
            0 <= i < n ==> loopback_of(#[trigger] entries[i]) is Ok,
        loopbacks_before(entries, n) matches Ok((v4, v6)) ==> {
            &&& v4 is Some == (family_count(entries, true, n) > 0)
            &&& v6 is Some == (family_count(entries, false, n) > 0)
        },
        family_count(entries, true, n) + family_count(entries, false, n) <= n,
    decreases n,
{
    if n > 0 {
        lemma_loopbacks(entries, n - 1);
    }
}

/// Refuses loopback entries that are not exactly one IPv4 and one IPv6 address.
pub fn validate_loopbacks(router: &RouterConfig) -> (r: Result<(), Error>)
    ensures
        r is Ok <==> one_of_each(router.deep_view().node.loopback_addresses),
        match r {
            Ok(()) => loopback_fault(router.deep_view().node.loopback_addresses) is None,
            Err(e) => loopback_fault(router.deep_view().node.loopback_addresses) == Some(
                e.deep_view(),
            ),
        },
{
    let entries = &router.node.loopback_addresses;
    let ghost d = entries.deep_view();
    let mut v4: usize = 0;
    let mut v6: usize = 0;
    let mut i: usize = 0;
    while i < entries.len()
        invariant
            i <= entries@.len(),
            d == entries.deep_view(),
            d == router.deep_view().node.loopback_addresses,
            loopbacks_before(d, i as int) is Ok,
            v4 == family_count(d, true, i as int),
            v6 == family_count(d, false, i as int),
            v4 + v6 <= i,
        decreases entries@.len() - i,
    {
        assert(d[i as int] == entries[i as int]@);
        match parse_loopback_address(entries[i].as_str()) {
            Ok(IpAddr::V4(_)) => {
                v4 = v4 + 1;
            },
            Ok(IpAddr::V6(_)) => {
                v6 = v6 + 1;
            },
            Err(e) => {
                proof {
                    lemma_loopbacks_error(d, i + 1, d.len() as int);
                    lemma_loopbacks(d, d.len() as int);
                }
                return Err(e);
            },
        }
        i = i + 1;
    }
    proof {
        lemma_loopbacks(d, d.len() as int);
    }
    if v4 == 0 {
        Err(Error::NoIpv4Loopback)
    } else if v4 > 1 {
        Err(Error::SeveralIpv4Loopbacks)
    } else if v6 == 0 {
        Err(Error::NoIpv6Loopback)
    } else if v6 > 1 {
        Err(Error::SeveralIpv6Loopbacks)
    } else {
        Ok(())
    }
}

/// Where there is exactly one entry of each family, the node's own addresses are those two,
/// whichever comes first.
pub proof fn law_one_of_each(entries: Seq<Seq<char>>, i: int, j: int)
    requires
        one_of_each(entries),
        0 <= i < entries.len(),
        0 <= j < entries.len(),
        loopback_of(entries[i])->Ok_0 is V4,
        loopback_of(entries[j])->Ok_0 is V6,
    ensures
        loopbacks_of(entries) == Ok::<(Ipv4Addr, Seq<u16>), ErrorView>(
            (loopback_of(entries[i])->Ok_0->V4_0, loopback_of(entries[j])->Ok_0->V6_0),
        ),
{
    lemma_only_entry(entries, entries.len() as int, i);
    lemma_only_entry(entries, entries.len() as int, j);
    lemma_loopbacks(entries, entries.len() as int);
}

proof fn lemma_only_entry(entries: Seq<Seq<char>>, n: int, i: int)
    requires
        0 <= i < n <= entries.len(),
        forall|k: int| 0 <= k < n ==> loopback_of(#[trigger] entries[k]) is Ok,
    ensures
        ({
            let own = loopback_of(entries[i])->Ok_0;
            &&& family_count(entries, own is V4, n) >= 1
            &&& family_count(entries, own is V4, n) == 1 ==> match own {
                IpAddrView::V4(a) => loopbacks_before(entries, n)->Ok_0.0 == Some(a),
                IpAddrView::V6(a) => loopbacks_before(entries, n)->Ok_0.1 == Some(a),
            }
        }),
    decreases n,
{
    lemma_loopbacks(entries, n);
    lemma_loopbacks(entries, n - 1);
    assert(loopback_of(entries[n - 1]) is Ok);
    if i < n - 1 {
        lemma_only_entry(entries, n - 1, i);
    }
}

/// Whether a pattern is the name, or ends in `*` and is the name's start up to there.
pub open spec fn glob(pattern: Seq<char>, name: Seq<char>) -> bool {
    match strip_suffix(pattern, "*"@) {
        Some(prefix) => prefix.is_prefix_of(name),
        None => pattern == name,
    }
}

/// Whether a pattern is the name, or ends in `*` and is the name's start up to there.
pub fn glob_match(pattern: &str, name: &str) -> (r: bool)
    ensures
        r == glob(pattern@, name@),
{
    match without_suffix(pattern, "*") {
        Some(prefix) => begins_with(name, prefix.as_str()),
        None => same(pattern, name),
    }
}

/// The host and the port of an endpoint.
pub open spec fn endpoint_of(endpoint: Seq<char>) -> Result<(Seq<char>, u16), ErrorView> {
    match rsplit_once(endpoint, ':') {
        None => Err(ErrorView::EndpointForm { endpoint }),
        Some((host, port)) => match endpoint_fault(host) {
            Some(e) => Err(e),
            None => match parse_decimal(port, u16::MAX as nat) {
                None => Err(ErrorView::EndpointPort { endpoint }),
                Some(n) => Ok((host, n as u16)),
            },
        },
    }
}

/// Reads an endpoint.
pub fn parse_endpoint(endpoint: &str) -> (r: Result<(String, u16), Error>)
    ensures
        outcome(r) == endpoint_of(endpoint@),
{
    match split_at_last(endpoint, ':') {
        None => Err(Error::EndpointForm { endpoint: owned(endpoint) }),
        Some((host, port)) => match validate_endpoint(host.as_str()) {
            Err(e) => Err(e),
            Ok(()) => match read_decimal(port.as_str(), 65535) {
                None => Err(Error::EndpointPort { endpoint: owned(endpoint) }),
                Some(n) => Ok((host, n as u16)),
            },
        },
    }
}

/// What the WireGuard interface of a mesh interface should be.
pub open spec fn interface_row(i: InterfaceEntryView) -> DesiredWireguardInterfaceView {
    DesiredWireguardInterfaceView {
        name: i.name,
        listen_port: i.listen_port,
        private_key_b64: i.private_key,
        disabled: false,
    }
}

/// What the WireGuard interfaces should be.
pub open spec fn interface_rows(interfaces: Seq<InterfaceEntryView>) -> Seq<
    DesiredWireguardInterfaceView,
> {
    Seq::new(interfaces.len(), |k: int| interface_row(interfaces[k]))
}

/// What the list member of a mesh interface should be.
pub open spec fn member_row(i: InterfaceEntryView) -> DesiredListMemberView {
    DesiredListMemberView { list: LAN_LIST@, interface: i.name, disabled: false }
}

/// What the list members should be.
pub open spec fn member_rows(interfaces: Seq<InterfaceEntryView>) -> Seq<DesiredListMemberView> {
    Seq::new(interfaces.len(), |k: int| member_row(interfaces[k]))
}

fn desired_interfaces(interfaces: &[InterfaceEntry]) -> (r: Vec<DesiredWireguardInterface>)
    ensures
        r.deep_view() == interface_rows(interfaces.deep_view()),
{
    let ghost d = interfaces.deep_view();
    let mut out: Vec<DesiredWireguardInterface> = Vec::new();
    let mut k: usize = 0;
    while k < interfaces.len()
        invariant
            k <= interfaces@.len(),
            d == interfaces.deep_view(),
            out.deep_view() == interface_rows(d).take(k as int),
        decreases interfaces@.len() - k,
    {
        let i = &interfaces[k];
        let ghost before = out.deep_view();
        assert(d[k as int] == i.deep_view());
        out.push(
            DesiredWireguardInterface {
                name: i.name.clone(),
                listen_port: i.listen_port,
                private_key_b64: i.private_key.clone(),
                disabled: false,
            },
        );
        assert(out.deep_view() =~= before.push(interface_row(d[k as int])));
        assert(out.deep_view() =~= interface_rows(d).take(k + 1));
        k = k + 1;
    }
    assert(interface_rows(d).take(k as int) =~= interface_rows(d));
    out
}

fn desired_members(interfaces: &[InterfaceEntry]) -> (r: Vec<DesiredListMember>)
    ensures
        r.deep_view() == member_rows(interfaces.deep_view()),
{
    let ghost d = interfaces.deep_view();
    let mut out: Vec<DesiredListMember> = Vec::new();
    let mut k: usize = 0;
    while k < interfaces.len()
        invariant
            k <= interfaces@.len(),
            d == interfaces.deep_view(),
            out.deep_view() == member_rows(d).take(k as int),
        decreases interfaces@.len() - k,
    {
        let i = &interfaces[k];
        let ghost before = out.deep_view();
        assert(d[k as int] == i.deep_view());
        out.push(
            DesiredListMember {
                list: owned(LAN_LIST),
                interface: i.name.clone(),
                disabled: false,
            },
        );
        assert(out.deep_view() =~= before.push(member_row(d[k as int])));
        assert(out.deep_view() =~= member_rows(d).take(k + 1));
        k = k + 1;
    }
    assert(member_rows(d).take(k as int) =~= member_rows(d));
    out
}

/// An IPv4 address on an interface.
pub open spec fn ipv4_row(interface: Seq<char>, address: Seq<char>) -> DesiredIpAddressView {
    DesiredIpAddressView { address, interface, disabled: false }
}

/// An IPv6 address on an interface. None of them is handed out to a LAN.
pub open spec fn ipv6_row(interface: Seq<char>, address: Seq<char>) -> DesiredIpv6AddressView {
    DesiredIpv6AddressView { address, interface, advertise: false, disabled: false }
}

/// The IPv4 addresses among the first `n` addresses of a mesh interface: those without a colon.
pub open spec fn interface_ipv4(i: InterfaceEntryView, n: int) -> Seq<DesiredIpAddressView>
    decreases n,
{
    if n <= 0 {
        Seq::empty()
    } else if i.addresses[n - 1].contains(':') {
        interface_ipv4(i, n - 1)
    } else {
        interface_ipv4(i, n - 1).push(ipv4_row(i.name, i.addresses[n - 1]))
    }
}

/// The IPv6 addresses among the first `n` addresses of a mesh interface: those with a colon.
pub open spec fn interface_ipv6(i: InterfaceEntryView, n: int) -> Seq<DesiredIpv6AddressView>
    decreases n,
{
    if n <= 0 {
        Seq::empty()
    } else if i.addresses[n - 1].contains(':') {
        interface_ipv6(i, n - 1).push(ipv6_row(i.name, i.addresses[n - 1]))
    } else {
        interface_ipv6(i, n - 1)
    }
}

/// The IPv4 addresses of the first `n` mesh interfaces.
pub open spec fn mesh_ipv4(interfaces: Seq<InterfaceEntryView>, n: int) -> Seq<
    DesiredIpAddressView,
>
    decreases n,
{
    if n <= 0 {
        Seq::empty()
    } else {
        mesh_ipv4(interfaces, n - 1) + interface_ipv4(
            interfaces[n - 1],
            interfaces[n - 1].addresses.len() as int,
        )
    }
}

/// The IPv6 addresses of the first `n` mesh interfaces.
pub open spec fn mesh_ipv6(interfaces: Seq<InterfaceEntryView>, n: int) -> Seq<
    DesiredIpv6AddressView,
>
    decreases n,
{
    if n <= 0 {
        Seq::empty()
    } else {
        mesh_ipv6(interfaces, n - 1) + interface_ipv6(
            interfaces[n - 1],
            interfaces[n - 1].addresses.len() as int,
        )
    }
}

/// What the IPv4 addresses should be: the node's own on the loopback bridge, and those of the mesh
/// interfaces.
pub open spec fn ip_address_rows(interfaces: Seq<InterfaceEntryView>, own: Ipv4Addr) -> Seq<
    DesiredIpAddressView,
> {
    seq![ipv4_row(LOOPBACK_BRIDGE@, ipv4_text(own) + "/32"@)] + mesh_ipv4(
        interfaces,
        interfaces.len() as int,
    )
}

/// What the IPv6 addresses should be: the node's own on the loopback bridge, the first IPv6
/// address of a mesh interface there as well, and those of the mesh interfaces. OSPFv3 announces
/// the loopback as part of its area only if the bridge has a link-local address, and the mesh
/// interfaces carry the node's.
pub open spec fn ipv6_address_rows(interfaces: Seq<InterfaceEntryView>, own: Seq<u16>) -> Seq<
    DesiredIpv6AddressView,
> {
    let mesh = mesh_ipv6(interfaces, interfaces.len() as int);
    let loopback = seq![ipv6_row(LOOPBACK_BRIDGE@, ipv6_text(own) + "/128"@)];
    if mesh.len() > 0 {
        loopback.push(ipv6_row(LOOPBACK_BRIDGE@, mesh[0].address)) + mesh
    } else {
        loopback + mesh
    }
}

fn desired_ip_addresses(interfaces: &[InterfaceEntry], own: Ipv4Addr) -> (r: Vec<DesiredIpAddress>)
    ensures
        r.deep_view() == ip_address_rows(interfaces.deep_view(), own),
{
    let ghost d = interfaces.deep_view();
    let mut address = own.to_text();
    address.append("/32");
    let mut out: Vec<DesiredIpAddress> = Vec::new();
    out.push(DesiredIpAddress { address, interface: owned(LOOPBACK_BRIDGE), disabled: false });
    let ghost first = seq![ipv4_row(LOOPBACK_BRIDGE@, ipv4_text(own) + "/32"@)];
    assert(out.deep_view() =~= first);
    let mut k: usize = 0;
    while k < interfaces.len()
        invariant
            k <= interfaces@.len(),
            d == interfaces.deep_view(),
            out.deep_view() == first + mesh_ipv4(d, k as int),
        decreases interfaces@.len() - k,
    {
        let i = &interfaces[k];
        let ghost v = d[k as int];
        assert(v == i.deep_view());
        let mut n: usize = 0;
        assert(out.deep_view() =~= first + mesh_ipv4(d, k as int) + interface_ipv4(v, 0));
        while n < i.addresses.len()
            invariant
                n <= i.addresses@.len(),
                v == i.deep_view(),
                out.deep_view() == first + mesh_ipv4(d, k as int) + interface_ipv4(v, n as int),
            decreases i.addresses@.len() - n,
        {
            let ghost before = out.deep_view();
            assert(v.addresses[n as int] == i.addresses[n as int]@);
            if !has_char(i.addresses[n].as_str(), ':') {
                out.push(
                    DesiredIpAddress {
                        address: i.addresses[n].clone(),
                        interface: i.name.clone(),
                        disabled: false,
                    },
                );
                assert(out.deep_view() =~= before.push(ipv4_row(v.name, v.addresses[n as int])));
            }
            assert(out.deep_view() =~= first + mesh_ipv4(d, k as int) + interface_ipv4(
                v,
                n + 1,
            ));
            n = n + 1;
        }
        assert(out.deep_view() =~= first + mesh_ipv4(d, k + 1));
        k = k + 1;
    }
    out
}

fn mesh_ipv6_addresses(interfaces: &[InterfaceEntry]) -> (r: Vec<DesiredIpv6Address>)
    ensures
        r.deep_view() == mesh_ipv6(interfaces.deep_view(), interfaces@.len() as int),
{
    let ghost d = interfaces.deep_view();
    let mut out: Vec<DesiredIpv6Address> = Vec::new();
    let mut k: usize = 0;
    assert(out.deep_view() =~= mesh_ipv6(d, 0));
    while k < interfaces.len()
        invariant
            k <= interfaces@.len(),
            d == interfaces.deep_view(),
            out.deep_view() == mesh_ipv6(d, k as int),
        decreases interfaces@.len() - k,
    {
        let i = &interfaces[k];
        let ghost v = d[k as int];
        assert(v == i.deep_view());
        let mut n: usize = 0;
        assert(out.deep_view() =~= mesh_ipv6(d, k as int) + interface_ipv6(v, 0));
        while n < i.addresses.len()
            invariant
                n <= i.addresses@.len(),
                v == i.deep_view(),
                out.deep_view() == mesh_ipv6(d, k as int) + interface_ipv6(v, n as int),
            decreases i.addresses@.len() - n,
        {
            let ghost before = out.deep_view();
            assert(v.addresses[n as int] == i.addresses[n as int]@);
            if has_char(i.addresses[n].as_str(), ':') {
                out.push(
                    DesiredIpv6Address {
                        address: i.addresses[n].clone(),
                        interface: i.name.clone(),
                        advertise: false,
                        disabled: false,
                    },
                );
                assert(out.deep_view() =~= before.push(ipv6_row(v.name, v.addresses[n as int])));
            }
            assert(out.deep_view() =~= mesh_ipv6(d, k as int) + interface_ipv6(v, n + 1));
            n = n + 1;
        }
        k = k + 1;
    }
    out
}

fn desired_ipv6_addresses(interfaces: &[InterfaceEntry], own: &Ipv6Addr) -> (r: Vec<
    DesiredIpv6Address,
>)
    ensures
        r.deep_view() == ipv6_address_rows(interfaces.deep_view(), own.deep_view()),
{
    let mut mesh = mesh_ipv6_addresses(interfaces);
    let ghost m = mesh.deep_view();
    let mut address = own.to_text();
    address.append("/128");
    let mut out: Vec<DesiredIpv6Address> = Vec::new();
    out.push(
        DesiredIpv6Address {
            address,
            interface: owned(LOOPBACK_BRIDGE),
            advertise: false,
            disabled: false,
        },
    );
    let ghost first = seq![ipv6_row(LOOPBACK_BRIDGE@, ipv6_text(own.deep_view()) + "/128"@)];
    assert(out.deep_view() =~= first);
    if mesh.len() > 0 {
        assert(m[0] == mesh[0].deep_view());
        out.push(
            DesiredIpv6Address {
                address: mesh[0].address.clone(),
                interface: owned(LOOPBACK_BRIDGE),
                advertise: false,
                disabled: false,
            },
        );
        assert(out.deep_view() =~= first.push(ipv6_row(LOOPBACK_BRIDGE@, m[0].address)));
    }
    let ghost head = out.deep_view();
    out.append(&mut mesh);
    assert(out.deep_view() =~= head + m);
    out
}

/// What a peer of an interface should be. One without an endpoint is behind NAT: it is waited for,
/// and not kept alive.
pub open spec fn peer_row(interface: Seq<char>, p: PeerEntryView) -> Result<
    DesiredWireguardPeerView,
    ErrorView,
> {
    let allowed_address = match p.allowed_ips {
        Some(ips) => join(ips, ","@),
        None => "0.0.0.0/0,::/0"@,
    };
    let name = trim_prefixes(interface, "mesh-"@);
    match p.endpoint {
        None => Ok(
            DesiredWireguardPeerView {
                interface,
                name,
                public_key_b64: p.public_key,
                allowed_address,
                endpoint_address: None,
                endpoint_port: None,
                persistent_keepalive: None,
                disabled: false,
            },
        ),
        Some(endpoint) => match endpoint_of(endpoint) {
            Err(e) => Err(e),
            Ok((host, port)) => Ok(
                DesiredWireguardPeerView {
                    interface,
                    name,
                    public_key_b64: p.public_key,
                    allowed_address,
                    endpoint_address: Some(host),
                    endpoint_port: Some(port),
                    persistent_keepalive: Some(MESH_PERSISTENT_KEEPALIVE),
                    disabled: false,
                },
            ),
        },
    }
}

/// What the first `n` peers of an interface should be.
pub open spec fn interface_peers(i: InterfaceEntryView, n: int) -> Result<
    Seq<DesiredWireguardPeerView>,
    ErrorView,
>
    decreases n,
{
    if n <= 0 {
        Ok(Seq::empty())
    } else {
        match interface_peers(i, n - 1) {
            Err(e) => Err(e),
            Ok(before) => match peer_row(i.name, i.peers[n - 1]) {
                Err(e) => Err(e),
                Ok(row) => Ok(before.push(row)),
            },
        }
    }
}

/// What the peers of the first `n` interfaces should be.
pub open spec fn mesh_peers(interfaces: Seq<InterfaceEntryView>, n: int) -> Result<
    Seq<DesiredWireguardPeerView>,
    ErrorView,
>
    decreases n,
{
    if n <= 0 {
        Ok(Seq::empty())
    } else {
        match mesh_peers(interfaces, n - 1) {
            Err(e) => Err(e),
            Ok(before) => match interface_peers(
                interfaces[n - 1],
                interfaces[n - 1].peers.len() as int,
            ) {
                Err(e) => Err(e),
                Ok(rows) => Ok(before + rows),
            },
        }
    }
}

proof fn lemma_interface_peers_error(i: InterfaceEntryView, n: int, m: int)
    requires
        0 <= n <= m,
        interface_peers(i, n) is Err,
    ensures
        interface_peers(i, m) == interface_peers(i, n),
    decreases m,
{
    if n < m {
        lemma_interface_peers_error(i, n, m - 1);
    }
}

proof fn lemma_mesh_peers_error(interfaces: Seq<InterfaceEntryView>, n: int, m: int)
    requires
        0 <= n <= m,
        mesh_peers(interfaces, n) is Err,
    ensures
        mesh_peers(interfaces, m) == mesh_peers(interfaces, n),
    decreases m,
{
    if n < m {
        lemma_mesh_peers_error(interfaces, n, m - 1);
    }
}

fn desired_peer(interface: &String, p: &PeerEntry) -> (r: Result<DesiredWireguardPeer, Error>)
    ensures
        outcome(r) == peer_row(interface@, p.deep_view()),
{
    let allowed_address = match &p.allowed_ips {
        Some(ips) => joined(ips, ","),
        None => owned("0.0.0.0/0,::/0"),
    };
    let mut row = DesiredWireguardPeer {
        interface: interface.clone(),
        name: without_prefixes(interface.as_str(), "mesh-"),
        public_key_b64: p.public_key.clone(),
        allowed_address,
        endpoint_address: None,
        endpoint_port: None,
        persistent_keepalive: None,
        disabled: false,
    };
    if let Some(endpoint) = &p.endpoint {
        match parse_endpoint(endpoint.as_str()) {
            Ok((host, port)) => {
                row.endpoint_address = Some(host);
                row.endpoint_port = Some(port);
                row.persistent_keepalive = Some(MESH_PERSISTENT_KEEPALIVE);
            },
            Err(e) => return Err(e),
        }
    }
    Ok(row)
}

fn desired_interface_peers(i: &InterfaceEntry) -> (r: Result<Vec<DesiredWireguardPeer>, Error>)
    ensures
        outcome(r) == interface_peers(i.deep_view(), i.peers@.len() as int),
{
    let ghost v = i.deep_view();
    let mut out: Vec<DesiredWireguardPeer> = Vec::new();
    let mut n: usize = 0;
    assert(out.deep_view() =~= Seq::<DesiredWireguardPeerView>::empty());
    while n < i.peers.len()
        invariant
            n <= i.peers@.len(),
            v == i.deep_view(),
            interface_peers(v, n as int) == Ok::<_, ErrorView>(out.deep_view()),
        decreases i.peers@.len() - n,
    {
        let ghost before = out.deep_view();
        assert(v.peers[n as int] == i.peers[n as int].deep_view());
        match desired_peer(&i.name, &i.peers[n]) {
            Ok(row) => {
                let ghost seen = row.deep_view();
                out.push(row);
                assert(out.deep_view() =~= before.push(seen));
            },
            Err(e) => {
                proof {
                    lemma_interface_peers_error(v, n + 1, v.peers.len() as int);
                }
                return Err(e);
            },
        }
        n = n + 1;
    }
    Ok(out)
}

fn desired_peers(interfaces: &[InterfaceEntry]) -> (r: Result<Vec<DesiredWireguardPeer>, Error>)
    ensures
        outcome(r) == mesh_peers(interfaces.deep_view(), interfaces@.len() as int),
{
    let ghost d = interfaces.deep_view();
    let mut out: Vec<DesiredWireguardPeer> = Vec::new();
    let mut k: usize = 0;
    assert(out.deep_view() =~= Seq::<DesiredWireguardPeerView>::empty());
    while k < interfaces.len()
        invariant
            k <= interfaces@.len(),
            d == interfaces.deep_view(),
            mesh_peers(d, k as int) == Ok::<_, ErrorView>(out.deep_view()),
        decreases interfaces@.len() - k,
    {
        let ghost before = out.deep_view();
        assert(d[k as int] == interfaces[k as int].deep_view());
        assert(d[k as int].peers.len() == interfaces[k as int].peers@.len());
        match desired_interface_peers(&interfaces[k]) {
            Ok(rows) => {
                let ghost seen = rows.deep_view();
                let mut more = rows;
                out.append(&mut more);
                assert(out.deep_view() =~= before + seen);
            },
            Err(e) => {
                proof {
                    lemma_mesh_peers_error(d, k + 1, d.len() as int);
                }
                return Err(e);
            },
        }
        k = k + 1;
    }
    Ok(out)
}

/// `seen` with those of the first `n` mesh interfaces that match the pattern, each once.
pub open spec fn matched_by(
    pattern: Seq<char>,
    interfaces: Seq<InterfaceEntryView>,
    n: int,
    seen: Seq<Seq<char>>,
) -> Seq<Seq<char>>
    decreases n,
{
    if n <= 0 {
        seen
    } else {
        let before = matched_by(pattern, interfaces, n - 1, seen);
        let name = interfaces[n - 1].name;
        if glob(pattern, name) && !before.contains(name) {
            before.push(name)
        } else {
            before
        }
    }
}

/// The mesh interfaces that match one of the first `m` patterns, each once. The loopback bridge as
/// a pattern is passed over: it has a template of its own.
pub open spec fn matched(
    patterns: Seq<Seq<char>>,
    interfaces: Seq<InterfaceEntryView>,
    m: int,
) -> Seq<Seq<char>>
    decreases m,
{
    if m <= 0 {
        Seq::empty()
    } else {
        let before = matched(patterns, interfaces, m - 1);
        if patterns[m - 1] == LOOPBACK_BRIDGE@ {
            before
        } else {
            matched_by(patterns[m - 1], interfaces, interfaces.len() as int, before)
        }
    }
}

/// The OSPF template of the loopback bridge: announced, with no neighbours there.
pub open spec fn loopback_template() -> DesiredOspfInterfaceTemplateView {
    DesiredOspfInterfaceTemplateView {
        interfaces: LOOPBACK_BRIDGE@,
        area: OSPF_AREA@,
        type_: None,
        cost: None,
        hello_interval: None,
        dead_interval: None,
        passive: true,
        disabled: false,
    }
}

/// The OSPF template of a mesh interface.
pub open spec fn mesh_template(name: Seq<char>) -> DesiredOspfInterfaceTemplateView {
    DesiredOspfInterfaceTemplateView {
        interfaces: name,
        area: OSPF_AREA@,
        type_: Some("ptp"@),
        cost: Some(OSPF_PEER_COST),
        hello_interval: Some(OSPF_HELLO_INTERVAL@),
        dead_interval: Some(OSPF_DEAD_INTERVAL@),
        passive: false,
        disabled: false,
    }
}

/// What the OSPF templates should be.
pub open spec fn template_rows(
    patterns: Seq<Seq<char>>,
    interfaces: Seq<InterfaceEntryView>,
) -> Seq<DesiredOspfInterfaceTemplateView> {
    let names = matched(patterns, interfaces, patterns.len() as int);
    seq![loopback_template()] + Seq::new(names.len(), |k: int| mesh_template(names[k]))
}

fn matched_names(patterns: &[String], interfaces: &[InterfaceEntry]) -> (r: Vec<String>)
    ensures
        r.deep_view() == matched(
            patterns.deep_view(),
            interfaces.deep_view(),
            patterns@.len() as int,
        ),
{
    let ghost p = patterns.deep_view();
    let ghost d = interfaces.deep_view();
    let mut out: Vec<String> = Vec::new();
    let mut m: usize = 0;
    assert(out.deep_view() =~= Seq::<Seq<char>>::empty());
    while m < patterns.len()
        invariant
            m <= patterns@.len(),
            p == patterns.deep_view(),
            d == interfaces.deep_view(),
            out.deep_view() == matched(p, d, m as int),
        decreases patterns@.len() - m,
    {
        assert(p[m as int] == patterns[m as int]@);
        if !same(patterns[m].as_str(), LOOPBACK_BRIDGE) {
            let ghost before = out.deep_view();
            let mut n: usize = 0;
            while n < interfaces.len()
                invariant
                    n <= interfaces@.len(),
                    m < patterns@.len(),
                    p == patterns.deep_view(),
                    d == interfaces.deep_view(),
                    p[m as int] == patterns[m as int]@,
                    out.deep_view() == matched_by(p[m as int], d, n as int, before),
                decreases interfaces@.len() - n,
            {
                let ghost had = out.deep_view();
                assert(d[n as int] == interfaces[n as int].deep_view());
                if glob_match(patterns[m].as_str(), interfaces[n].name.as_str()) && !holds(
                    out.as_slice(),
                    interfaces[n].name.as_str(),
                ) {
                    out.push(interfaces[n].name.clone());
                    assert(out.deep_view() =~= had.push(d[n as int].name));
                }
                n = n + 1;
            }
        }
        m = m + 1;
    }
    out
}

fn desired_templates(patterns: &[String], interfaces: &[InterfaceEntry]) -> (r: Vec<
    DesiredOspfInterfaceTemplate,
>)
    ensures
        r.deep_view() == template_rows(patterns.deep_view(), interfaces.deep_view()),
{
    let names = matched_names(patterns, interfaces);
    let ghost d = names.deep_view();
    let ghost all = template_rows(patterns.deep_view(), interfaces.deep_view());
    let mut out: Vec<DesiredOspfInterfaceTemplate> = Vec::new();
    out.push(
        DesiredOspfInterfaceTemplate {
            interfaces: owned(LOOPBACK_BRIDGE),
            area: owned(OSPF_AREA),
            type_: None,
            cost: None,
            hello_interval: None,
            dead_interval: None,
            passive: true,
            disabled: false,
        },
    );
    assert(out.deep_view() =~= all.take(1));
    let mut k: usize = 0;
    while k < names.len()
        invariant
            k <= names@.len(),
            d == names.deep_view(),
            d == matched(patterns.deep_view(), interfaces.deep_view(), patterns@.len() as int),
            all == template_rows(patterns.deep_view(), interfaces.deep_view()),
            out.deep_view() == all.take(k + 1),
        decreases names@.len() - k,
    {
        let ghost before = out.deep_view();
        assert(d[k as int] == names[k as int]@);
        out.push(
            DesiredOspfInterfaceTemplate {
                interfaces: names[k].clone(),
                area: owned(OSPF_AREA),
                type_: Some(owned("ptp")),
                cost: Some(OSPF_PEER_COST),
                hello_interval: Some(owned(OSPF_HELLO_INTERVAL)),
                dead_interval: Some(owned(OSPF_DEAD_INTERVAL)),
                passive: false,
                disabled: false,
            },
        );
        assert(out.deep_view() =~= before.push(mesh_template(d[k as int])));
        assert(out.deep_view() =~= all.take(k + 2));
        k = k + 1;
    }
    assert(all.take(k + 1) =~= all);
    out
}

/// Whether one of the patterns matches the interface.
pub open spec fn is_direct(patterns: Seq<Seq<char>>, interface: Seq<char>) -> bool {
    exists|k: int| 0 <= k < patterns.len() && glob(#[trigger] patterns[k], interface)
}

/// Whether the prefix lies within one of the ranges.
pub open spec fn is_learned(ranges: Seq<Seq<char>>, prefix: Seq<char>) -> bool {
    exists|k: int|
        0 <= k < ranges.len() && contains(#[trigger] ranges[k], prefix) == Ok::<bool, ErrorView>(
            true,
        )
}

/// Whether a physically connected network is announced: it stands on a direct interface, or lies
/// within a range that is learned from. A range or a network that is none matches nothing.
pub open spec fn is_announced(router: RouterConfigView, connected: (Seq<char>, Seq<char>)) -> bool {
    is_direct(router.direct_interfaces, connected.0) || is_learned(router.learn, connected.1)
}

/// Those of the first `n` connected networks that are announced, in order.
pub open spec fn announced_connected(
    router: RouterConfigView,
    connected: Seq<(Seq<char>, Seq<char>)>,
    n: int,
) -> Seq<Seq<char>>
    decreases n,
{
    if n <= 0 {
        Seq::empty()
    } else {
        let before = announced_connected(router, connected, n - 1);
        if is_announced(router, connected[n - 1]) {
            inserted(before, connected[n - 1].1)
        } else {
            before
        }
    }
}

/// `s` with the first `n` networks that are announced in any case.
pub open spec fn with_announced(s: Seq<Seq<char>>, announce: Seq<AnnounceEntryView>, n: int) -> Seq<
    Seq<char>,
>
    decreases n,
{
    if n <= 0 {
        s
    } else {
        inserted(with_announced(s, announce, n - 1), announce[n - 1].net)
    }
}

/// The networks that are announced: the connected ones that qualify, those that are announced in
/// any case, and the node's own address.
pub open spec fn networks(
    router: RouterConfigView,
    connected: Seq<(Seq<char>, Seq<char>)>,
    own: Ipv4Addr,
) -> Seq<Seq<char>> {
    inserted(
        with_announced(
            announced_connected(router, connected, connected.len() as int),
            router.announce,
            router.announce.len() as int,
        ),
        ipv4_text(own) + "/32"@,
    )
}

/// The entry of a network. RouterOS answers a single host without its prefix length, so it is
/// written without.
pub open spec fn network_row(network: Seq<char>) -> DesiredAddressListEntryView {
    DesiredAddressListEntryView {
        list: BGP_NETWORKS_LIST@,
        address: match strip_suffix(network, "/32"@) {
            Some(host) => host,
            None => network,
        },
        disabled: false,
    }
}

/// What the entries of the address list should be.
pub open spec fn network_rows(networks: Seq<Seq<char>>) -> Seq<DesiredAddressListEntryView> {
    Seq::new(networks.len(), |k: int| network_row(networks[k]))
}

fn matches_any(patterns: &[String], interface: &str) -> (r: bool)
    ensures
        r == is_direct(patterns.deep_view(), interface@),
{
    let ghost p = patterns.deep_view();
    let mut k: usize = 0;
    while k < patterns.len()
        invariant
            k <= patterns@.len(),
            p == patterns.deep_view(),
            forall|j: int| 0 <= j < k ==> !glob(#[trigger] p[j], interface@),
        decreases patterns@.len() - k,
    {
        assert(p[k as int] == patterns[k as int]@);
        if glob_match(patterns[k].as_str(), interface) {
            assert(glob(p[k as int], interface@));
            return true;
        }
        k = k + 1;
    }
    false
}

fn within_any(ranges: &[String], prefix: &str) -> (r: bool)
    ensures
        r == is_learned(ranges.deep_view(), prefix@),
{
    let ghost p = ranges.deep_view();
    let mut k: usize = 0;
    while k < ranges.len()
        invariant
            k <= ranges@.len(),
            p == ranges.deep_view(),
            forall|j: int|
                0 <= j < k ==> contains(#[trigger] p[j], prefix@) != Ok::<bool, ErrorView>(true),
        decreases ranges@.len() - k,
    {
        assert(p[k as int] == ranges[k as int]@);
        if let Ok(true) = cidr_contains(ranges[k].as_str(), prefix) {
            assert(contains(p[k as int], prefix@) == Ok::<bool, ErrorView>(true));
            return true;
        }
        k = k + 1;
    }
    false
}

fn desired_networks(
    router: &RouterConfig,
    connected: &[(String, String)],
    own: Ipv4Addr,
) -> (r: Vec<DesiredAddressListEntry>)
    ensures
        r.deep_view() == network_rows(
            networks(router.deep_view(), connected.deep_view(), own),
        ),
{
    let ghost v = router.deep_view();
    let ghost c = connected.deep_view();
    let mut found: Vec<String> = Vec::new();
    let mut i: usize = 0;
    assert(found.deep_view() =~= Seq::<Seq<char>>::empty());
    while i < connected.len()
        invariant
            i <= connected@.len(),
            v == router.deep_view(),
            c == connected.deep_view(),
            found.deep_view() == announced_connected(v, c, i as int),
        decreases connected@.len() - i,
    {
        assert(c[i as int] == connected[i as int].deep_view());
        let (interface, prefix) = &connected[i];
        if matches_any(router.direct_interfaces.as_slice(), interface.as_str()) || within_any(
            router.learn.as_slice(),
            prefix.as_str(),
        ) {
            insert_sorted(&mut found, prefix.clone());
        }
        i = i + 1;
    }
    let ghost s = found.deep_view();
    let mut n: usize = 0;
    while n < router.announce.len()
        invariant
            n <= router.announce@.len(),
            v == router.deep_view(),
            found.deep_view() == with_announced(s, v.announce, n as int),
        decreases router.announce@.len() - n,
    {
        assert(v.announce[n as int] == router.announce[n as int].deep_view());
        insert_sorted(&mut found, router.announce[n].net.clone());
        n = n + 1;
    }
    let mut own_network = own.to_text();
    own_network.append("/32");
    insert_sorted(&mut found, own_network);
    let ghost all = found.deep_view();
    let mut out: Vec<DesiredAddressListEntry> = Vec::new();
    let mut k: usize = 0;
    assert(out.deep_view() =~= network_rows(all).take(0));
    while k < found.len()
        invariant
            k <= found@.len(),
            all == found.deep_view(),
            out.deep_view() == network_rows(all).take(k as int),
        decreases found@.len() - k,
    {
        let ghost before = out.deep_view();
        assert(all[k as int] == found[k as int]@);
        let address = match without_suffix(found[k].as_str(), "/32") {
            Some(host) => host,
            None => found[k].clone(),
        };
        out.push(
            DesiredAddressListEntry {
                list: owned(BGP_NETWORKS_LIST),
                address,
                disabled: false,
            },
        );
        assert(out.deep_view() =~= before.push(network_row(all[k as int])));
        assert(out.deep_view() =~= network_rows(all).take(k + 1));
        k = k + 1;
    }
    assert(network_rows(all).take(k as int) =~= network_rows(all));
    out
}

/// What the connection to a BGP peer should be.
pub open spec fn connection_row(own: Seq<u16>, peer: BgpPeerEntryView) -> Result<
    DesiredBgpConnectionView,
    ErrorView,
> {
    match parse_ipv6(peer.address) {
        None => Err(ErrorView::BgpPeerAddress { name: peer.name, address: peer.address }),
        Some(remote_address) => Ok(
            DesiredBgpConnectionView {
                name: "bgp-"@ + peer.name,
                instance: BGP_INSTANCE@,
                local_address: own,
                local_role: "ibgp"@,
                remote_address,
                multihop: true,
                afi: BGP_AFI_IPV4@,
                output_network: BGP_NETWORKS_LIST@,
                disabled: false,
            },
        ),
    }
}

/// What the connections to the first `n` BGP peers should be.
pub open spec fn connection_rows(own: Seq<u16>, peers: Seq<BgpPeerEntryView>, n: int) -> Result<
    Seq<DesiredBgpConnectionView>,
    ErrorView,
>
    decreases n,
{
    if n <= 0 {
        Ok(Seq::empty())
    } else {
        match connection_rows(own, peers, n - 1) {
            Err(e) => Err(e),
            Ok(before) => match connection_row(own, peers[n - 1]) {
                Err(e) => Err(e),
                Ok(row) => Ok(before.push(row)),
            },
        }
    }
}

proof fn lemma_connections_error(own: Seq<u16>, peers: Seq<BgpPeerEntryView>, n: int, m: int)
    requires
        0 <= n <= m,
        connection_rows(own, peers, n) is Err,
    ensures
        connection_rows(own, peers, m) == connection_rows(own, peers, n),
    decreases m,
{
    if n < m {
        lemma_connections_error(own, peers, n, m - 1);
    }
}

fn desired_connections(own: &Ipv6Addr, peers: &[BgpPeerEntry]) -> (r: Result<
    Vec<DesiredBgpConnection>,
    Error,
>)
    ensures
        outcome(r) == connection_rows(own.deep_view(), peers.deep_view(), peers@.len() as int),
{
    let ghost d = peers.deep_view();
    let mut out: Vec<DesiredBgpConnection> = Vec::new();
    let mut n: usize = 0;
    assert(out.deep_view() =~= Seq::<DesiredBgpConnectionView>::empty());
    while n < peers.len()
        invariant
            n <= peers@.len(),
            d == peers.deep_view(),
            connection_rows(own.deep_view(), d, n as int) == Ok::<_, ErrorView>(out.deep_view()),
        decreases peers@.len() - n,
    {
        let ghost before = out.deep_view();
        let peer = &peers[n];
        assert(d[n as int] == peer.deep_view());
        match Ipv6Addr::parse(peer.address.as_str()) {
            Some(remote_address) => {
                let mut name = owned("bgp-");
                name.append(peer.name.as_str());
                let row = DesiredBgpConnection {
                    name,
                    instance: owned(BGP_INSTANCE),
                    local_address: *own,
                    local_role: owned("ibgp"),
                    remote_address,
                    multihop: true,
                    afi: owned(BGP_AFI_IPV4),
                    output_network: owned(BGP_NETWORKS_LIST),
                    disabled: false,
                };
                let ghost seen = row.deep_view();
                out.push(row);
                assert(out.deep_view() =~= before.push(seen));
            },
            None => {
                proof {
                    lemma_connections_error(own.deep_view(), d, n + 1, d.len() as int);
                }
                return Err(
                    Error::BgpPeerAddress {
                        name: peer.name.clone(),
                        address: peer.address.clone(),
                    },
                );
            },
        }
        n = n + 1;
    }
    Ok(out)
}

/// What the device should look like, or what is wrong with the configuration: first its loopback
/// entries, then the peers' endpoints, then the BGP peers' addresses.
pub open spec fn desired_of(
    awg: AwgConfigView,
    router: RouterConfigView,
    connected: Seq<(Seq<char>, Seq<char>)>,
) -> Result<DesiredStateView, ErrorView> {
    match loopbacks_of(router.node.loopback_addresses) {
        Err(e) => Err(e),
        Ok((v4, v6)) => match mesh_peers(awg.interfaces, awg.interfaces.len() as int) {
            Err(e) => Err(e),
            Ok(peers) => match connection_rows(
                v6,
                router.bgp_peers,
                router.bgp_peers.len() as int,
            ) {
                Err(e) => Err(e),
                Ok(connections) => Ok(
                    DesiredStateView {
                        wireguard_interfaces: interface_rows(awg.interfaces),
                        ip_addresses: ip_address_rows(awg.interfaces, v4),
                        ip_v6_addresses: ipv6_address_rows(awg.interfaces, v6),
                        wireguard_peers: peers,
                        list_members: member_rows(awg.interfaces),
                        loopback_bridge: DesiredBridgeView {
                            name: LOOPBACK_BRIDGE@,
                            disabled: false,
                        },
                        ospf_instance: DesiredOspfInstanceView {
                            name: OSPF_INSTANCE@,
                            version: 3,
                            router_id: v4,
                            redistribute_connected: true,
                            disabled: false,
                        },
                        ospf_area: DesiredOspfAreaView {
                            name: OSPF_AREA@,
                            area_id: "0.0.0.0"@,
                            instance: OSPF_INSTANCE@,
                            disabled: false,
                        },
                        ospf_interface_templates: template_rows(
                            router.ospf_interfaces,
                            awg.interfaces,
                        ),
                        bgp_networks: network_rows(networks(router, connected, v4)),
                        bgp_instance: DesiredBgpInstanceView {
                            name: BGP_INSTANCE@,
                            as_number: router.bgp_as,
                            router_id: v4,
                            routing_table: "main"@,
                            disabled: false,
                        },
                        bgp_connections: connections,
                    },
                ),
            },
        },
    }
}

/// What the device should look like, where `physically_connected` are the networks that it has
/// now, each behind the interface that it stands on.
pub fn desired_state(
    awg: &AwgConfig,
    router: &RouterConfig,
    physically_connected: &[(String, String)],
) -> (r: Result<DesiredState, Error>)
    ensures
        outcome(r) == desired_of(
            awg.deep_view(),
            router.deep_view(),
            physically_connected.deep_view(),
        ),
{
    let (own_loopback, own_ipv6_loopback) = match own_loopbacks(router) {
        Ok(v) => v,
        Err(e) => return Err(e),
    };
    let interfaces = awg.interfaces.as_slice();
    let wireguard_peers = match desired_peers(interfaces) {
        Ok(v) => v,
        Err(e) => return Err(e),
    };
    let bgp_connections = match desired_connections(
        &own_ipv6_loopback,
        router.bgp_peers.as_slice(),
    ) {
        Ok(v) => v,
        Err(e) => return Err(e),
    };
    Ok(
        DesiredState {
            wireguard_interfaces: desired_interfaces(interfaces),
            ip_addresses: desired_ip_addresses(interfaces, own_loopback),
            ip_v6_addresses: desired_ipv6_addresses(interfaces, &own_ipv6_loopback),
            wireguard_peers,
            list_members: desired_members(interfaces),
            loopback_bridge: DesiredBridge { name: owned(LOOPBACK_BRIDGE), disabled: false },
            ospf_instance: DesiredOspfInstance {
                name: owned(OSPF_INSTANCE),
                version: 3,
                router_id: own_loopback,
                redistribute_connected: true,
                disabled: false,
            },
            ospf_area: DesiredOspfArea {
                name: owned(OSPF_AREA),
                area_id: owned("0.0.0.0"),
                instance: owned(OSPF_INSTANCE),
                disabled: false,
            },
            ospf_interface_templates: desired_templates(
                router.ospf_interfaces.as_slice(),
                interfaces,
            ),
            bgp_networks: desired_networks(router, physically_connected, own_loopback),
            bgp_instance: DesiredBgpInstance {
                name: owned(BGP_INSTANCE),
                as_number: router.bgp_as,
                router_id: own_loopback,
                routing_table: owned("main"),
                disabled: false,
            },
            bgp_connections,
        },
    )
}

/// Whether one of the connected networks is `x` and is announced.
pub open spec fn has_announced(
    router: RouterConfigView,
    connected: Seq<(Seq<char>, Seq<char>)>,
    x: Seq<char>,
) -> bool {
    exists|k: int|
        0 <= k < connected.len() && (#[trigger] connected[k]).1 == x && is_announced(
            router,
            connected[k],
        )
}

/// Whether `x` is announced in any case.
pub open spec fn is_fixed(announce: Seq<AnnounceEntryView>, x: Seq<char>) -> bool {
    exists|k: int| 0 <= k < announce.len() && (#[trigger] announce[k]).net == x
}

/// The networks that are announced are the connected ones that qualify, those that are announced
/// in any case and the node's own address, and nothing else, each once and in order.
pub proof fn law_networks(
    router: RouterConfigView,
    connected: Seq<(Seq<char>, Seq<char>)>,
    own: Ipv4Addr,
)
    ensures
        is_sorted(networks(router, connected, own)),
        forall|x: Seq<char>| #[trigger]
            networks(router, connected, own).contains(x) <==> {
                ||| x == ipv4_text(own) + "/32"@
                ||| is_fixed(router.announce, x)
                ||| has_announced(router, connected, x)
            },
{
    let n = connected.len() as int;
    let m = router.announce.len() as int;
    lemma_announced_connected(router, connected, n);
    let s = announced_connected(router, connected, n);
    lemma_with_announced(s, router.announce, m);
    law_inserted(with_announced(s, router.announce, m), ipv4_text(own) + "/32"@);
    assert(connected.take(n) =~= connected);
    assert(router.announce.take(m) =~= router.announce);
}

proof fn lemma_announced_connected(
    router: RouterConfigView,
    connected: Seq<(Seq<char>, Seq<char>)>,
    n: int,
)
    requires
        0 <= n <= connected.len(),
    ensures
        is_sorted(announced_connected(router, connected, n)),
        forall|x: Seq<char>| #[trigger]
            announced_connected(router, connected, n).contains(x) <==> has_announced(
                router,
                connected.take(n),
                x,
            ),
    decreases n,
{
    let r = announced_connected(router, connected, n);
    let t = connected.take(n);
    if n > 0 {
        lemma_announced_connected(router, connected, n - 1);
        let before = announced_connected(router, connected, n - 1);
        let u = connected.take(n - 1);
        law_inserted(before, connected[n - 1].1);
        assert forall|x: Seq<char>| #[trigger] r.contains(x) implies has_announced(
            router,
            t,
            x,
        ) by {
            if before.contains(x) {
                let k = choose|k: int|
                    0 <= k < u.len() && (#[trigger] u[k]).1 == x && is_announced(router, u[k]);
                assert(t[k] == u[k]);
            } else {
                assert(t[n - 1].1 == x);
            }
        }
        assert forall|x: Seq<char>| has_announced(router, t, x) implies #[trigger] r.contains(
            x,
        ) by {
            let k = choose|k: int|
                0 <= k < t.len() && (#[trigger] t[k]).1 == x && is_announced(router, t[k]);
            if k < n - 1 {
                assert(u[k] == t[k]);
                assert(has_announced(router, u, x));
                assert(before.contains(x));
            }
        }
    }
}

proof fn lemma_with_announced(s: Seq<Seq<char>>, announce: Seq<AnnounceEntryView>, n: int)
    requires
        0 <= n <= announce.len(),
        is_sorted(s),
    ensures
        is_sorted(with_announced(s, announce, n)),
        forall|x: Seq<char>| #[trigger]
            with_announced(s, announce, n).contains(x) <==> s.contains(x) || is_fixed(
                announce.take(n),
                x,
            ),
    decreases n,
{
    let r = with_announced(s, announce, n);
    let t = announce.take(n);
    if n > 0 {
        lemma_with_announced(s, announce, n - 1);
        let before = with_announced(s, announce, n - 1);
        let u = announce.take(n - 1);
        law_inserted(before, announce[n - 1].net);
        assert forall|x: Seq<char>| #[trigger] r.contains(x) implies s.contains(x) || is_fixed(
            t,
            x,
        ) by {
            if before.contains(x) {
                if !s.contains(x) {
                    let k = choose|k: int| 0 <= k < u.len() && (#[trigger] u[k]).net == x;
                    assert(t[k] == u[k]);
                }
            } else {
                assert(t[n - 1].net == x);
            }
        }
        assert forall|x: Seq<char>| s.contains(x) || is_fixed(t, x) implies #[trigger] r.contains(
            x,
        ) by {
            if s.contains(x) {
                assert(before.contains(x));
            } else {
                let k = choose|k: int| 0 <= k < t.len() && (#[trigger] t[k]).net == x;
                if k < n - 1 {
                    assert(u[k] == t[k]);
                    assert(is_fixed(u, x));
                    assert(before.contains(x));
                }
            }
        }
    }
}

/// The node's own address is announced whatever else is, by its address alone.
pub proof fn law_own_address_is_announced(
    awg: AwgConfigView,
    router: RouterConfigView,
    connected: Seq<(Seq<char>, Seq<char>)>,
)
    ensures
        desired_of(awg, router, connected) matches Ok(state) ==> exists|k: int|
            0 <= k < state.bgp_networks.len() && (#[trigger] state.bgp_networks[k]).address
                == ipv4_text(state.ospf_instance.router_id),
{
    if let Ok(state) = desired_of(awg, router, connected) {
        let own = state.ospf_instance.router_id;
        let all = networks(router, connected, own);
        let x = ipv4_text(own) + "/32"@;
        law_networks(router, connected, own);
        assert(all.contains(x));
        let k = choose|k: int| 0 <= k < all.len() && all[k] == x;
        assert("/32"@.is_suffix_of(x)) by {
            assert(x.subrange(x.len() - "/32"@.len(), x.len() as int) =~= "/32"@);
        }
        assert(x.take(x.len() - "/32"@.len()) =~= ipv4_text(own));
        assert(state.bgp_networks[k].address == ipv4_text(own));
    }
}

/// Whether the interface matches one of the first `m` patterns other than the loopback bridge.
pub open spec fn is_matched(patterns: Seq<Seq<char>>, name: Seq<char>, m: int) -> bool {
    exists|k: int|
        0 <= k < m && #[trigger] patterns[k] != LOOPBACK_BRIDGE@ && glob(patterns[k], name)
}

/// Whether one of the mesh interfaces has this name.
pub open spec fn is_mesh_interface(interfaces: Seq<InterfaceEntryView>, name: Seq<char>) -> bool {
    exists|k: int| 0 <= k < interfaces.len() && (#[trigger] interfaces[k]).name == name
}

/// OSPF runs on exactly the mesh interfaces that match a pattern, and no interface has two
/// templates.
pub proof fn law_matched(patterns: Seq<Seq<char>>, interfaces: Seq<InterfaceEntryView>)
    ensures
        matched(patterns, interfaces, patterns.len() as int).no_duplicates(),
        forall|name: Seq<char>| #[trigger]
            matched(patterns, interfaces, patterns.len() as int).contains(name)
                <==> is_mesh_interface(interfaces, name) && is_matched(
                patterns,
                name,
                patterns.len() as int,
            ),
{
    lemma_matched(patterns, interfaces, patterns.len() as int);
}

proof fn lemma_matched(patterns: Seq<Seq<char>>, interfaces: Seq<InterfaceEntryView>, m: int)
    requires
        0 <= m <= patterns.len(),
    ensures
        matched(patterns, interfaces, m).no_duplicates(),
        forall|name: Seq<char>| #[trigger]
            matched(patterns, interfaces, m).contains(name) <==> is_mesh_interface(
                interfaces,
                name,
            ) && is_matched(patterns, name, m),
    decreases m,
{
    let r = matched(patterns, interfaces, m);
    if m > 0 {
        lemma_matched(patterns, interfaces, m - 1);
        let before = matched(patterns, interfaces, m - 1);
        let p = patterns[m - 1];
        if p != LOOPBACK_BRIDGE@ {
            lemma_matched_by(p, interfaces, interfaces.len() as int, before);
            assert(interfaces.take(interfaces.len() as int) =~= interfaces);
        }
        assert forall|name: Seq<char>| #[trigger] r.contains(name) implies is_mesh_interface(
            interfaces,
            name,
        ) && is_matched(patterns, name, m) by {
            if before.contains(name) {
                let k = choose|k: int|
                    0 <= k < m - 1 && #[trigger] patterns[k] != LOOPBACK_BRIDGE@ && glob(
                        patterns[k],
                        name,
                    );
                assert(patterns[k] != LOOPBACK_BRIDGE@);
            } else {
                assert(patterns[m - 1] == p);
            }
        }
        assert forall|name: Seq<char>|
            is_mesh_interface(interfaces, name) && is_matched(
                patterns,
                name,
                m,
            ) implies #[trigger] r.contains(name) by {
            let k = choose|k: int|
                0 <= k < m && #[trigger] patterns[k] != LOOPBACK_BRIDGE@ && glob(
                    patterns[k],
                    name,
                );
            if k < m - 1 {
                assert(is_matched(patterns, name, m - 1));
                assert(before.contains(name));
            }
        }
    } else {
        assert forall|name: Seq<char>| is_matched(patterns, name, m) implies false by {}
    }
}

proof fn lemma_matched_by(
    pattern: Seq<char>,
    interfaces: Seq<InterfaceEntryView>,
    n: int,
    seen: Seq<Seq<char>>,
)
    requires
        0 <= n <= interfaces.len(),
        seen.no_duplicates(),
    ensures
        matched_by(pattern, interfaces, n, seen).no_duplicates(),
        forall|name: Seq<char>| #[trigger]
            matched_by(pattern, interfaces, n, seen).contains(name) <==> seen.contains(name) || (
            is_mesh_interface(interfaces.take(n), name) && glob(pattern, name)),
    decreases n,
{
    let r = matched_by(pattern, interfaces, n, seen);
    let t = interfaces.take(n);
    if n > 0 {
        lemma_matched_by(pattern, interfaces, n - 1, seen);
        let before = matched_by(pattern, interfaces, n - 1, seen);
        let u = interfaces.take(n - 1);
        let last = interfaces[n - 1].name;
        assert forall|name: Seq<char>| #[trigger] r.contains(name) implies seen.contains(name) || (
        is_mesh_interface(t, name) && glob(pattern, name)) by {
            let k = choose|k: int| 0 <= k < r.len() && r[k] == name;
            if k < before.len() {
                assert(before[k] == name);
                assert(before.contains(name));
                if !seen.contains(name) {
                    let j = choose|j: int| 0 <= j < u.len() && (#[trigger] u[j]).name == name;
                    assert(t[j] == u[j]);
                }
            } else {
                assert(t[n - 1].name == name);
            }
        }
        assert forall|name: Seq<char>|
            seen.contains(name) || (is_mesh_interface(t, name) && glob(
                pattern,
                name,
            )) implies #[trigger] r.contains(name) by {
            if !before.contains(name) {
                let j = choose|j: int| 0 <= j < t.len() && (#[trigger] t[j]).name == name;
                if j < n - 1 {
                    assert(u[j] == t[j]);
                    assert(is_mesh_interface(u, name));
                } else {
                    assert(r[before.len() as int] == name);
                }
            } else {
                let k = choose|k: int| 0 <= k < before.len() && before[k] == name;
                assert(r[k] == name);
            }
        }
    }
}

/// Whether a peer's row is sound: it has an endpoint, its port and a keepalive together or none of
/// them, and a host of which no character can spoil a command.
pub open spec fn is_sound_peer(p: DesiredWireguardPeerView) -> bool {
    &&& p.endpoint_address is Some == p.endpoint_port is Some
    &&& p.endpoint_address is Some == p.persistent_keepalive is Some
    &&& p.endpoint_address matches Some(host) ==> endpoint_fault(host) is None
}

/// Every peer's row is sound.
pub proof fn law_peers_are_sound(
    awg: AwgConfigView,
    router: RouterConfigView,
    connected: Seq<(Seq<char>, Seq<char>)>,
)
    ensures
        desired_of(awg, router, connected) matches Ok(state) ==> forall|k: int|
            0 <= k < state.wireguard_peers.len() ==> is_sound_peer(
                #[trigger] state.wireguard_peers[k],
            ),
{
    lemma_mesh_peers_sound(awg.interfaces, awg.interfaces.len() as int);
}

proof fn lemma_mesh_peers_sound(interfaces: Seq<InterfaceEntryView>, n: int)
    ensures
        mesh_peers(interfaces, n) matches Ok(rows) ==> forall|k: int|
            0 <= k < rows.len() ==> is_sound_peer(#[trigger] rows[k]),
    decreases n,
{
    if n > 0 {
        lemma_mesh_peers_sound(interfaces, n - 1);
        lemma_interface_peers_sound(interfaces[n - 1], interfaces[n - 1].peers.len() as int);
    }
}

proof fn lemma_interface_peers_sound(i: InterfaceEntryView, n: int)
    ensures
        interface_peers(i, n) matches Ok(rows) ==> forall|k: int|
            0 <= k < rows.len() ==> is_sound_peer(#[trigger] rows[k]),
    decreases n,
{
    if n > 0 {
        lemma_interface_peers_sound(i, n - 1);
    }
}

/// A peer without an endpoint is waited for: it has no port and is not kept alive.
pub proof fn law_nat_peer(interface: Seq<char>, p: PeerEntryView)
    requires
        p.endpoint is None,
    ensures
        peer_row(interface, p) matches Ok(row) && row.endpoint_address is None
            && row.endpoint_port is None && row.persistent_keepalive is None,
{
}

} // verus!
