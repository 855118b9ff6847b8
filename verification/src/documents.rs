//! The node's configuration: what the `awg` and `router` documents of its patch file say.

use vstd::prelude::*;

verus! {

/// A peer of a WireGuard interface.
#[derive(Debug, PartialEq, Eq)]
pub struct PeerEntry {
    /// The peer's public key.
    pub public_key: String,
    /// Where the peer is reached, `host:port`; a peer behind NAT has none.
    pub endpoint: Option<String>,
    /// What is routed to the peer; everything if not given.
    pub allowed_ips: Option<Vec<String>>,
}

/// What a [`PeerEntry`] is.
pub struct PeerEntryView {
    pub public_key: Seq<char>,
    pub endpoint: Option<Seq<char>>,
    pub allowed_ips: Option<Seq<Seq<char>>>,
}

impl DeepView for PeerEntry {
    type V = PeerEntryView;

    open spec fn deep_view(&self) -> PeerEntryView {
        PeerEntryView {
            public_key: self.public_key@,
            endpoint: self.endpoint.deep_view(),
            allowed_ips: self.allowed_ips.deep_view(),
        }
    }
}

/// A WireGuard interface of the mesh.
#[derive(Debug, PartialEq, Eq)]
pub struct InterfaceEntry {
    /// The interface's name.
    pub name: String,
    /// The UDP port that it listens on.
    pub listen_port: u16,
    /// Its addresses, of either family, with their prefix lengths.
    pub addresses: Vec<String>,
    /// Its private key.
    pub private_key: String,
    /// Its peers.
    pub peers: Vec<PeerEntry>,
}

/// What a [`InterfaceEntry`] is.
pub struct InterfaceEntryView {
    pub name: Seq<char>,
    pub listen_port: u16,
    pub addresses: Seq<Seq<char>>,
    pub private_key: Seq<char>,
    pub peers: Seq<PeerEntryView>,
}

impl DeepView for InterfaceEntry {
    type V = InterfaceEntryView;

    open spec fn deep_view(&self) -> InterfaceEntryView {
        InterfaceEntryView {
            name: self.name@,
            listen_port: self.listen_port,
            addresses: self.addresses.deep_view(),
            private_key: self.private_key@,
            peers: self.peers.deep_view(),
        }
    }
}

/// What the node's `awg` document says.
#[derive(Debug, PartialEq, Eq)]
pub struct AwgConfig {
    /// The WireGuard interfaces.
    pub interfaces: Vec<InterfaceEntry>,
}

/// What a [`AwgConfig`] is.
pub struct AwgConfigView {
    pub interfaces: Seq<InterfaceEntryView>,
}

impl DeepView for AwgConfig {
    type V = AwgConfigView;

    open spec fn deep_view(&self) -> AwgConfigView {
        AwgConfigView {
            interfaces: self.interfaces.deep_view(),
        }
    }
}

impl Default for AwgConfig {
    /// No interfaces.
    fn default() -> (r: AwgConfig)
        ensures
            r.interfaces@.len() == 0,
    {
        AwgConfig { interfaces: Vec::new() }
    }
}

/// Who the node is.
#[derive(Debug, PartialEq, Eq)]
pub struct NodeIdentity {
    /// The node's own addresses, one of each family, with their prefix lengths.
    pub loopback_addresses: Vec<String>,
}

/// What a [`NodeIdentity`] is.
pub struct NodeIdentityView {
    pub loopback_addresses: Seq<Seq<char>>,
}

impl DeepView for NodeIdentity {
    type V = NodeIdentityView;

    open spec fn deep_view(&self) -> NodeIdentityView {
        NodeIdentityView {
            loopback_addresses: self.loopback_addresses.deep_view(),
        }
    }
}

/// A node that BGP is spoken with.
#[derive(Debug, PartialEq, Eq)]
pub struct BgpPeerEntry {
    /// The node's name.
    pub name: String,
    /// The node's own IPv6 address.
    pub address: String,
}

/// What a [`BgpPeerEntry`] is.
pub struct BgpPeerEntryView {
    pub name: Seq<char>,
    pub address: Seq<char>,
}

impl DeepView for BgpPeerEntry {
    type V = BgpPeerEntryView;

    open spec fn deep_view(&self) -> BgpPeerEntryView {
        BgpPeerEntryView {
            name: self.name@,
            address: self.address@,
        }
    }
}

/// A network that is announced in any case.
#[derive(Debug, PartialEq, Eq)]
pub struct AnnounceEntry {
    /// The network.
    pub net: String,
}

/// What a [`AnnounceEntry`] is.
pub struct AnnounceEntryView {
    pub net: Seq<char>,
}

impl DeepView for AnnounceEntry {
    type V = AnnounceEntryView;

    open spec fn deep_view(&self) -> AnnounceEntryView {
        AnnounceEntryView {
            net: self.net@,
        }
    }
}

/// What the node's `router` document says.
#[derive(Debug, PartialEq, Eq)]
pub struct RouterConfig {
    /// Who the node is.
    pub node: NodeIdentity,
    /// The number of the autonomous system.
    pub bgp_as: u32,
    /// The nodes that BGP is spoken with.
    pub bgp_peers: Vec<BgpPeerEntry>,
    /// Patterns of the interfaces that OSPF runs on.
    pub ospf_interfaces: Vec<String>,
    /// Patterns of the interfaces whose networks are announced.
    pub direct_interfaces: Vec<String>,
    /// Networks within which connected networks are announced.
    pub learn: Vec<String>,
    /// Networks that are announced in any case.
    pub announce: Vec<AnnounceEntry>,
}

/// What a [`RouterConfig`] is.
pub struct RouterConfigView {
    pub node: NodeIdentityView,
    pub bgp_as: u32,
    pub bgp_peers: Seq<BgpPeerEntryView>,
    pub ospf_interfaces: Seq<Seq<char>>,
    pub direct_interfaces: Seq<Seq<char>>,
    pub learn: Seq<Seq<char>>,
    pub announce: Seq<AnnounceEntryView>,
}

impl DeepView for RouterConfig {
    type V = RouterConfigView;

    open spec fn deep_view(&self) -> RouterConfigView {
        RouterConfigView {
            node: self.node.deep_view(),
            bgp_as: self.bgp_as,
            bgp_peers: self.bgp_peers.deep_view(),
            ospf_interfaces: self.ospf_interfaces.deep_view(),
            direct_interfaces: self.direct_interfaces.deep_view(),
            learn: self.learn.deep_view(),
            announce: self.announce.deep_view(),
        }
    }
}

} // verus!
