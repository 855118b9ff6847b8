//! The order in which a device is converged, as a machine that is fed the device's answers.
//!
//! Table by table it says what to read next, takes the rows that were read, and gives the requests
//! that make the table as desired:
//!
//! 1. `/interface/list/member`, stale rows only, before any interface goes;
//! 2. `/interface/wireguard`;
//! 3. `/interface/bridge`, before it can be given an address;
//! 4. `/ip/address`;
//! 5. `/ipv6/address`;
//! 6. `/interface/wireguard/peers`;
//! 7. `/interface/list/member`, new and changed rows, now that the interfaces are there;
//! 8. `/routing/ospf/instance`;
//! 9. `/routing/ospf/area`;
//! 10. `/routing/ospf/interface-template`;
//! 11. `/ip/firewall/address-list`;
//! 12. `/routing/bgp/instance`;
//! 13. `/routing/bgp/connection`.

use crate::apply::{
    apply_bgp_connections, apply_bgp_instance, apply_bgp_networks, apply_ip_addresses,
    apply_ipv6_addresses, apply_list_members, apply_loopback_bridge, apply_ospf_area,
    apply_ospf_instance, apply_ospf_interface_templates, apply_wireguard_interfaces,
    apply_wireguard_peers, exclusive_requests, law_plan_requests_are_plainly_named,
    law_singleton_requests_are_plainly_named, shared_requests, singleton_requests, Writable,
    ADDRESS_LIST_PATH, BGP_CONNECTION_PATH, BGP_INSTANCE_PATH, BRIDGE_PATH, IPV6_ADDRESS_PATH,
    IP_ADDRESS_PATH, LIST_MEMBER_PATH, OSPF_AREA_PATH, OSPF_INSTANCE_PATH, OSPF_TEMPLATE_PATH,
    WIREGUARD_PATH, WIREGUARD_PEERS_PATH,
};
use crate::config::{DesiredState, DesiredStateView, BGP_NETWORKS_LIST};
use crate::diff::{
    bgp_connections, bgp_networks, ip_addresses, ipv6_addresses, list_members,
    ospf_interface_templates, singleton, singleton_of, wireguard_interfaces, wireguard_peers,
    BgpConnections, BgpNetworks, IpAddresses, Ipv6Addresses, ListMembers, OspfInterfaceTemplates,
    WireguardInterfaces, WireguardPeers,
};
use crate::error::{Error, ErrorView};
use crate::mikrotik::{
    bgp_instance_of, bridge_of, entry_is_on, ip_address_is_ours, ipv6_address_is_ours, kept,
    list_member_is_ours, ospf_area_of, ospf_instance_of, read_bgp_connections, read_bgp_instance,
    read_bgp_networks, read_ip_addresses, read_ipv6_addresses, read_list_members,
    read_loopback_bridge, read_ospf_area, read_ospf_instance, read_ospf_interface_templates,
    read_wireguard_interfaces, read_wireguard_peers, singleton_row, table_of,
};
use crate::plan::{plan_of, Plan, PlanView, Table};
use crate::report::{
    empty_report, law_empty_plan_is_silent, recorded, recorded_singleton, ConvergeReport,
    ReportView,
};
use crate::request::{plainly_named, Request, RequestView};
use crate::row::{Row, RowView};
use crate::rows::{
    CurrentAddressListEntry, CurrentBgpConnection, CurrentIpAddress, CurrentIpv6Address,
    CurrentListMember, CurrentOspfInterfaceTemplate, CurrentWireguardInterface,
    CurrentWireguardPeer, Describe, DesiredAddressListEntry, DesiredBgpConnection,
    DesiredBgpInstance, DesiredBridge, DesiredIpAddress, DesiredIpv6Address, DesiredListMember,
    DesiredListMemberView, DesiredOspfArea, DesiredOspfInstance, DesiredOspfInterfaceTemplate,
    DesiredWireguardInterface, DesiredWireguardInterfaceView, DesiredWireguardPeer, HasId,
};
use vstd::prelude::*;

verus! {

/// Which table is read next.
#[derive(Debug, Clone, Copy, PartialEq, Eq, Structural)]
pub enum Stage {
    ListMembers,
    WireguardInterfaces,
    LoopbackBridge,
    IpAddresses,
    Ipv6Addresses,
    WireguardPeers,
    OspfInstance,
    OspfArea,
    OspfInterfaceTemplates,
    BgpNetworks,
    BgpInstance,
    BgpConnections,
    Finished,
}

impl Stage {
    /// The stage that follows.
    pub open spec fn next(self) -> Stage {
        match self {
            Stage::ListMembers => Stage::WireguardInterfaces,
            Stage::WireguardInterfaces => Stage::LoopbackBridge,
            Stage::LoopbackBridge => Stage::IpAddresses,
            Stage::IpAddresses => Stage::Ipv6Addresses,
            Stage::Ipv6Addresses => Stage::WireguardPeers,
            Stage::WireguardPeers => Stage::OspfInstance,
            Stage::OspfInstance => Stage::OspfArea,
            Stage::OspfArea => Stage::OspfInterfaceTemplates,
            Stage::OspfInterfaceTemplates => Stage::BgpNetworks,
            Stage::BgpNetworks => Stage::BgpInstance,
            Stage::BgpInstance => Stage::BgpConnections,
            Stage::BgpConnections => Stage::Finished,
            Stage::Finished => Stage::Finished,
        }
    }

    /// The table that is read, `None` once the run is finished.
    pub open spec fn path(self) -> Option<Seq<char>> {
        match self {
            Stage::ListMembers => Some(LIST_MEMBER_PATH@),
            Stage::WireguardInterfaces => Some(WIREGUARD_PATH@),
            Stage::LoopbackBridge => Some(BRIDGE_PATH@),
            Stage::IpAddresses => Some(IP_ADDRESS_PATH@),
            Stage::Ipv6Addresses => Some(IPV6_ADDRESS_PATH@),
            Stage::WireguardPeers => Some(WIREGUARD_PEERS_PATH@),
            Stage::OspfInstance => Some(OSPF_INSTANCE_PATH@),
            Stage::OspfArea => Some(OSPF_AREA_PATH@),
            Stage::OspfInterfaceTemplates => Some(OSPF_TEMPLATE_PATH@),
            Stage::BgpNetworks => Some(ADDRESS_LIST_PATH@),
            Stage::BgpInstance => Some(BGP_INSTANCE_PATH@),
            Stage::BgpConnections => Some(BGP_CONNECTION_PATH@),
            Stage::Finished => None,
        }
    }

    fn following(self) -> (r: Stage)
        ensures
            r == self.next(),
    {
        match self {
            Stage::ListMembers => Stage::WireguardInterfaces,
            Stage::WireguardInterfaces => Stage::LoopbackBridge,
            Stage::LoopbackBridge => Stage::IpAddresses,
            Stage::IpAddresses => Stage::Ipv6Addresses,
            Stage::Ipv6Addresses => Stage::WireguardPeers,
            Stage::WireguardPeers => Stage::OspfInstance,
            Stage::OspfInstance => Stage::OspfArea,
            Stage::OspfArea => Stage::OspfInterfaceTemplates,
            Stage::OspfInterfaceTemplates => Stage::BgpNetworks,
            Stage::BgpNetworks => Stage::BgpInstance,
            Stage::BgpInstance => Stage::BgpConnections,
            Stage::BgpConnections => Stage::Finished,
            Stage::Finished => Stage::Finished,
        }
    }
}

/// A run in progress.
pub struct Session {
    pub desired: DesiredState,
    /// Whether requests are sent at all, or the plan is only computed.
    pub apply: bool,
    pub stage: Stage,
    pub report: ConvergeReport,
    /// What is to be done to the list members, part of it later.
    pub members: Plan<DesiredListMember>,
}

/// What a [`Session`] is.
pub struct SessionView {
    pub desired: DesiredStateView,
    pub apply: bool,
    pub stage: Stage,
    pub report: ReportView,
    pub members: PlanView<DesiredListMemberView>,
}

impl DeepView for Session {
    type V = SessionView;

    open spec fn deep_view(&self) -> SessionView {
        SessionView {
            desired: self.desired.deep_view(),
            apply: self.apply,
            stage: self.stage,
            report: self.report.deep_view(),
            members: self.members.deep_view(),
        }
    }
}

/// A plan that does nothing.
pub open spec fn empty_plan<V>() -> PlanView<V> {
    PlanView { add: Seq::empty(), update: Seq::empty(), remove: Seq::empty() }
}

/// The removals of a plan alone.
pub open spec fn removals_only<V>(plan: PlanView<V>) -> PlanView<V> {
    PlanView { remove: plan.remove, ..empty_plan() }
}

/// A plan without its removals.
pub open spec fn without_removals<V>(plan: PlanView<V>) -> PlanView<V> {
    PlanView { remove: Seq::empty(), ..plan }
}

fn no_plan<T: Table>() -> (r: Plan<T::Desired>)
    ensures
        r.deep_view() == empty_plan::<T::DesiredView>(),
{
    let r = Plan { add: Vec::new(), update: Vec::new(), remove: Vec::new() };
    assert(r.deep_view() =~= empty_plan::<T::DesiredView>());
    r
}

/// The removals of a plan alone.
pub fn only_remove<T: Table>(plan: &Plan<T::Desired>) -> (r: Plan<T::Desired>)
    ensures
        r.deep_view() == removals_only(plan.deep_view()),
{
    let ghost d = plan.deep_view().remove;
    let mut r = no_plan::<T>();
    let mut i: usize = 0;
    while i < plan.remove.len()
        invariant
            i <= plan.remove@.len(),
            d == plan.deep_view().remove,
            r.deep_view() == removals_only(
                (PlanView { remove: d.take(i as int), ..plan.deep_view() }),
            ),
        decreases plan.remove@.len() - i,
    {
        let ghost before = r.deep_view();
        assert(d[i as int] == plan.remove[i as int]@);
        r.remove.push(plan.remove[i].clone());
        assert(r.deep_view().remove =~= before.remove.push(d[i as int]));
        assert(r.deep_view().remove =~= d.take(i + 1));
        assert(r.deep_view().add == before.add);
        assert(r.deep_view().update == before.update);
        i = i + 1;
    }
    assert(d.take(i as int) =~= d);
    r
}

/// A plan without its removals.
pub fn only_add_update<T: Table>(plan: &Plan<T::Desired>) -> (r: Plan<T::Desired>)
    ensures
        r.deep_view() == without_removals(plan.deep_view()),
{
    let ghost a = plan.deep_view().add;
    let ghost u = plan.deep_view().update;
    let mut add: Vec<T::Desired> = Vec::new();
    let mut i: usize = 0;
    assert(add.deep_view() =~= a.take(0));
    while i < plan.add.len()
        invariant
            i <= plan.add@.len(),
            a == plan.deep_view().add,
            add.deep_view() == a.take(i as int),
        decreases plan.add@.len() - i,
    {
        let ghost before = add.deep_view();
        assert(a[i as int] == plan.add[i as int].deep_view());
        add.push(T::copy_of(&plan.add[i]));
        assert(add.deep_view() =~= before.push(a[i as int]));
        assert(add.deep_view() =~= a.take(i + 1));
        i = i + 1;
    }
    assert(a.take(i as int) =~= a);
    let mut update: Vec<(String, T::Desired)> = Vec::new();
    let mut j: usize = 0;
    assert(update.deep_view() =~= u.take(0));
    while j < plan.update.len()
        invariant
            j <= plan.update@.len(),
            u == plan.deep_view().update,
            update.deep_view() == u.take(j as int),
        decreases plan.update@.len() - j,
    {
        let ghost before = update.deep_view();
        assert(u[j as int] == plan.update[j as int].deep_view());
        update.push((plan.update[j].0.clone(), T::copy_of(&plan.update[j].1)));
        assert(update.deep_view() =~= before.push(u[j as int]));
        assert(update.deep_view() =~= u.take(j + 1));
        j = j + 1;
    }
    assert(u.take(j as int) =~= u);
    let r = Plan { add, update, remove: Vec::new() };
    assert(r.deep_view() =~= without_removals(plan.deep_view()));
    r
}

/// The names of the interfaces that should be there.
pub open spec fn interface_names(interfaces: Seq<DesiredWireguardInterfaceView>) -> Seq<Seq<char>> {
    Seq::new(interfaces.len(), |k: int| interfaces[k].name)
}

/// The names of the interfaces that this tool gives addresses to.
pub open spec fn our_names(desired: DesiredStateView) -> Seq<Seq<char>> {
    interface_names(desired.wireguard_interfaces).push(desired.loopback_bridge.name)
}

fn names_of(interfaces: &[DesiredWireguardInterface]) -> (r: Vec<String>)
    ensures
        r.deep_view() == interface_names(interfaces.deep_view()),
{
    let ghost d = interfaces.deep_view();
    let mut out: Vec<String> = Vec::new();
    let mut k: usize = 0;
    assert(out.deep_view() =~= interface_names(d).take(0));
    while k < interfaces.len()
        invariant
            k <= interfaces@.len(),
            d == interfaces.deep_view(),
            out.deep_view() == interface_names(d).take(k as int),
        decreases interfaces@.len() - k,
    {
        let ghost before = out.deep_view();
        assert(d[k as int] == interfaces[k as int].deep_view());
        out.push(interfaces[k].name.clone());
        assert(out.deep_view() =~= before.push(d[k as int].name));
        assert(out.deep_view() =~= interface_names(d).take(k + 1));
        k = k + 1;
    }
    assert(interface_names(d).take(k as int) =~= interface_names(d));
    out
}

fn our_interfaces(desired: &DesiredState) -> (r: Vec<String>)
    ensures
        r.deep_view() == our_names(desired.deep_view()),
{
    let mut out = names_of(desired.wireguard_interfaces.as_slice());
    let ghost before = out.deep_view();
    out.push(desired.loopback_bridge.name.clone());
    assert(out.deep_view() =~= before.push(desired.loopback_bridge.name@));
    out
}

/// What one stage comes to.
pub struct StepView {
    pub report: ReportView,
    pub requests: Seq<RequestView>,
    pub members: PlanView<DesiredListMemberView>,
}

/// The requests that carry out the plan of the list members now: its removals.
pub open spec fn stale_members(plan: PlanView<DesiredListMemberView>) -> Seq<RequestView> {
    shared_requests::<DesiredListMember>(removals_only(plan))
}

/// The requests that carry out the rest of the plan of the list members.
pub open spec fn fresh_members(plan: PlanView<DesiredListMemberView>) -> Seq<RequestView> {
    shared_requests::<DesiredListMember>(without_removals(plan))
}

/// What a stage comes to that converges a table whose rows are `current`.
pub open spec fn table_step<C: HasId + Describe, D: Describe>(
    s: SessionView,
    name: Seq<char>,
    current: Result<Seq<C::V>, ErrorView>,
    plan: spec_fn(Seq<C::V>) -> PlanView<D::V>,
    requests: spec_fn(PlanView<D::V>) -> Seq<RequestView>,
) -> Result<StepView, ErrorView> {
    match current {
        Err(e) => Err(e),
        Ok(rows) => Ok(
            StepView {
                report: recorded::<C, D>(s.report, name, rows, plan(rows)),
                requests: requests(plan(rows)),
                members: s.members,
            },
        ),
    }
}

/// What a stage comes to that converges an object of which the device has at most one.
pub open spec fn singleton_step<D: Describe + Writable>(
    s: SessionView,
    name: Seq<char>,
    current: Result<Option<(Seq<char>, D::V)>, ErrorView>,
    desired: D::V,
) -> Result<StepView, ErrorView> {
    match current {
        Err(e) => Err(e),
        Ok(found) => {
            let op = singleton_of(found, desired);
            Ok(
                StepView {
                    report: recorded_singleton::<D>(s.report, name, op),
                    requests: singleton_requests::<D>(op),
                    members: s.members,
                },
            )
        },
    }
}

/// What the stage of a session comes to, where `rows` is what the device answered.
pub open spec fn step_of(s: SessionView, rows: Seq<RowView>) -> Result<StepView, ErrorView> {
    let d = s.desired;
    match s.stage {
        Stage::ListMembers => match kept(
            table_of::<CurrentListMember>(rows),
            list_member_is_ours(interface_names(d.wireguard_interfaces)),
        ) {
            Err(e) => Err(e),
            Ok(current) => {
                let plan = plan_of::<ListMembers>(current, d.list_members);
                Ok(
                    StepView {
                        report: recorded::<CurrentListMember, DesiredListMember>(
                            s.report,
                            "interface list member"@,
                            current,
                            plan,
                        ),
                        requests: stale_members(plan),
                        members: plan,
                    },
                )
            },
        },
        Stage::WireguardInterfaces => table_step::<
            CurrentWireguardInterface,
            DesiredWireguardInterface,
        >(
            s,
            "interface wireguard"@,
            table_of::<CurrentWireguardInterface>(rows),
            |rows| plan_of::<WireguardInterfaces>(rows, d.wireguard_interfaces),
            exclusively::<DesiredWireguardInterface>(),
        ),
        Stage::LoopbackBridge => singleton_step::<DesiredBridge>(
            s,
            "interface bridge"@,
            singleton_row(rows, d.loopback_bridge.name, bridge_of(d.loopback_bridge.name)),
            d.loopback_bridge,
        ),
        Stage::IpAddresses => table_step::<CurrentIpAddress, DesiredIpAddress>(
            s,
            "ip address"@,
            kept(table_of::<CurrentIpAddress>(rows), ip_address_is_ours(our_names(d))),
            |rows| plan_of::<IpAddresses>(rows, d.ip_addresses),
            row_by_row::<DesiredIpAddress>(),
        ),
        Stage::Ipv6Addresses => table_step::<CurrentIpv6Address, DesiredIpv6Address>(
            s,
            "ipv6 address"@,
            kept(table_of::<CurrentIpv6Address>(rows), ipv6_address_is_ours(our_names(d))),
            |rows| plan_of::<Ipv6Addresses>(rows, d.ip_v6_addresses),
            row_by_row::<DesiredIpv6Address>(),
        ),
        Stage::WireguardPeers => table_step::<CurrentWireguardPeer, DesiredWireguardPeer>(
            s,
            "interface wireguard peers"@,
            table_of::<CurrentWireguardPeer>(rows),
            |rows| plan_of::<WireguardPeers>(rows, d.wireguard_peers),
            |plan| exclusive_requests::<DesiredWireguardPeer>(plan) + fresh_members(s.members),
        ),
        Stage::OspfInstance => singleton_step::<DesiredOspfInstance>(
            s,
            "routing ospf instance"@,
            singleton_row(rows, d.ospf_instance.name, ospf_instance_of(d.ospf_instance.name)),
            d.ospf_instance,
        ),
        Stage::OspfArea => singleton_step::<DesiredOspfArea>(
            s,
            "routing ospf area"@,
            singleton_row(rows, d.ospf_area.name, ospf_area_of(d.ospf_area.name)),
            d.ospf_area,
        ),
        Stage::OspfInterfaceTemplates => table_step::<
            CurrentOspfInterfaceTemplate,
            DesiredOspfInterfaceTemplate,
        >(
            s,
            "routing ospf interface-template"@,
            table_of::<CurrentOspfInterfaceTemplate>(rows),
            |rows| plan_of::<OspfInterfaceTemplates>(rows, d.ospf_interface_templates),
            exclusively::<DesiredOspfInterfaceTemplate>(),
        ),
        Stage::BgpNetworks => table_step::<CurrentAddressListEntry, DesiredAddressListEntry>(
            s,
            "ip firewall address-list"@,
            kept(table_of::<CurrentAddressListEntry>(rows), entry_is_on(BGP_NETWORKS_LIST@)),
            |rows| plan_of::<BgpNetworks>(rows, d.bgp_networks),
            row_by_row::<DesiredAddressListEntry>(),
        ),
        Stage::BgpInstance => singleton_step::<DesiredBgpInstance>(
            s,
            "routing bgp instance"@,
            singleton_row(rows, d.bgp_instance.name, bgp_instance_of(d.bgp_instance.name)),
            d.bgp_instance,
        ),
        Stage::BgpConnections => table_step::<CurrentBgpConnection, DesiredBgpConnection>(
            s,
            "routing bgp connection"@,
            table_of::<CurrentBgpConnection>(rows),
            |rows| plan_of::<BgpConnections>(rows, d.bgp_connections),
            exclusively::<DesiredBgpConnection>(),
        ),
        Stage::Finished => Ok(
            StepView { report: s.report, requests: Seq::empty(), members: s.members },
        ),
    }
}

/// How the plan of a table that is this tool's alone is carried out.
pub open spec fn exclusively<D: Writable>() -> spec_fn(PlanView<D::V>) -> Seq<RequestView> {
    |plan: PlanView<D::V>| exclusive_requests::<D>(plan)
}

/// How the plan of a shared table is carried out.
pub open spec fn row_by_row<D: Writable>() -> spec_fn(PlanView<D::V>) -> Seq<RequestView> {
    |plan: PlanView<D::V>| shared_requests::<D>(plan)
}

/// The session once its stage has come to `step`.
pub open spec fn advanced(s: SessionView, step: StepView) -> SessionView {
    SessionView { stage: s.stage.next(), report: step.report, members: step.members, ..s }
}

/// The requests that are sent for a step: none if the run only checks.
pub open spec fn sent(s: SessionView, step: StepView) -> Seq<RequestView> {
    if s.apply {
        step.requests
    } else {
        Seq::empty()
    }
}

/// A run that has read nothing yet.
pub open spec fn begun(desired: DesiredStateView, apply: bool) -> SessionView {
    SessionView {
        desired,
        apply,
        stage: Stage::ListMembers,
        report: empty_report(),
        members: empty_plan(),
    }
}

impl Session {
    /// Begins a run that makes the device what it should be, or only says what it would do.
    pub fn start(desired: DesiredState, apply: bool) -> (r: Session)
        ensures
            r.deep_view() == begun(desired.deep_view(), apply),
            r.report.deep_view().wf(),
    {
        Session {
            desired,
            apply,
            stage: Stage::ListMembers,
            report: ConvergeReport::new(),
            members: no_plan::<ListMembers>(),
        }
    }

    /// The table to read next, `None` once the run is finished.
    pub fn table(&self) -> (r: Option<&'static str>)
        ensures
            r.deep_view() == self.stage.path(),
    {
        match self.stage {
            Stage::ListMembers => Some(LIST_MEMBER_PATH),
            Stage::WireguardInterfaces => Some(WIREGUARD_PATH),
            Stage::LoopbackBridge => Some(BRIDGE_PATH),
            Stage::IpAddresses => Some(IP_ADDRESS_PATH),
            Stage::Ipv6Addresses => Some(IPV6_ADDRESS_PATH),
            Stage::WireguardPeers => Some(WIREGUARD_PEERS_PATH),
            Stage::OspfInstance => Some(OSPF_INSTANCE_PATH),
            Stage::OspfArea => Some(OSPF_AREA_PATH),
            Stage::OspfInterfaceTemplates => Some(OSPF_TEMPLATE_PATH),
            Stage::BgpNetworks => Some(ADDRESS_LIST_PATH),
            Stage::BgpInstance => Some(BGP_INSTANCE_PATH),
            Stage::BgpConnections => Some(BGP_CONNECTION_PATH),
            Stage::Finished => None,
        }
    }

    fn list_members(&mut self, rows: &[Row]) -> (r: Result<Vec<Request>, Error>)
        requires
            old(self).stage == Stage::ListMembers,
            old(self).report.deep_view().wf(),
        ensures
            stepped(old(self).deep_view(), rows.deep_view(), r, final(self).deep_view()),
            final(self).report.deep_view().wf(),
    {
        let names = names_of(self.desired.wireguard_interfaces.as_slice());
        let current = match read_list_members(rows, names.as_slice()) {
            Ok(current) => current,
            Err(e) => return Err(e),
        };
        let plan = list_members(current.as_slice(), self.desired.list_members.as_slice());
        self.report.record("interface list member", current.as_slice(), &plan);
        let requests = apply_list_members(&only_remove::<ListMembers>(&plan));
        self.members = plan;
        Ok(requests)
    }

    fn wireguard_interfaces(&mut self, rows: &[Row]) -> (r: Result<Vec<Request>, Error>)
        requires
            old(self).stage == Stage::WireguardInterfaces,
            old(self).report.deep_view().wf(),
        ensures
            stepped(old(self).deep_view(), rows.deep_view(), r, final(self).deep_view()),
            final(self).report.deep_view().wf(),
    {
        let current = match read_wireguard_interfaces(rows) {
            Ok(current) => current,
            Err(e) => return Err(e),
        };
        let plan = wireguard_interfaces(
            current.as_slice(),
            self.desired.wireguard_interfaces.as_slice(),
        );
        self.report.record("interface wireguard", current.as_slice(), &plan);
        Ok(apply_wireguard_interfaces(&plan))
    }

    fn ip_addresses(&mut self, rows: &[Row]) -> (r: Result<Vec<Request>, Error>)
        requires
            old(self).stage == Stage::IpAddresses,
            old(self).report.deep_view().wf(),
        ensures
            stepped(old(self).deep_view(), rows.deep_view(), r, final(self).deep_view()),
            final(self).report.deep_view().wf(),
    {
        let ours = our_interfaces(&self.desired);
        let current = match read_ip_addresses(rows, ours.as_slice()) {
            Ok(current) => current,
            Err(e) => return Err(e),
        };
        let plan = ip_addresses(current.as_slice(), self.desired.ip_addresses.as_slice());
        self.report.record("ip address", current.as_slice(), &plan);
        Ok(apply_ip_addresses(&plan))
    }

    fn ipv6_addresses(&mut self, rows: &[Row]) -> (r: Result<Vec<Request>, Error>)
        requires
            old(self).stage == Stage::Ipv6Addresses,
            old(self).report.deep_view().wf(),
        ensures
            stepped(old(self).deep_view(), rows.deep_view(), r, final(self).deep_view()),
            final(self).report.deep_view().wf(),
    {
        let ours = our_interfaces(&self.desired);
        let current = match read_ipv6_addresses(rows, ours.as_slice()) {
            Ok(current) => current,
            Err(e) => return Err(e),
        };
        let plan = ipv6_addresses(current.as_slice(), self.desired.ip_v6_addresses.as_slice());
        self.report.record("ipv6 address", current.as_slice(), &plan);
        Ok(apply_ipv6_addresses(&plan))
    }

    fn wireguard_peers(&mut self, rows: &[Row]) -> (r: Result<Vec<Request>, Error>)
        requires
            old(self).stage == Stage::WireguardPeers,
            old(self).report.deep_view().wf(),
        ensures
            stepped(old(self).deep_view(), rows.deep_view(), r, final(self).deep_view()),
            final(self).report.deep_view().wf(),
    {
        let current = match read_wireguard_peers(rows) {
            Ok(current) => current,
            Err(e) => return Err(e),
        };
        let plan = wireguard_peers(current.as_slice(), self.desired.wireguard_peers.as_slice());
        self.report.record("interface wireguard peers", current.as_slice(), &plan);
        let mut requests = apply_wireguard_peers(&plan);
        let ghost first = requests.deep_view();
        let mut rest = apply_list_members(&only_add_update::<ListMembers>(&self.members));
        let ghost second = rest.deep_view();
        requests.append(&mut rest);
        assert(requests.deep_view() =~= first + second);
        Ok(requests)
    }

    fn ospf_templates(&mut self, rows: &[Row]) -> (r: Result<Vec<Request>, Error>)
        requires
            old(self).stage == Stage::OspfInterfaceTemplates,
            old(self).report.deep_view().wf(),
        ensures
            stepped(old(self).deep_view(), rows.deep_view(), r, final(self).deep_view()),
            final(self).report.deep_view().wf(),
    {
        let current = match read_ospf_interface_templates(rows) {
            Ok(current) => current,
            Err(e) => return Err(e),
        };
        let plan = ospf_interface_templates(
            current.as_slice(),
            self.desired.ospf_interface_templates.as_slice(),
        );
        self.report.record("routing ospf interface-template", current.as_slice(), &plan);
        Ok(apply_ospf_interface_templates(&plan))
    }

    fn bgp_networks(&mut self, rows: &[Row]) -> (r: Result<Vec<Request>, Error>)
        requires
            old(self).stage == Stage::BgpNetworks,
            old(self).report.deep_view().wf(),
        ensures
            stepped(old(self).deep_view(), rows.deep_view(), r, final(self).deep_view()),
            final(self).report.deep_view().wf(),
    {
        let current = match read_bgp_networks(rows, BGP_NETWORKS_LIST) {
            Ok(current) => current,
            Err(e) => return Err(e),
        };
        let plan = bgp_networks(current.as_slice(), self.desired.bgp_networks.as_slice());
        self.report.record("ip firewall address-list", current.as_slice(), &plan);
        Ok(apply_bgp_networks(&plan))
    }

    fn bgp_connections(&mut self, rows: &[Row]) -> (r: Result<Vec<Request>, Error>)
        requires
            old(self).stage == Stage::BgpConnections,
            old(self).report.deep_view().wf(),
        ensures
            stepped(old(self).deep_view(), rows.deep_view(), r, final(self).deep_view()),
            final(self).report.deep_view().wf(),
    {
        let current = match read_bgp_connections(rows) {
            Ok(current) => current,
            Err(e) => return Err(e),
        };
        let plan = bgp_connections(current.as_slice(), self.desired.bgp_connections.as_slice());
        self.report.record("routing bgp connection", current.as_slice(), &plan);
        Ok(apply_bgp_connections(&plan))
    }

    fn loopback_bridge(&mut self, rows: &[Row]) -> (r: Result<Vec<Request>, Error>)
        requires
            old(self).stage == Stage::LoopbackBridge,
            old(self).report.deep_view().wf(),
        ensures
            stepped(old(self).deep_view(), rows.deep_view(), r, final(self).deep_view()),
            final(self).report.deep_view().wf(),
    {
        let current = match read_loopback_bridge(rows, self.desired.loopback_bridge.name.as_str()) {
            Ok(current) => current,
            Err(e) => return Err(e),
        };
        let op = singleton(current, self.desired.loopback_bridge.clone());
        self.report.record_singleton("interface bridge", &op);
        Ok(apply_loopback_bridge(&op))
    }

    fn ospf_instance(&mut self, rows: &[Row]) -> (r: Result<Vec<Request>, Error>)
        requires
            old(self).stage == Stage::OspfInstance,
            old(self).report.deep_view().wf(),
        ensures
            stepped(old(self).deep_view(), rows.deep_view(), r, final(self).deep_view()),
            final(self).report.deep_view().wf(),
    {
        let current = match read_ospf_instance(rows, self.desired.ospf_instance.name.as_str()) {
            Ok(current) => current,
            Err(e) => return Err(e),
        };
        let op = singleton(current, self.desired.ospf_instance.clone());
        self.report.record_singleton("routing ospf instance", &op);
        Ok(apply_ospf_instance(&op))
    }

    fn ospf_area(&mut self, rows: &[Row]) -> (r: Result<Vec<Request>, Error>)
        requires
            old(self).stage == Stage::OspfArea,
            old(self).report.deep_view().wf(),
        ensures
            stepped(old(self).deep_view(), rows.deep_view(), r, final(self).deep_view()),
            final(self).report.deep_view().wf(),
    {
        let current = match read_ospf_area(rows, self.desired.ospf_area.name.as_str()) {
            Ok(current) => current,
            Err(e) => return Err(e),
        };
        let op = singleton(current, self.desired.ospf_area.clone());
        self.report.record_singleton("routing ospf area", &op);
        Ok(apply_ospf_area(&op))
    }

    fn bgp_instance(&mut self, rows: &[Row]) -> (r: Result<Vec<Request>, Error>)
        requires
            old(self).stage == Stage::BgpInstance,
            old(self).report.deep_view().wf(),
        ensures
            stepped(old(self).deep_view(), rows.deep_view(), r, final(self).deep_view()),
            final(self).report.deep_view().wf(),
    {
        let current = match read_bgp_instance(rows, self.desired.bgp_instance.name.as_str()) {
            Ok(current) => current,
            Err(e) => return Err(e),
        };
        let op = singleton(current, self.desired.bgp_instance.clone());
        self.report.record_singleton("routing bgp instance", &op);
        Ok(apply_bgp_instance(&op))
    }

    /// Takes the rows of the table that was read, and gives the requests to send before the next
    /// one is read: none if the run only checks. Where a row is malformed the session stays as it
    /// is.
    pub fn advance(&mut self, rows: &[Row]) -> (r: Result<Vec<Request>, Error>)
        requires
            old(self).report.deep_view().wf(),
        ensures
            match step_of(old(self).deep_view(), rows.deep_view()) {
                Err(e) => r matches Err(error) && error.deep_view() == e
                    && final(self).deep_view() == old(self).deep_view(),
                Ok(step) => r matches Ok(requests) && requests.deep_view() == sent(
                    old(self).deep_view(),
                    step,
                ) && final(self).deep_view() == advanced(old(self).deep_view(), step),
            },
            final(self).report.deep_view().wf(),
    {
        let result = match self.stage {
            Stage::ListMembers => self.list_members(rows),
            Stage::WireguardInterfaces => self.wireguard_interfaces(rows),
            Stage::LoopbackBridge => self.loopback_bridge(rows),
            Stage::IpAddresses => self.ip_addresses(rows),
            Stage::Ipv6Addresses => self.ipv6_addresses(rows),
            Stage::WireguardPeers => self.wireguard_peers(rows),
            Stage::OspfInstance => self.ospf_instance(rows),
            Stage::OspfArea => self.ospf_area(rows),
            Stage::OspfInterfaceTemplates => self.ospf_templates(rows),
            Stage::BgpNetworks => self.bgp_networks(rows),
            Stage::BgpInstance => self.bgp_instance(rows),
            Stage::BgpConnections => self.bgp_connections(rows),
            Stage::Finished => {
                let none: Vec<Request> = Vec::new();
                assert(none.deep_view() =~= Seq::<RequestView>::empty());
                Ok(none)
            },
        };
        match result {
            Err(e) => Err(e),
            Ok(requests) => {
                self.stage = self.stage.following();
                if self.apply {
                    Ok(requests)
                } else {
                    let none: Vec<Request> = Vec::new();
                    assert(none.deep_view() =~= Seq::<RequestView>::empty());
                    Ok(none)
                }
            },
        }
    }
}

/// Whether a stage has come to what it should, but for going on to the next: the report and the
/// plan of the list members are as the step says, and the requests are given whether or not they
/// are to be sent.
spec fn stepped(
    before: SessionView,
    rows: Seq<RowView>,
    r: Result<Vec<Request>, Error>,
    after: SessionView,
) -> bool {
    match step_of(before, rows) {
        Err(e) => r matches Err(error) && error.deep_view() == e && after == before,
        Ok(step) => r matches Ok(requests) && requests.deep_view() == step.requests && after
            == SessionView { report: step.report, members: step.members, ..before },
    }
}

/// Whether a request writes to the table.
pub open spec fn writes_to(path: Seq<char>, request: RequestView) -> bool {
    adds_or_sets(path, request) || removes_from(path, request)
}

/// Whether a request adds a row to the table or sets one.
pub open spec fn adds_or_sets(path: Seq<char>, request: RequestView) -> bool {
    request.word == path + "/add"@ || request.word == path + "/set"@
}

/// Whether a request removes a row from the table.
pub open spec fn removes_from(path: Seq<char>, request: RequestView) -> bool {
    request.word == path + "/remove"@
}

/// Whether a request can come at this stage. List members are only removed at the first stage,
/// while every interface is still there, and only added or set once the interfaces are there;
/// every other request writes to the table of its stage.
pub open spec fn belongs(stage: Stage, request: RequestView) -> bool {
    match stage {
        Stage::ListMembers => removes_from(LIST_MEMBER_PATH@, request),
        Stage::WireguardPeers => writes_to(WIREGUARD_PEERS_PATH@, request) || adds_or_sets(
            LIST_MEMBER_PATH@,
            request,
        ),
        _ => stage.path() matches Some(path) && writes_to(path, request),
    }
}

/// Every request comes at a stage to which it belongs.
pub proof fn law_requests_belong(s: SessionView, rows: Seq<RowView>)
    ensures
        step_of(s, rows) matches Ok(step) ==> forall|k: int|
            0 <= k < step.requests.len() ==> belongs(s.stage, #[trigger] step.requests[k]),
{
}

/// A request of a stage has a command word, and the names of its attributes are told from their
/// values, so it can be encoded unless a word is too long.
pub proof fn law_requests_are_plainly_named(s: SessionView, rows: Seq<RowView>)
    ensures
        step_of(s, rows) matches Ok(step) ==> forall|k: int|
            0 <= k < step.requests.len() ==> plainly_named(
                (#[trigger] step.requests[k]).attributes,
            ),
{
    let d = s.desired;
    if let Ok(step) = step_of(s, rows) {
        match s.stage {
            Stage::ListMembers => {
                let keep = list_member_is_ours(interface_names(d.wireguard_interfaces));
                let current = table_of::<CurrentListMember>(rows)->Ok_0.filter(keep);
                law_plan_requests_are_plainly_named::<DesiredListMember>(
                    removals_only(plan_of::<ListMembers>(current, d.list_members)),
                );
            },
            Stage::WireguardInterfaces => {
                let current = table_of::<CurrentWireguardInterface>(rows)->Ok_0;
                law_plan_requests_are_plainly_named::<DesiredWireguardInterface>(
                    plan_of::<WireguardInterfaces>(current, d.wireguard_interfaces),
                );
            },
            Stage::LoopbackBridge => {
                let b = d.loopback_bridge;
                let found = singleton_row(rows, b.name, bridge_of(b.name))->Ok_0;
                law_singleton_requests_are_plainly_named::<DesiredBridge>(singleton_of(found, b));
            },
            Stage::IpAddresses => {
                let keep = ip_address_is_ours(our_names(d));
                let current = table_of::<CurrentIpAddress>(rows)->Ok_0.filter(keep);
                law_plan_requests_are_plainly_named::<DesiredIpAddress>(
                    plan_of::<IpAddresses>(current, d.ip_addresses),
                );
            },
            Stage::Ipv6Addresses => {
                let keep = ipv6_address_is_ours(our_names(d));
                let current = table_of::<CurrentIpv6Address>(rows)->Ok_0.filter(keep);
                law_plan_requests_are_plainly_named::<DesiredIpv6Address>(
                    plan_of::<Ipv6Addresses>(current, d.ip_v6_addresses),
                );
            },
            Stage::WireguardPeers => {
                let current = table_of::<CurrentWireguardPeer>(rows)->Ok_0;
                let plan = plan_of::<WireguardPeers>(current, d.wireguard_peers);
                let peers = exclusive_requests::<DesiredWireguardPeer>(plan);
                let members = fresh_members(s.members);
                law_plan_requests_are_plainly_named::<DesiredWireguardPeer>(plan);
                law_plan_requests_are_plainly_named::<DesiredListMember>(
                    without_removals(s.members),
                );
                assert(step.requests == peers + members);
                assert forall|k: int| 0 <= k < step.requests.len() implies plainly_named(
                    (#[trigger] step.requests[k]).attributes,
                ) by {
                    if k < peers.len() {
                        assert(step.requests[k] == peers[k]);
                    } else {
                        assert(step.requests[k] == members[k - peers.len()]);
                    }
                }
            },
            Stage::OspfInstance => {
                let o = d.ospf_instance;
                let found = singleton_row(rows, o.name, ospf_instance_of(o.name))->Ok_0;
                law_singleton_requests_are_plainly_named::<DesiredOspfInstance>(
                    singleton_of(found, o),
                );
            },
            Stage::OspfArea => {
                let o = d.ospf_area;
                let found = singleton_row(rows, o.name, ospf_area_of(o.name))->Ok_0;
                law_singleton_requests_are_plainly_named::<DesiredOspfArea>(singleton_of(found, o));
            },
            Stage::OspfInterfaceTemplates => {
                let current = table_of::<CurrentOspfInterfaceTemplate>(rows)->Ok_0;
                law_plan_requests_are_plainly_named::<DesiredOspfInterfaceTemplate>(
                    plan_of::<OspfInterfaceTemplates>(current, d.ospf_interface_templates),
                );
            },
            Stage::BgpNetworks => {
                let keep = entry_is_on(BGP_NETWORKS_LIST@);
                let current = table_of::<CurrentAddressListEntry>(rows)->Ok_0.filter(keep);
                law_plan_requests_are_plainly_named::<DesiredAddressListEntry>(
                    plan_of::<BgpNetworks>(current, d.bgp_networks),
                );
            },
            Stage::BgpInstance => {
                let b = d.bgp_instance;
                let found = singleton_row(rows, b.name, bgp_instance_of(b.name))->Ok_0;
                law_singleton_requests_are_plainly_named::<DesiredBgpInstance>(
                    singleton_of(found, b),
                );
            },
            Stage::BgpConnections => {
                let current = table_of::<CurrentBgpConnection>(rows)->Ok_0;
                law_plan_requests_are_plainly_named::<DesiredBgpConnection>(
                    plan_of::<BgpConnections>(current, d.bgp_connections),
                );
            },
            Stage::Finished => {},
        }
    }
}

/// Checking sends nothing.
pub proof fn law_check_sends_nothing(s: SessionView, step: StepView)
    requires
        !s.apply,
    ensures
        sent(s, step).len() == 0,
{
}

/// What a session comes to with these answers, and what is sent on the way.
pub open spec fn run(s: SessionView, answers: Seq<Seq<RowView>>) -> Result<
    (SessionView, Seq<RequestView>),
    ErrorView,
>
    decreases answers.len(),
{
    if answers.len() == 0 {
        Ok((s, Seq::empty()))
    } else {
        match run(s, answers.drop_last()) {
            Err(e) => Err(e),
            Ok((t, requests)) => match step_of(t, answers.last()) {
                Err(e) => Err(e),
                Ok(step) => Ok((advanced(t, step), requests + sent(t, step))),
            },
        }
    }
}

/// The session, set to apply or to check.
pub open spec fn with_apply(s: SessionView, apply: bool) -> SessionView {
    SessionView { apply, ..s }
}

/// A run that only checks sends nothing, reads the same tables, and reports what a run that is
/// given the same answers and does apply reports.
pub proof fn law_check_reports_the_same(s: SessionView, answers: Seq<Seq<RowView>>)
    ensures
        match run(with_apply(s, true), answers) {
            Err(e) => run(with_apply(s, false), answers) == Err::<
                (SessionView, Seq<RequestView>),
                ErrorView,
            >(e),
            Ok((t, _)) => run(with_apply(s, false), answers) == Ok::<
                (SessionView, Seq<RequestView>),
                ErrorView,
            >((with_apply(t, false), Seq::empty())) && t.apply,
        },
    decreases answers.len(),
{
    if answers.len() > 0 {
        law_check_reports_the_same(s, answers.drop_last());
        if let Ok((t, _)) = run(with_apply(s, true), answers.drop_last()) {
            let u = with_apply(t, false);
            assert(step_of(t, answers.last()) == step_of(u, answers.last()));
            if let Ok(step) = step_of(u, answers.last()) {
                assert(Seq::<RequestView>::empty() + sent(u, step) =~= Seq::<RequestView>::empty());
            }
        }
    }
}

impl Stage {
    /// How many tables are read before this stage.
    pub open spec fn rank(self) -> nat {
        match self {
            Stage::ListMembers => 0,
            Stage::WireguardInterfaces => 1,
            Stage::LoopbackBridge => 2,
            Stage::IpAddresses => 3,
            Stage::Ipv6Addresses => 4,
            Stage::WireguardPeers => 5,
            Stage::OspfInstance => 6,
            Stage::OspfArea => 7,
            Stage::OspfInterfaceTemplates => 8,
            Stage::BgpNetworks => 9,
            Stage::BgpInstance => 10,
            Stage::BgpConnections => 11,
            Stage::Finished => 12,
        }
    }
}

/// A run goes through its stages in their order, one answer to each, until it is finished.
pub proof fn law_run_goes_in_order(s: SessionView, answers: Seq<Seq<RowView>>)
    requires
        s.stage == Stage::ListMembers,
    ensures
        run(s, answers) matches Ok((t, _)) ==> t.stage.rank() == if answers.len() < 12 {
            answers.len()
        } else {
            12
        },
    decreases answers.len(),
{
    if answers.len() > 0 {
        law_run_goes_in_order(s, answers.drop_last());
    }
}

/// Where the plan of a table is empty, its stage sends nothing and leaves the report as it is.
pub proof fn law_settled_table_is_left_alone<C: HasId + Describe, D: Describe + Writable>(
    s: SessionView,
    name: Seq<char>,
    current: Seq<C::V>,
    plan: spec_fn(Seq<C::V>) -> PlanView<D::V>,
)
    requires
        plan(current).is_empty(),
    ensures
        table_step::<C, D>(s, name, Ok(current), plan, exclusively::<D>()) == Ok::<
            StepView,
            ErrorView,
        >(StepView { report: s.report, requests: Seq::empty(), members: s.members }),
        table_step::<C, D>(s, name, Ok(current), plan, row_by_row::<D>()) == Ok::<
            StepView,
            ErrorView,
        >(StepView { report: s.report, requests: Seq::empty(), members: s.members }),
{
    law_empty_plan_is_silent::<C, D>(s.report, name, current, plan(current));
    assert(exclusive_requests::<D>(plan(current)) =~= Seq::<RequestView>::empty());
    assert(shared_requests::<D>(plan(current)) =~= Seq::<RequestView>::empty());
}

} // verus!
