//! What each stage of a run reads, sends and reports.

use crate::apply::{
    add_requests, exclusive_requests, law_one_request_per_object, law_one_request_per_row,
    remove_requests, set_requests, shared_requests, singleton_requests,
};
use crate::config::DesiredStateView;
use crate::converge::{
    advanced, begun, fresh_members, interface_names, our_names, run, stale_members, step_of,
    SessionView, Stage, StepView,
};
use crate::diff::{
    singleton_of, BgpConnections, BgpNetworks, IpAddresses, Ipv6Addresses, ListMembers,
    OspfInterfaceTemplates, WireguardInterfaces, WireguardPeers,
};
use crate::error::ErrorView;
use crate::mikrotik::{
    bgp_instance_of, bridge_of, entry_is_on, ip_address_is_ours, ipv6_address_is_ours, kept,
    list_member_is_ours, ospf_area_of, ospf_instance_of, singleton_row, table_of,
};
use crate::plan::plan_of;
use crate::report::{recorded, recorded_singleton, ReportView};
use crate::request::RequestView;
use crate::row::RowView;
use crate::rows::{
    CurrentAddressListEntry, CurrentBgpConnection, CurrentIpAddress, CurrentIpv6Address,
    CurrentListMember, CurrentOspfInterfaceTemplate, CurrentWireguardInterface,
    CurrentWireguardPeer, DesiredAddressListEntry, DesiredBgpConnection, DesiredBgpInstance,
    DesiredBridge, DesiredIpAddress, DesiredIpv6Address, DesiredListMember, DesiredOspfArea,
    DesiredOspfInstance, DesiredOspfInterfaceTemplate, DesiredWireguardInterface,
    DesiredWireguardPeer,
};
use vstd::prelude::*;

verus! {

/// The tables are read in this order, and then the run is finished.
pub proof fn law_order_of_tables(state: DesiredStateView, apply: bool)
    ensures
        ({
            let s0 = begun(state, apply).stage;
            let s1 = s0.next();
            let s2 = s1.next();
            let s3 = s2.next();
            let s4 = s3.next();
            let s5 = s4.next();
            let s6 = s5.next();
            let s7 = s6.next();
            let s8 = s7.next();
            let s9 = s8.next();
            let s10 = s9.next();
            let s11 = s10.next();
            let s12 = s11.next();
            &&& s0.path() == Some("/interface/list/member"@)
            &&& s1.path() == Some("/interface/wireguard"@)
            &&& s2.path() == Some("/interface/bridge"@)
            &&& s3.path() == Some("/ip/address"@)
            &&& s4.path() == Some("/ipv6/address"@)
            &&& s5.path() == Some("/interface/wireguard/peers"@)
            &&& s6.path() == Some("/routing/ospf/instance"@)
            &&& s7.path() == Some("/routing/ospf/area"@)
            &&& s8.path() == Some("/routing/ospf/interface-template"@)
            &&& s9.path() == Some("/ip/firewall/address-list"@)
            &&& s10.path() == Some("/routing/bgp/instance"@)
            &&& s11.path() == Some("/routing/bgp/connection"@)
            &&& s12.path() is None && s12.next() == s12
        }),
{
}

/// The interfaces that this tool gives addresses to are the WireGuard interfaces that should be
/// there and the loopback bridge.
pub proof fn law_our_names(d: DesiredStateView, name: Seq<char>)
    ensures
        interface_names(d.wireguard_interfaces).contains(name) <==> exists|k: int|
            0 <= k < d.wireguard_interfaces.len() && (
            #[trigger] d.wireguard_interfaces[k]).name == name,
        our_names(d).contains(name) <==> name == d.loopback_bridge.name || exists|k: int|
            0 <= k < d.wireguard_interfaces.len() && (
            #[trigger] d.wireguard_interfaces[k]).name == name,
{
    let names = interface_names(d.wireguard_interfaces);
    let ours = our_names(d);
    assert(ours[names.len() as int] == d.loopback_bridge.name);
    if names.contains(name) {
        let k = choose|k: int| 0 <= k < names.len() && names[k] == name;
        assert(d.wireguard_interfaces[k].name == name);
    }
    if exists|k: int|
        0 <= k < d.wireguard_interfaces.len() && (#[trigger] d.wireguard_interfaces[k]).name
            == name {
        let k = choose|k: int|
            0 <= k < d.wireguard_interfaces.len() && (#[trigger] d.wireguard_interfaces[k]).name
                == name;
        assert(names[k] == name && ours[k] == name);
    }
    if ours.contains(name) && name != d.loopback_bridge.name {
        let k = choose|k: int| 0 <= k < ours.len() && ours[k] == name;
        assert(names[k] == name);
        assert(d.wireguard_interfaces[k].name == name);
    }
}

/// The stage of `interface list member` plans what its rows should be and sends that plan. Only
/// what should not be there is removed now; the rest of the plan waits.
pub proof fn law_stage_of_list_members(s: SessionView, rows: Seq<RowView>)
    requires
        s.stage == Stage::ListMembers,
    ensures
        ({
            let d = s.desired;
            match kept(
                table_of::<CurrentListMember>(rows),
                list_member_is_ours(interface_names(d.wireguard_interfaces)),
            ) {
                Err(e) => step_of(s, rows) == Err::<StepView, ErrorView>(e),
                Ok(current) => step_of(s, rows) matches Ok(step) && {
                    let plan = plan_of::<ListMembers>(current, d.list_members);
                    &&& step.requests == remove_requests::<DesiredListMember>(plan.remove)
                    &&& step.members == plan
                    &&& step.report == recorded::<CurrentListMember, DesiredListMember>(
                        s.report,
                        "interface list member"@,
                        current,
                        plan,
                    )
                },
            }
        }),
{
    let d = s.desired;
    if let Ok(current) = kept(
        table_of::<CurrentListMember>(rows),
        list_member_is_ours(interface_names(d.wireguard_interfaces)),
    ) {
        let plan = plan_of::<ListMembers>(current, d.list_members);
        assert(stale_members(plan) =~= remove_requests::<DesiredListMember>(plan.remove));
    }
}

/// The stage of `interface wireguard` plans what its rows should be and sends that plan.
pub proof fn law_stage_of_wireguard_interfaces(s: SessionView, rows: Seq<RowView>)
    requires
        s.stage == Stage::WireguardInterfaces,
    ensures
        ({
            let d = s.desired;
            match table_of::<CurrentWireguardInterface>(rows) {
                Err(e) => step_of(s, rows) == Err::<StepView, ErrorView>(e),
                Ok(current) => step_of(s, rows) matches Ok(step) && {
                    let plan = plan_of::<WireguardInterfaces>(current, d.wireguard_interfaces);
                    &&& step.requests == exclusive_requests::<DesiredWireguardInterface>(plan)
                    &&& step.members == s.members
                    &&& step.report == recorded::<
                        CurrentWireguardInterface,
                        DesiredWireguardInterface,
                    >(
                        s.report,
                        "interface wireguard"@,
                        current,
                        plan,
                    )
                },
            }
        }),
{
    let d = s.desired;
}

/// The stage of `ip address` plans what its rows should be and sends that plan.
pub proof fn law_stage_of_ip_addresses(s: SessionView, rows: Seq<RowView>)
    requires
        s.stage == Stage::IpAddresses,
    ensures
        ({
            let d = s.desired;
            match kept(table_of::<CurrentIpAddress>(rows), ip_address_is_ours(our_names(d))) {
                Err(e) => step_of(s, rows) == Err::<StepView, ErrorView>(e),
                Ok(current) => step_of(s, rows) matches Ok(step) && {
                    let plan = plan_of::<IpAddresses>(current, d.ip_addresses);
                    &&& step.requests == shared_requests::<DesiredIpAddress>(plan)
                    &&& step.members == s.members
                    &&& step.report == recorded::<CurrentIpAddress, DesiredIpAddress>(
                        s.report,
                        "ip address"@,
                        current,
                        plan,
                    )
                },
            }
        }),
{
    let d = s.desired;
}

/// The stage of `ipv6 address` plans what its rows should be and sends that plan.
pub proof fn law_stage_of_ipv6_addresses(s: SessionView, rows: Seq<RowView>)
    requires
        s.stage == Stage::Ipv6Addresses,
    ensures
        ({
            let d = s.desired;
            match kept(table_of::<CurrentIpv6Address>(rows), ipv6_address_is_ours(our_names(d))) {
                Err(e) => step_of(s, rows) == Err::<StepView, ErrorView>(e),
                Ok(current) => step_of(s, rows) matches Ok(step) && {
                    let plan = plan_of::<Ipv6Addresses>(current, d.ip_v6_addresses);
                    &&& step.requests == shared_requests::<DesiredIpv6Address>(plan)
                    &&& step.members == s.members
                    &&& step.report == recorded::<CurrentIpv6Address, DesiredIpv6Address>(
                        s.report,
                        "ipv6 address"@,
                        current,
                        plan,
                    )
                },
            }
        }),
{
    let d = s.desired;
}

/// The stage of `interface wireguard peers` plans what its rows should be and sends that plan. What
/// was left of the plan of the list members follows.
pub proof fn law_stage_of_wireguard_peers(s: SessionView, rows: Seq<RowView>)
    requires
        s.stage == Stage::WireguardPeers,
    ensures
        ({
            let d = s.desired;
            match table_of::<CurrentWireguardPeer>(rows) {
                Err(e) => step_of(s, rows) == Err::<StepView, ErrorView>(e),
                Ok(current) => step_of(s, rows) matches Ok(step) && {
                    let plan = plan_of::<WireguardPeers>(current, d.wireguard_peers);
                    &&& step.requests == exclusive_requests::<DesiredWireguardPeer>(plan)
                        + add_requests::<DesiredListMember>(s.members.add) + set_requests::<
                        DesiredListMember,
                    >(s.members.update)
                    &&& step.members == s.members
                    &&& step.report == recorded::<CurrentWireguardPeer, DesiredWireguardPeer>(
                        s.report,
                        "interface wireguard peers"@,
                        current,
                        plan,
                    )
                },
            }
        }),
{
    let d = s.desired;
    if let Ok(current) = table_of::<CurrentWireguardPeer>(rows) {
        let plan = plan_of::<WireguardPeers>(current, d.wireguard_peers);
        let own = exclusive_requests::<DesiredWireguardPeer>(plan);
        let a = add_requests::<DesiredListMember>(s.members.add);
        let u = set_requests::<DesiredListMember>(s.members.update);
        assert(own + fresh_members(s.members) =~= own + a + u);
    }
}

/// The stage of `routing ospf interface-template` plans what its rows should be and sends that
/// plan.
pub proof fn law_stage_of_ospf_interface_templates(s: SessionView, rows: Seq<RowView>)
    requires
        s.stage == Stage::OspfInterfaceTemplates,
    ensures
        ({
            let d = s.desired;
            match table_of::<CurrentOspfInterfaceTemplate>(rows) {
                Err(e) => step_of(s, rows) == Err::<StepView, ErrorView>(e),
                Ok(current) => step_of(s, rows) matches Ok(step) && {
                    let plan = plan_of::<OspfInterfaceTemplates>(
                        current,
                        d.ospf_interface_templates,
                    );
                    &&& step.requests == exclusive_requests::<DesiredOspfInterfaceTemplate>(plan)
                    &&& step.members == s.members
                    &&& step.report == recorded::<
                        CurrentOspfInterfaceTemplate,
                        DesiredOspfInterfaceTemplate,
                    >(
                        s.report,
                        "routing ospf interface-template"@,
                        current,
                        plan,
                    )
                },
            }
        }),
{
    let d = s.desired;
}

/// The stage of `ip firewall address-list` plans what its rows should be and sends that plan.
pub proof fn law_stage_of_bgp_networks(s: SessionView, rows: Seq<RowView>)
    requires
        s.stage == Stage::BgpNetworks,
    ensures
        ({
            let d = s.desired;
            match kept(table_of::<CurrentAddressListEntry>(rows), entry_is_on("bgp-networks"@)) {
                Err(e) => step_of(s, rows) == Err::<StepView, ErrorView>(e),
                Ok(current) => step_of(s, rows) matches Ok(step) && {
                    let plan = plan_of::<BgpNetworks>(current, d.bgp_networks);
                    &&& step.requests == shared_requests::<DesiredAddressListEntry>(plan)
                    &&& step.members == s.members
                    &&& step.report == recorded::<CurrentAddressListEntry, DesiredAddressListEntry>(
                        s.report,
                        "ip firewall address-list"@,
                        current,
                        plan,
                    )
                },
            }
        }),
{
    let d = s.desired;
}

/// The stage of `routing bgp connection` plans what its rows should be and sends that plan.
pub proof fn law_stage_of_bgp_connections(s: SessionView, rows: Seq<RowView>)
    requires
        s.stage == Stage::BgpConnections,
    ensures
        ({
            let d = s.desired;
            match table_of::<CurrentBgpConnection>(rows) {
                Err(e) => step_of(s, rows) == Err::<StepView, ErrorView>(e),
                Ok(current) => step_of(s, rows) matches Ok(step) && {
                    let plan = plan_of::<BgpConnections>(current, d.bgp_connections);
                    &&& step.requests == exclusive_requests::<DesiredBgpConnection>(plan)
                    &&& step.members == s.members
                    &&& step.report == recorded::<CurrentBgpConnection, DesiredBgpConnection>(
                        s.report,
                        "routing bgp connection"@,
                        current,
                        plan,
                    )
                },
            }
        }),
{
    let d = s.desired;
}

/// The stage of `interface bridge` looks for the object by its name and creates it, updates it or
/// leaves it alone.
pub proof fn law_stage_of_loopback_bridge(s: SessionView, rows: Seq<RowView>)
    requires
        s.stage == Stage::LoopbackBridge,
    ensures
        ({
            let d = s.desired.loopback_bridge;
            match singleton_row(rows, d.name, bridge_of(d.name)) {
                Err(e) => step_of(s, rows) == Err::<StepView, ErrorView>(e),
                Ok(found) => step_of(s, rows) matches Ok(step) && {
                    let op = singleton_of(found, d);
                    &&& step.requests == singleton_requests::<DesiredBridge>(op)
                    &&& step.report == recorded_singleton::<DesiredBridge>(
                        s.report,
                        "interface bridge"@,
                        op,
                    )
                    &&& step.members == s.members
                },
            }
        }),
{
}

/// The stage of `routing ospf instance` looks for the object by its name and creates it, updates it
/// or leaves it alone.
pub proof fn law_stage_of_ospf_instance(s: SessionView, rows: Seq<RowView>)
    requires
        s.stage == Stage::OspfInstance,
    ensures
        ({
            let d = s.desired.ospf_instance;
            match singleton_row(rows, d.name, ospf_instance_of(d.name)) {
                Err(e) => step_of(s, rows) == Err::<StepView, ErrorView>(e),
                Ok(found) => step_of(s, rows) matches Ok(step) && {
                    let op = singleton_of(found, d);
                    &&& step.requests == singleton_requests::<DesiredOspfInstance>(op)
                    &&& step.report == recorded_singleton::<DesiredOspfInstance>(
                        s.report,
                        "routing ospf instance"@,
                        op,
                    )
                    &&& step.members == s.members
                },
            }
        }),
{
}

/// The stage of `routing ospf area` looks for the object by its name and creates it, updates it or
/// leaves it alone.
pub proof fn law_stage_of_ospf_area(s: SessionView, rows: Seq<RowView>)
    requires
        s.stage == Stage::OspfArea,
    ensures
        ({
            let d = s.desired.ospf_area;
            match singleton_row(rows, d.name, ospf_area_of(d.name)) {
                Err(e) => step_of(s, rows) == Err::<StepView, ErrorView>(e),
                Ok(found) => step_of(s, rows) matches Ok(step) && {
                    let op = singleton_of(found, d);
                    &&& step.requests == singleton_requests::<DesiredOspfArea>(op)
                    &&& step.report == recorded_singleton::<DesiredOspfArea>(
                        s.report,
                        "routing ospf area"@,
                        op,
                    )
                    &&& step.members == s.members
                },
            }
        }),
{
}

/// The stage of `routing bgp instance` looks for the object by its name and creates it, updates it
/// or leaves it alone.
pub proof fn law_stage_of_bgp_instance(s: SessionView, rows: Seq<RowView>)
    requires
        s.stage == Stage::BgpInstance,
    ensures
        ({
            let d = s.desired.bgp_instance;
            match singleton_row(rows, d.name, bgp_instance_of(d.name)) {
                Err(e) => step_of(s, rows) == Err::<StepView, ErrorView>(e),
                Ok(found) => step_of(s, rows) matches Ok(step) && {
                    let op = singleton_of(found, d);
                    &&& step.requests == singleton_requests::<DesiredBgpInstance>(op)
                    &&& step.report == recorded_singleton::<DesiredBgpInstance>(
                        s.report,
                        "routing bgp instance"@,
                        op,
                    )
                    &&& step.members == s.members
                },
            }
        }),
{
}

/// A run goes on with what it was given: what the device should look like and whether it applies.
/// It sends what its stages come to, one after the other, where it applies, and nothing otherwise.
pub proof fn law_run_adds_up(s: SessionView, answers: Seq<Seq<RowView>>)
    requires
        answers.len() > 0,
    ensures
        match run(s, answers.drop_last()) {
            Err(e) => run(s, answers) == Err::<(SessionView, Seq<RequestView>), ErrorView>(e),
            Ok((t, before)) => match step_of(t, answers.last()) {
                Err(e) => run(s, answers) == Err::<(SessionView, Seq<RequestView>), ErrorView>(e),
                Ok(step) => run(s, answers) matches Ok((after, requests)) && {
                    &&& after.desired == t.desired
                    &&& after.apply == t.apply
                    &&& after.stage == t.stage.next()
                    &&& after.report == step.report
                    &&& after.members == step.members
                    &&& t.apply ==> requests == before + step.requests
                    &&& !t.apply ==> requests == before
                },
            },
        },
{
    if let Ok((t, before)) = run(s, answers.drop_last()) {
        assert(before + Seq::<RequestView>::empty() =~= before);
    }
}

/// How much a report says was done.
pub open spec fn total(r: ReportView) -> nat {
    r.added + r.updated + r.removed
}

/// What of the list members' plan is still to be sent.
spec fn pending(s: SessionView) -> nat {
    if 1 <= s.stage.rank() <= 5 {
        s.members.add.len() + s.members.update.len()
    } else {
        0
    }
}

proof fn lemma_step_adds_up(s: SessionView, rows: Seq<RowView>)
    ensures
        step_of(s, rows) matches Ok(step) ==> total(step.report) + pending(s)
            == total(s.report) + step.requests.len() + pending(advanced(s, step)),
{
    let d = s.desired;
    if let Ok(step) = step_of(s, rows) {
        match s.stage {
            Stage::ListMembers => {
                law_stage_of_list_members(s, rows);
                let plan = plan_of::<ListMembers>(
                    kept(
                        table_of::<CurrentListMember>(rows),
                        list_member_is_ours(interface_names(d.wireguard_interfaces)),
                    )->Ok_0,
                    d.list_members,
                );
                law_one_request_per_row::<DesiredListMember>(plan);
            },
            Stage::WireguardInterfaces => {
                law_stage_of_wireguard_interfaces(s, rows);
                let plan = plan_of::<WireguardInterfaces>(
                    table_of::<CurrentWireguardInterface>(rows)->Ok_0,
                    d.wireguard_interfaces,
                );
                law_one_request_per_row::<DesiredWireguardInterface>(plan);
            },
            Stage::IpAddresses => {
                law_stage_of_ip_addresses(s, rows);
                let plan = plan_of::<IpAddresses>(
                    kept(
                        table_of::<CurrentIpAddress>(rows),
                        ip_address_is_ours(our_names(d)),
                    )->Ok_0,
                    d.ip_addresses,
                );
                law_one_request_per_row::<DesiredIpAddress>(plan);
            },
            Stage::Ipv6Addresses => {
                law_stage_of_ipv6_addresses(s, rows);
                let plan = plan_of::<Ipv6Addresses>(
                    kept(
                        table_of::<CurrentIpv6Address>(rows),
                        ipv6_address_is_ours(our_names(d)),
                    )->Ok_0,
                    d.ip_v6_addresses,
                );
                law_one_request_per_row::<DesiredIpv6Address>(plan);
            },
            Stage::WireguardPeers => {
                law_stage_of_wireguard_peers(s, rows);
                let plan = plan_of::<WireguardPeers>(
                    table_of::<CurrentWireguardPeer>(rows)->Ok_0,
                    d.wireguard_peers,
                );
                law_one_request_per_row::<DesiredWireguardPeer>(plan);
            },
            Stage::OspfInterfaceTemplates => {
                law_stage_of_ospf_interface_templates(s, rows);
                let plan = plan_of::<OspfInterfaceTemplates>(
                    table_of::<CurrentOspfInterfaceTemplate>(rows)->Ok_0,
                    d.ospf_interface_templates,
                );
                law_one_request_per_row::<DesiredOspfInterfaceTemplate>(plan);
            },
            Stage::BgpNetworks => {
                law_stage_of_bgp_networks(s, rows);
                let plan = plan_of::<BgpNetworks>(
                    kept(
                        table_of::<CurrentAddressListEntry>(rows),
                        entry_is_on("bgp-networks"@),
                    )->Ok_0,
                    d.bgp_networks,
                );
                law_one_request_per_row::<DesiredAddressListEntry>(plan);
            },
            Stage::BgpConnections => {
                law_stage_of_bgp_connections(s, rows);
                let plan = plan_of::<BgpConnections>(
                    table_of::<CurrentBgpConnection>(rows)->Ok_0,
                    d.bgp_connections,
                );
                law_one_request_per_row::<DesiredBgpConnection>(plan);
            },
            Stage::LoopbackBridge => {
                law_stage_of_loopback_bridge(s, rows);
                let found = singleton_row(
                    rows,
                    d.loopback_bridge.name,
                    bridge_of(d.loopback_bridge.name),
                )->Ok_0;
                law_one_request_per_object::<DesiredBridge>(singleton_of(found, d.loopback_bridge));
            },
            Stage::OspfInstance => {
                law_stage_of_ospf_instance(s, rows);
                let found = singleton_row(
                    rows,
                    d.ospf_instance.name,
                    ospf_instance_of(d.ospf_instance.name),
                )->Ok_0;
                law_one_request_per_object::<DesiredOspfInstance>(
                    singleton_of(found, d.ospf_instance),
                );
            },
            Stage::OspfArea => {
                law_stage_of_ospf_area(s, rows);
                let found = singleton_row(
                    rows,
                    d.ospf_area.name,
                    ospf_area_of(d.ospf_area.name),
                )->Ok_0;
                law_one_request_per_object::<DesiredOspfArea>(singleton_of(found, d.ospf_area));
            },
            Stage::BgpInstance => {
                law_stage_of_bgp_instance(s, rows);
                let found = singleton_row(
                    rows,
                    d.bgp_instance.name,
                    bgp_instance_of(d.bgp_instance.name),
                )->Ok_0;
                law_one_request_per_object::<DesiredBgpInstance>(
                    singleton_of(found, d.bgp_instance),
                );
            },
            Stage::Finished => {},
        }
    }
}

proof fn lemma_run_adds_up(state: DesiredStateView, answers: Seq<Seq<RowView>>)
    ensures
        run(begun(state, true), answers) matches Ok((t, requests)) ==> t.apply && total(t.report)
            == requests.len() + pending(t),
    decreases answers.len(),
{
    if answers.len() > 0 {
        lemma_run_adds_up(state, answers.drop_last());
        if let Ok((t, _)) = run(begun(state, true), answers.drop_last()) {
            lemma_step_adds_up(t, answers.last());
        }
    }
}

/// A run that is finished has sent one request for each thing that it reports.
pub proof fn law_report_counts_requests(state: DesiredStateView, answers: Seq<Seq<RowView>>)
    ensures
        run(begun(state, true), answers) matches Ok((t, requests)) ==> (t.stage == Stage::Finished
            ==> t.report.added + t.report.updated + t.report.removed == requests.len()),
{
    lemma_run_adds_up(state, answers);
}

} // verus!
