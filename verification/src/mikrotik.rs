//! Reading the RouterOS tables: what the rows of a device's answer are.
//!
//! The tables `/ip/address`, `/ipv6/address`, `/interface/list/member` and
//! `/ip/firewall/address-list` hold rows that this tool did not write. Reading them leaves those
//! rows out, so that no plan can touch them.

use crate::addr::{
    ipv4_text, is_link_local, parse_ipv4, parse_ipv6, zero_groups, Ipv4Addr, Ipv6Addr,
};
use crate::cidr::{cidr_of, network, network_addr, parse_cidr};
use crate::config::LAN_LIST;
use crate::diff::{
    flag_set, in_footprint, is_our_interface_name, is_our_list_member_footprint, is_ours,
};
use crate::error::{outcome, Error, ErrorView};
use crate::number::{decimal, decimal_text, parse_decimal, read_decimal};
use crate::row::{
    get, get_bool_flag, get_flag_presence, get_id, get_opt_keepalive_seconds, get_opt_u16,
    get_or_empty, get_required, get_text, id_of, presence, required, seconds_of, u16_of, value_of,
    value_or_empty, Row, RowView,
};
use crate::rows::{
    CurrentAddressListEntry, CurrentAddressListEntryView, CurrentBgpConnection,
    CurrentBgpConnectionView, CurrentIpAddress, CurrentIpAddressView, CurrentIpv6Address,
    CurrentIpv6AddressView, CurrentListMember, CurrentListMemberView, CurrentOspfInterfaceTemplate,
    CurrentOspfInterfaceTemplateView, CurrentWireguardInterface, CurrentWireguardInterfaceView,
    CurrentWireguardPeer, CurrentWireguardPeerView, DesiredBgpInstance, DesiredBgpInstanceView,
    DesiredBridge, DesiredBridgeView, DesiredOspfArea, DesiredOspfAreaView, DesiredOspfInstance,
    DesiredOspfInstanceView,
};
use crate::text::{holds, owned, pieces, same, split};
use vstd::prelude::*;
use vstd::string::*;

verus! {

/// A row that is read from the fields of a device's answer.
pub trait Parsed: Sized + DeepView {
    /// What the fields say, or what is wrong with them.
    spec fn of(row: RowView) -> Result<Self::V, ErrorView>;

    /// Reads the fields.
    fn parse(row: &Row) -> (r: Result<Self, Error>)
        ensures
            outcome(r) == Self::of(row@),
    ;
}

/// What the first `n` rows say, or what is wrong with the first of them that is malformed.
pub open spec fn all_of<T: Parsed>(rows: Seq<RowView>, n: int) -> Result<Seq<T::V>, ErrorView>
    decreases n,
{
    if n <= 0 {
        Ok(Seq::empty())
    } else {
        match all_of::<T>(rows, n - 1) {
            Err(e) => Err(e),
            Ok(before) => match T::of(rows[n - 1]) {
                Err(e) => Err(e),
                Ok(v) => Ok(before.push(v)),
            },
        }
    }
}

/// What the rows say, or what is wrong with the first of them that is malformed.
pub open spec fn table_of<T: Parsed>(rows: Seq<RowView>) -> Result<Seq<T::V>, ErrorView> {
    all_of::<T>(rows, rows.len() as int)
}

proof fn lemma_all_of_error<T: Parsed>(rows: Seq<RowView>, n: int, m: int)
    requires
        0 <= n <= m,
        all_of::<T>(rows, n) is Err,
    ensures
        all_of::<T>(rows, m) == all_of::<T>(rows, n),
    decreases m,
{
    if n < m {
        lemma_all_of_error::<T>(rows, n, m - 1);
    }
}

/// Reads every row; the first malformed one is an error.
pub fn parse_all<T: Parsed>(rows: &[Row]) -> (r: Result<Vec<T>, Error>)
    ensures
        outcome(r) == table_of::<T>(rows.deep_view()),
{
    let ghost d = rows.deep_view();
    let mut out: Vec<T> = Vec::new();
    assert(out.deep_view() =~= Seq::<T::V>::empty());
    let mut i: usize = 0;
    while i < rows.len()
        invariant
            i <= rows@.len(),
            d == rows.deep_view(),
            all_of::<T>(d, i as int) == Ok::<_, ErrorView>(out.deep_view()),
        decreases rows@.len() - i,
    {
        let ghost before = out.deep_view();
        assert(d[i as int] == rows[i as int]@);
        match T::parse(&rows[i]) {
            Ok(v) => {
                let ghost seen = v.deep_view();
                out.push(v);
                assert(out.deep_view() =~= before.push(seen));
            },
            Err(e) => {
                proof {
                    lemma_all_of_error::<T>(d, i + 1, d.len() as int);
                }
                return Err(e);
            },
        }
        i = i + 1;
    }
    Ok(out)
}

/// The number of 16 bits that a `listen-port` reads as.
pub open spec fn port_of(value: Seq<char>) -> Result<u16, ErrorView> {
    match parse_decimal(value, u16::MAX as nat) {
        Some(n) => Ok(n as u16),
        None => Err(ErrorView::ListenPort { value }),
    }
}

fn parse_port(value: &str) -> (r: Result<u16, Error>)
    ensures
        match r {
            Ok(n) => port_of(value@) == Ok::<u16, ErrorView>(n),
            Err(e) => port_of(value@) == Err::<u16, ErrorView>(e.deep_view()),
        },
{
    match read_decimal(value, 65535) {
        Some(n) => Ok(n as u16),
        None => Err(Error::ListenPort { value: owned(value) }),
    }
}

/// The IPv6 address in a field, `::` if there is none.
pub open spec fn ipv6_or_unspecified(value: Seq<char>) -> Seq<u16> {
    match parse_ipv6(value) {
        Some(a) => a,
        None => zero_groups(8),
    }
}

/// The IPv4 address in a field, `0.0.0.0` if there is none.
pub open spec fn ipv4_or_unspecified(value: Seq<char>) -> Ipv4Addr {
    match parse_ipv4(value) {
        Some(a) => a,
        None => Ipv4Addr { bits: 0 },
    }
}

fn parse_ipv6_or_unspecified(value: &str) -> (r: Ipv6Addr)
    ensures
        r.deep_view() == ipv6_or_unspecified(value@),
{
    match Ipv6Addr::parse(value) {
        Some(a) => a,
        None => Ipv6Addr::unspecified(),
    }
}

fn parse_ipv4_or_unspecified(value: &str) -> (r: Ipv4Addr)
    ensures
        r == ipv4_or_unspecified(value@),
{
    match Ipv4Addr::parse(value) {
        Some(a) => a,
        None => Ipv4Addr::unspecified(),
    }
}

/// The number that a field reads as, if it reads as one of at most `max`.
pub open spec fn number_or(value: Option<Seq<char>>, max: nat, otherwise: nat) -> nat {
    match value {
        Some(v) => match parse_decimal(v, max) {
            Some(n) => n,
            None => otherwise,
        },
        None => otherwise,
    }
}

fn parse_number_or(value: Option<&str>, max: u32, otherwise: u32) -> (r: u32)
    requires
        otherwise <= max,
    ensures
        r == number_or(value.deep_view(), max as nat, otherwise as nat),
        r <= max,
{
    match value {
        Some(v) => match read_decimal(v, max) {
            Some(n) => n,
            None => otherwise,
        },
        None => otherwise,
    }
}

/// What a row of `/interface/wireguard` says.
pub open spec fn wireguard_interface_of(
    row: RowView,
) -> Result<CurrentWireguardInterfaceView, ErrorView> {
    match id_of(row) {
        Err(e) => Err(e),
        Ok(id) => match required(row, "name"@, id) {
            Err(e) => Err(e),
            Ok(name) => match required(row, "listen-port"@, id) {
                Err(e) => Err(e),
                Ok(listen_port_text) => match port_of(listen_port_text) {
                    Err(e) => Err(e),
                    Ok(listen_port) => Ok(
                        CurrentWireguardInterfaceView {
                            id,
                            name,
                            listen_port,
                            private_key_b64: value_or_empty(row, "private-key"@),
                            disabled: flag_set(value_of(row, "disabled"@)),
                        },
                    ),
                },
            },
        },
    }
}

/// Reads a row of `/interface/wireguard`.
pub fn parse_wireguard_interface(row: &Row) -> (r: Result<CurrentWireguardInterface, Error>)
    ensures
        outcome(r) == wireguard_interface_of(row@),
{
    let id = match get_id(row) {
        Ok(id) => id,
        Err(e) => return Err(e),
    };
    let name = match get_required(row, "name", id.as_str()) {
        Ok(v) => v,
        Err(e) => return Err(e),
    };
    let listen_port_text = match get_required(row, "listen-port", id.as_str()) {
        Ok(v) => v,
        Err(e) => return Err(e),
    };
    let listen_port: u16 = match parse_port(listen_port_text.as_str()) {
        Ok(v) => v,
        Err(e) => return Err(e),
    };
    Ok(
        CurrentWireguardInterface {
            id,
            name,
            listen_port,
            private_key_b64: get_or_empty(row, "private-key"),
            disabled: get_bool_flag(row, "disabled"),
        },
    )
}

impl Parsed for CurrentWireguardInterface {
    open spec fn of(row: RowView) -> Result<CurrentWireguardInterfaceView, ErrorView> {
        wireguard_interface_of(row)
    }

    fn parse(row: &Row) -> (r: Result<CurrentWireguardInterface, Error>) {
        parse_wireguard_interface(row)
    }
}

/// What a row of `/interface/wireguard/peers`, which keeps the peer's name in
/// `comment`, says.
pub open spec fn wireguard_peer_of(row: RowView) -> Result<CurrentWireguardPeerView, ErrorView> {
    match id_of(row) {
        Err(e) => Err(e),
        Ok(id) => match required(row, "interface"@, id) {
            Err(e) => Err(e),
            Ok(interface) => match u16_of(row, "endpoint-port"@) {
                Err(e) => Err(e),
                Ok(endpoint_port) => match seconds_of(row, "persistent-keepalive"@) {
                    Err(e) => Err(e),
                    Ok(persistent_keepalive) => Ok(
                        CurrentWireguardPeerView {
                            id,
                            interface,
                            name: value_or_empty(row, "comment"@),
                            public_key_b64: value_or_empty(row, "public-key"@),
                            allowed_address: value_or_empty(row, "allowed-address"@),
                            endpoint_address: value_of(row, "endpoint-address"@),
                            endpoint_port,
                            persistent_keepalive,
                            disabled: flag_set(value_of(row, "disabled"@)),
                        },
                    ),
                },
            },
        },
    }
}

/// Reads a row of `/interface/wireguard/peers`, which keeps the peer's name in `comment`.
pub fn parse_wireguard_peer(row: &Row) -> (r: Result<CurrentWireguardPeer, Error>)
    ensures
        outcome(r) == wireguard_peer_of(row@),
{
    let id = match get_id(row) {
        Ok(id) => id,
        Err(e) => return Err(e),
    };
    let interface = match get_required(row, "interface", id.as_str()) {
        Ok(v) => v,
        Err(e) => return Err(e),
    };
    let endpoint_port = match get_opt_u16(row, "endpoint-port") {
        Ok(v) => v,
        Err(e) => return Err(e),
    };
    let persistent_keepalive = match get_opt_keepalive_seconds(row, "persistent-keepalive") {
        Ok(v) => v,
        Err(e) => return Err(e),
    };
    Ok(
        CurrentWireguardPeer {
            id,
            interface,
            name: get_or_empty(row, "comment"),
            public_key_b64: get_or_empty(row, "public-key"),
            allowed_address: get_or_empty(row, "allowed-address"),
            endpoint_address: get_text(row, "endpoint-address"),
            endpoint_port,
            persistent_keepalive,
            disabled: get_bool_flag(row, "disabled"),
        },
    )
}

impl Parsed for CurrentWireguardPeer {
    open spec fn of(row: RowView) -> Result<CurrentWireguardPeerView, ErrorView> {
        wireguard_peer_of(row)
    }

    fn parse(row: &Row) -> (r: Result<CurrentWireguardPeer, Error>) {
        parse_wireguard_peer(row)
    }
}

/// What a row of `/ip/address` says.
pub open spec fn ip_address_of(row: RowView) -> Result<CurrentIpAddressView, ErrorView> {
    match id_of(row) {
        Err(e) => Err(e),
        Ok(id) => match required(row, "address"@, id) {
            Err(e) => Err(e),
            Ok(address) => match required(row, "interface"@, id) {
                Err(e) => Err(e),
                Ok(interface) => Ok(
                    CurrentIpAddressView {
                        id,
                        address,
                        interface,
                        disabled: flag_set(value_of(row, "disabled"@)),
                    },
                ),
            },
        },
    }
}

/// Reads a row of `/ip/address`.
pub fn parse_ip_address(row: &Row) -> (r: Result<CurrentIpAddress, Error>)
    ensures
        outcome(r) == ip_address_of(row@),
{
    let id = match get_id(row) {
        Ok(id) => id,
        Err(e) => return Err(e),
    };
    let address = match get_required(row, "address", id.as_str()) {
        Ok(v) => v,
        Err(e) => return Err(e),
    };
    let interface = match get_required(row, "interface", id.as_str()) {
        Ok(v) => v,
        Err(e) => return Err(e),
    };
    Ok(
        CurrentIpAddress {
            id,
            address,
            interface,
            disabled: get_bool_flag(row, "disabled"),
        },
    )
}

impl Parsed for CurrentIpAddress {
    open spec fn of(row: RowView) -> Result<CurrentIpAddressView, ErrorView> {
        ip_address_of(row)
    }

    fn parse(row: &Row) -> (r: Result<CurrentIpAddress, Error>) {
        parse_ip_address(row)
    }
}

/// What a row of `/ipv6/address` says.
pub open spec fn ipv6_address_of(row: RowView) -> Result<CurrentIpv6AddressView, ErrorView> {
    match id_of(row) {
        Err(e) => Err(e),
        Ok(id) => match required(row, "address"@, id) {
            Err(e) => Err(e),
            Ok(address) => match required(row, "interface"@, id) {
                Err(e) => Err(e),
                Ok(interface) => Ok(
                    CurrentIpv6AddressView {
                        id,
                        address,
                        interface,
                        advertise: flag_set(value_of(row, "advertise"@)),
                        disabled: flag_set(value_of(row, "disabled"@)),
                    },
                ),
            },
        },
    }
}

/// Reads a row of `/ipv6/address`.
pub fn parse_ipv6_address(row: &Row) -> (r: Result<CurrentIpv6Address, Error>)
    ensures
        outcome(r) == ipv6_address_of(row@),
{
    let id = match get_id(row) {
        Ok(id) => id,
        Err(e) => return Err(e),
    };
    let address = match get_required(row, "address", id.as_str()) {
        Ok(v) => v,
        Err(e) => return Err(e),
    };
    let interface = match get_required(row, "interface", id.as_str()) {
        Ok(v) => v,
        Err(e) => return Err(e),
    };
    Ok(
        CurrentIpv6Address {
            id,
            address,
            interface,
            advertise: get_bool_flag(row, "advertise"),
            disabled: get_bool_flag(row, "disabled"),
        },
    )
}

impl Parsed for CurrentIpv6Address {
    open spec fn of(row: RowView) -> Result<CurrentIpv6AddressView, ErrorView> {
        ipv6_address_of(row)
    }

    fn parse(row: &Row) -> (r: Result<CurrentIpv6Address, Error>) {
        parse_ipv6_address(row)
    }
}

/// What a row of `/interface/list/member` says.
pub open spec fn list_member_of(row: RowView) -> Result<CurrentListMemberView, ErrorView> {
    match id_of(row) {
        Err(e) => Err(e),
        Ok(id) => match required(row, "list"@, id) {
            Err(e) => Err(e),
            Ok(list) => match required(row, "interface"@, id) {
                Err(e) => Err(e),
                Ok(interface) => Ok(
                    CurrentListMemberView {
                        id,
                        list,
                        interface,
                        disabled: flag_set(value_of(row, "disabled"@)),
                    },
                ),
            },
        },
    }
}

/// Reads a row of `/interface/list/member`.
pub fn parse_list_member(row: &Row) -> (r: Result<CurrentListMember, Error>)
    ensures
        outcome(r) == list_member_of(row@),
{
    let id = match get_id(row) {
        Ok(id) => id,
        Err(e) => return Err(e),
    };
    let list = match get_required(row, "list", id.as_str()) {
        Ok(v) => v,
        Err(e) => return Err(e),
    };
    let interface = match get_required(row, "interface", id.as_str()) {
        Ok(v) => v,
        Err(e) => return Err(e),
    };
    Ok(
        CurrentListMember {
            id,
            list,
            interface,
            disabled: get_bool_flag(row, "disabled"),
        },
    )
}

impl Parsed for CurrentListMember {
    open spec fn of(row: RowView) -> Result<CurrentListMemberView, ErrorView> {
        list_member_of(row)
    }

    fn parse(row: &Row) -> (r: Result<CurrentListMember, Error>) {
        parse_list_member(row)
    }
}

/// What a row of `/routing/ospf/interface-template` says.
pub open spec fn ospf_template_of(
    row: RowView,
) -> Result<CurrentOspfInterfaceTemplateView, ErrorView> {
    match id_of(row) {
        Err(e) => Err(e),
        Ok(id) => match required(row, "interfaces"@, id) {
            Err(e) => Err(e),
            Ok(interfaces) => match u16_of(row, "cost"@) {
                Err(e) => Err(e),
                Ok(cost) => Ok(
                    CurrentOspfInterfaceTemplateView {
                        id,
                        interfaces,
                        area: value_or_empty(row, "area"@),
                        type_: value_of(row, "type"@),
                        cost,
                        hello_interval: value_of(row, "hello-interval"@),
                        dead_interval: value_of(row, "dead-interval"@),
                        passive_raw: presence(row, "passive"@),
                        disabled: flag_set(value_of(row, "disabled"@)),
                    },
                ),
            },
        },
    }
}

/// Reads a row of `/routing/ospf/interface-template`.
pub fn parse_ospf_template(row: &Row) -> (r: Result<CurrentOspfInterfaceTemplate, Error>)
    ensures
        outcome(r) == ospf_template_of(row@),
{
    let id = match get_id(row) {
        Ok(id) => id,
        Err(e) => return Err(e),
    };
    let interfaces = match get_required(row, "interfaces", id.as_str()) {
        Ok(v) => v,
        Err(e) => return Err(e),
    };
    let cost = match get_opt_u16(row, "cost") {
        Ok(v) => v,
        Err(e) => return Err(e),
    };
    Ok(
        CurrentOspfInterfaceTemplate {
            id,
            interfaces,
            area: get_or_empty(row, "area"),
            type_: get_text(row, "type"),
            cost,
            hello_interval: get_text(row, "hello-interval"),
            dead_interval: get_text(row, "dead-interval"),
            passive_raw: get_flag_presence(row, "passive"),
            disabled: get_bool_flag(row, "disabled"),
        },
    )
}

impl Parsed for CurrentOspfInterfaceTemplate {
    open spec fn of(row: RowView) -> Result<CurrentOspfInterfaceTemplateView, ErrorView> {
        ospf_template_of(row)
    }

    fn parse(row: &Row) -> (r: Result<CurrentOspfInterfaceTemplate, Error>) {
        parse_ospf_template(row)
    }
}

/// What a row of `/ip/firewall/address-list` says.
pub open spec fn address_list_entry_of(
    row: RowView,
) -> Result<CurrentAddressListEntryView, ErrorView> {
    match id_of(row) {
        Err(e) => Err(e),
        Ok(id) => match required(row, "list"@, id) {
            Err(e) => Err(e),
            Ok(list) => match required(row, "address"@, id) {
                Err(e) => Err(e),
                Ok(address) => Ok(
                    CurrentAddressListEntryView {
                        id,
                        list,
                        address,
                        disabled: flag_set(value_of(row, "disabled"@)),
                    },
                ),
            },
        },
    }
}

/// Reads a row of `/ip/firewall/address-list`.
pub fn parse_address_list_entry(row: &Row) -> (r: Result<CurrentAddressListEntry, Error>)
    ensures
        outcome(r) == address_list_entry_of(row@),
{
    let id = match get_id(row) {
        Ok(id) => id,
        Err(e) => return Err(e),
    };
    let list = match get_required(row, "list", id.as_str()) {
        Ok(v) => v,
        Err(e) => return Err(e),
    };
    let address = match get_required(row, "address", id.as_str()) {
        Ok(v) => v,
        Err(e) => return Err(e),
    };
    Ok(
        CurrentAddressListEntry {
            id,
            list,
            address,
            disabled: get_bool_flag(row, "disabled"),
        },
    )
}

impl Parsed for CurrentAddressListEntry {
    open spec fn of(row: RowView) -> Result<CurrentAddressListEntryView, ErrorView> {
        address_list_entry_of(row)
    }

    fn parse(row: &Row) -> (r: Result<CurrentAddressListEntry, Error>) {
        parse_address_list_entry(row)
    }
}

/// What a row of `/routing/bgp/connection` says.
pub open spec fn bgp_connection_of(row: RowView) -> Result<CurrentBgpConnectionView, ErrorView> {
    match id_of(row) {
        Err(e) => Err(e),
        Ok(id) => match required(row, "name"@, id) {
            Err(e) => Err(e),
            Ok(name) => Ok(
                CurrentBgpConnectionView {
                    id,
                    name,
                    instance: value_or_empty(row, "instance"@),
                    local_address: ipv6_or_unspecified(value_or_empty(row, "local.address"@)),
                    local_role: value_or_empty(row, "local.role"@),
                    remote_address: ipv6_or_unspecified(value_or_empty(row, "remote.address"@)),
                    multihop: flag_set(value_of(row, "multihop"@)),
                    afi: value_or_empty(row, "afi"@),
                    output_network: value_or_empty(row, "output.network"@),
                    disabled: flag_set(value_of(row, "disabled"@)),
                },
            ),
        },
    }
}

/// Reads a row of `/routing/bgp/connection`.
pub fn parse_bgp_connection(row: &Row) -> (r: Result<CurrentBgpConnection, Error>)
    ensures
        outcome(r) == bgp_connection_of(row@),
{
    let id = match get_id(row) {
        Ok(id) => id,
        Err(e) => return Err(e),
    };
    let name = match get_required(row, "name", id.as_str()) {
        Ok(v) => v,
        Err(e) => return Err(e),
    };
    Ok(
        CurrentBgpConnection {
            id,
            name,
            instance: get_or_empty(row, "instance"),
            local_address: parse_ipv6_or_unspecified(get_or_empty(row, "local.address").as_str()),
            local_role: get_or_empty(row, "local.role"),
            remote_address: parse_ipv6_or_unspecified(get_or_empty(row, "remote.address").as_str()),
            multihop: get_bool_flag(row, "multihop"),
            afi: get_or_empty(row, "afi"),
            output_network: get_or_empty(row, "output.network"),
            disabled: get_bool_flag(row, "disabled"),
        },
    )
}

impl Parsed for CurrentBgpConnection {
    open spec fn of(row: RowView) -> Result<CurrentBgpConnectionView, ErrorView> {
        bgp_connection_of(row)
    }

    fn parse(row: &Row) -> (r: Result<CurrentBgpConnection, Error>) {
        parse_bgp_connection(row)
    }
}

/// Reads `/interface/wireguard`, every row of which is this tool's.
pub fn read_wireguard_interfaces(rows: &[Row]) -> (r: Result<Vec<CurrentWireguardInterface>, Error>)
    ensures
        outcome(r) == table_of::<CurrentWireguardInterface>(rows.deep_view()),
{
    parse_all::<CurrentWireguardInterface>(rows)
}

/// Reads `/interface/wireguard/peers`, every row of which is this tool's.
pub fn read_wireguard_peers(rows: &[Row]) -> (r: Result<Vec<CurrentWireguardPeer>, Error>)
    ensures
        outcome(r) == table_of::<CurrentWireguardPeer>(rows.deep_view()),
{
    parse_all::<CurrentWireguardPeer>(rows)
}

/// Reads `/routing/ospf/interface-template`, every row of which is this tool's.
pub fn read_ospf_interface_templates(
    rows: &[Row],
) -> (r: Result<Vec<CurrentOspfInterfaceTemplate>, Error>)
    ensures
        outcome(r) == table_of::<CurrentOspfInterfaceTemplate>(rows.deep_view()),
{
    parse_all::<CurrentOspfInterfaceTemplate>(rows)
}

/// Reads `/routing/bgp/connection`, every row of which is this tool's.
pub fn read_bgp_connections(rows: &[Row]) -> (r: Result<Vec<CurrentBgpConnection>, Error>)
    ensures
        outcome(r) == table_of::<CurrentBgpConnection>(rows.deep_view()),
{
    parse_all::<CurrentBgpConnection>(rows)
}

/// Those of the rows that `keep` holds of, if the rows could be read.
pub open spec fn kept<V>(rows: Result<Seq<V>, ErrorView>, keep: spec_fn(V) -> bool) -> Result<
    Seq<V>,
    ErrorView,
> {
    match rows {
        Err(e) => Err(e),
        Ok(v) => Ok(v.filter(keep)),
    }
}

/// Whether a row of `/ip/address` is this tool's: it stands on one of these interfaces, or on one
/// that only this tool could have named so.
pub open spec fn ip_address_is_ours(our_interfaces: Seq<Seq<char>>) -> spec_fn(
    CurrentIpAddressView,
) -> bool {
    |a: CurrentIpAddressView| in_footprint(a.interface, our_interfaces)
}

/// Whether an address with its prefix length lies in `fe80::/10`.
pub open spec fn is_link_local_entry(address: Seq<char>) -> bool {
    match parse_ipv6(split(address, '/')[0]) {
        Some(a) => is_link_local(a),
        None => false,
    }
}

/// Whether a row of `/ipv6/address` is this tool's: it is not link-local, and stands on one of
/// these interfaces or on one that only this tool could have named so.
pub open spec fn ipv6_address_is_ours(our_interfaces: Seq<Seq<char>>) -> spec_fn(
    CurrentIpv6AddressView,
) -> bool {
    |a: CurrentIpv6AddressView|
        !is_link_local_entry(a.address) && in_footprint(a.interface, our_interfaces)
}

/// Whether a row of `/interface/list/member` is this tool's: only this tool could have put the
/// interface on [`LAN_LIST`].
pub open spec fn list_member_is_ours(
    desired_interfaces: Seq<Seq<char>>,
) -> spec_fn(CurrentListMemberView) -> bool {
    |m: CurrentListMemberView| m.list == LAN_LIST@ && in_footprint(m.interface, desired_interfaces)
}

/// Whether a row of `/ip/firewall/address-list` stands on the list.
pub open spec fn entry_is_on(list: Seq<char>) -> spec_fn(CurrentAddressListEntryView) -> bool {
    |e: CurrentAddressListEntryView| e.list == list
}

proof fn lemma_filter_step<V>(s: Seq<V>, keep: spec_fn(V) -> bool, i: int)
    requires
        0 <= i < s.len(),
    ensures
        s.take(i + 1).filter(keep) == (if keep(s[i]) {
            s.take(i).filter(keep).push(s[i])
        } else {
            s.take(i).filter(keep)
        }),
{
    reveal(Seq::filter);
    assert(s.take(i + 1).drop_last() =~= s.take(i));
}

/// Whether an address with its prefix length lies in `fe80::/10`. RouterOS gives every interface
/// such an address by itself, so no row of that kind was written by this tool.
pub fn is_link_local_ipv6(address: &str) -> (r: bool)
    ensures
        r == is_link_local_entry(address@),
{
    let parts = pieces(address, '/');
    assert(split(address@, '/').len() > 0);
    assert(parts.deep_view()[0] == parts[0]@);
    match Ipv6Addr::parse(parts[0].as_str()) {
        Some(a) => a.is_unicast_link_local(),
        None => false,
    }
}

/// Reads `/ip/address` down to the rows that are this tool's. An address left behind on the raw id
/// of an interface that is gone is among them, or it would never be cleaned up.
pub fn read_ip_addresses(
    rows: &[Row],
    our_interfaces: &[String],
) -> (r: Result<Vec<CurrentIpAddress>, Error>)
    ensures
        outcome(r) == kept(
            table_of::<CurrentIpAddress>(rows.deep_view()),
            ip_address_is_ours(our_interfaces.deep_view()),
        ),
{
    let all = match parse_all::<CurrentIpAddress>(rows) {
        Ok(all) => all,
        Err(e) => return Err(e),
    };
    let ghost d = all.deep_view();
    let ghost keep = ip_address_is_ours(our_interfaces.deep_view());
    let mut out: Vec<CurrentIpAddress> = Vec::new();
    let mut i: usize = 0;
    proof {
        reveal(Seq::filter);
        assert(out.deep_view() =~= d.take(0).filter(keep));
    }
    while i < all.len()
        invariant
            i <= all@.len(),
            d == all.deep_view(),
            keep == ip_address_is_ours(our_interfaces.deep_view()),
            out.deep_view() == d.take(i as int).filter(keep),
        decreases all@.len() - i,
    {
        let ghost before = out.deep_view();
        proof {
            lemma_filter_step(d, keep, i as int);
        }
        assert(d[i as int] == all[i as int].deep_view());
        if is_our_list_member_footprint(all[i].interface.as_str(), our_interfaces) {
            out.push(all[i].clone());
            assert(out.deep_view() =~= before.push(d[i as int]));
        }
        i = i + 1;
    }
    assert(d.take(i as int) =~= d);
    Ok(out)
}

/// Reads `/ipv6/address` down to the rows that are this tool's.
pub fn read_ipv6_addresses(
    rows: &[Row],
    our_interfaces: &[String],
) -> (r: Result<Vec<CurrentIpv6Address>, Error>)
    ensures
        outcome(r) == kept(
            table_of::<CurrentIpv6Address>(rows.deep_view()),
            ipv6_address_is_ours(our_interfaces.deep_view()),
        ),
{
    let all = match parse_all::<CurrentIpv6Address>(rows) {
        Ok(all) => all,
        Err(e) => return Err(e),
    };
    let ghost d = all.deep_view();
    let ghost keep = ipv6_address_is_ours(our_interfaces.deep_view());
    let mut out: Vec<CurrentIpv6Address> = Vec::new();
    let mut i: usize = 0;
    proof {
        reveal(Seq::filter);
        assert(out.deep_view() =~= d.take(0).filter(keep));
    }
    while i < all.len()
        invariant
            i <= all@.len(),
            d == all.deep_view(),
            keep == ipv6_address_is_ours(our_interfaces.deep_view()),
            out.deep_view() == d.take(i as int).filter(keep),
        decreases all@.len() - i,
    {
        let ghost before = out.deep_view();
        proof {
            lemma_filter_step(d, keep, i as int);
        }
        assert(d[i as int] == all[i as int].deep_view());
        if !is_link_local_ipv6(all[i].address.as_str()) && is_our_list_member_footprint(
            all[i].interface.as_str(),
            our_interfaces,
        ) {
            out.push(all[i].clone());
            assert(out.deep_view() =~= before.push(d[i as int]));
        }
        i = i + 1;
    }
    assert(d.take(i as int) =~= d);
    Ok(out)
}

/// Reads `/interface/list/member` down to the members of [`LAN_LIST`] that are this tool's.
pub fn read_list_members(
    rows: &[Row],
    desired_interfaces: &[String],
) -> (r: Result<Vec<CurrentListMember>, Error>)
    ensures
        outcome(r) == kept(
            table_of::<CurrentListMember>(rows.deep_view()),
            list_member_is_ours(desired_interfaces.deep_view()),
        ),
{
    let all = match parse_all::<CurrentListMember>(rows) {
        Ok(all) => all,
        Err(e) => return Err(e),
    };
    let ghost d = all.deep_view();
    let ghost keep = list_member_is_ours(desired_interfaces.deep_view());
    let mut out: Vec<CurrentListMember> = Vec::new();
    let mut i: usize = 0;
    proof {
        reveal(Seq::filter);
        assert(out.deep_view() =~= d.take(0).filter(keep));
    }
    while i < all.len()
        invariant
            i <= all@.len(),
            d == all.deep_view(),
            keep == list_member_is_ours(desired_interfaces.deep_view()),
            out.deep_view() == d.take(i as int).filter(keep),
        decreases all@.len() - i,
    {
        let ghost before = out.deep_view();
        proof {
            lemma_filter_step(d, keep, i as int);
        }
        assert(d[i as int] == all[i as int].deep_view());
        if same(all[i].list.as_str(), LAN_LIST) && is_our_list_member_footprint(
            all[i].interface.as_str(),
            desired_interfaces,
        ) {
            out.push(all[i].clone());
            assert(out.deep_view() =~= before.push(d[i as int]));
        }
        i = i + 1;
    }
    assert(d.take(i as int) =~= d);
    Ok(out)
}

/// Reads `/ip/firewall/address-list` down to the entries of one list.
pub fn read_bgp_networks(
    rows: &[Row],
    list: &str,
) -> (r: Result<Vec<CurrentAddressListEntry>, Error>)
    ensures
        outcome(r) == kept(
            table_of::<CurrentAddressListEntry>(rows.deep_view()),
            entry_is_on(list@),
        ),
{
    let all = match parse_all::<CurrentAddressListEntry>(rows) {
        Ok(all) => all,
        Err(e) => return Err(e),
    };
    let ghost d = all.deep_view();
    let ghost keep = entry_is_on(list@);
    let mut out: Vec<CurrentAddressListEntry> = Vec::new();
    let mut i: usize = 0;
    proof {
        reveal(Seq::filter);
        assert(out.deep_view() =~= d.take(0).filter(keep));
    }
    while i < all.len()
        invariant
            i <= all@.len(),
            d == all.deep_view(),
            keep == entry_is_on(list@),
            out.deep_view() == d.take(i as int).filter(keep),
        decreases all@.len() - i,
    {
        let ghost before = out.deep_view();
        proof {
            lemma_filter_step(d, keep, i as int);
        }
        assert(d[i as int] == all[i as int].deep_view());
        if same(all[i].list.as_str(), list) {
            out.push(all[i].clone());
            assert(out.deep_view() =~= before.push(d[i as int]));
        }
        i = i + 1;
    }
    assert(d.take(i as int) =~= d);
    Ok(out)
}

/// The network that an interface's address with its prefix length lies in, with the prefix
/// length.
pub open spec fn network_of(address: Seq<char>) -> Result<Seq<char>, ErrorView> {
    match cidr_of(address) {
        Err(e) => Err(e),
        Ok((addr, prefix_len)) => Ok(
            ipv4_text(network(addr, prefix_len)) + "/"@ + decimal(prefix_len as nat),
        ),
    }
}

/// The network that an interface's address with its prefix length lies in: `192.168.88.1/24` is in
/// `192.168.88.0/24`. A row of `/ip/address` has the former, and the latter is what BGP announces.
pub fn address_to_network(address: &str) -> (r: Result<String, Error>)
    ensures
        outcome(r) == network_of(address@),
{
    match parse_cidr(address) {
        Err(e) => Err(e),
        Ok((addr, prefix_len)) => {
            let mut out = network_addr(addr, prefix_len).to_text();
            out.append("/");
            out.append(decimal_text(prefix_len as u32).as_str());
            Ok(out)
        },
    }
}

/// Whether an address stands on an interface that is neither this tool's nor the loopback bridge,
/// and has a network.
pub open spec fn is_physical(a: CurrentIpAddressView, loopback_bridge: Seq<char>) -> bool {
    !is_ours(a.interface) && a.interface != loopback_bridge && network_of(a.address) is Ok
}

/// The networks of those of the first `n` addresses that are physical, with their interfaces.
pub open spec fn physical_prefixes(
    addresses: Seq<CurrentIpAddressView>,
    loopback_bridge: Seq<char>,
    n: int,
) -> Seq<(Seq<char>, Seq<char>)>
    decreases n,
{
    if n <= 0 {
        Seq::empty()
    } else {
        let before = physical_prefixes(addresses, loopback_bridge, n - 1);
        let a = addresses[n - 1];
        if is_physical(a, loopback_bridge) {
            before.push((a.interface, network_of(a.address)->Ok_0))
        } else {
            before
        }
    }
}

/// Reads from `/ip/address` the device's own physically connected networks, with their interfaces.
/// A row whose address has no network, such as a malformed one, is passed over.
pub fn read_physically_connected_prefixes(rows: &[Row], loopback_bridge: &str) -> (r: Result<
    Vec<(String, String)>,
    Error,
>)
    ensures
        outcome(r) == (match table_of::<CurrentIpAddress>(rows.deep_view()) {
            Err(e) => Err(e),
            Ok(a) => Ok(physical_prefixes(a, loopback_bridge@, a.len() as int)),
        }),
{
    let all = match parse_all::<CurrentIpAddress>(rows) {
        Ok(all) => all,
        Err(e) => return Err(e),
    };
    let ghost d = all.deep_view();
    let mut out: Vec<(String, String)> = Vec::new();
    let mut i: usize = 0;
    assert(out.deep_view() =~= Seq::<(Seq<char>, Seq<char>)>::empty());
    while i < all.len()
        invariant
            i <= all@.len(),
            d == all.deep_view(),
            out.deep_view() == physical_prefixes(d, loopback_bridge@, i as int),
        decreases all@.len() - i,
    {
        let ghost before = out.deep_view();
        assert(d[i as int] == all[i as int].deep_view());
        if !is_our_interface_name(all[i].interface.as_str()) && !same(
            all[i].interface.as_str(),
            loopback_bridge,
        ) {
            if let Ok(prefix) = address_to_network(all[i].address.as_str()) {
                let ghost entry = (all[i as int].interface@, prefix@);
                out.push((all[i].interface.clone(), prefix));
                assert(out.deep_view() =~= before.push(entry));
            }
        }
        i = i + 1;
    }
    Ok(out)
}

/// The first row from `i` on with this name, with its `.id`. A row without an `.id` that comes
/// before it is an error.
pub open spec fn named_from(rows: Seq<RowView>, name: Seq<char>, i: int) -> Result<
    Option<(Seq<char>, RowView)>,
    ErrorView,
>
    decreases rows.len() - i,
{
    if i < 0 || i >= rows.len() {
        Ok(None)
    } else {
        match id_of(rows[i]) {
            Err(e) => Err(e),
            Ok(id) => if value_of(rows[i], "name"@) == Some(name) {
                Ok(Some((id, rows[i])))
            } else {
                named_from(rows, name, i + 1)
            },
        }
    }
}

/// The first row with this name, with its `.id`.
pub open spec fn named(rows: Seq<RowView>, name: Seq<char>) -> Result<
    Option<(Seq<char>, RowView)>,
    ErrorView,
> {
    named_from(rows, name, 0)
}

fn find_named<'a>(rows: &'a [Row], name: &str) -> (r: Result<Option<(String, &'a Row)>, Error>)
    ensures
        match r {
            Err(e) => named(rows.deep_view(), name@) == Err::<
                Option<(Seq<char>, RowView)>,
                ErrorView,
            >(e.deep_view()),
            Ok(None) => named(rows.deep_view(), name@) == Ok::<
                Option<(Seq<char>, RowView)>,
                ErrorView,
            >(None),
            Ok(Some((id, row))) => named(rows.deep_view(), name@) == Ok::<
                Option<(Seq<char>, RowView)>,
                ErrorView,
            >(Some((id@, row@))),
        },
{
    let ghost d = rows.deep_view();
    let mut i: usize = 0;
    while i < rows.len()
        invariant
            i <= rows@.len(),
            d == rows.deep_view(),
            named(d, name@) == named_from(d, name@, i as int),
        decreases rows@.len() - i,
    {
        assert(d[i as int] == rows[i as int]@);
        let id = match get_id(&rows[i]) {
            Ok(id) => id,
            Err(e) => return Err(e),
        };
        if let Some(n) = get(&rows[i], "name") {
            if same(n, name) {
                return Ok(Some((id, &rows[i])));
            }
        }
        i = i + 1;
    }
    Ok(None)
}

/// What the row with this name is, if there is one.
pub open spec fn singleton_row<V>(
    rows: Seq<RowView>,
    name: Seq<char>,
    reading: spec_fn(RowView) -> V,
) -> Result<Option<(Seq<char>, V)>, ErrorView> {
    match named(rows, name) {
        Err(e) => Err(e),
        Ok(None) => Ok(None),
        Ok(Some((id, row))) => Ok(Some((id, reading(row)))),
    }
}

/// What the row of `/interface/bridge` with this name says.
pub open spec fn bridge_of(name: Seq<char>) -> spec_fn(RowView) -> DesiredBridgeView {
    |row: RowView|
        DesiredBridgeView {
            name,
            disabled: flag_set(value_of(row, "disabled"@)),
        }
}

/// Reads the row of `/interface/bridge` with this name, if there is one.
pub fn read_loopback_bridge(
    rows: &[Row],
    name: &str,
) -> (r: Result<Option<(String, DesiredBridge)>, Error>)
    ensures
        outcome(r) == singleton_row(rows.deep_view(), name@, bridge_of(name@)),
{
    match find_named(rows, name) {
        Err(e) => Err(e),
        Ok(None) => Ok(None),
        Ok(Some((id, row))) => {
            let found = DesiredBridge {
                name: owned(name),
                disabled: get_bool_flag(row, "disabled"),
            };
            Ok(Some((id, found)))
        },
    }
}

/// Whether the connected routes are among those that an instance redistributes: a list with
/// commas between its members.
pub open spec fn redistributes_connected(value: Seq<char>) -> bool {
    split(value, ',').contains("connected"@)
}

fn has_connected(value: &str) -> (r: bool)
    ensures
        r == redistributes_connected(value@),
{
    let parts = pieces(value, ',');
    holds(parts.as_slice(), "connected")
}

/// What the row of `/routing/ospf/instance` with this name says.
pub open spec fn ospf_instance_of(name: Seq<char>) -> spec_fn(RowView) -> DesiredOspfInstanceView {
    |row: RowView|
        DesiredOspfInstanceView {
            name,
            version: number_or(value_of(row, "version"@), u8::MAX as nat, 3) as u8,
            router_id: ipv4_or_unspecified(value_or_empty(row, "router-id"@)),
            redistribute_connected: redistributes_connected(value_or_empty(row, "redistribute"@)),
            disabled: flag_set(value_of(row, "disabled"@)),
        }
}

/// Reads the row of `/routing/ospf/instance` with this name, if there is one.
pub fn read_ospf_instance(
    rows: &[Row],
    name: &str,
) -> (r: Result<Option<(String, DesiredOspfInstance)>, Error>)
    ensures
        outcome(r) == singleton_row(rows.deep_view(), name@, ospf_instance_of(name@)),
{
    match find_named(rows, name) {
        Err(e) => Err(e),
        Ok(None) => Ok(None),
        Ok(Some((id, row))) => {
            let found = DesiredOspfInstance {
                name: owned(name),
                version: parse_number_or(get(row, "version"), 255, 3) as u8,
                router_id: parse_ipv4_or_unspecified(get_or_empty(row, "router-id").as_str()),
                redistribute_connected: has_connected(
                    get_or_empty(row, "redistribute").as_str(),
                ),
                disabled: get_bool_flag(row, "disabled"),
            };
            Ok(Some((id, found)))
        },
    }
}

/// What the row of `/routing/ospf/area` with this name says.
pub open spec fn ospf_area_of(name: Seq<char>) -> spec_fn(RowView) -> DesiredOspfAreaView {
    |row: RowView|
        DesiredOspfAreaView {
            name,
            area_id: value_or_empty(row, "area-id"@),
            instance: value_or_empty(row, "instance"@),
            disabled: flag_set(value_of(row, "disabled"@)),
        }
}

/// Reads the row of `/routing/ospf/area` with this name, if there is one.
pub fn read_ospf_area(
    rows: &[Row],
    name: &str,
) -> (r: Result<Option<(String, DesiredOspfArea)>, Error>)
    ensures
        outcome(r) == singleton_row(rows.deep_view(), name@, ospf_area_of(name@)),
{
    match find_named(rows, name) {
        Err(e) => Err(e),
        Ok(None) => Ok(None),
        Ok(Some((id, row))) => {
            let found = DesiredOspfArea {
                name: owned(name),
                area_id: get_or_empty(row, "area-id"),
                instance: get_or_empty(row, "instance"),
                disabled: get_bool_flag(row, "disabled"),
            };
            Ok(Some((id, found)))
        },
    }
}

/// What the row of `/routing/bgp/instance` with this name says.
pub open spec fn bgp_instance_of(name: Seq<char>) -> spec_fn(RowView) -> DesiredBgpInstanceView {
    |row: RowView|
        DesiredBgpInstanceView {
            name,
            as_number: number_or(value_of(row, "as"@), u32::MAX as nat, 0) as u32,
            router_id: ipv4_or_unspecified(value_or_empty(row, "router-id"@)),
            routing_table: value_or_empty(row, "routing-table"@),
            disabled: flag_set(value_of(row, "disabled"@)),
        }
}

/// Reads the row of `/routing/bgp/instance` with this name, if there is one.
pub fn read_bgp_instance(
    rows: &[Row],
    name: &str,
) -> (r: Result<Option<(String, DesiredBgpInstance)>, Error>)
    ensures
        outcome(r) == singleton_row(rows.deep_view(), name@, bgp_instance_of(name@)),
{
    match find_named(rows, name) {
        Err(e) => Err(e),
        Ok(None) => Ok(None),
        Ok(Some((id, row))) => {
            let found = DesiredBgpInstance {
                name: owned(name),
                as_number: parse_number_or(get(row, "as"), u32::MAX, 0),
                router_id: parse_ipv4_or_unspecified(get_or_empty(row, "router-id").as_str()),
                routing_table: get_or_empty(row, "routing-table"),
                disabled: get_bool_flag(row, "disabled"),
            };
            Ok(Some((id, found)))
        },
    }
}

} // verus!
