//! The rows of the RouterOS tables that are converged: what a row should be (`Desired*`), and
//! what a row that was read from the device is (`Current*`), together with its `.id`.

use crate::addr::{ipv4_text, ipv6_text, Ipv4Addr, Ipv6Addr};
use crate::number::{decimal, decimal_text};
use crate::quote::{quoted, quoted_text};
use vstd::prelude::*;
use vstd::std_specs::cmp::PartialEqSpecImpl;
use vstd::string::*;

verus! {

/// A row that carries a RouterOS `.id`.
pub trait HasId: DeepView {
    /// The row's `.id`.
    spec fn id_text(v: Self::V) -> Seq<char>;

    /// The row's `.id`.
    fn id(&self) -> (r: &str)
        ensures
            r@ == Self::id_text(self.deep_view()),
    ;
}

/// A row that can be shown in the plan that `--diff` prints.
pub trait Describe: DeepView {
    /// How the row is shown.
    spec fn description(v: Self::V) -> Seq<char>;

    /// Shows the row.
    fn describe(&self) -> (r: String)
        ensures
            r@ == Self::description(self.deep_view()),
    ;
}

/// How a flag is shown.
pub open spec fn bool_text(b: bool) -> Seq<char> {
    if b {
        "true"@
    } else {
        "false"@
    }
}

/// How a text that may be absent is shown.
pub open spec fn option_text(v: Option<Seq<char>>) -> Seq<char> {
    match v {
        Some(s) => "Some("@ + quoted(s) + ")"@,
        None => "None"@,
    }
}

/// How a number that may be absent is shown.
pub open spec fn option_number(v: Option<u16>) -> Seq<char> {
    match v {
        Some(n) => "Some("@ + decimal(n as nat) + ")"@,
        None => "None"@,
    }
}

fn describe_bool(b: bool) -> (r: &'static str)
    ensures
        r@ == bool_text(b),
{
    if b {
        "true"
    } else {
        "false"
    }
}

fn describe_text(v: &Option<String>) -> (r: String)
    ensures
        r@ == option_text(v.deep_view()),
{
    match v {
        Some(s) => {
            let mut out = "Some(".to_owned();
            out.append(quoted_text(s.as_str()).as_str());
            out.append(")");
            out
        },
        None => "None".to_owned(),
    }
}

fn describe_number(v: Option<u16>) -> (r: String)
    ensures
        r@ == option_number(v),
{
    match v {
        Some(n) => {
            let mut out = "Some(".to_owned();
            out.append(decimal_text(n as u32).as_str());
            out.append(")");
            out
        },
        None => "None".to_owned(),
    }
}

/// A copy of a text that may be absent.
pub fn clone_text(v: &Option<String>) -> (r: Option<String>)
    ensures
        r.deep_view() == v.deep_view(),
{
    match v {
        Some(s) => Some(s.clone()),
        None => None,
    }
}

/// A text that may be absent, borrowed.
pub fn borrow_text(v: &Option<String>) -> (r: Option<&str>)
    ensures
        r.deep_view() == v.deep_view(),
{
    match v {
        Some(s) => Some(s.as_str()),
        None => None,
    }
}

/// Whether two texts that may be absent are the same.
pub fn same_text(a: &Option<String>, b: &Option<String>) -> (r: bool)
    ensures
        r == (a.deep_view() == b.deep_view()),
{
    match (a, b) {
        (Some(x), Some(y)) => *x == *y,
        (None, None) => true,
        _ => false,
    }
}

/// What a WireGuard interface should be.
#[derive(Debug, PartialEq, Eq)]
pub struct DesiredWireguardInterface {
    pub name: String,
    pub listen_port: u16,
    pub private_key_b64: String,
    pub disabled: bool,
}

/// What a [`DesiredWireguardInterface`] is.
pub struct DesiredWireguardInterfaceView {
    pub name: Seq<char>,
    pub listen_port: u16,
    pub private_key_b64: Seq<char>,
    pub disabled: bool,
}

impl DeepView for DesiredWireguardInterface {
    type V = DesiredWireguardInterfaceView;

    open spec fn deep_view(&self) -> DesiredWireguardInterfaceView {
        DesiredWireguardInterfaceView {
            name: self.name@,
            listen_port: self.listen_port,
            private_key_b64: self.private_key_b64@,
            disabled: self.disabled,
        }
    }
}

impl Clone for DesiredWireguardInterface {
    fn clone(&self) -> (r: Self)
        ensures
            r.deep_view() == self.deep_view(),
    {
        DesiredWireguardInterface {
            name: self.name.clone(),
            listen_port: self.listen_port,
            private_key_b64: self.private_key_b64.clone(),
            disabled: self.disabled,
        }
    }
}

impl DesiredWireguardInterfaceView {
    /// How the row is shown.
    pub open spec fn description(self) -> Seq<char> {
        "DesiredWireguardInterface { name: "@ + quoted(self.name) + ", listen_port: "@
            + decimal(self.listen_port as nat) + ", private_key_b64: "@
            + quoted(self.private_key_b64) + ", disabled: "@ + bool_text(self.disabled) + " }"@
    }
}

impl Describe for DesiredWireguardInterface {
    open spec fn description(v: DesiredWireguardInterfaceView) -> Seq<char> {
        v.description()
    }

    fn describe(&self) -> (r: String) {
        let mut out = "DesiredWireguardInterface { name: ".to_owned();
        out.append(quoted_text(self.name.as_str()).as_str());
        out.append(", listen_port: ");
        out.append(decimal_text(self.listen_port as u32).as_str());
        out.append(", private_key_b64: ");
        out.append(quoted_text(self.private_key_b64.as_str()).as_str());
        out.append(", disabled: ");
        out.append(describe_bool(self.disabled));
        out.append(" }");
        out
    }
}

/// A WireGuard interface as it was read from the device.
#[derive(Debug, PartialEq, Eq)]
pub struct CurrentWireguardInterface {
    pub id: String,
    pub name: String,
    pub listen_port: u16,
    pub private_key_b64: String,
    pub disabled: bool,
}

/// What a [`CurrentWireguardInterface`] is.
pub struct CurrentWireguardInterfaceView {
    pub id: Seq<char>,
    pub name: Seq<char>,
    pub listen_port: u16,
    pub private_key_b64: Seq<char>,
    pub disabled: bool,
}

impl DeepView for CurrentWireguardInterface {
    type V = CurrentWireguardInterfaceView;

    open spec fn deep_view(&self) -> CurrentWireguardInterfaceView {
        CurrentWireguardInterfaceView {
            id: self.id@,
            name: self.name@,
            listen_port: self.listen_port,
            private_key_b64: self.private_key_b64@,
            disabled: self.disabled,
        }
    }
}

impl Clone for CurrentWireguardInterface {
    fn clone(&self) -> (r: Self)
        ensures
            r.deep_view() == self.deep_view(),
    {
        CurrentWireguardInterface {
            id: self.id.clone(),
            name: self.name.clone(),
            listen_port: self.listen_port,
            private_key_b64: self.private_key_b64.clone(),
            disabled: self.disabled,
        }
    }
}

impl HasId for CurrentWireguardInterface {
    open spec fn id_text(v: CurrentWireguardInterfaceView) -> Seq<char> {
        v.id
    }

    fn id(&self) -> (r: &str) {
        self.id.as_str()
    }
}

impl CurrentWireguardInterfaceView {
    /// How the row is shown.
    pub open spec fn description(self) -> Seq<char> {
        "CurrentWireguardInterface { id: "@ + quoted(self.id) + ", name: "@ + quoted(self.name)
            + ", listen_port: "@ + decimal(self.listen_port as nat) + ", private_key_b64: "@
            + quoted(self.private_key_b64) + ", disabled: "@ + bool_text(self.disabled) + " }"@
    }
}

impl Describe for CurrentWireguardInterface {
    open spec fn description(v: CurrentWireguardInterfaceView) -> Seq<char> {
        v.description()
    }

    fn describe(&self) -> (r: String) {
        let mut out = "CurrentWireguardInterface { id: ".to_owned();
        out.append(quoted_text(self.id.as_str()).as_str());
        out.append(", name: ");
        out.append(quoted_text(self.name.as_str()).as_str());
        out.append(", listen_port: ");
        out.append(decimal_text(self.listen_port as u32).as_str());
        out.append(", private_key_b64: ");
        out.append(quoted_text(self.private_key_b64.as_str()).as_str());
        out.append(", disabled: ");
        out.append(describe_bool(self.disabled));
        out.append(" }");
        out
    }
}

/// What a WireGuard peer should be.
#[derive(Debug, PartialEq, Eq)]
pub struct DesiredWireguardPeer {
    pub interface: String,
    pub name: String,
    pub public_key_b64: String,
    pub allowed_address: String,
    pub endpoint_address: Option<String>,
    pub endpoint_port: Option<u16>,
    pub persistent_keepalive: Option<u16>,
    pub disabled: bool,
}

/// What a [`DesiredWireguardPeer`] is.
pub struct DesiredWireguardPeerView {
    pub interface: Seq<char>,
    pub name: Seq<char>,
    pub public_key_b64: Seq<char>,
    pub allowed_address: Seq<char>,
    pub endpoint_address: Option<Seq<char>>,
    pub endpoint_port: Option<u16>,
    pub persistent_keepalive: Option<u16>,
    pub disabled: bool,
}

impl DeepView for DesiredWireguardPeer {
    type V = DesiredWireguardPeerView;

    open spec fn deep_view(&self) -> DesiredWireguardPeerView {
        DesiredWireguardPeerView {
            interface: self.interface@,
            name: self.name@,
            public_key_b64: self.public_key_b64@,
            allowed_address: self.allowed_address@,
            endpoint_address: self.endpoint_address.deep_view(),
            endpoint_port: self.endpoint_port,
            persistent_keepalive: self.persistent_keepalive,
            disabled: self.disabled,
        }
    }
}

impl Clone for DesiredWireguardPeer {
    fn clone(&self) -> (r: Self)
        ensures
            r.deep_view() == self.deep_view(),
    {
        DesiredWireguardPeer {
            interface: self.interface.clone(),
            name: self.name.clone(),
            public_key_b64: self.public_key_b64.clone(),
            allowed_address: self.allowed_address.clone(),
            endpoint_address: clone_text(&self.endpoint_address),
            endpoint_port: self.endpoint_port,
            persistent_keepalive: self.persistent_keepalive,
            disabled: self.disabled,
        }
    }
}

impl DesiredWireguardPeerView {
    /// How the row is shown.
    pub open spec fn description(self) -> Seq<char> {
        "DesiredWireguardPeer { interface: "@ + quoted(self.interface) + ", name: "@
            + quoted(self.name) + ", public_key_b64: "@ + quoted(self.public_key_b64)
            + ", allowed_address: "@ + quoted(self.allowed_address) + ", endpoint_address: "@
            + option_text(self.endpoint_address) + ", endpoint_port: "@
            + option_number(self.endpoint_port) + ", persistent_keepalive: "@
            + option_number(self.persistent_keepalive) + ", disabled: "@
            + bool_text(self.disabled) + " }"@
    }
}

impl Describe for DesiredWireguardPeer {
    open spec fn description(v: DesiredWireguardPeerView) -> Seq<char> {
        v.description()
    }

    fn describe(&self) -> (r: String) {
        let mut out = "DesiredWireguardPeer { interface: ".to_owned();
        out.append(quoted_text(self.interface.as_str()).as_str());
        out.append(", name: ");
        out.append(quoted_text(self.name.as_str()).as_str());
        out.append(", public_key_b64: ");
        out.append(quoted_text(self.public_key_b64.as_str()).as_str());
        out.append(", allowed_address: ");
        out.append(quoted_text(self.allowed_address.as_str()).as_str());
        out.append(", endpoint_address: ");
        out.append(describe_text(&self.endpoint_address).as_str());
        out.append(", endpoint_port: ");
        out.append(describe_number(self.endpoint_port).as_str());
        out.append(", persistent_keepalive: ");
        out.append(describe_number(self.persistent_keepalive).as_str());
        out.append(", disabled: ");
        out.append(describe_bool(self.disabled));
        out.append(" }");
        out
    }
}

/// A WireGuard peer as it was read from the device.
#[derive(Debug, PartialEq, Eq)]
pub struct CurrentWireguardPeer {
    pub id: String,
    pub interface: String,
    pub name: String,
    pub public_key_b64: String,
    pub allowed_address: String,
    pub endpoint_address: Option<String>,
    pub endpoint_port: Option<u16>,
    pub persistent_keepalive: Option<u16>,
    pub disabled: bool,
}

/// What a [`CurrentWireguardPeer`] is.
pub struct CurrentWireguardPeerView {
    pub id: Seq<char>,
    pub interface: Seq<char>,
    pub name: Seq<char>,
    pub public_key_b64: Seq<char>,
    pub allowed_address: Seq<char>,
    pub endpoint_address: Option<Seq<char>>,
    pub endpoint_port: Option<u16>,
    pub persistent_keepalive: Option<u16>,
    pub disabled: bool,
}

impl DeepView for CurrentWireguardPeer {
    type V = CurrentWireguardPeerView;

    open spec fn deep_view(&self) -> CurrentWireguardPeerView {
        CurrentWireguardPeerView {
            id: self.id@,
            interface: self.interface@,
            name: self.name@,
            public_key_b64: self.public_key_b64@,
            allowed_address: self.allowed_address@,
            endpoint_address: self.endpoint_address.deep_view(),
            endpoint_port: self.endpoint_port,
            persistent_keepalive: self.persistent_keepalive,
            disabled: self.disabled,
        }
    }
}

impl Clone for CurrentWireguardPeer {
    fn clone(&self) -> (r: Self)
        ensures
            r.deep_view() == self.deep_view(),
    {
        CurrentWireguardPeer {
            id: self.id.clone(),
            interface: self.interface.clone(),
            name: self.name.clone(),
            public_key_b64: self.public_key_b64.clone(),
            allowed_address: self.allowed_address.clone(),
            endpoint_address: clone_text(&self.endpoint_address),
            endpoint_port: self.endpoint_port,
            persistent_keepalive: self.persistent_keepalive,
            disabled: self.disabled,
        }
    }
}

impl HasId for CurrentWireguardPeer {
    open spec fn id_text(v: CurrentWireguardPeerView) -> Seq<char> {
        v.id
    }

    fn id(&self) -> (r: &str) {
        self.id.as_str()
    }
}

impl CurrentWireguardPeerView {
    /// How the row is shown.
    pub open spec fn description(self) -> Seq<char> {
        "CurrentWireguardPeer { id: "@ + quoted(self.id) + ", interface: "@
            + quoted(self.interface) + ", name: "@ + quoted(self.name) + ", public_key_b64: "@
            + quoted(self.public_key_b64) + ", allowed_address: "@ + quoted(self.allowed_address)
            + ", endpoint_address: "@ + option_text(self.endpoint_address) + ", endpoint_port: "@
            + option_number(self.endpoint_port) + ", persistent_keepalive: "@
            + option_number(self.persistent_keepalive) + ", disabled: "@
            + bool_text(self.disabled) + " }"@
    }
}

impl Describe for CurrentWireguardPeer {
    open spec fn description(v: CurrentWireguardPeerView) -> Seq<char> {
        v.description()
    }

    fn describe(&self) -> (r: String) {
        let mut out = "CurrentWireguardPeer { id: ".to_owned();
        out.append(quoted_text(self.id.as_str()).as_str());
        out.append(", interface: ");
        out.append(quoted_text(self.interface.as_str()).as_str());
        out.append(", name: ");
        out.append(quoted_text(self.name.as_str()).as_str());
        out.append(", public_key_b64: ");
        out.append(quoted_text(self.public_key_b64.as_str()).as_str());
        out.append(", allowed_address: ");
        out.append(quoted_text(self.allowed_address.as_str()).as_str());
        out.append(", endpoint_address: ");
        out.append(describe_text(&self.endpoint_address).as_str());
        out.append(", endpoint_port: ");
        out.append(describe_number(self.endpoint_port).as_str());
        out.append(", persistent_keepalive: ");
        out.append(describe_number(self.persistent_keepalive).as_str());
        out.append(", disabled: ");
        out.append(describe_bool(self.disabled));
        out.append(" }");
        out
    }
}

/// What an IPv4 address on an interface should be.
#[derive(Debug, PartialEq, Eq)]
pub struct DesiredIpAddress {
    pub address: String,
    pub interface: String,
    pub disabled: bool,
}

/// What a [`DesiredIpAddress`] is.
pub struct DesiredIpAddressView {
    pub address: Seq<char>,
    pub interface: Seq<char>,
    pub disabled: bool,
}

impl DeepView for DesiredIpAddress {
    type V = DesiredIpAddressView;

    open spec fn deep_view(&self) -> DesiredIpAddressView {
        DesiredIpAddressView {
            address: self.address@,
            interface: self.interface@,
            disabled: self.disabled,
        }
    }
}

impl Clone for DesiredIpAddress {
    fn clone(&self) -> (r: Self)
        ensures
            r.deep_view() == self.deep_view(),
    {
        DesiredIpAddress {
            address: self.address.clone(),
            interface: self.interface.clone(),
            disabled: self.disabled,
        }
    }
}

impl DesiredIpAddressView {
    /// How the row is shown.
    pub open spec fn description(self) -> Seq<char> {
        "DesiredIpAddress { address: "@ + quoted(self.address) + ", interface: "@
            + quoted(self.interface) + ", disabled: "@ + bool_text(self.disabled) + " }"@
    }
}

impl Describe for DesiredIpAddress {
    open spec fn description(v: DesiredIpAddressView) -> Seq<char> {
        v.description()
    }

    fn describe(&self) -> (r: String) {
        let mut out = "DesiredIpAddress { address: ".to_owned();
        out.append(quoted_text(self.address.as_str()).as_str());
        out.append(", interface: ");
        out.append(quoted_text(self.interface.as_str()).as_str());
        out.append(", disabled: ");
        out.append(describe_bool(self.disabled));
        out.append(" }");
        out
    }
}

/// An IPv4 address on an interface as it was read from the device.
#[derive(Debug, PartialEq, Eq)]
pub struct CurrentIpAddress {
    pub id: String,
    pub address: String,
    pub interface: String,
    pub disabled: bool,
}

/// What a [`CurrentIpAddress`] is.
pub struct CurrentIpAddressView {
    pub id: Seq<char>,
    pub address: Seq<char>,
    pub interface: Seq<char>,
    pub disabled: bool,
}

impl DeepView for CurrentIpAddress {
    type V = CurrentIpAddressView;

    open spec fn deep_view(&self) -> CurrentIpAddressView {
        CurrentIpAddressView {
            id: self.id@,
            address: self.address@,
            interface: self.interface@,
            disabled: self.disabled,
        }
    }
}

impl Clone for CurrentIpAddress {
    fn clone(&self) -> (r: Self)
        ensures
            r.deep_view() == self.deep_view(),
    {
        CurrentIpAddress {
            id: self.id.clone(),
            address: self.address.clone(),
            interface: self.interface.clone(),
            disabled: self.disabled,
        }
    }
}

impl HasId for CurrentIpAddress {
    open spec fn id_text(v: CurrentIpAddressView) -> Seq<char> {
        v.id
    }

    fn id(&self) -> (r: &str) {
        self.id.as_str()
    }
}

impl CurrentIpAddressView {
    /// How the row is shown.
    pub open spec fn description(self) -> Seq<char> {
        "CurrentIpAddress { id: "@ + quoted(self.id) + ", address: "@ + quoted(self.address)
            + ", interface: "@ + quoted(self.interface) + ", disabled: "@
            + bool_text(self.disabled) + " }"@
    }
}

impl Describe for CurrentIpAddress {
    open spec fn description(v: CurrentIpAddressView) -> Seq<char> {
        v.description()
    }

    fn describe(&self) -> (r: String) {
        let mut out = "CurrentIpAddress { id: ".to_owned();
        out.append(quoted_text(self.id.as_str()).as_str());
        out.append(", address: ");
        out.append(quoted_text(self.address.as_str()).as_str());
        out.append(", interface: ");
        out.append(quoted_text(self.interface.as_str()).as_str());
        out.append(", disabled: ");
        out.append(describe_bool(self.disabled));
        out.append(" }");
        out
    }
}

/// What an IPv6 address on an interface should be.
#[derive(Debug, PartialEq, Eq)]
pub struct DesiredIpv6Address {
    pub address: String,
    pub interface: String,
    pub advertise: bool,
    pub disabled: bool,
}

/// What a [`DesiredIpv6Address`] is.
pub struct DesiredIpv6AddressView {
    pub address: Seq<char>,
    pub interface: Seq<char>,
    pub advertise: bool,
    pub disabled: bool,
}

impl DeepView for DesiredIpv6Address {
    type V = DesiredIpv6AddressView;

    open spec fn deep_view(&self) -> DesiredIpv6AddressView {
        DesiredIpv6AddressView {
            address: self.address@,
            interface: self.interface@,
            advertise: self.advertise,
            disabled: self.disabled,
        }
    }
}

impl Clone for DesiredIpv6Address {
    fn clone(&self) -> (r: Self)
        ensures
            r.deep_view() == self.deep_view(),
    {
        DesiredIpv6Address {
            address: self.address.clone(),
            interface: self.interface.clone(),
            advertise: self.advertise,
            disabled: self.disabled,
        }
    }
}

impl DesiredIpv6AddressView {
    /// How the row is shown.
    pub open spec fn description(self) -> Seq<char> {
        "DesiredIpv6Address { address: "@ + quoted(self.address) + ", interface: "@
            + quoted(self.interface) + ", advertise: "@ + bool_text(self.advertise)
            + ", disabled: "@ + bool_text(self.disabled) + " }"@
    }
}

impl Describe for DesiredIpv6Address {
    open spec fn description(v: DesiredIpv6AddressView) -> Seq<char> {
        v.description()
    }

    fn describe(&self) -> (r: String) {
        let mut out = "DesiredIpv6Address { address: ".to_owned();
        out.append(quoted_text(self.address.as_str()).as_str());
        out.append(", interface: ");
        out.append(quoted_text(self.interface.as_str()).as_str());
        out.append(", advertise: ");
        out.append(describe_bool(self.advertise));
        out.append(", disabled: ");
        out.append(describe_bool(self.disabled));
        out.append(" }");
        out
    }
}

/// An IPv6 address on an interface as it was read from the device.
#[derive(Debug, PartialEq, Eq)]
pub struct CurrentIpv6Address {
    pub id: String,
    pub address: String,
    pub interface: String,
    pub advertise: bool,
    pub disabled: bool,
}

/// What a [`CurrentIpv6Address`] is.
pub struct CurrentIpv6AddressView {
    pub id: Seq<char>,
    pub address: Seq<char>,
    pub interface: Seq<char>,
    pub advertise: bool,
    pub disabled: bool,
}

impl DeepView for CurrentIpv6Address {
    type V = CurrentIpv6AddressView;

    open spec fn deep_view(&self) -> CurrentIpv6AddressView {
        CurrentIpv6AddressView {
            id: self.id@,
            address: self.address@,
            interface: self.interface@,
            advertise: self.advertise,
            disabled: self.disabled,
        }
    }
}

impl Clone for CurrentIpv6Address {
    fn clone(&self) -> (r: Self)
        ensures
            r.deep_view() == self.deep_view(),
    {
        CurrentIpv6Address {
            id: self.id.clone(),
            address: self.address.clone(),
            interface: self.interface.clone(),
            advertise: self.advertise,
            disabled: self.disabled,
        }
    }
}

impl HasId for CurrentIpv6Address {
    open spec fn id_text(v: CurrentIpv6AddressView) -> Seq<char> {
        v.id
    }

    fn id(&self) -> (r: &str) {
        self.id.as_str()
    }
}

impl CurrentIpv6AddressView {
    /// How the row is shown.
    pub open spec fn description(self) -> Seq<char> {
        "CurrentIpv6Address { id: "@ + quoted(self.id) + ", address: "@ + quoted(self.address)
            + ", interface: "@ + quoted(self.interface) + ", advertise: "@
            + bool_text(self.advertise) + ", disabled: "@ + bool_text(self.disabled) + " }"@
    }
}

impl Describe for CurrentIpv6Address {
    open spec fn description(v: CurrentIpv6AddressView) -> Seq<char> {
        v.description()
    }

    fn describe(&self) -> (r: String) {
        let mut out = "CurrentIpv6Address { id: ".to_owned();
        out.append(quoted_text(self.id.as_str()).as_str());
        out.append(", address: ");
        out.append(quoted_text(self.address.as_str()).as_str());
        out.append(", interface: ");
        out.append(quoted_text(self.interface.as_str()).as_str());
        out.append(", advertise: ");
        out.append(describe_bool(self.advertise));
        out.append(", disabled: ");
        out.append(describe_bool(self.disabled));
        out.append(" }");
        out
    }
}

/// What an interface's membership in an interface list should be.
#[derive(Debug, PartialEq, Eq)]
pub struct DesiredListMember {
    pub list: String,
    pub interface: String,
    pub disabled: bool,
}

/// What a [`DesiredListMember`] is.
pub struct DesiredListMemberView {
    pub list: Seq<char>,
    pub interface: Seq<char>,
    pub disabled: bool,
}

impl DeepView for DesiredListMember {
    type V = DesiredListMemberView;

    open spec fn deep_view(&self) -> DesiredListMemberView {
        DesiredListMemberView {
            list: self.list@,
            interface: self.interface@,
            disabled: self.disabled,
        }
    }
}

impl Clone for DesiredListMember {
    fn clone(&self) -> (r: Self)
        ensures
            r.deep_view() == self.deep_view(),
    {
        DesiredListMember {
            list: self.list.clone(),
            interface: self.interface.clone(),
            disabled: self.disabled,
        }
    }
}

impl DesiredListMemberView {
    /// How the row is shown.
    pub open spec fn description(self) -> Seq<char> {
        "DesiredListMember { list: "@ + quoted(self.list) + ", interface: "@
            + quoted(self.interface) + ", disabled: "@ + bool_text(self.disabled) + " }"@
    }
}

impl Describe for DesiredListMember {
    open spec fn description(v: DesiredListMemberView) -> Seq<char> {
        v.description()
    }

    fn describe(&self) -> (r: String) {
        let mut out = "DesiredListMember { list: ".to_owned();
        out.append(quoted_text(self.list.as_str()).as_str());
        out.append(", interface: ");
        out.append(quoted_text(self.interface.as_str()).as_str());
        out.append(", disabled: ");
        out.append(describe_bool(self.disabled));
        out.append(" }");
        out
    }
}

/// An interface's membership in an interface list as it was read from the device.
#[derive(Debug, PartialEq, Eq)]
pub struct CurrentListMember {
    pub id: String,
    pub list: String,
    pub interface: String,
    pub disabled: bool,
}

/// What a [`CurrentListMember`] is.
pub struct CurrentListMemberView {
    pub id: Seq<char>,
    pub list: Seq<char>,
    pub interface: Seq<char>,
    pub disabled: bool,
}

impl DeepView for CurrentListMember {
    type V = CurrentListMemberView;

    open spec fn deep_view(&self) -> CurrentListMemberView {
        CurrentListMemberView {
            id: self.id@,
            list: self.list@,
            interface: self.interface@,
            disabled: self.disabled,
        }
    }
}

impl Clone for CurrentListMember {
    fn clone(&self) -> (r: Self)
        ensures
            r.deep_view() == self.deep_view(),
    {
        CurrentListMember {
            id: self.id.clone(),
            list: self.list.clone(),
            interface: self.interface.clone(),
            disabled: self.disabled,
        }
    }
}

impl HasId for CurrentListMember {
    open spec fn id_text(v: CurrentListMemberView) -> Seq<char> {
        v.id
    }

    fn id(&self) -> (r: &str) {
        self.id.as_str()
    }
}

impl CurrentListMemberView {
    /// How the row is shown.
    pub open spec fn description(self) -> Seq<char> {
        "CurrentListMember { id: "@ + quoted(self.id) + ", list: "@ + quoted(self.list)
            + ", interface: "@ + quoted(self.interface) + ", disabled: "@
            + bool_text(self.disabled) + " }"@
    }
}

impl Describe for CurrentListMember {
    open spec fn description(v: CurrentListMemberView) -> Seq<char> {
        v.description()
    }

    fn describe(&self) -> (r: String) {
        let mut out = "CurrentListMember { id: ".to_owned();
        out.append(quoted_text(self.id.as_str()).as_str());
        out.append(", list: ");
        out.append(quoted_text(self.list.as_str()).as_str());
        out.append(", interface: ");
        out.append(quoted_text(self.interface.as_str()).as_str());
        out.append(", disabled: ");
        out.append(describe_bool(self.disabled));
        out.append(" }");
        out
    }
}

/// What an OSPF interface template should be.
#[derive(Debug, PartialEq, Eq)]
pub struct DesiredOspfInterfaceTemplate {
    pub interfaces: String,
    pub area: String,
    pub type_: Option<String>,
    pub cost: Option<u16>,
    pub hello_interval: Option<String>,
    pub dead_interval: Option<String>,
    pub passive: bool,
    pub disabled: bool,
}

/// What a [`DesiredOspfInterfaceTemplate`] is.
pub struct DesiredOspfInterfaceTemplateView {
    pub interfaces: Seq<char>,
    pub area: Seq<char>,
    pub type_: Option<Seq<char>>,
    pub cost: Option<u16>,
    pub hello_interval: Option<Seq<char>>,
    pub dead_interval: Option<Seq<char>>,
    pub passive: bool,
    pub disabled: bool,
}

impl DeepView for DesiredOspfInterfaceTemplate {
    type V = DesiredOspfInterfaceTemplateView;

    open spec fn deep_view(&self) -> DesiredOspfInterfaceTemplateView {
        DesiredOspfInterfaceTemplateView {
            interfaces: self.interfaces@,
            area: self.area@,
            type_: self.type_.deep_view(),
            cost: self.cost,
            hello_interval: self.hello_interval.deep_view(),
            dead_interval: self.dead_interval.deep_view(),
            passive: self.passive,
            disabled: self.disabled,
        }
    }
}

impl Clone for DesiredOspfInterfaceTemplate {
    fn clone(&self) -> (r: Self)
        ensures
            r.deep_view() == self.deep_view(),
    {
        DesiredOspfInterfaceTemplate {
            interfaces: self.interfaces.clone(),
            area: self.area.clone(),
            type_: clone_text(&self.type_),
            cost: self.cost,
            hello_interval: clone_text(&self.hello_interval),
            dead_interval: clone_text(&self.dead_interval),
            passive: self.passive,
            disabled: self.disabled,
        }
    }
}

impl DesiredOspfInterfaceTemplateView {
    /// How the row is shown.
    pub open spec fn description(self) -> Seq<char> {
        "DesiredOspfInterfaceTemplate { interfaces: "@ + quoted(self.interfaces) + ", area: "@
            + quoted(self.area) + ", type_: "@ + option_text(self.type_) + ", cost: "@
            + option_number(self.cost) + ", hello_interval: "@ + option_text(self.hello_interval)
            + ", dead_interval: "@ + option_text(self.dead_interval) + ", passive: "@
            + bool_text(self.passive) + ", disabled: "@ + bool_text(self.disabled) + " }"@
    }
}

impl Describe for DesiredOspfInterfaceTemplate {
    open spec fn description(v: DesiredOspfInterfaceTemplateView) -> Seq<char> {
        v.description()
    }

    fn describe(&self) -> (r: String) {
        let mut out = "DesiredOspfInterfaceTemplate { interfaces: ".to_owned();
        out.append(quoted_text(self.interfaces.as_str()).as_str());
        out.append(", area: ");
        out.append(quoted_text(self.area.as_str()).as_str());
        out.append(", type_: ");
        out.append(describe_text(&self.type_).as_str());
        out.append(", cost: ");
        out.append(describe_number(self.cost).as_str());
        out.append(", hello_interval: ");
        out.append(describe_text(&self.hello_interval).as_str());
        out.append(", dead_interval: ");
        out.append(describe_text(&self.dead_interval).as_str());
        out.append(", passive: ");
        out.append(describe_bool(self.passive));
        out.append(", disabled: ");
        out.append(describe_bool(self.disabled));
        out.append(" }");
        out
    }
}

/// An OSPF interface template as it was read from the device.
#[derive(Debug, PartialEq, Eq)]
pub struct CurrentOspfInterfaceTemplate {
    pub id: String,
    pub interfaces: String,
    pub area: String,
    pub type_: Option<String>,
    pub cost: Option<u16>,
    pub hello_interval: Option<String>,
    pub dead_interval: Option<String>,
    pub passive_raw: Option<String>,
    pub disabled: bool,
}

/// What a [`CurrentOspfInterfaceTemplate`] is.
pub struct CurrentOspfInterfaceTemplateView {
    pub id: Seq<char>,
    pub interfaces: Seq<char>,
    pub area: Seq<char>,
    pub type_: Option<Seq<char>>,
    pub cost: Option<u16>,
    pub hello_interval: Option<Seq<char>>,
    pub dead_interval: Option<Seq<char>>,
    pub passive_raw: Option<Seq<char>>,
    pub disabled: bool,
}

impl DeepView for CurrentOspfInterfaceTemplate {
    type V = CurrentOspfInterfaceTemplateView;

    open spec fn deep_view(&self) -> CurrentOspfInterfaceTemplateView {
        CurrentOspfInterfaceTemplateView {
            id: self.id@,
            interfaces: self.interfaces@,
            area: self.area@,
            type_: self.type_.deep_view(),
            cost: self.cost,
            hello_interval: self.hello_interval.deep_view(),
            dead_interval: self.dead_interval.deep_view(),
            passive_raw: self.passive_raw.deep_view(),
            disabled: self.disabled,
        }
    }
}

impl Clone for CurrentOspfInterfaceTemplate {
    fn clone(&self) -> (r: Self)
        ensures
            r.deep_view() == self.deep_view(),
    {
        CurrentOspfInterfaceTemplate {
            id: self.id.clone(),
            interfaces: self.interfaces.clone(),
            area: self.area.clone(),
            type_: clone_text(&self.type_),
            cost: self.cost,
            hello_interval: clone_text(&self.hello_interval),
            dead_interval: clone_text(&self.dead_interval),
            passive_raw: clone_text(&self.passive_raw),
            disabled: self.disabled,
        }
    }
}

impl HasId for CurrentOspfInterfaceTemplate {
    open spec fn id_text(v: CurrentOspfInterfaceTemplateView) -> Seq<char> {
        v.id
    }

    fn id(&self) -> (r: &str) {
        self.id.as_str()
    }
}

impl CurrentOspfInterfaceTemplateView {
    /// How the row is shown.
    pub open spec fn description(self) -> Seq<char> {
        "CurrentOspfInterfaceTemplate { id: "@ + quoted(self.id) + ", interfaces: "@
            + quoted(self.interfaces) + ", area: "@ + quoted(self.area) + ", type_: "@
            + option_text(self.type_) + ", cost: "@ + option_number(self.cost)
            + ", hello_interval: "@ + option_text(self.hello_interval) + ", dead_interval: "@
            + option_text(self.dead_interval) + ", passive_raw: "@ + option_text(self.passive_raw)
            + ", disabled: "@ + bool_text(self.disabled) + " }"@
    }
}

impl Describe for CurrentOspfInterfaceTemplate {
    open spec fn description(v: CurrentOspfInterfaceTemplateView) -> Seq<char> {
        v.description()
    }

    fn describe(&self) -> (r: String) {
        let mut out = "CurrentOspfInterfaceTemplate { id: ".to_owned();
        out.append(quoted_text(self.id.as_str()).as_str());
        out.append(", interfaces: ");
        out.append(quoted_text(self.interfaces.as_str()).as_str());
        out.append(", area: ");
        out.append(quoted_text(self.area.as_str()).as_str());
        out.append(", type_: ");
        out.append(describe_text(&self.type_).as_str());
        out.append(", cost: ");
        out.append(describe_number(self.cost).as_str());
        out.append(", hello_interval: ");
        out.append(describe_text(&self.hello_interval).as_str());
        out.append(", dead_interval: ");
        out.append(describe_text(&self.dead_interval).as_str());
        out.append(", passive_raw: ");
        out.append(describe_text(&self.passive_raw).as_str());
        out.append(", disabled: ");
        out.append(describe_bool(self.disabled));
        out.append(" }");
        out
    }
}

/// What an entry of a firewall address list should be.
#[derive(Debug, PartialEq, Eq)]
pub struct DesiredAddressListEntry {
    pub list: String,
    pub address: String,
    pub disabled: bool,
}

/// What a [`DesiredAddressListEntry`] is.
pub struct DesiredAddressListEntryView {
    pub list: Seq<char>,
    pub address: Seq<char>,
    pub disabled: bool,
}

impl DeepView for DesiredAddressListEntry {
    type V = DesiredAddressListEntryView;

    open spec fn deep_view(&self) -> DesiredAddressListEntryView {
        DesiredAddressListEntryView {
            list: self.list@,
            address: self.address@,
            disabled: self.disabled,
        }
    }
}

impl Clone for DesiredAddressListEntry {
    fn clone(&self) -> (r: Self)
        ensures
            r.deep_view() == self.deep_view(),
    {
        DesiredAddressListEntry {
            list: self.list.clone(),
            address: self.address.clone(),
            disabled: self.disabled,
        }
    }
}

impl DesiredAddressListEntryView {
    /// How the row is shown.
    pub open spec fn description(self) -> Seq<char> {
        "DesiredAddressListEntry { list: "@ + quoted(self.list) + ", address: "@
            + quoted(self.address) + ", disabled: "@ + bool_text(self.disabled) + " }"@
    }
}

impl Describe for DesiredAddressListEntry {
    open spec fn description(v: DesiredAddressListEntryView) -> Seq<char> {
        v.description()
    }

    fn describe(&self) -> (r: String) {
        let mut out = "DesiredAddressListEntry { list: ".to_owned();
        out.append(quoted_text(self.list.as_str()).as_str());
        out.append(", address: ");
        out.append(quoted_text(self.address.as_str()).as_str());
        out.append(", disabled: ");
        out.append(describe_bool(self.disabled));
        out.append(" }");
        out
    }
}

/// An entry of a firewall address list as it was read from the device.
#[derive(Debug, PartialEq, Eq)]
pub struct CurrentAddressListEntry {
    pub id: String,
    pub list: String,
    pub address: String,
    pub disabled: bool,
}

/// What a [`CurrentAddressListEntry`] is.
pub struct CurrentAddressListEntryView {
    pub id: Seq<char>,
    pub list: Seq<char>,
    pub address: Seq<char>,
    pub disabled: bool,
}

impl DeepView for CurrentAddressListEntry {
    type V = CurrentAddressListEntryView;

    open spec fn deep_view(&self) -> CurrentAddressListEntryView {
        CurrentAddressListEntryView {
            id: self.id@,
            list: self.list@,
            address: self.address@,
            disabled: self.disabled,
        }
    }
}

impl Clone for CurrentAddressListEntry {
    fn clone(&self) -> (r: Self)
        ensures
            r.deep_view() == self.deep_view(),
    {
        CurrentAddressListEntry {
            id: self.id.clone(),
            list: self.list.clone(),
            address: self.address.clone(),
            disabled: self.disabled,
        }
    }
}

impl HasId for CurrentAddressListEntry {
    open spec fn id_text(v: CurrentAddressListEntryView) -> Seq<char> {
        v.id
    }

    fn id(&self) -> (r: &str) {
        self.id.as_str()
    }
}

impl CurrentAddressListEntryView {
    /// How the row is shown.
    pub open spec fn description(self) -> Seq<char> {
        "CurrentAddressListEntry { id: "@ + quoted(self.id) + ", list: "@ + quoted(self.list)
            + ", address: "@ + quoted(self.address) + ", disabled: "@ + bool_text(self.disabled)
            + " }"@
    }
}

impl Describe for CurrentAddressListEntry {
    open spec fn description(v: CurrentAddressListEntryView) -> Seq<char> {
        v.description()
    }

    fn describe(&self) -> (r: String) {
        let mut out = "CurrentAddressListEntry { id: ".to_owned();
        out.append(quoted_text(self.id.as_str()).as_str());
        out.append(", list: ");
        out.append(quoted_text(self.list.as_str()).as_str());
        out.append(", address: ");
        out.append(quoted_text(self.address.as_str()).as_str());
        out.append(", disabled: ");
        out.append(describe_bool(self.disabled));
        out.append(" }");
        out
    }
}

/// What a BGP connection should be.
#[derive(Debug, PartialEq, Eq)]
pub struct DesiredBgpConnection {
    pub name: String,
    pub instance: String,
    pub local_address: Ipv6Addr,
    pub local_role: String,
    pub remote_address: Ipv6Addr,
    pub multihop: bool,
    pub afi: String,
    pub output_network: String,
    pub disabled: bool,
}

/// What a [`DesiredBgpConnection`] is.
pub struct DesiredBgpConnectionView {
    pub name: Seq<char>,
    pub instance: Seq<char>,
    pub local_address: Seq<u16>,
    pub local_role: Seq<char>,
    pub remote_address: Seq<u16>,
    pub multihop: bool,
    pub afi: Seq<char>,
    pub output_network: Seq<char>,
    pub disabled: bool,
}

impl DeepView for DesiredBgpConnection {
    type V = DesiredBgpConnectionView;

    open spec fn deep_view(&self) -> DesiredBgpConnectionView {
        DesiredBgpConnectionView {
            name: self.name@,
            instance: self.instance@,
            local_address: self.local_address.deep_view(),
            local_role: self.local_role@,
            remote_address: self.remote_address.deep_view(),
            multihop: self.multihop,
            afi: self.afi@,
            output_network: self.output_network@,
            disabled: self.disabled,
        }
    }
}

impl Clone for DesiredBgpConnection {
    fn clone(&self) -> (r: Self)
        ensures
            r.deep_view() == self.deep_view(),
    {
        DesiredBgpConnection {
            name: self.name.clone(),
            instance: self.instance.clone(),
            local_address: self.local_address,
            local_role: self.local_role.clone(),
            remote_address: self.remote_address,
            multihop: self.multihop,
            afi: self.afi.clone(),
            output_network: self.output_network.clone(),
            disabled: self.disabled,
        }
    }
}

impl DesiredBgpConnectionView {
    /// How the row is shown.
    pub open spec fn description(self) -> Seq<char> {
        "DesiredBgpConnection { name: "@ + quoted(self.name) + ", instance: "@
            + quoted(self.instance) + ", local_address: "@ + ipv6_text(self.local_address)
            + ", local_role: "@ + quoted(self.local_role) + ", remote_address: "@
            + ipv6_text(self.remote_address) + ", multihop: "@ + bool_text(self.multihop)
            + ", afi: "@ + quoted(self.afi) + ", output_network: "@ + quoted(self.output_network)
            + ", disabled: "@ + bool_text(self.disabled) + " }"@
    }
}

impl Describe for DesiredBgpConnection {
    open spec fn description(v: DesiredBgpConnectionView) -> Seq<char> {
        v.description()
    }

    fn describe(&self) -> (r: String) {
        let mut out = "DesiredBgpConnection { name: ".to_owned();
        out.append(quoted_text(self.name.as_str()).as_str());
        out.append(", instance: ");
        out.append(quoted_text(self.instance.as_str()).as_str());
        out.append(", local_address: ");
        out.append(self.local_address.to_text().as_str());
        out.append(", local_role: ");
        out.append(quoted_text(self.local_role.as_str()).as_str());
        out.append(", remote_address: ");
        out.append(self.remote_address.to_text().as_str());
        out.append(", multihop: ");
        out.append(describe_bool(self.multihop));
        out.append(", afi: ");
        out.append(quoted_text(self.afi.as_str()).as_str());
        out.append(", output_network: ");
        out.append(quoted_text(self.output_network.as_str()).as_str());
        out.append(", disabled: ");
        out.append(describe_bool(self.disabled));
        out.append(" }");
        out
    }
}

/// A BGP connection as it was read from the device.
#[derive(Debug, PartialEq, Eq)]
pub struct CurrentBgpConnection {
    pub id: String,
    pub name: String,
    pub instance: String,
    pub local_address: Ipv6Addr,
    pub local_role: String,
    pub remote_address: Ipv6Addr,
    pub multihop: bool,
    pub afi: String,
    pub output_network: String,
    pub disabled: bool,
}

/// What a [`CurrentBgpConnection`] is.
pub struct CurrentBgpConnectionView {
    pub id: Seq<char>,
    pub name: Seq<char>,
    pub instance: Seq<char>,
    pub local_address: Seq<u16>,
    pub local_role: Seq<char>,
    pub remote_address: Seq<u16>,
    pub multihop: bool,
    pub afi: Seq<char>,
    pub output_network: Seq<char>,
    pub disabled: bool,
}

impl DeepView for CurrentBgpConnection {
    type V = CurrentBgpConnectionView;

    open spec fn deep_view(&self) -> CurrentBgpConnectionView {
        CurrentBgpConnectionView {
            id: self.id@,
            name: self.name@,
            instance: self.instance@,
            local_address: self.local_address.deep_view(),
            local_role: self.local_role@,
            remote_address: self.remote_address.deep_view(),
            multihop: self.multihop,
            afi: self.afi@,
            output_network: self.output_network@,
            disabled: self.disabled,
        }
    }
}

impl Clone for CurrentBgpConnection {
    fn clone(&self) -> (r: Self)
        ensures
            r.deep_view() == self.deep_view(),
    {
        CurrentBgpConnection {
            id: self.id.clone(),
            name: self.name.clone(),
            instance: self.instance.clone(),
            local_address: self.local_address,
            local_role: self.local_role.clone(),
            remote_address: self.remote_address,
            multihop: self.multihop,
            afi: self.afi.clone(),
            output_network: self.output_network.clone(),
            disabled: self.disabled,
        }
    }
}

impl HasId for CurrentBgpConnection {
    open spec fn id_text(v: CurrentBgpConnectionView) -> Seq<char> {
        v.id
    }

    fn id(&self) -> (r: &str) {
        self.id.as_str()
    }
}

impl CurrentBgpConnectionView {
    /// How the row is shown.
    pub open spec fn description(self) -> Seq<char> {
        "CurrentBgpConnection { id: "@ + quoted(self.id) + ", name: "@ + quoted(self.name)
            + ", instance: "@ + quoted(self.instance) + ", local_address: "@
            + ipv6_text(self.local_address) + ", local_role: "@ + quoted(self.local_role)
            + ", remote_address: "@ + ipv6_text(self.remote_address) + ", multihop: "@
            + bool_text(self.multihop) + ", afi: "@ + quoted(self.afi) + ", output_network: "@
            + quoted(self.output_network) + ", disabled: "@ + bool_text(self.disabled) + " }"@
    }
}

impl Describe for CurrentBgpConnection {
    open spec fn description(v: CurrentBgpConnectionView) -> Seq<char> {
        v.description()
    }

    fn describe(&self) -> (r: String) {
        let mut out = "CurrentBgpConnection { id: ".to_owned();
        out.append(quoted_text(self.id.as_str()).as_str());
        out.append(", name: ");
        out.append(quoted_text(self.name.as_str()).as_str());
        out.append(", instance: ");
        out.append(quoted_text(self.instance.as_str()).as_str());
        out.append(", local_address: ");
        out.append(self.local_address.to_text().as_str());
        out.append(", local_role: ");
        out.append(quoted_text(self.local_role.as_str()).as_str());
        out.append(", remote_address: ");
        out.append(self.remote_address.to_text().as_str());
        out.append(", multihop: ");
        out.append(describe_bool(self.multihop));
        out.append(", afi: ");
        out.append(quoted_text(self.afi.as_str()).as_str());
        out.append(", output_network: ");
        out.append(quoted_text(self.output_network.as_str()).as_str());
        out.append(", disabled: ");
        out.append(describe_bool(self.disabled));
        out.append(" }");
        out
    }
}

/// What a bridge should be.
#[derive(Debug)]
pub struct DesiredBridge {
    pub name: String,
    pub disabled: bool,
}

/// What a [`DesiredBridge`] is.
pub struct DesiredBridgeView {
    pub name: Seq<char>,
    pub disabled: bool,
}

impl DeepView for DesiredBridge {
    type V = DesiredBridgeView;

    open spec fn deep_view(&self) -> DesiredBridgeView {
        DesiredBridgeView {
            name: self.name@,
            disabled: self.disabled,
        }
    }
}

impl Clone for DesiredBridge {
    fn clone(&self) -> (r: Self)
        ensures
            r.deep_view() == self.deep_view(),
    {
        DesiredBridge {
            name: self.name.clone(),
            disabled: self.disabled,
        }
    }
}

impl PartialEq for DesiredBridge {
    fn eq(&self, other: &Self) -> (r: bool) {
        self.name == other.name
            && self.disabled == other.disabled
    }
}

impl PartialEqSpecImpl for DesiredBridge {
    open spec fn obeys_eq_spec() -> bool {
        true
    }

    open spec fn eq_spec(&self, other: &Self) -> bool {
        self.deep_view() == other.deep_view()
    }
}

impl DesiredBridgeView {
    /// How the row is shown.
    pub open spec fn description(self) -> Seq<char> {
        "DesiredBridge { name: "@ + quoted(self.name) + ", disabled: "@ + bool_text(self.disabled)
            + " }"@
    }
}

impl Describe for DesiredBridge {
    open spec fn description(v: DesiredBridgeView) -> Seq<char> {
        v.description()
    }

    fn describe(&self) -> (r: String) {
        let mut out = "DesiredBridge { name: ".to_owned();
        out.append(quoted_text(self.name.as_str()).as_str());
        out.append(", disabled: ");
        out.append(describe_bool(self.disabled));
        out.append(" }");
        out
    }
}

/// What a routing filter rule should be.
#[derive(Debug)]
pub struct DesiredFilterRule {
    pub chain: String,
    pub rule: String,
    pub disabled: bool,
}

/// What a [`DesiredFilterRule`] is.
pub struct DesiredFilterRuleView {
    pub chain: Seq<char>,
    pub rule: Seq<char>,
    pub disabled: bool,
}

impl DeepView for DesiredFilterRule {
    type V = DesiredFilterRuleView;

    open spec fn deep_view(&self) -> DesiredFilterRuleView {
        DesiredFilterRuleView {
            chain: self.chain@,
            rule: self.rule@,
            disabled: self.disabled,
        }
    }
}

impl Clone for DesiredFilterRule {
    fn clone(&self) -> (r: Self)
        ensures
            r.deep_view() == self.deep_view(),
    {
        DesiredFilterRule {
            chain: self.chain.clone(),
            rule: self.rule.clone(),
            disabled: self.disabled,
        }
    }
}

impl PartialEq for DesiredFilterRule {
    fn eq(&self, other: &Self) -> (r: bool) {
        self.chain == other.chain
            && self.rule == other.rule
            && self.disabled == other.disabled
    }
}

impl PartialEqSpecImpl for DesiredFilterRule {
    open spec fn obeys_eq_spec() -> bool {
        true
    }

    open spec fn eq_spec(&self, other: &Self) -> bool {
        self.deep_view() == other.deep_view()
    }
}

impl DesiredFilterRuleView {
    /// How the row is shown.
    pub open spec fn description(self) -> Seq<char> {
        "DesiredFilterRule { chain: "@ + quoted(self.chain) + ", rule: "@ + quoted(self.rule)
            + ", disabled: "@ + bool_text(self.disabled) + " }"@
    }
}

impl Describe for DesiredFilterRule {
    open spec fn description(v: DesiredFilterRuleView) -> Seq<char> {
        v.description()
    }

    fn describe(&self) -> (r: String) {
        let mut out = "DesiredFilterRule { chain: ".to_owned();
        out.append(quoted_text(self.chain.as_str()).as_str());
        out.append(", rule: ");
        out.append(quoted_text(self.rule.as_str()).as_str());
        out.append(", disabled: ");
        out.append(describe_bool(self.disabled));
        out.append(" }");
        out
    }
}

/// What an OSPF instance should be.
#[derive(Debug)]
pub struct DesiredOspfInstance {
    pub name: String,
    pub version: u8,
    pub router_id: Ipv4Addr,
    pub redistribute_connected: bool,
    pub disabled: bool,
}

/// What a [`DesiredOspfInstance`] is.
pub struct DesiredOspfInstanceView {
    pub name: Seq<char>,
    pub version: u8,
    pub router_id: Ipv4Addr,
    pub redistribute_connected: bool,
    pub disabled: bool,
}

impl DeepView for DesiredOspfInstance {
    type V = DesiredOspfInstanceView;

    open spec fn deep_view(&self) -> DesiredOspfInstanceView {
        DesiredOspfInstanceView {
            name: self.name@,
            version: self.version,
            router_id: self.router_id,
            redistribute_connected: self.redistribute_connected,
            disabled: self.disabled,
        }
    }
}

impl Clone for DesiredOspfInstance {
    fn clone(&self) -> (r: Self)
        ensures
            r.deep_view() == self.deep_view(),
    {
        DesiredOspfInstance {
            name: self.name.clone(),
            version: self.version,
            router_id: self.router_id,
            redistribute_connected: self.redistribute_connected,
            disabled: self.disabled,
        }
    }
}

impl PartialEq for DesiredOspfInstance {
    fn eq(&self, other: &Self) -> (r: bool) {
        self.name == other.name
            && self.version == other.version
            && self.router_id == other.router_id
            && self.redistribute_connected == other.redistribute_connected
            && self.disabled == other.disabled
    }
}

impl PartialEqSpecImpl for DesiredOspfInstance {
    open spec fn obeys_eq_spec() -> bool {
        true
    }

    open spec fn eq_spec(&self, other: &Self) -> bool {
        self.deep_view() == other.deep_view()
    }
}

impl DesiredOspfInstanceView {
    /// How the row is shown.
    pub open spec fn description(self) -> Seq<char> {
        "DesiredOspfInstance { name: "@ + quoted(self.name) + ", version: "@
            + decimal(self.version as nat) + ", router_id: "@ + ipv4_text(self.router_id)
            + ", redistribute_connected: "@ + bool_text(self.redistribute_connected)
            + ", disabled: "@ + bool_text(self.disabled) + " }"@
    }
}

impl Describe for DesiredOspfInstance {
    open spec fn description(v: DesiredOspfInstanceView) -> Seq<char> {
        v.description()
    }

    fn describe(&self) -> (r: String) {
        let mut out = "DesiredOspfInstance { name: ".to_owned();
        out.append(quoted_text(self.name.as_str()).as_str());
        out.append(", version: ");
        out.append(decimal_text(self.version as u32).as_str());
        out.append(", router_id: ");
        out.append(self.router_id.to_text().as_str());
        out.append(", redistribute_connected: ");
        out.append(describe_bool(self.redistribute_connected));
        out.append(", disabled: ");
        out.append(describe_bool(self.disabled));
        out.append(" }");
        out
    }
}

/// What an OSPF area should be.
#[derive(Debug)]
pub struct DesiredOspfArea {
    pub name: String,
    pub area_id: String,
    pub instance: String,
    pub disabled: bool,
}

/// What a [`DesiredOspfArea`] is.
pub struct DesiredOspfAreaView {
    pub name: Seq<char>,
    pub area_id: Seq<char>,
    pub instance: Seq<char>,
    pub disabled: bool,
}

impl DeepView for DesiredOspfArea {
    type V = DesiredOspfAreaView;

    open spec fn deep_view(&self) -> DesiredOspfAreaView {
        DesiredOspfAreaView {
            name: self.name@,
            area_id: self.area_id@,
            instance: self.instance@,
            disabled: self.disabled,
        }
    }
}

impl Clone for DesiredOspfArea {
    fn clone(&self) -> (r: Self)
        ensures
            r.deep_view() == self.deep_view(),
    {
        DesiredOspfArea {
            name: self.name.clone(),
            area_id: self.area_id.clone(),
            instance: self.instance.clone(),
            disabled: self.disabled,
        }
    }
}

impl PartialEq for DesiredOspfArea {
    fn eq(&self, other: &Self) -> (r: bool) {
        self.name == other.name
            && self.area_id == other.area_id
            && self.instance == other.instance
            && self.disabled == other.disabled
    }
}

impl PartialEqSpecImpl for DesiredOspfArea {
    open spec fn obeys_eq_spec() -> bool {
        true
    }

    open spec fn eq_spec(&self, other: &Self) -> bool {
        self.deep_view() == other.deep_view()
    }
}

impl DesiredOspfAreaView {
    /// How the row is shown.
    pub open spec fn description(self) -> Seq<char> {
        "DesiredOspfArea { name: "@ + quoted(self.name) + ", area_id: "@ + quoted(self.area_id)
            + ", instance: "@ + quoted(self.instance) + ", disabled: "@ + bool_text(self.disabled)
            + " }"@
    }
}

impl Describe for DesiredOspfArea {
    open spec fn description(v: DesiredOspfAreaView) -> Seq<char> {
        v.description()
    }

    fn describe(&self) -> (r: String) {
        let mut out = "DesiredOspfArea { name: ".to_owned();
        out.append(quoted_text(self.name.as_str()).as_str());
        out.append(", area_id: ");
        out.append(quoted_text(self.area_id.as_str()).as_str());
        out.append(", instance: ");
        out.append(quoted_text(self.instance.as_str()).as_str());
        out.append(", disabled: ");
        out.append(describe_bool(self.disabled));
        out.append(" }");
        out
    }
}

/// What a BGP instance should be.
#[derive(Debug)]
pub struct DesiredBgpInstance {
    pub name: String,
    pub as_number: u32,
    pub router_id: Ipv4Addr,
    pub routing_table: String,
    pub disabled: bool,
}

/// What a [`DesiredBgpInstance`] is.
pub struct DesiredBgpInstanceView {
    pub name: Seq<char>,
    pub as_number: u32,
    pub router_id: Ipv4Addr,
    pub routing_table: Seq<char>,
    pub disabled: bool,
}

impl DeepView for DesiredBgpInstance {
    type V = DesiredBgpInstanceView;

    open spec fn deep_view(&self) -> DesiredBgpInstanceView {
        DesiredBgpInstanceView {
            name: self.name@,
            as_number: self.as_number,
            router_id: self.router_id,
            routing_table: self.routing_table@,
            disabled: self.disabled,
        }
    }
}

impl Clone for DesiredBgpInstance {
    fn clone(&self) -> (r: Self)
        ensures
            r.deep_view() == self.deep_view(),
    {
        DesiredBgpInstance {
            name: self.name.clone(),
            as_number: self.as_number,
            router_id: self.router_id,
            routing_table: self.routing_table.clone(),
            disabled: self.disabled,
        }
    }
}

impl PartialEq for DesiredBgpInstance {
    fn eq(&self, other: &Self) -> (r: bool) {
        self.name == other.name
            && self.as_number == other.as_number
            && self.router_id == other.router_id
            && self.routing_table == other.routing_table
            && self.disabled == other.disabled
    }
}

impl PartialEqSpecImpl for DesiredBgpInstance {
    open spec fn obeys_eq_spec() -> bool {
        true
    }

    open spec fn eq_spec(&self, other: &Self) -> bool {
        self.deep_view() == other.deep_view()
    }
}

impl DesiredBgpInstanceView {
    /// How the row is shown.
    pub open spec fn description(self) -> Seq<char> {
        "DesiredBgpInstance { name: "@ + quoted(self.name) + ", as_number: "@
            + decimal(self.as_number as nat) + ", router_id: "@ + ipv4_text(self.router_id)
            + ", routing_table: "@ + quoted(self.routing_table) + ", disabled: "@
            + bool_text(self.disabled) + " }"@
    }
}

impl Describe for DesiredBgpInstance {
    open spec fn description(v: DesiredBgpInstanceView) -> Seq<char> {
        v.description()
    }

    fn describe(&self) -> (r: String) {
        let mut out = "DesiredBgpInstance { name: ".to_owned();
        out.append(quoted_text(self.name.as_str()).as_str());
        out.append(", as_number: ");
        out.append(decimal_text(self.as_number).as_str());
        out.append(", router_id: ");
        out.append(self.router_id.to_text().as_str());
        out.append(", routing_table: ");
        out.append(quoted_text(self.routing_table.as_str()).as_str());
        out.append(", disabled: ");
        out.append(describe_bool(self.disabled));
        out.append(" }");
        out
    }
}

} // verus!
