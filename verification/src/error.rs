//! What can go wrong, and how it is told.

use crate::addr::{parse_ip, IpAddr};
use crate::number::{
    decimal, decimal_fault, decimal_text, fault_text, parse_decimal, read_decimal,
};
use crate::quote::{quoted, quoted_text};
use crate::text::{
    owned, rsplit_once, split_at_first, split_at_last, split_once, trim_end_char, without_trailing,
};
use vstd::prelude::*;
use vstd::string::*;

verus! {

/// Why an operation failed.
#[derive(Debug, Clone, PartialEq, Eq)]
pub enum Error {
    /// A text that should be `<address>/<prefix length>` has no slash.
    NotCidr { text: String },
    /// The address of a CIDR is no IPv4 address.
    CidrAddress { text: String },
    /// The prefix length of a CIDR is no number from 0 to 255.
    CidrPrefix { text: String },
    /// The prefix length of a CIDR is over 32.
    CidrPrefixRange { text: String, prefix: u8 },
    /// An endpoint's host is empty.
    EndpointEmpty,
    /// An endpoint's host holds a character that no host name or address has.
    EndpointCharacters { endpoint: String },
    /// An endpoint has no colon.
    EndpointForm { endpoint: String },
    /// An endpoint's port is no number of 16 bits.
    EndpointPort { endpoint: String },
    /// A row lacks a field that it must have.
    MissingField { id: String, field: String },
    /// A row lacks its `.id`.
    MissingId,
    /// A row's `listen-port` is no number of 16 bits.
    ListenPort { value: String },
    /// A field is no number of 16 bits.
    NotU16 { field: String, value: String },
    /// A field is no keepalive duration.
    NotKeepalive { field: String, value: String },
    /// The credentials document could not be read.
    CredentialsYaml { reason: String },
    /// The credentials document has no host.
    MissingHost,
    /// The credentials document has no user name.
    MissingUsername,
    /// A patch document holds no configuration file.
    NoConfigFiles { name: String },
    /// The patch file lacks a document.
    NoDocument { name: String },
    /// A loopback address is malformed.
    Loopback { entry: String },
    /// The node has no IPv4 loopback address.
    NoIpv4Loopback,
    /// The node has no IPv6 loopback address.
    NoIpv6Loopback,
    /// The node has more than one IPv4 loopback address.
    SeveralIpv4Loopbacks,
    /// The node has more than one IPv6 loopback address.
    SeveralIpv6Loopbacks,
    /// A BGP peer's address is no IPv6 address.
    BgpPeerAddress { name: String, address: String },
    /// The device refused a command.
    Trap { message: String, category: String },
    /// The device closed the connection.
    Fatal { reason: String },
}

/// What an [`Error`] says.
pub enum ErrorView {
    NotCidr { text: Seq<char> },
    CidrAddress { text: Seq<char> },
    CidrPrefix { text: Seq<char> },
    CidrPrefixRange { text: Seq<char>, prefix: u8 },
    EndpointEmpty,
    EndpointCharacters { endpoint: Seq<char> },
    EndpointForm { endpoint: Seq<char> },
    EndpointPort { endpoint: Seq<char> },
    MissingField { id: Seq<char>, field: Seq<char> },
    MissingId,
    ListenPort { value: Seq<char> },
    NotU16 { field: Seq<char>, value: Seq<char> },
    NotKeepalive { field: Seq<char>, value: Seq<char> },
    CredentialsYaml { reason: Seq<char> },
    MissingHost,
    MissingUsername,
    NoConfigFiles { name: Seq<char> },
    NoDocument { name: Seq<char> },
    Loopback { entry: Seq<char> },
    NoIpv4Loopback,
    NoIpv6Loopback,
    SeveralIpv4Loopbacks,
    SeveralIpv6Loopbacks,
    BgpPeerAddress { name: Seq<char>, address: Seq<char> },
    Trap { message: Seq<char>, category: Seq<char> },
    Fatal { reason: Seq<char> },
}

impl DeepView for Error {
    type V = ErrorView;

    open spec fn deep_view(&self) -> ErrorView {
        match self {
            Error::NotCidr { text } => ErrorView::NotCidr {
                text: text@,
            },
            Error::CidrAddress { text } => ErrorView::CidrAddress {
                text: text@,
            },
            Error::CidrPrefix { text } => ErrorView::CidrPrefix {
                text: text@,
            },
            Error::CidrPrefixRange { text, prefix } => ErrorView::CidrPrefixRange {
                text: text@, prefix: *prefix,
            },
            Error::EndpointEmpty => ErrorView::EndpointEmpty,
            Error::EndpointCharacters { endpoint } => ErrorView::EndpointCharacters {
                endpoint: endpoint@,
            },
            Error::EndpointForm { endpoint } => ErrorView::EndpointForm {
                endpoint: endpoint@,
            },
            Error::EndpointPort { endpoint } => ErrorView::EndpointPort {
                endpoint: endpoint@,
            },
            Error::MissingField { id, field } => ErrorView::MissingField {
                id: id@, field: field@,
            },
            Error::MissingId => ErrorView::MissingId,
            Error::ListenPort { value } => ErrorView::ListenPort {
                value: value@,
            },
            Error::NotU16 { field, value } => ErrorView::NotU16 {
                field: field@, value: value@,
            },
            Error::NotKeepalive { field, value } => ErrorView::NotKeepalive {
                field: field@, value: value@,
            },
            Error::CredentialsYaml { reason } => ErrorView::CredentialsYaml {
                reason: reason@,
            },
            Error::MissingHost => ErrorView::MissingHost,
            Error::MissingUsername => ErrorView::MissingUsername,
            Error::NoConfigFiles { name } => ErrorView::NoConfigFiles {
                name: name@,
            },
            Error::NoDocument { name } => ErrorView::NoDocument {
                name: name@,
            },
            Error::Loopback { entry } => ErrorView::Loopback {
                entry: entry@,
            },
            Error::NoIpv4Loopback => ErrorView::NoIpv4Loopback,
            Error::NoIpv6Loopback => ErrorView::NoIpv6Loopback,
            Error::SeveralIpv4Loopbacks => ErrorView::SeveralIpv4Loopbacks,
            Error::SeveralIpv6Loopbacks => ErrorView::SeveralIpv6Loopbacks,
            Error::BgpPeerAddress { name, address } => ErrorView::BgpPeerAddress {
                name: name@, address: address@,
            },
            Error::Trap { message, category } => ErrorView::Trap {
                message: message@, category: category@,
            },
            Error::Fatal { reason } => ErrorView::Fatal {
                reason: reason@,
            },
        }
    }
}

/// What a fallible operation gave: what its value is, or what its error says.
pub open spec fn outcome<T: DeepView>(r: Result<T, Error>) -> Result<T::V, ErrorView> {
    match r {
        Ok(t) => Ok(t.deep_view()),
        Err(e) => Err(e.deep_view()),
    }
}

/// What stands behind the first slash, all of the text if there is none.
pub open spec fn behind_slash(text: Seq<char>) -> Seq<char> {
    match split_once(text, '/') {
        Some((_, behind)) => behind,
        None => text,
    }
}

/// What stands behind the last colon, all of the text if there is none.
pub open spec fn behind_last_colon(text: Seq<char>) -> Seq<char> {
    match rsplit_once(text, ':') {
        Some((_, behind)) => behind,
        None => text,
    }
}

/// Why a loopback entry is malformed: it has no slash, no address in front of it, or no prefix
/// length behind it that an address of the family can have.
pub open spec fn loopback_reason(entry: Seq<char>) -> Seq<char> {
    match split_once(entry, '/') {
        None => "missing '/'"@,
        Some((ip, prefix)) => match parse_ip(ip) {
            None => "invalid IP address syntax"@,
            Some(a) => match parse_decimal(prefix, u8::MAX as nat) {
                None => decimal_fault(prefix, u8::MAX as nat),
                Some(n) => "prefix length "@ + decimal(n) + (if a is V4 {
                    " exceeds 32"@
                } else {
                    " exceeds 128"@
                }),
            },
        },
    }
}

fn text_behind_slash(text: &str) -> (r: String)
    ensures
        r@ == behind_slash(text@),
{
    match split_at_first(text, '/') {
        Some((_, behind)) => behind,
        None => owned(text),
    }
}

fn text_behind_last_colon(text: &str) -> (r: String)
    ensures
        r@ == behind_last_colon(text@),
{
    match split_at_last(text, ':') {
        Some((_, behind)) => behind,
        None => owned(text),
    }
}

fn loopback_reason_text(entry: &str) -> (r: String)
    ensures
        r@ == loopback_reason(entry@),
{
    match split_at_first(entry, '/') {
        None => "missing '/'".to_owned(),
        Some((ip, prefix)) => match IpAddr::parse(ip.as_str()) {
            None => "invalid IP address syntax".to_owned(),
            Some(a) => match read_decimal(prefix.as_str(), 255) {
                None => fault_text(prefix.as_str(), 255).to_owned(),
                Some(n) => {
                    let mut out = "prefix length ".to_owned();
                    out.append(decimal_text(n).as_str());
                    match a {
                        IpAddr::V4(_) => out.append(" exceeds 32"),
                        IpAddr::V6(_) => out.append(" exceeds 128"),
                    }
                    out
                },
            },
        },
    }
}

/// How an error is told.
pub open spec fn message_text(e: ErrorView) -> Seq<char> {
    match e {
        ErrorView::NotCidr { text } => quoted(text) + " is not a CIDR (missing '/')"@,
        ErrorView::CidrAddress { text } => quoted(text)
            + ": invalid IPv4 address: invalid IPv4 address syntax"@,
        ErrorView::CidrPrefix { text } => quoted(text) + ": invalid prefix length: "@
            + decimal_fault(behind_slash(text), u8::MAX as nat),
        ErrorView::CidrPrefixRange { text, prefix } => quoted(text) + ": prefix length "@
            + decimal(prefix as nat) + " exceeds 32"@,
        ErrorView::EndpointEmpty => "endpoint must not be empty"@,
        ErrorView::EndpointCharacters { endpoint } => "endpoint "@ + quoted(endpoint)
            + " contains characters outside [a-zA-Z0-9.:-]"@,
        ErrorView::EndpointForm { endpoint } => quoted(endpoint) + " is not \"host:port\""@,
        ErrorView::EndpointPort { endpoint } => quoted(endpoint) + ": invalid port: "@
            + decimal_fault(behind_last_colon(endpoint), u16::MAX as nat),
        ErrorView::MissingField { id, field } => "row "@ + quoted(id)
            + " is missing required field "@ + quoted(field),
        ErrorView::MissingId => "row is missing its own .id"@,
        ErrorView::ListenPort { value } => "listen-port is not a u16: "@ + decimal_fault(
            value,
            u16::MAX as nat,
        ),
        ErrorView::NotU16 { field, value } => "field "@ + quoted(field) + " = "@ + quoted(value)
            + " is not a u16: "@ + decimal_fault(value, u16::MAX as nat),
        ErrorView::NotKeepalive { field, value } => "field "@ + quoted(field) + " = "@
            + quoted(value) + " is not a keepalive duration: "@ + decimal_fault(
            trim_end_char(value, 's'),
            u16::MAX as nat,
        ),
        ErrorView::CredentialsYaml {
            reason,
        } => "mikrotik credentials document is not valid YAML: "@ + reason,
        ErrorView::MissingHost => "mikrotik credentials document is missing \"host\""@,
        ErrorView::MissingUsername => "mikrotik credentials document is missing \"username\""@,
        ErrorView::NoConfigFiles { name } => quoted(name) + " document has no configFiles entries"@,
        ErrorView::NoDocument {
            name,
        } => "patch file has no ExtensionServiceConfig document named "@ + quoted(name),
        ErrorView::Loopback { entry } => "invalid loopback_addresses entry "@ + quoted(entry)
            + ": "@ + loopback_reason(entry),
        ErrorView::NoIpv4Loopback => "node.loopback_addresses has no IPv4 entry"@,
        ErrorView::NoIpv6Loopback => "node.loopback_addresses has no IPv6 entry"@,
        ErrorView::SeveralIpv4Loopbacks => "node.loopback_addresses has several IPv4 entries"@,
        ErrorView::SeveralIpv6Loopbacks => "node.loopback_addresses has several IPv6 entries"@,
        ErrorView::BgpPeerAddress { name, address } => "bgp peer "@ + quoted(name)
            + ": invalid address "@ + quoted(address) + ": invalid IPv6 address syntax"@,
        ErrorView::Trap { message, category } => "RouterOS command failed: "@ + message
            + " (category: "@ + category + ")"@,
        ErrorView::Fatal { reason } => "RouterOS connection failed: "@ + reason,
    }
}

impl Error {
    /// Tells the error.
    pub fn message(&self) -> (r: String)
        ensures
            r@ == message_text(self.deep_view()),
    {
        match self {
            Error::NotCidr { text } => {
                let mut out = quoted_text(text.as_str());
                out.append(" is not a CIDR (missing '/')");
                out
            },
            Error::CidrAddress { text } => {
                let mut out = quoted_text(text.as_str());
                out.append(": invalid IPv4 address: invalid IPv4 address syntax");
                out
            },
            Error::CidrPrefix { text } => {
                let mut out = quoted_text(text.as_str());
                out.append(": invalid prefix length: ");
                out.append(fault_text(text_behind_slash(text.as_str()).as_str(), 255));
                out
            },
            Error::CidrPrefixRange { text, prefix } => {
                let mut out = quoted_text(text.as_str());
                out.append(": prefix length ");
                out.append(decimal_text(*prefix as u32).as_str());
                out.append(" exceeds 32");
                out
            },
            Error::EndpointEmpty => {
                "endpoint must not be empty".to_owned()
            },
            Error::EndpointCharacters { endpoint } => {
                let mut out = "endpoint ".to_owned();
                out.append(quoted_text(endpoint.as_str()).as_str());
                out.append(" contains characters outside [a-zA-Z0-9.:-]");
                out
            },
            Error::EndpointForm { endpoint } => {
                let mut out = quoted_text(endpoint.as_str());
                out.append(" is not \"host:port\"");
                out
            },
            Error::EndpointPort { endpoint } => {
                let mut out = quoted_text(endpoint.as_str());
                out.append(": invalid port: ");
                out.append(fault_text(text_behind_last_colon(endpoint.as_str()).as_str(), 65535));
                out
            },
            Error::MissingField { id, field } => {
                let mut out = "row ".to_owned();
                out.append(quoted_text(id.as_str()).as_str());
                out.append(" is missing required field ");
                out.append(quoted_text(field.as_str()).as_str());
                out
            },
            Error::MissingId => {
                "row is missing its own .id".to_owned()
            },
            Error::ListenPort { value } => {
                let mut out = "listen-port is not a u16: ".to_owned();
                out.append(fault_text(value.as_str(), 65535));
                out
            },
            Error::NotU16 { field, value } => {
                let mut out = "field ".to_owned();
                out.append(quoted_text(field.as_str()).as_str());
                out.append(" = ");
                out.append(quoted_text(value.as_str()).as_str());
                out.append(" is not a u16: ");
                out.append(fault_text(value.as_str(), 65535));
                out
            },
            Error::NotKeepalive { field, value } => {
                let mut out = "field ".to_owned();
                out.append(quoted_text(field.as_str()).as_str());
                out.append(" = ");
                out.append(quoted_text(value.as_str()).as_str());
                out.append(" is not a keepalive duration: ");
                out.append(fault_text(without_trailing(value.as_str(), 's').as_str(), 65535));
                out
            },
            Error::CredentialsYaml { reason } => {
                let mut out = "mikrotik credentials document is not valid YAML: ".to_owned();
                out.append(reason.as_str());
                out
            },
            Error::MissingHost => {
                "mikrotik credentials document is missing \"host\"".to_owned()
            },
            Error::MissingUsername => {
                "mikrotik credentials document is missing \"username\"".to_owned()
            },
            Error::NoConfigFiles { name } => {
                let mut out = quoted_text(name.as_str());
                out.append(" document has no configFiles entries");
                out
            },
            Error::NoDocument { name } => {
                let mut out = "patch file has no ExtensionServiceConfig document named ".to_owned();
                out.append(quoted_text(name.as_str()).as_str());
                out
            },
            Error::Loopback { entry } => {
                let mut out = "invalid loopback_addresses entry ".to_owned();
                out.append(quoted_text(entry.as_str()).as_str());
                out.append(": ");
                out.append(loopback_reason_text(entry.as_str()).as_str());
                out
            },
            Error::NoIpv4Loopback => {
                "node.loopback_addresses has no IPv4 entry".to_owned()
            },
            Error::NoIpv6Loopback => {
                "node.loopback_addresses has no IPv6 entry".to_owned()
            },
            Error::SeveralIpv4Loopbacks => {
                "node.loopback_addresses has several IPv4 entries".to_owned()
            },
            Error::SeveralIpv6Loopbacks => {
                "node.loopback_addresses has several IPv6 entries".to_owned()
            },
            Error::BgpPeerAddress { name, address } => {
                let mut out = "bgp peer ".to_owned();
                out.append(quoted_text(name.as_str()).as_str());
                out.append(": invalid address ");
                out.append(quoted_text(address.as_str()).as_str());
                out.append(": invalid IPv6 address syntax");
                out
            },
            Error::Trap { message, category } => {
                let mut out = "RouterOS command failed: ".to_owned();
                out.append(message.as_str());
                out.append(" (category: ");
                out.append(category.as_str());
                out.append(")");
                out
            },
            Error::Fatal { reason } => {
                let mut out = "RouterOS connection failed: ".to_owned();
                out.append(reason.as_str());
                out
            },
        }
    }
}

} // verus!
