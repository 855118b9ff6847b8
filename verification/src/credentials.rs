//! The credentials of a device's API, as the `mikrotik` document of the node's patch file gives
//! them. The document is written by hand, and only ever read here.

use crate::error::{outcome, Error, ErrorView};
use vstd::prelude::*;

verus! {

/// The port of the RouterOS API over TLS.
pub const DEFAULT_PORT: u16 = 8729;

/// Where a device is reached, and as whom.
#[derive(Debug, Clone, PartialEq, Eq)]
pub struct RouterCredentials {
    pub host: String,
    pub port: u16,
    pub username: String,
    /// Absent and empty are not the same: a device is sent an empty password, or none.
    pub password: Option<String>,
}

/// What [`RouterCredentials`] are.
pub struct RouterCredentialsView {
    pub host: Seq<char>,
    pub port: u16,
    pub username: Seq<char>,
    pub password: Option<Seq<char>>,
}

impl DeepView for RouterCredentials {
    type V = RouterCredentialsView;

    open spec fn deep_view(&self) -> RouterCredentialsView {
        RouterCredentialsView {
            host: self.host@,
            port: self.port,
            username: self.username@,
            password: self.password.deep_view(),
        }
    }
}

/// The fields of the document, each of which can be absent.
#[derive(Debug)]
pub struct RawCredentials {
    pub host: Option<String>,
    pub port: Option<u16>,
    pub username: Option<String>,
    pub password: Option<String>,
}

/// What [`RawCredentials`] are.
pub struct RawCredentialsView {
    pub host: Option<Seq<char>>,
    pub port: Option<u16>,
    pub username: Option<Seq<char>>,
    pub password: Option<Seq<char>>,
}

impl DeepView for RawCredentials {
    type V = RawCredentialsView;

    open spec fn deep_view(&self) -> RawCredentialsView {
        RawCredentialsView {
            host: self.host.deep_view(),
            port: self.port,
            username: self.username.deep_view(),
            password: self.password.deep_view(),
        }
    }
}

/// A text that is given and not empty.
pub open spec fn given(text: Option<Seq<char>>) -> Option<Seq<char>> {
    match text {
        Some(s) => if s.len() > 0 {
            Some(s)
        } else {
            None
        },
        None => None,
    }
}

/// What the credentials are, where the document could be read. The host is missed before the user
/// name is.
pub open spec fn credentials_of(raw: RawCredentialsView) -> Result<
    RouterCredentialsView,
    ErrorView,
> {
    match given(raw.host) {
        None => Err(ErrorView::MissingHost),
        Some(host) => match given(raw.username) {
            None => Err(ErrorView::MissingUsername),
            Some(username) => Ok(
                RouterCredentialsView {
                    host,
                    port: match raw.port {
                        Some(port) => port,
                        None => DEFAULT_PORT,
                    },
                    username,
                    password: raw.password,
                },
            ),
        },
    }
}

fn non_empty(text: Option<String>) -> (r: Option<String>)
    ensures
        r.deep_view() == given(text.deep_view()),
{
    match text {
        Some(s) => {
            if s.as_str().is_empty() {
                None
            } else {
                Some(s)
            }
        },
        None => None,
    }
}

/// Takes the credentials from the document: its fields, or why it is no YAML.
pub fn parse_from_yaml(document: Result<RawCredentials, String>) -> (r: Result<
    RouterCredentials,
    Error,
>)
    ensures
        outcome(r) == (match document {
            Ok(raw) => credentials_of(raw.deep_view()),
            Err(reason) => Err(ErrorView::CredentialsYaml { reason: reason@ }),
        }),
{
    let raw = match document {
        Ok(raw) => raw,
        Err(reason) => return Err(Error::CredentialsYaml { reason }),
    };
    let host = match non_empty(raw.host) {
        Some(host) => host,
        None => return Err(Error::MissingHost),
    };
    let username = match non_empty(raw.username) {
        Some(username) => username,
        None => return Err(Error::MissingUsername),
    };
    let port: u16 = match raw.port {
        Some(port) => port,
        None => DEFAULT_PORT,
    };
    Ok(RouterCredentials { host, port, username, password: raw.password })
}

/// Credentials are given exactly if the document has a host and a user name that are not empty.
/// They are these, the port of the document or else that of the API over TLS, and the password as
/// the document has it; of both that are missing the host is told.
pub proof fn law_credentials(raw: RawCredentialsView)
    ensures
        ({
            let has_host = raw.host is Some && raw.host->Some_0.len() > 0;
            let has_user = raw.username is Some && raw.username->Some_0.len() > 0;
            &&& !has_host ==> credentials_of(raw) == Err::<RouterCredentialsView, ErrorView>(
                ErrorView::MissingHost,
            )
            &&& has_host && !has_user ==> credentials_of(raw) == Err::<
                RouterCredentialsView,
                ErrorView,
            >(ErrorView::MissingUsername)
            &&& has_host && has_user ==> (credentials_of(raw) matches Ok(c) && {
                &&& raw.host == Some(c.host)
                &&& raw.username == Some(c.username)
                &&& c.password == raw.password
                &&& raw.port is Some ==> raw.port == Some(c.port)
                &&& raw.port is None ==> c.port == 8729
            })
        }),
{
}

} // verus!
