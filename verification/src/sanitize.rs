//! Allow-list validation of the one free-form text that reaches a RouterOS command: the host of
//! a WireGuard peer's endpoint. A malformed value would produce a confusing or rejected command
//! on a live device, so it is refused here.

use crate::error::{Error, ErrorView};
use crate::text::{chars_of, owned};
use vstd::prelude::*;

verus! {

/// Whether `c` can stand in a host name or in an address: an ASCII letter or digit, `.`, `-` or
/// `:`.
pub open spec fn is_endpoint_char(c: char) -> bool {
    ||| 'a' <= c <= 'z'
    ||| 'A' <= c <= 'Z'
    ||| '0' <= c <= '9'
    ||| c == '.'
    ||| c == '-'
    ||| c == ':'
}

/// What is wrong with an endpoint's host, if anything.
pub open spec fn endpoint_fault(s: Seq<char>) -> Option<ErrorView> {
    if s.len() == 0 {
        Some(ErrorView::EndpointEmpty)
    } else if forall|i: int| 0 <= i < s.len() ==> is_endpoint_char(#[trigger] s[i]) {
        None
    } else {
        Some(ErrorView::EndpointCharacters { endpoint: s })
    }
}

/// Refuses an endpoint's host that is empty or holds a character outside `[a-zA-Z0-9.:-]`.
pub fn validate_endpoint(endpoint: &str) -> (r: Result<(), Error>)
    ensures
        match r {
            Ok(()) => endpoint_fault(endpoint@) is None,
            Err(e) => endpoint_fault(endpoint@) == Some(e.deep_view()),
        },
{
    if endpoint.is_empty() {
        return Err(Error::EndpointEmpty);
    }
    let chars = chars_of(endpoint);
    let mut i: usize = 0;
    while i < chars.len()
        invariant
            i <= chars.len(),
            endpoint@.len() > 0,
            chars@ == endpoint@,
            forall|k: int| 0 <= k < i ==> is_endpoint_char(#[trigger] endpoint@[k]),
        decreases chars.len() - i,
    {
        let c = chars[i];
        if !(('a' <= c && c <= 'z') || ('A' <= c && c <= 'Z') || ('0' <= c && c <= '9') || c == '.'
            || c == '-' || c == ':') {
            assert(!is_endpoint_char(endpoint@[i as int]));
            return Err(Error::EndpointCharacters { endpoint: owned(endpoint) });
        }
        i = i + 1;
    }
    Ok(())
}

/// A host is refused exactly if it is empty or one of its characters is neither a letter nor a
/// digit of ASCII nor one of `.`, `-` and `:`.
pub proof fn law_hosts(s: Seq<char>)
    ensures
        endpoint_fault(s) == Some(ErrorView::EndpointEmpty) <==> s.len() == 0,
        endpoint_fault(s) is None <==> s.len() > 0 && forall|i: int|
            0 <= i < s.len() ==> {
                let c = #[trigger] s[i];
                'a' <= c <= 'z' || 'A' <= c <= 'Z' || '0' <= c <= '9' || c == '.' || c == '-' || c
                    == ':'
            },
        endpoint_fault(s) is Some && s.len() > 0 ==> endpoint_fault(s) == Some(
            ErrorView::EndpointCharacters { endpoint: s },
        ),
{
}

} // verus!
