//! Quoted text, as it stands in messages.

use vstd::prelude::*;

verus! {

/// `s` between double quotes, with the escapes that `Debug` of `str` writes.
pub uninterp spec fn quoted(s: Seq<char>) -> Seq<char>;

/// Quotes a text by `Debug` of `str`.
///
/// Trusted: the result is the name `quoted` of the argument alone. Which characters are escaped,
/// and how, is left to the standard library.
#[verifier::external_body]
pub(crate) fn quoted_text(s: &str) -> (r: String)
    ensures
        r@ == quoted(s@),
{
    format!("{:?}", s)
}

} // verus!
