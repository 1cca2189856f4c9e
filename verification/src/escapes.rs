//! Escape sequences written out with a backslash.

use vstd::prelude::*;
use crate::text::optional_text;

verus! {

/// What `unescape::unescape` makes of `s`: `s` with each escape sequence
/// (`\n`, `\t`, `\"` and the like) replaced by the character it
/// stands for, or `None` where a backslash starts no escape sequence.
pub uninterp spec fn unescaped(s: Seq<char>) -> Option<Seq<char>>;

/// `unescape::unescape`. It goes through the characters of `s` once, and
/// what it gives depends on `s` alone. A character that is no backslash is
/// kept as it is, so text without a backslash comes back unchanged.
#[verifier::external_body]
pub(crate) fn unescape_text(s: &str) -> (r: Option<String>)
    ensures
        optional_text(r) == unescaped(s@),
        !s@.contains('\\') ==> optional_text(r) == Some(s@),
{
    unescape::unescape(s)
}

} // verus!
