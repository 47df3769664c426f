//! Styling-aware width: the length used for column sizing ignores embedded
//! terminal escape sequences. The stripping itself is done by the
//! `strip-ansi-escapes` crate; its result is named `stripped_of` and the rest
//! of the library reasons about that name.

use vstd::prelude::*;
use vstd::string::StrSliceExecFns;

verus! {

/// What `strip_ansi_escapes::strip_str` returns for a given text: the text
/// with ANSI escape sequences removed. The result depends on the characters
/// alone.
pub uninterp spec fn stripped_of(s: Seq<char>) -> Seq<char>;

/// The visible length of a text: its character count once terminal escape
/// sequences are discarded.
pub open spec fn visible_len(s: Seq<char>) -> nat {
    stripped_of(s).len()
}

/// Relies on strip_ansi_escapes::strip_str: it removes ANSI escape sequences
/// from the text and returns the rest; on a str input the crate documents
/// that the result is the remaining contents (always valid UTF-8).
#[verifier::external_body]
fn strip_ansi(s: &str) -> (r: String)
    ensures
        r@ == stripped_of(s@),
{
    strip_ansi_escapes::strip_str(s)
}

/// The visible length of `s`: how many characters it occupies in a column
/// once styling bytes are discarded.
pub fn compute_string_size(s: &str) -> (n: usize)
    ensures
        n == visible_len(s@),
{
    let stripped = strip_ansi(s);
    stripped.as_str().unicode_len()
}

} // verus!
