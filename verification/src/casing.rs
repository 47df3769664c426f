//! Header labels are auto-derived from field paths by upper-snake-casing
//! them. The conversion is done by the `convert_case` crate; its result is
//! named `upper_snake_of` and contracts speak of that name.

use vstd::prelude::*;

verus! {

/// What `convert_case` returns when converting a text to upper snake case
/// (words split at case and separator boundaries, joined with underscores,
/// upper-cased). The result depends on the characters alone.
pub uninterp spec fn upper_snake_of(s: Seq<char>) -> Seq<char>;

/// Relies on convert_case::Casing::to_case with Case::UpperSnake: it
/// re-writes the text in upper snake case.
#[verifier::external_body]
pub(crate) fn to_upper_snake(s: &str) -> (r: String)
    ensures
        r@ == upper_snake_of(s@),
{
    convert_case::Casing::to_case(&s, convert_case::Case::UpperSnake)
}

} // verus!
