//! The quoted form of texts and characters that diagnostics show.

use vstd::prelude::*;

verus! {

/// What `format!("{:?}", s)` writes for a text.
pub uninterp spec fn quoted(s: Seq<char>) -> Seq<char>;

/// What `format!("{:?}", c)` writes for a character.
pub uninterp spec fn quoted_char(c: char) -> Seq<char>;

/// The `Debug` form of a `str`, which `std` documents only by example: quotes around the
/// text, with special characters escaped. The contract gives the form a name.
#[verifier::external_body]
pub(crate) fn quote(s: &str) -> (r: String)
    ensures
        r@ == quoted(s@),
{
    format!("{:?}", s)
}

/// The `Debug` form of a `char`: the character in single quotes, escaped where it is special.
/// The contract gives the form a name.
#[verifier::external_body]
pub(crate) fn quote_char(c: char) -> (r: String)
    ensures
        r@ == quoted_char(c),
{
    format!("{:?}", c)
}

/// What `str::to_lowercase` returns.
pub uninterp spec fn small_letters(s: Seq<char>) -> Seq<char>;

/// `str::to_lowercase`: every character replaced by its Unicode lowercase form. The contract
/// gives the result a name.
#[verifier::external_body]
pub(crate) fn to_small_letters(s: &str) -> (r: String)
    ensures
        r@ == small_letters(s@),
{
    s.to_lowercase()
}

} // verus!
