//! Case normalization of keys and values.
//!
//! Lookups are case-insensitive: every key is folded to upper case at each
//! write and read boundary, and boolean values are folded to lower case
//! before they are compared.  The folding itself is Unicode case mapping,
//! done by the standard library; its result is given a name here so that
//! contracts can speak about it exactly.
use vstd::prelude::*;

verus! {

/// The upper-case folding of a character sequence, as `str::to_uppercase`
/// computes it.
pub uninterp spec fn upper_of(s: Seq<char>) -> Seq<char>;

/// The lower-case folding of a character sequence, as `str::to_lowercase`
/// computes it.
pub uninterp spec fn lower_of(s: Seq<char>) -> Seq<char>;

/// Relies on str::to_uppercase: the result depends on the characters alone.
#[verifier::external_body]
pub(crate) fn to_upper(s: &str) -> (r: String)
    ensures
        r@ == upper_of(s@),
{
    s.to_uppercase()
}

/// Relies on str::to_lowercase: the result depends on the characters alone.
#[verifier::external_body]
pub(crate) fn to_lower(s: &str) -> (r: String)
    ensures
        r@ == lower_of(s@),
{
    s.to_lowercase()
}

} // verus!
