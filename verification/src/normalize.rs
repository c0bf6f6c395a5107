//! Case-insensitive identity of artist names: a name's identity key is its
//! lowercased form, and identity equality anywhere in the pipeline means
//! equality of these keys.

use vstd::prelude::*;

verus! {

/// The lowercased form of a character sequence, as `str::to_lowercase`
/// computes it.
pub uninterp spec fn lower_of(s: Seq<char>) -> Seq<char>;

/// Relies on `str::to_lowercase`: the result depends on the characters
/// alone, and lowercasing a string that is already lowercase returns it
/// unchanged, so the result is a fixed point of `lower_of`.
#[verifier::external_body]
fn lowercase(s: &str) -> (r: String)
    ensures
        r@ == lower_of(s@),
        lower_of(r@) == r@,
{
    s.to_lowercase()
}

/// Normalize a name to its case-insensitive identity key.
///
/// Normalizing is idempotent: the key is its own key.
pub fn normalize(s: &str) -> (key: String)
    ensures
        key@ == lower_of(s@),
        lower_of(key@) == key@,
{
    lowercase(s)
}

} // verus!
