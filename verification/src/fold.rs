//! Case folding. Matching without regard to case folds the pattern and the
//! subject to upper case and then matches as usual.

use vstd::prelude::*;

verus! {

/// The upper-case form of a character sequence, as the standard library's
/// `str::to_uppercase` computes it. It depends on the characters alone, not on
/// a locale, and may differ in length from its argument.
pub uninterp spec fn uppercase(s: Seq<char>) -> Seq<char>;

/// Calls `str::to_uppercase`. Trusted: the result is named `uppercase` of the
/// argument, and nothing more is claimed about it.
#[verifier::external_body]
pub(crate) fn to_uppercase(s: &str) -> (folded: String)
    ensures
        folded@ == uppercase(s@),
{
    s.to_uppercase()
}

} // verus!
