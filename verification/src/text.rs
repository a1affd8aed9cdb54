//! Comparison of string slices.

use vstd::prelude::*;

verus! {

/// `str`'s `eq` returns whether the two slices hold the same characters.
pub assume_specification[ <str as PartialEq>::eq ](a: &str, b: &str) -> (same: bool)
    ensures
        same == (a@ == b@),
;

} // verus!
