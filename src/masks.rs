//! Bit-range helpers.

use std::ops::RangeInclusive;
use vstd::prelude::*;

verus! {

/// Relies on `RangeInclusive::into_inner`, which returns the range's two bounds.
#[verifier::external_body]
fn range_bounds(r: RangeInclusive<usize>) -> (b: (usize, usize))
    ensures
        b == (r@.start, r@.end),
{
    r.into_inner()
}

/// Orders the two bit numbers of an inclusive range, so that `3..=1` reads
/// as `1..=3`: returns the lowest bit number, then the highest.
pub fn parsuj_zakres(zakres: RangeInclusive<usize>) -> (r: (usize, usize))
    ensures
        zakres@.end > zakres@.start ==> r == (zakres@.start, zakres@.end),
        zakres@.end <= zakres@.start ==> r == (zakres@.end, zakres@.start),
{
    let (start, end) = range_bounds(zakres);
    if end > start {
        (start, end)
    } else {
        (end, start)
    }
}

} // verus!
