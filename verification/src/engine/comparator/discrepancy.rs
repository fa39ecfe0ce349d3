//! Ranks solutions by the average difference between panels placed wider than high and higher than wide, larger first.

use vstd::prelude::*;

verus! {

/// Ranks solutions by the average difference between panels placed wider than high and higher than wide, larger first. The measure is a floating-point average; the comparison itself is made where floating point is available.
#[derive(Debug, Clone, Copy)]
pub struct SolutionMostHVDiscrepancyComparator;

impl SolutionMostHVDiscrepancyComparator {
    pub fn new() -> (c: Self) {
        SolutionMostHVDiscrepancyComparator
    }
}

} // verus!
