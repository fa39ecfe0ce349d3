//! Ranking by number of cuts.

use std::cmp::Ordering;
use vstd::prelude::*;
use crate::engine::comparator::SolutionComparator;
use crate::model::solution::Solution;

verus! {

/// Ranks solutions with fewer cuts first.
#[derive(Debug, Clone, Copy)]
pub struct SolutionLeastNbrCutsComparator;

impl SolutionLeastNbrCutsComparator {
    pub fn new() -> (c: Self) {
        SolutionLeastNbrCutsComparator
    }
}

impl SolutionComparator for SolutionLeastNbrCutsComparator {
    open spec fn key(&self, s: Solution) -> int {
        s.nbr_cuts_spec()
    }

    open spec fn is_integral(&self) -> bool {
        true
    }

    fn compare(&self, solution1: &Solution, solution2: &Solution) -> (r: Ordering) {
        let x = solution1.get_nbr_cuts();
        let y = solution2.get_nbr_cuts();
        if x < y { Ordering::Less } else if x == y { Ordering::Equal } else { Ordering::Greater }
    }
}

} // verus!
