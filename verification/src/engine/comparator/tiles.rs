//! Ranking by number of free leaves.

use std::cmp::Ordering;
use vstd::prelude::*;
use crate::engine::comparator::SolutionComparator;
use crate::model::solution::Solution;

verus! {

/// Ranks solutions with fewer free leaves first.
#[derive(Debug, Clone, Copy)]
pub struct SolutionLeastNbrUnusedTilesComparator;

impl SolutionLeastNbrUnusedTilesComparator {
    pub fn new() -> (c: Self) {
        SolutionLeastNbrUnusedTilesComparator
    }
}

impl SolutionComparator for SolutionLeastNbrUnusedTilesComparator {
    open spec fn key(&self, s: Solution) -> int {
        s.nbr_unused_tiles_spec()
    }

    open spec fn is_integral(&self) -> bool {
        true
    }

    fn compare(&self, solution1: &Solution, solution2: &Solution) -> (r: Ordering) {
        let x = solution1.get_nbr_unused_tiles();
        let y = solution2.get_nbr_unused_tiles();
        if x < y { Ordering::Less } else if x == y { Ordering::Equal } else { Ordering::Greater }
    }
}

} // verus!
