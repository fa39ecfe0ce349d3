//! Ranking by numbers of placed panels and of sheets.

use std::cmp::Ordering;
use vstd::prelude::*;
use crate::engine::comparator::SolutionComparator;
use crate::model::solution::Solution;

verus! {

/// Ranks solutions with more placed panels first.
#[derive(Debug, Clone, Copy)]
pub struct SolutionMostNbrTilesComparator;

impl SolutionMostNbrTilesComparator {
    pub fn new() -> (c: Self) {
        SolutionMostNbrTilesComparator
    }
}

impl SolutionComparator for SolutionMostNbrTilesComparator {
    open spec fn key(&self, s: Solution) -> int {
        -s.nbr_final_spec()
    }

    open spec fn is_integral(&self) -> bool {
        true
    }

    fn compare(&self, solution1: &Solution, solution2: &Solution) -> (r: Ordering) {
        let x = solution1.get_nbr_final_tiles();
        let y = solution2.get_nbr_final_tiles();
        if y < x { Ordering::Less } else if y == x { Ordering::Equal } else { Ordering::Greater }
    }
}

/// Ranks solutions with fewer sheets first.
#[derive(Debug, Clone, Copy)]
pub struct SolutionLeastNbrMosaicsComparator;

impl SolutionLeastNbrMosaicsComparator {
    pub fn new() -> (c: Self) {
        SolutionLeastNbrMosaicsComparator
    }
}

impl SolutionComparator for SolutionLeastNbrMosaicsComparator {
    open spec fn key(&self, s: Solution) -> int {
        s.nbr_mosaics_spec()
    }

    open spec fn is_integral(&self) -> bool {
        true
    }

    fn compare(&self, solution1: &Solution, solution2: &Solution) -> (r: Ordering) {
        let x = solution1.get_nbr_mosaics();
        let y = solution2.get_nbr_mosaics();
        if x < y { Ordering::Less } else if x == y { Ordering::Equal } else { Ordering::Greater }
    }
}

} // verus!
