//! Ranking by covered area and by the largest free leaf.

use std::cmp::Ordering;
use vstd::prelude::*;
use crate::engine::comparator::SolutionComparator;
use crate::model::solution::Solution;

verus! {

/// Ranks solutions with less uncovered area first.
#[derive(Debug, Clone, Copy)]
pub struct SolutionLeastWastedAreaComparator;

impl SolutionLeastWastedAreaComparator {
    pub fn new() -> (c: Self) {
        SolutionLeastWastedAreaComparator
    }
}

impl SolutionComparator for SolutionLeastWastedAreaComparator {
    open spec fn key(&self, s: Solution) -> int {
        s.unused_area_spec()
    }

    open spec fn is_integral(&self) -> bool {
        true
    }

    fn compare(&self, solution1: &Solution, solution2: &Solution) -> (r: Ordering) {
        let x = solution1.get_unused_area();
        let y = solution2.get_unused_area();
        if x < y { Ordering::Less } else if x == y { Ordering::Equal } else { Ordering::Greater }
    }
}

/// Ranks solutions with a larger free leaf first.
#[derive(Debug, Clone, Copy)]
pub struct SolutionBiggestUnusedTileAreaComparator;

impl SolutionBiggestUnusedTileAreaComparator {
    pub fn new() -> (c: Self) {
        SolutionBiggestUnusedTileAreaComparator
    }
}

impl SolutionComparator for SolutionBiggestUnusedTileAreaComparator {
    open spec fn key(&self, s: Solution) -> int {
        -s.biggest_area_spec()
    }

    open spec fn is_integral(&self) -> bool {
        true
    }

    fn compare(&self, solution1: &Solution, solution2: &Solution) -> (r: Ordering) {
        let x = solution1.get_biggest_unused_tile_area();
        let y = solution2.get_biggest_unused_tile_area();
        if y < x { Ordering::Less } else if y == x { Ordering::Equal } else { Ordering::Greater }
    }
}

} // verus!
