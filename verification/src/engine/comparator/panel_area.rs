//! Ranking by the largest uncovered area of one sheet.

use std::cmp::Ordering;
use vstd::prelude::*;
use crate::engine::comparator::SolutionComparator;
use crate::model::solution::Solution;

verus! {

/// Ranks solutions with a larger uncovered area on one sheet first.
#[derive(Debug, Clone, Copy)]
pub struct SolutionMostUnusedPanelAreaComparator;

impl SolutionMostUnusedPanelAreaComparator {
    pub fn new() -> (c: Self) {
        SolutionMostUnusedPanelAreaComparator
    }
}

impl SolutionComparator for SolutionMostUnusedPanelAreaComparator {
    open spec fn key(&self, s: Solution) -> int {
        -s.most_unused_panel_area_spec()
    }

    open spec fn is_integral(&self) -> bool {
        true
    }

    fn compare(&self, solution1: &Solution, solution2: &Solution) -> (r: Ordering) {
        let x = solution1.get_most_unused_panel_area();
        let y = solution2.get_most_unused_panel_area();
        if y < x { Ordering::Less } else if y == x { Ordering::Equal } else { Ordering::Greater }
    }
}

} // verus!
