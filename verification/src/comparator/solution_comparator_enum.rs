//! The criteria by which solutions are ranked, as values.

use std::cmp::Ordering;
use vstd::prelude::*;
use crate::comparator::solution_comparators::{
    order_of, compare_by_biggest_unused_tile_area, compare_by_least_nbr_cuts, compare_by_least_nbr_mosaics,
    compare_by_least_nbr_unused_tiles, compare_by_least_wasted_area, compare_by_hv_discrepancy,
    compare_by_most_nbr_tiles, compare_by_most_unused_panel_area,
};
use crate::model::solution::Solution;

verus! {

/// A criterion by which solutions are ranked.
#[derive(Debug, Clone, Copy, PartialEq, Eq, Hash, Structural)]
pub enum SolutionComparator {
    BiggestUnusedTileArea,
    LeastNbrCuts,
    LeastNbrMosaics,
    LeastNbrUnusedTiles,
    LeastWastedArea,
    HvDiscrepancy,
    MostNbrTiles,
    MostUnusedPanelArea,
    SmallestCenterOfMassDistToOrigin,
}

/// The order that the comparison function of criterion `c` puts on two solutions: by the
/// measure, ascending (the center-of-mass criterion measures in floating point and is not
/// described here).
pub open spec fn comparator_order(c: SolutionComparator, a: Solution, b: Solution) -> Ordering {
    match c {
        SolutionComparator::BiggestUnusedTileArea => order_of(a.biggest_area_spec(), b.biggest_area_spec()),
        SolutionComparator::LeastNbrCuts => order_of(a.nbr_cuts_spec(), b.nbr_cuts_spec()),
        SolutionComparator::LeastNbrMosaics => order_of(a.nbr_mosaics_spec(), b.nbr_mosaics_spec()),
        SolutionComparator::LeastNbrUnusedTiles => order_of(a.nbr_unused_tiles_spec(), b.nbr_unused_tiles_spec()),
        SolutionComparator::LeastWastedArea => order_of(a.unused_area_spec(), b.unused_area_spec()),
        SolutionComparator::HvDiscrepancy => order_of(a.distinct_spec(), b.distinct_spec()),
        SolutionComparator::MostNbrTiles => order_of(a.nbr_final_spec(), b.nbr_final_spec()),
        SolutionComparator::MostUnusedPanelArea =>
            order_of(a.most_unused_panel_area_spec(), b.most_unused_panel_area_spec()),
        SolutionComparator::SmallestCenterOfMassDistToOrigin => Ordering::Equal,
    }
}

/// The description of each criterion.
pub open spec fn description_of(c: SolutionComparator) -> Seq<char> {
    match c {
        SolutionComparator::BiggestUnusedTileArea => "Biggest unused tile area (descending)"@,
        SolutionComparator::LeastNbrCuts => "Least number of cuts (ascending)"@,
        SolutionComparator::LeastNbrMosaics => "Least number of mosaics (ascending)"@,
        SolutionComparator::LeastNbrUnusedTiles => "Least number of unused tiles (ascending)"@,
        SolutionComparator::LeastWastedArea => "Least wasted area (ascending)"@,
        SolutionComparator::HvDiscrepancy => "H/V discrepancy (ascending)"@,
        SolutionComparator::MostNbrTiles => "Most number of tiles (descending)"@,
        SolutionComparator::MostUnusedPanelArea => "Most unused panel area (descending)"@,
        SolutionComparator::SmallestCenterOfMassDistToOrigin =>
            "Smallest center of mass distance to origin (ascending)"@,
    }
}

impl SolutionComparator {
    /// The criterion is measured in integers (all but the center-of-mass one).
    pub open spec fn is_integral(self) -> bool {
        !(self is SmallestCenterOfMassDistToOrigin)
    }

    /// Compares two solutions with this criterion's comparison function. A criterion that
    /// prefers less of its measure answers `Less` when `a` is the better solution; one that
    /// prefers more of it (the descending ones) answers `Greater` then.
    pub fn compare(self, a: &Solution, b: &Solution) -> (r: Ordering)
        requires
            self.is_integral(),
            a.measures_fit(),
            b.measures_fit(),
        ensures
            r == comparator_order(self, *a, *b),
    {
        match self {
            SolutionComparator::BiggestUnusedTileArea => compare_by_biggest_unused_tile_area(a, b),
            SolutionComparator::LeastNbrCuts => compare_by_least_nbr_cuts(a, b),
            SolutionComparator::LeastNbrMosaics => compare_by_least_nbr_mosaics(a, b),
            SolutionComparator::LeastNbrUnusedTiles => compare_by_least_nbr_unused_tiles(a, b),
            SolutionComparator::LeastWastedArea => compare_by_least_wasted_area(a, b),
            SolutionComparator::HvDiscrepancy => compare_by_hv_discrepancy(a, b),
            SolutionComparator::MostNbrTiles => compare_by_most_nbr_tiles(a, b),
            SolutionComparator::MostUnusedPanelArea => compare_by_most_unused_panel_area(a, b),
            SolutionComparator::SmallestCenterOfMassDistToOrigin => Ordering::Equal,
        }
    }

    /// A human-readable description of the criterion.
    pub fn description(self) -> (r: &'static str)
        ensures
            r@ == description_of(self),
    {
        match self {
            SolutionComparator::BiggestUnusedTileArea => "Biggest unused tile area (descending)",
            SolutionComparator::LeastNbrCuts => "Least number of cuts (ascending)",
            SolutionComparator::LeastNbrMosaics => "Least number of mosaics (ascending)",
            SolutionComparator::LeastNbrUnusedTiles => "Least number of unused tiles (ascending)",
            SolutionComparator::LeastWastedArea => "Least wasted area (ascending)",
            SolutionComparator::HvDiscrepancy => "H/V discrepancy (ascending)",
            SolutionComparator::MostNbrTiles => "Most number of tiles (descending)",
            SolutionComparator::MostUnusedPanelArea => "Most unused panel area (descending)",
            SolutionComparator::SmallestCenterOfMassDistToOrigin =>
                "Smallest center of mass distance to origin (ascending)",
        }
    }

    /// Every criterion, in declaration order: each of them once.
    pub fn all() -> (r: Vec<SolutionComparator>)
        ensures
            r.len() == 9,
            forall|i: int, j: int| 0 <= i < j < r.len() ==> r@[i] != r@[j],
            forall|c: SolutionComparator| r@.contains(c),
            r@ == seq![
                SolutionComparator::BiggestUnusedTileArea,
                SolutionComparator::LeastNbrCuts,
                SolutionComparator::LeastNbrMosaics,
                SolutionComparator::LeastNbrUnusedTiles,
                SolutionComparator::LeastWastedArea,
                SolutionComparator::HvDiscrepancy,
                SolutionComparator::MostNbrTiles,
                SolutionComparator::MostUnusedPanelArea,
                SolutionComparator::SmallestCenterOfMassDistToOrigin,
            ],
    {
        let r = vec![
            SolutionComparator::BiggestUnusedTileArea,
            SolutionComparator::LeastNbrCuts,
            SolutionComparator::LeastNbrMosaics,
            SolutionComparator::LeastNbrUnusedTiles,
            SolutionComparator::LeastWastedArea,
            SolutionComparator::HvDiscrepancy,
            SolutionComparator::MostNbrTiles,
            SolutionComparator::MostUnusedPanelArea,
            SolutionComparator::SmallestCenterOfMassDistToOrigin,
        ];
        proof {
            assert forall|c: SolutionComparator| r@.contains(c) by {
                let k: int = match c {
                    SolutionComparator::BiggestUnusedTileArea => 0,
                    SolutionComparator::LeastNbrCuts => 1,
                    SolutionComparator::LeastNbrMosaics => 2,
                    SolutionComparator::LeastNbrUnusedTiles => 3,
                    SolutionComparator::LeastWastedArea => 4,
                    SolutionComparator::HvDiscrepancy => 5,
                    SolutionComparator::MostNbrTiles => 6,
                    SolutionComparator::MostUnusedPanelArea => 7,
                    SolutionComparator::SmallestCenterOfMassDistToOrigin => 8,
                };
                assert(r@[k] == c);
            }
        }
        r
    }
}


/// The key by which criterion `c` ranks a solution (lower first).
pub open spec fn comparator_key(c: SolutionComparator, s: Solution) -> int {
    match c {
        SolutionComparator::BiggestUnusedTileArea => -s.biggest_area_spec(),
        SolutionComparator::LeastNbrCuts => s.nbr_cuts_spec(),
        SolutionComparator::LeastNbrMosaics => s.nbr_mosaics_spec(),
        SolutionComparator::LeastNbrUnusedTiles => s.nbr_unused_tiles_spec(),
        SolutionComparator::LeastWastedArea => s.unused_area_spec(),
        SolutionComparator::HvDiscrepancy => s.distinct_spec(),
        SolutionComparator::MostNbrTiles => -s.nbr_final_spec(),
        SolutionComparator::MostUnusedPanelArea => -s.most_unused_panel_area_spec(),
        SolutionComparator::SmallestCenterOfMassDistToOrigin => 0,
    }
}

/// As a ranking criterion, a criterion puts the better solution first: the descending
/// criteria compare their arguments the other way round.
impl crate::engine::comparator::SolutionComparator for SolutionComparator {
    open spec fn key(&self, s: Solution) -> int {
        comparator_key(*self, s)
    }

    open spec fn is_integral(&self) -> bool {
        !(*self is SmallestCenterOfMassDistToOrigin)
    }

    fn compare(&self, solution1: &Solution, solution2: &Solution) -> (r: Ordering) {
        match *self {
            SolutionComparator::BiggestUnusedTileArea
            | SolutionComparator::MostNbrTiles
            | SolutionComparator::MostUnusedPanelArea => Self::compare(*self, solution2, solution1),
            _ => Self::compare(*self, solution1, solution2),
        }
    }
}

/// Ranking by one criterion alone (as `sort_by_criteria` does with a list of one)
/// orders two solutions by the criterion's measure: the `Least...` criteria and the
/// H/V discrepancy put the solution with less of it first, the others (biggest free
/// leaf, most placed panels, most free area on a sheet) the one with more of it.
pub proof fn lemma_single_criterion_ranking(a: Solution, b: Solution)
    ensures
        crate::engine::comparator::chain_order(seq![SolutionComparator::LeastNbrCuts], a, b)
            == order_of(a.nbr_cuts_spec(), b.nbr_cuts_spec()),
        crate::engine::comparator::chain_order(seq![SolutionComparator::LeastNbrMosaics], a, b)
            == order_of(a.nbr_mosaics_spec(), b.nbr_mosaics_spec()),
        crate::engine::comparator::chain_order(seq![SolutionComparator::LeastNbrUnusedTiles], a, b)
            == order_of(a.nbr_unused_tiles_spec(), b.nbr_unused_tiles_spec()),
        crate::engine::comparator::chain_order(seq![SolutionComparator::LeastWastedArea], a, b)
            == order_of(a.unused_area_spec(), b.unused_area_spec()),
        crate::engine::comparator::chain_order(seq![SolutionComparator::HvDiscrepancy], a, b)
            == order_of(a.distinct_spec(), b.distinct_spec()),
        crate::engine::comparator::chain_order(seq![SolutionComparator::BiggestUnusedTileArea], a, b)
            == order_of(b.biggest_area_spec(), a.biggest_area_spec()),
        crate::engine::comparator::chain_order(seq![SolutionComparator::MostNbrTiles], a, b)
            == order_of(b.nbr_final_spec(), a.nbr_final_spec()),
        crate::engine::comparator::chain_order(seq![SolutionComparator::MostUnusedPanelArea], a, b)
            == order_of(b.most_unused_panel_area_spec(), a.most_unused_panel_area_spec()),
        a.nbr_cuts_spec() < b.nbr_cuts_spec() ==>
            crate::engine::comparator::chain_order(seq![SolutionComparator::LeastNbrCuts], a, b) == Ordering::Less,
{
    assert forall|c: SolutionComparator| #[trigger] crate::engine::comparator::chain_order(seq![c], a, b)
        == order_of(comparator_key(c, a), comparator_key(c, b)) by {
        assert(seq![c].drop_first() =~= Seq::<SolutionComparator>::empty());
        assert(crate::engine::comparator::chain_order(Seq::<SolutionComparator>::empty(), a, b) == Ordering::Equal);
    }
    assert(crate::engine::comparator::chain_order(seq![SolutionComparator::LeastNbrCuts], a, b)
        == order_of(comparator_key(SolutionComparator::LeastNbrCuts, a), comparator_key(SolutionComparator::LeastNbrCuts, b)));
    assert(crate::engine::comparator::chain_order(seq![SolutionComparator::LeastNbrMosaics], a, b)
        == order_of(comparator_key(SolutionComparator::LeastNbrMosaics, a), comparator_key(SolutionComparator::LeastNbrMosaics, b)));
    assert(crate::engine::comparator::chain_order(seq![SolutionComparator::LeastNbrUnusedTiles], a, b)
        == order_of(comparator_key(SolutionComparator::LeastNbrUnusedTiles, a), comparator_key(SolutionComparator::LeastNbrUnusedTiles, b)));
    assert(crate::engine::comparator::chain_order(seq![SolutionComparator::LeastWastedArea], a, b)
        == order_of(comparator_key(SolutionComparator::LeastWastedArea, a), comparator_key(SolutionComparator::LeastWastedArea, b)));
    assert(crate::engine::comparator::chain_order(seq![SolutionComparator::HvDiscrepancy], a, b)
        == order_of(comparator_key(SolutionComparator::HvDiscrepancy, a), comparator_key(SolutionComparator::HvDiscrepancy, b)));
    assert(crate::engine::comparator::chain_order(seq![SolutionComparator::BiggestUnusedTileArea], a, b)
        == order_of(comparator_key(SolutionComparator::BiggestUnusedTileArea, a), comparator_key(SolutionComparator::BiggestUnusedTileArea, b)));
    assert(crate::engine::comparator::chain_order(seq![SolutionComparator::MostNbrTiles], a, b)
        == order_of(comparator_key(SolutionComparator::MostNbrTiles, a), comparator_key(SolutionComparator::MostNbrTiles, b)));
    assert(crate::engine::comparator::chain_order(seq![SolutionComparator::MostUnusedPanelArea], a, b)
        == order_of(comparator_key(SolutionComparator::MostUnusedPanelArea, a), comparator_key(SolutionComparator::MostUnusedPanelArea, b)));
}

} // verus!
