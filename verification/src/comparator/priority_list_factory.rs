//! The criteria by which final solutions are ranked, in order of importance.

use vstd::prelude::*;
use crate::comparator::solution_comparator_enum::SolutionComparator;
use crate::engine::comparator::priority::OptimizationPriority;

verus! {

/// Builds the lists of criteria by which solutions are ranked.
pub struct PriorityListFactory;

/// The criteria for the final ranking: most panels placed first; then least waste
/// before fewest cuts when the priority is the most panels, fewest cuts before least
/// waste otherwise; then fewest sheets, biggest unused area and the difference between
/// horizontal and vertical panels.
pub open spec fn final_criteria(p: OptimizationPriority) -> Seq<SolutionComparator> {
    if p == OptimizationPriority::MostTiles {
        seq![
            SolutionComparator::MostNbrTiles, SolutionComparator::LeastWastedArea, SolutionComparator::LeastNbrCuts,
            SolutionComparator::LeastNbrMosaics, SolutionComparator::BiggestUnusedTileArea, SolutionComparator::HvDiscrepancy,
        ]
    } else {
        seq![
            SolutionComparator::MostNbrTiles, SolutionComparator::LeastNbrCuts, SolutionComparator::LeastWastedArea,
            SolutionComparator::LeastNbrMosaics, SolutionComparator::BiggestUnusedTileArea, SolutionComparator::HvDiscrepancy,
        ]
    }
}

impl PriorityListFactory {
    /// The criteria for the final ranking under the given priority (see `final_criteria`).
    pub fn get_final_solution_prioritized_comparator_enum_list(optimization_priority: OptimizationPriority)
        -> (r: Vec<SolutionComparator>)
        ensures
            r@ == final_criteria(optimization_priority),
    {
        let mut list: Vec<SolutionComparator> = Vec::new();
        list.push(SolutionComparator::MostNbrTiles);
        if matches!(optimization_priority, OptimizationPriority::MostTiles) {
            list.push(SolutionComparator::LeastWastedArea);
            list.push(SolutionComparator::LeastNbrCuts);
        } else {
            list.push(SolutionComparator::LeastNbrCuts);
            list.push(SolutionComparator::LeastWastedArea);
        }
        list.push(SolutionComparator::LeastNbrMosaics);
        list.push(SolutionComparator::BiggestUnusedTileArea);
        list.push(SolutionComparator::HvDiscrepancy);
        proof { assert(list@ =~= final_criteria(optimization_priority)); }
        list
    }
}

} // verus!
