//! Priorities from their names.

use vstd::prelude::*;
use crate::engine::comparator::priority::OptimizationPriority;
use crate::support::{to_lowercase, lowercase_of, same_text};

verus! {

/// Finds ranking criteria by name.
pub struct SolutionComparatorFactory;

/// The priority that a lower-case name stands for, in its written or its run-together
/// form.
pub open spec fn priority_named(name: Seq<char>) -> Option<OptimizationPriority> {
    if name == "most_tiles"@ || name == "mosttiles"@ {
        Some(OptimizationPriority::MostTiles)
    } else if name == "least_wasted_area"@ || name == "leastwastedarea"@ {
        Some(OptimizationPriority::LeastWastedArea)
    } else if name == "least_nbr_cuts"@ || name == "leastnbrcuts"@ {
        Some(OptimizationPriority::LeastNbrCuts)
    } else if name == "least_nbr_mosaics"@ || name == "leastnbrmosaics"@ {
        Some(OptimizationPriority::LeastNbrMosaics)
    } else if name == "biggest_unused_tile_area"@ || name == "biggestunusedtilearea"@ {
        Some(OptimizationPriority::BiggestUnusedTileArea)
    } else if name == "most_hv_discrepancy"@ || name == "mosthvdiscrepancy"@ {
        Some(OptimizationPriority::MostHVDiscrepancy)
    } else if name == "smallest_center_of_mass_dist_to_origin"@ || name == "smallestcenterofmassdisttoorigin"@ {
        Some(OptimizationPriority::SmallestCenterOfMassDistToOrigin)
    } else if name == "least_nbr_unused_tiles"@ || name == "leastnbrunusedtiles"@ {
        Some(OptimizationPriority::LeastNbrUnusedTiles)
    } else if name == "most_unused_panel_area"@ || name == "mostunusedpanelarea"@ {
        Some(OptimizationPriority::MostUnusedPanelArea)
    } else {
        None
    }
}

impl SolutionComparatorFactory {
    /// The criterion that the lower-case name `name` stands for.
    pub fn priority_for_lowercase_name(name: &str) -> (r: Option<OptimizationPriority>)
        ensures
            r == priority_named(name@),
    {
        proof {
            reveal_strlit("most_tiles"); reveal_strlit("mosttiles");
            reveal_strlit("least_wasted_area"); reveal_strlit("leastwastedarea");
            reveal_strlit("least_nbr_cuts"); reveal_strlit("leastnbrcuts");
            reveal_strlit("least_nbr_mosaics"); reveal_strlit("leastnbrmosaics");
            reveal_strlit("biggest_unused_tile_area"); reveal_strlit("biggestunusedtilearea");
            reveal_strlit("most_hv_discrepancy"); reveal_strlit("mosthvdiscrepancy");
            reveal_strlit("smallest_center_of_mass_dist_to_origin"); reveal_strlit("smallestcenterofmassdisttoorigin");
            reveal_strlit("least_nbr_unused_tiles"); reveal_strlit("leastnbrunusedtiles");
            reveal_strlit("most_unused_panel_area"); reveal_strlit("mostunusedpanelarea");
        }
        if same_text(name, "most_tiles") || same_text(name, "mosttiles") {
            Some(OptimizationPriority::MostTiles)
        } else if same_text(name, "least_wasted_area") || same_text(name, "leastwastedarea") {
            Some(OptimizationPriority::LeastWastedArea)
        } else if same_text(name, "least_nbr_cuts") || same_text(name, "leastnbrcuts") {
            Some(OptimizationPriority::LeastNbrCuts)
        } else if same_text(name, "least_nbr_mosaics") || same_text(name, "leastnbrmosaics") {
            Some(OptimizationPriority::LeastNbrMosaics)
        } else if same_text(name, "biggest_unused_tile_area") || same_text(name, "biggestunusedtilearea") {
            Some(OptimizationPriority::BiggestUnusedTileArea)
        } else if same_text(name, "most_hv_discrepancy") || same_text(name, "mosthvdiscrepancy") {
            Some(OptimizationPriority::MostHVDiscrepancy)
        } else if same_text(name, "smallest_center_of_mass_dist_to_origin")
            || same_text(name, "smallestcenterofmassdisttoorigin") {
            Some(OptimizationPriority::SmallestCenterOfMassDistToOrigin)
        } else if same_text(name, "least_nbr_unused_tiles") || same_text(name, "leastnbrunusedtiles") {
            Some(OptimizationPriority::LeastNbrUnusedTiles)
        } else if same_text(name, "most_unused_panel_area") || same_text(name, "mostunusedpanelarea") {
            Some(OptimizationPriority::MostUnusedPanelArea)
        } else {
            None
        }
    }

    /// The criterion named by `name`, compared in lower case.
    pub fn create_comparator_by_name(name: &str) -> (r: Option<OptimizationPriority>)
        ensures
            r == priority_named(lowercase_of(name@)),
    {
        let lower = to_lowercase(name);
        Self::priority_for_lowercase_name(lower.as_str())
    }

    /// The names of all criteria.
    pub fn get_available_comparator_names() -> (r: Vec<&'static str>)
        ensures
            r@.map_values(|s: &str| s@) == seq![
                "most_tiles"@, "least_wasted_area"@, "least_nbr_cuts"@, "least_nbr_mosaics"@,
                "biggest_unused_tile_area"@, "most_hv_discrepancy"@, "smallest_center_of_mass_dist_to_origin"@,
                "least_nbr_unused_tiles"@, "most_unused_panel_area"@,
            ],
    {
        let v = vec![
            "most_tiles", "least_wasted_area", "least_nbr_cuts", "least_nbr_mosaics",
            "biggest_unused_tile_area", "most_hv_discrepancy", "smallest_center_of_mass_dist_to_origin",
            "least_nbr_unused_tiles", "most_unused_panel_area",
        ];
        proof {
            assert(v@.map_values(|s: &str| s@) =~= seq![
                "most_tiles"@, "least_wasted_area"@, "least_nbr_cuts"@, "least_nbr_mosaics"@,
                "biggest_unused_tile_area"@, "most_hv_discrepancy"@, "smallest_center_of_mass_dist_to_origin"@,
                "least_nbr_unused_tiles"@, "most_unused_panel_area"@,
            ]);
        }
        v
    }

    /// Whether `name`, compared in lower case, names a criterion.
    pub fn is_valid_comparator_name(name: &str) -> (b: bool)
        ensures
            b == priority_named(lowercase_of(name@)) is Some,
    {
        Self::create_comparator_by_name(name).is_some()
    }
}

} // verus!
