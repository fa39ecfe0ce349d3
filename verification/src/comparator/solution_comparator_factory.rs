//! Criteria from their names, as configurations give them.

use vstd::prelude::*;
use crate::comparator::solution_comparator_enum::SolutionComparator;
use crate::engine::comparator::priority::OptimizationPriority;
use crate::support::{trimmed, trim_text, to_uppercase, uppercase_of, same_text};

verus! {

/// Why a name does not give a criterion.
#[derive(Debug, Clone, PartialEq, Eq)]
pub enum ComparatorFactoryError {
    UnknownPriority(String),
    InvalidInput,
}

/// Builds criteria from their names.
pub struct SolutionComparatorFactory;

/// The criterion that an upper-case name stands for.
pub open spec fn comparator_named(name: Seq<char>) -> Option<SolutionComparator> {
    if name == "MOST_TILES"@ {
        Some(SolutionComparator::MostNbrTiles)
    } else if name == "LEAST_WASTED_AREA"@ {
        Some(SolutionComparator::LeastWastedArea)
    } else if name == "LEAST_NBR_CUTS"@ {
        Some(SolutionComparator::LeastNbrCuts)
    } else if name == "MOST_HV_DISCREPANCY"@ {
        Some(SolutionComparator::HvDiscrepancy)
    } else if name == "BIGGEST_UNUSED_TILE_AREA"@ {
        Some(SolutionComparator::BiggestUnusedTileArea)
    } else if name == "SMALLEST_CENTER_OF_MASS_DIST_TO_ORIGIN"@ {
        Some(SolutionComparator::SmallestCenterOfMassDistToOrigin)
    } else if name == "LEAST_NBR_MOSAICS"@ {
        Some(SolutionComparator::LeastNbrMosaics)
    } else if name == "LEAST_NBR_UNUSED_TILES"@ {
        Some(SolutionComparator::LeastNbrUnusedTiles)
    } else if name == "MOST_UNUSED_PANEL_AREA"@ {
        Some(SolutionComparator::MostUnusedPanelArea)
    } else {
        None
    }
}

/// What `get_solution_comparator_enum` gives for a present text `s`: nothing when it is
/// blank, else the criterion named by its trimmed upper-case form, or the error that
/// carries the trimmed text.
pub open spec fn parsed_comparator(s: Seq<char>) -> Result<Option<SolutionComparator>, Seq<char>> {
    if trimmed(s).len() == 0 {
        Ok(None)
    } else {
        match comparator_named(uppercase_of(trimmed(s))) {
            Some(c) => Ok(Some(c)),
            None => Err(trimmed(s)),
        }
    }
}

/// The criterion of a text, when it names one.
pub open spec fn comparator_of_text(s: Seq<char>) -> Option<SolutionComparator> {
    match parsed_comparator(s) {
        Ok(Some(c)) => Some(c),
        _ => None,
    }
}

impl SolutionComparatorFactory {
    /// The criterion that the upper-case name `normalized` stands for; otherwise the
    /// error that carries `original`.
    pub fn comparator_for_name(normalized: &str, original: &str) -> (r: Result<SolutionComparator, ComparatorFactoryError>)
        ensures
            match comparator_named(normalized@) {
                Some(c) => r == Ok::<SolutionComparator, ComparatorFactoryError>(c),
                None => r matches Err(ComparatorFactoryError::UnknownPriority(m)) && m@ == original@,
            },
    {
        proof {
            reveal_strlit("MOST_TILES");
            reveal_strlit("LEAST_WASTED_AREA");
            reveal_strlit("LEAST_NBR_CUTS");
            reveal_strlit("MOST_HV_DISCREPANCY");
            reveal_strlit("BIGGEST_UNUSED_TILE_AREA");
            reveal_strlit("SMALLEST_CENTER_OF_MASS_DIST_TO_ORIGIN");
            reveal_strlit("LEAST_NBR_MOSAICS");
            reveal_strlit("LEAST_NBR_UNUSED_TILES");
            reveal_strlit("MOST_UNUSED_PANEL_AREA");
        }
        if same_text(normalized, "MOST_TILES") {
            Ok(SolutionComparator::MostNbrTiles)
        } else if same_text(normalized, "LEAST_WASTED_AREA") {
            Ok(SolutionComparator::LeastWastedArea)
        } else if same_text(normalized, "LEAST_NBR_CUTS") {
            Ok(SolutionComparator::LeastNbrCuts)
        } else if same_text(normalized, "MOST_HV_DISCREPANCY") {
            Ok(SolutionComparator::HvDiscrepancy)
        } else if same_text(normalized, "BIGGEST_UNUSED_TILE_AREA") {
            Ok(SolutionComparator::BiggestUnusedTileArea)
        } else if same_text(normalized, "SMALLEST_CENTER_OF_MASS_DIST_TO_ORIGIN") {
            Ok(SolutionComparator::SmallestCenterOfMassDistToOrigin)
        } else if same_text(normalized, "LEAST_NBR_MOSAICS") {
            Ok(SolutionComparator::LeastNbrMosaics)
        } else if same_text(normalized, "LEAST_NBR_UNUSED_TILES") {
            Ok(SolutionComparator::LeastNbrUnusedTiles)
        } else if same_text(normalized, "MOST_UNUSED_PANEL_AREA") {
            Ok(SolutionComparator::MostUnusedPanelArea)
        } else {
            Err(ComparatorFactoryError::UnknownPriority(original.to_string()))
        }
    }

    /// The criterion named by a text: nothing for a missing or blank text; the name is
    /// trimmed and compared in upper case; an unknown name is an error carrying the
    /// trimmed text.
    pub fn get_solution_comparator_enum(priority_str: Option<&str>)
        -> (r: Result<Option<SolutionComparator>, ComparatorFactoryError>)
        ensures
            match priority_str {
                None => r == Ok::<Option<SolutionComparator>, ComparatorFactoryError>(None),
                Some(s) => match parsed_comparator(s@) {
                    Ok(c) => r == Ok::<Option<SolutionComparator>, ComparatorFactoryError>(c),
                    Err(t) => r matches Err(ComparatorFactoryError::UnknownPriority(m)) && m@ == t,
                },
            },
    {
        let s = match priority_str {
            Some(s) => s,
            None => { return Ok(None); },
        };
        let trimmed_text = trim_text(s);
        if trimmed_text.as_str().unicode_len() == 0 {
            return Ok(None);
        }
        let normalized = to_uppercase(trimmed_text.as_str());
        match Self::comparator_for_name(normalized.as_str(), trimmed_text.as_str()) {
            Ok(c) => Ok(Some(c)),
            Err(e) => Err(e),
        }
    }

    /// The criteria named by the texts that name one, in order.
    pub fn get_solution_comparator_enum_list(priority_strings: &[&str]) -> (r: Vec<SolutionComparator>)
        ensures
            r@ == priority_strings@.map_values(|s: &str| s@).filter_map(|t: Seq<char>| comparator_of_text(t)),
    {
        let ghost texts = priority_strings@.map_values(|s: &str| s@);
        let mut result: Vec<SolutionComparator> = Vec::new();
        let mut i: usize = 0;
        while i < priority_strings.len()
            invariant
                0 <= i <= priority_strings@.len(),
                texts == priority_strings@.map_values(|s: &str| s@),
                result@ == texts.take(i as int).filter_map(|t: Seq<char>| comparator_of_text(t)),
            decreases priority_strings@.len() - i,
        {
            let ghost before = result@;
            proof {
                assert(texts.take(i + 1).drop_last() =~= texts.take(i as int));
                assert(texts.take(i + 1).last() == priority_strings@[i as int]@);
            }
            if let Ok(Some(c)) = Self::get_solution_comparator_enum(Some(priority_strings[i])) {
                result.push(c);
            }
            i = i + 1;
        }
        proof { assert(texts.take(texts.len() as int) =~= texts); }
        result
    }
}

/// The criterion that ranks solutions by a priority.
pub open spec fn criterion_of(p: OptimizationPriority) -> SolutionComparator {
    match p {
        OptimizationPriority::MostTiles => SolutionComparator::MostNbrTiles,
        OptimizationPriority::LeastWastedArea => SolutionComparator::LeastWastedArea,
        OptimizationPriority::LeastNbrCuts => SolutionComparator::LeastNbrCuts,
        OptimizationPriority::MostHVDiscrepancy => SolutionComparator::HvDiscrepancy,
        OptimizationPriority::BiggestUnusedTileArea => SolutionComparator::BiggestUnusedTileArea,
        OptimizationPriority::SmallestCenterOfMassDistToOrigin => SolutionComparator::SmallestCenterOfMassDistToOrigin,
        OptimizationPriority::LeastNbrMosaics => SolutionComparator::LeastNbrMosaics,
        OptimizationPriority::LeastNbrUnusedTiles => SolutionComparator::LeastNbrUnusedTiles,
        OptimizationPriority::MostUnusedPanelArea => SolutionComparator::MostUnusedPanelArea,
    }
}

impl From<OptimizationPriority> for SolutionComparator {
    fn from(priority: OptimizationPriority) -> (r: Self) {
        match priority {
            OptimizationPriority::MostTiles => SolutionComparator::MostNbrTiles,
            OptimizationPriority::LeastWastedArea => SolutionComparator::LeastWastedArea,
            OptimizationPriority::LeastNbrCuts => SolutionComparator::LeastNbrCuts,
            OptimizationPriority::MostHVDiscrepancy => SolutionComparator::HvDiscrepancy,
            OptimizationPriority::BiggestUnusedTileArea => SolutionComparator::BiggestUnusedTileArea,
            OptimizationPriority::SmallestCenterOfMassDistToOrigin => SolutionComparator::SmallestCenterOfMassDistToOrigin,
            OptimizationPriority::LeastNbrMosaics => SolutionComparator::LeastNbrMosaics,
            OptimizationPriority::LeastNbrUnusedTiles => SolutionComparator::LeastNbrUnusedTiles,
            OptimizationPriority::MostUnusedPanelArea => SolutionComparator::MostUnusedPanelArea,
        }
    }
}

impl vstd::std_specs::convert::FromSpecImpl<OptimizationPriority> for SolutionComparator {
    open spec fn obeys_from_spec() -> bool {
        true
    }

    open spec fn from_spec(priority: OptimizationPriority) -> Self {
        criterion_of(priority)
    }
}

} // verus!
