use cutlist_optimizer::comparator::solution_comparator_factory::SolutionComparatorFactory as CriterionNames;
use cutlist_optimizer::engine::comparator::factory::SolutionComparatorFactory as PriorityNames;
use cutlist_optimizer::comparator::priority_list_factory::PriorityListFactory as CriteriaLists;
use cutlist_optimizer::comparator::solution_comparator_enum::SolutionComparator;
use cutlist_optimizer::engine::comparator::priority::{OptimizationPriority, PriorityListFactory};

#[test]
fn test_optimization_priority_display() {
    assert_eq!(OptimizationPriority::MostTiles.to_string(), "Most Tiles");
    assert_eq!(OptimizationPriority::LeastWastedArea.to_string(), "Least Wasted Area");
    assert_eq!(OptimizationPriority::LeastNbrCuts.to_string(), "Least Number of Cuts");
}

#[test]
fn test_final_solution_priority_list_area_priority() {
    let priorities = PriorityListFactory::get_final_solution_prioritized_comparator_list(0);

    assert_eq!(priorities[0], OptimizationPriority::MostTiles);
    assert_eq!(priorities[1], OptimizationPriority::LeastWastedArea);
    assert_eq!(priorities[2], OptimizationPriority::LeastNbrCuts);
    assert_eq!(priorities[3], OptimizationPriority::LeastNbrMosaics);

    assert_eq!(priorities.len(), 9);
}

#[test]
fn test_final_solution_priority_list_cuts_priority() {
    let priorities = PriorityListFactory::get_final_solution_prioritized_comparator_list(1);

    assert_eq!(priorities[0], OptimizationPriority::MostTiles);
    assert_eq!(priorities[1], OptimizationPriority::LeastNbrCuts);
    assert_eq!(priorities[2], OptimizationPriority::LeastWastedArea);
    assert_eq!(priorities[3], OptimizationPriority::LeastNbrMosaics);
}

#[test]
fn test_final_solution_priority_list_invalid_priority() {
    let priorities = PriorityListFactory::get_final_solution_prioritized_comparator_list(999);

    assert_eq!(priorities[0], OptimizationPriority::MostTiles);
    assert_eq!(priorities[1], OptimizationPriority::LeastWastedArea);
    assert_eq!(priorities[2], OptimizationPriority::LeastNbrCuts);
}

#[test]
fn test_intermediate_solution_priority_list() {
    let priorities_area = PriorityListFactory::get_intermediate_solution_prioritized_comparator_list(0);
    let priorities_cuts = PriorityListFactory::get_intermediate_solution_prioritized_comparator_list(1);

    assert!(priorities_area.len() < 9);
    assert!(priorities_cuts.len() < 9);

    assert_eq!(priorities_area[0], OptimizationPriority::MostTiles);
    assert_eq!(priorities_cuts[0], OptimizationPriority::MostTiles);

    assert_eq!(priorities_area[1], OptimizationPriority::LeastWastedArea);
    assert_eq!(priorities_cuts[1], OptimizationPriority::LeastNbrCuts);
}

#[test]
fn test_create_custom_priority_list() {
    let priorities = PriorityListFactory::create_custom_priority_list(
        OptimizationPriority::LeastNbrCuts,
        Some(OptimizationPriority::MostTiles),
        vec![OptimizationPriority::LeastWastedArea, OptimizationPriority::LeastNbrMosaics],
    );

    assert_eq!(priorities[0], OptimizationPriority::LeastNbrCuts);
    assert_eq!(priorities[1], OptimizationPriority::MostTiles);
    assert_eq!(priorities[2], OptimizationPriority::LeastWastedArea);
    assert_eq!(priorities[3], OptimizationPriority::LeastNbrMosaics);
    assert_eq!(priorities.len(), 4);
}

#[test]
fn test_create_custom_priority_list_no_duplicates() {
    let priorities = PriorityListFactory::create_custom_priority_list(
        OptimizationPriority::MostTiles,
        Some(OptimizationPriority::LeastWastedArea),
        vec![
            OptimizationPriority::MostTiles,
            OptimizationPriority::LeastWastedArea,
            OptimizationPriority::LeastNbrCuts,
        ],
    );

    assert_eq!(priorities.len(), 3);
    assert_eq!(priorities[0], OptimizationPriority::MostTiles);
    assert_eq!(priorities[1], OptimizationPriority::LeastWastedArea);
    assert_eq!(priorities[2], OptimizationPriority::LeastNbrCuts);
}

#[test]
fn test_get_all_priorities() {
    let all_priorities = PriorityListFactory::get_all_priorities();
    assert_eq!(all_priorities.len(), 9);

    assert!(all_priorities.contains(&OptimizationPriority::MostTiles));
    assert!(all_priorities.contains(&OptimizationPriority::LeastWastedArea));
    assert!(all_priorities.contains(&OptimizationPriority::LeastNbrCuts));
    assert!(all_priorities.contains(&OptimizationPriority::LeastNbrMosaics));
    assert!(all_priorities.contains(&OptimizationPriority::BiggestUnusedTileArea));
    assert!(all_priorities.contains(&OptimizationPriority::MostHVDiscrepancy));
    assert!(all_priorities.contains(&OptimizationPriority::SmallestCenterOfMassDistToOrigin));
    assert!(all_priorities.contains(&OptimizationPriority::LeastNbrUnusedTiles));
    assert!(all_priorities.contains(&OptimizationPriority::MostUnusedPanelArea));
}

#[test]
fn test_is_valid_optimization_priority() {
    assert!(PriorityListFactory::is_valid_optimization_priority(0));
    assert!(PriorityListFactory::is_valid_optimization_priority(1));
    assert!(!PriorityListFactory::is_valid_optimization_priority(-1));
    assert!(!PriorityListFactory::is_valid_optimization_priority(2));
    assert!(!PriorityListFactory::is_valid_optimization_priority(999));
}

#[test]
fn criteria_follow_priorities() {
    assert_eq!(SolutionComparator::from(OptimizationPriority::MostHVDiscrepancy), SolutionComparator::HvDiscrepancy);
    assert_eq!(SolutionComparator::from(OptimizationPriority::MostTiles), SolutionComparator::MostNbrTiles);
    assert_eq!(
        CriteriaLists::get_final_solution_prioritized_comparator_enum_list(OptimizationPriority::MostTiles),
        vec![
            SolutionComparator::MostNbrTiles,
            SolutionComparator::LeastWastedArea,
            SolutionComparator::LeastNbrCuts,
            SolutionComparator::LeastNbrMosaics,
            SolutionComparator::BiggestUnusedTileArea,
            SolutionComparator::HvDiscrepancy,
        ]
    );
    assert_eq!(
        CriteriaLists::get_final_solution_prioritized_comparator_enum_list(OptimizationPriority::LeastNbrCuts)[1],
        SolutionComparator::LeastNbrCuts
    );
}

#[test]
fn names_are_read_without_regard_to_case() {
    assert_eq!(
        PriorityNames::create_comparator_by_name("MOST_TILES"),
        Some(OptimizationPriority::MostTiles)
    );
    assert_eq!(
        PriorityNames::create_comparator_by_name("LeastNbrCuts"),
        Some(OptimizationPriority::LeastNbrCuts)
    );
    assert_eq!(
        CriterionNames::get_solution_comparator_enum(Some("  most_tiles ")),
        Ok(Some(SolutionComparator::MostNbrTiles))
    );
}
