use cutlist_optimizer::comparator::solution_comparator_enum::SolutionComparator;
use cutlist_optimizer::comparator::solution_comparators::{
    compare_by_biggest_unused_tile_area, compare_by_least_wasted_area, compare_by_most_nbr_tiles,
    compare_by_most_unused_panel_area,
};
use cutlist_optimizer::engine::comparator::sort_by_criteria;
use cutlist_optimizer::engine::stock::StockSolution;
use cutlist_optimizer::model::solution::Solution;
use cutlist_optimizer::model::tile::TileDimensions;
use std::cmp::Ordering;

fn sheet(w: i32, h: i32) -> Solution {
    Solution::from_stock_solution(&StockSolution::new(vec![TileDimensions::simple(w, h)]))
}

fn with_one_panel() -> Solution {
    let mut s = sheet(1000, 600);
    let placed = s.try_place_tile(&TileDimensions::simple(400, 300)).unwrap();
    placed.into_iter().next().unwrap()
}

#[test]
fn descending_comparators_answer_greater_for_more() {
    let big = sheet(1000, 600);
    let small = sheet(500, 500);
    assert_eq!(compare_by_biggest_unused_tile_area(&big, &small), Ordering::Greater);
    assert_eq!(compare_by_biggest_unused_tile_area(&small, &big), Ordering::Less);
    assert_eq!(compare_by_biggest_unused_tile_area(&big, &sheet(1000, 600)), Ordering::Equal);
    assert_eq!(compare_by_most_unused_panel_area(&big, &small), Ordering::Greater);
    assert_eq!(compare_by_most_unused_panel_area(&small, &big), Ordering::Less);
    let placed = with_one_panel();
    assert_eq!(compare_by_most_nbr_tiles(&placed, &big), Ordering::Greater);
    assert_eq!(compare_by_most_nbr_tiles(&big, &placed), Ordering::Less);
    assert_eq!(compare_by_most_nbr_tiles(&big, &small), Ordering::Equal);
}

#[test]
fn ascending_comparator_answers_less_for_less() {
    assert_eq!(compare_by_least_wasted_area(&sheet(500, 500), &sheet(1000, 600)), Ordering::Less);
}

#[test]
fn criterion_compare_is_its_comparison_function() {
    let big = sheet(1000, 600);
    let small = sheet(500, 500);
    assert_eq!(SolutionComparator::BiggestUnusedTileArea.compare(&big, &small), Ordering::Greater);
    assert_eq!(SolutionComparator::MostUnusedPanelArea.compare(&big, &small), Ordering::Greater);
    assert_eq!(SolutionComparator::MostNbrTiles.compare(&with_one_panel(), &big), Ordering::Greater);
    assert_eq!(SolutionComparator::LeastWastedArea.compare(&small, &big), Ordering::Less);
}

#[test]
fn ranking_by_a_descending_criterion_puts_more_first() {
    let mut v = vec![sheet(1000, 600), with_one_panel()];
    sort_by_criteria(&mut v, &[SolutionComparator::MostNbrTiles]);
    assert_eq!(v[0].get_nbr_final_tiles(), 1);
    assert_eq!(v[1].get_nbr_final_tiles(), 0);

    let mut w = vec![sheet(500, 500), sheet(1000, 600)];
    sort_by_criteria(&mut w, &[SolutionComparator::BiggestUnusedTileArea]);
    assert_eq!(w[0].get_biggest_area(), 600000);
}

#[test]
fn every_criterion_is_listed_once() {
    let all = SolutionComparator::all();
    assert_eq!(all.len(), 9);
    for (i, a) in all.iter().enumerate() {
        for b in all.iter().skip(i + 1) {
            assert_ne!(a, b);
        }
    }
    assert!(all.contains(&SolutionComparator::SmallestCenterOfMassDistToOrigin));
}
