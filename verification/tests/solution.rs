use cutlist_optimizer::engine::comparator::SolutionUtils;
use cutlist_optimizer::model::mosaic::Mosaic;
use cutlist_optimizer::engine::stock::StockSolution;
use cutlist_optimizer::model::solution::Solution;
use cutlist_optimizer::model::tile::TileDimensions;

#[test]
fn test_solution_creation_from_stock() {
    let stock_solution = StockSolution::new(vec![TileDimensions::simple(1000, 600)]);

    let solution = Solution::from_stock_solution(&stock_solution);

    assert_eq!(solution.get_mosaics().len(), 1);
    assert_eq!(solution.get_unused_stock_panels().len(), 0);
    assert_eq!(solution.get_no_fit_panels().len(), 0);
    assert_eq!(solution.get_total_area(), 600000);
    assert_eq!(solution.get_used_area(), 0);
    assert_eq!(solution.get_unused_area(), 600000);
}

#[test]
fn test_solution_place_tile() {
    let stock_solution = StockSolution::new(vec![TileDimensions::simple(1000, 600)]);

    let mut solution = Solution::from_stock_solution(&stock_solution);
    let tile_to_place = TileDimensions::simple(400, 300);

    let new_solutions = solution.try_place_tile(&tile_to_place).unwrap();

    assert!(!new_solutions.is_empty());
    let first_solution = &new_solutions[0];
    assert_eq!(first_solution.get_nbr_final_tiles(), 1);
    assert_eq!(first_solution.get_used_area(), 120000);
    assert!(first_solution.get_no_fit_panels().is_empty());
}

#[test]
fn test_solution_copy() {
    let stock_solution = StockSolution::new(vec![TileDimensions::simple(1000, 600)]);

    let original = Solution::from_stock_solution(&stock_solution);
    let copy = Solution::copy(&original);

    assert_ne!(original.get_id(), copy.get_id());
    assert_eq!(original.get_mosaics().len(), copy.get_mosaics().len());
    assert_eq!(original.get_total_area(), copy.get_total_area());
}

#[test]
fn test_solution_metrics() {
    let stock_solution = StockSolution::new(vec![TileDimensions::simple(1000, 600), TileDimensions::simple(800, 500)]);

    let solution = Solution::from_stock_solution(&stock_solution);

    assert_eq!(solution.get_nbr_mosaics(), 1);
    assert_eq!(solution.get_total_area(), 600000);
    assert_eq!(solution.get_unused_stock_panels().len(), 1);
    assert_eq!(solution.get_material(), Some("DEFAULT_MATERIAL".to_string()));
}

#[test]
fn test_solution_no_fit_panels() {
    let stock_solution = StockSolution::new(vec![TileDimensions::simple(100, 100)]);

    let mut solution = Solution::from_stock_solution(&stock_solution);
    let large_tile = TileDimensions::simple(200, 200);

    let new_solutions = solution.try_place_tile(&large_tile).unwrap();

    assert!(!new_solutions.is_empty());
    let first_solution = &new_solutions[0];
    assert_eq!(first_solution.get_no_fit_panels().len(), 1);
    assert_eq!(first_solution.get_nbr_final_tiles(), 0);
}

#[test]
fn one_line_renderings() {
    let panel = TileDimensions::simple(100, 200);
    assert_eq!(panel.to_text(), "id=-1[100x200]");
    let sheet = Mosaic::new(&TileDimensions::simple(1000, 600));
    assert_eq!(sheet.to_text(), "Mosaic[1000x600, material=DEFAULT_MATERIAL, cuts=0, used_area=N/A]");
    let stock = StockSolution::new(vec![TileDimensions::simple(1000, 600)]);
    let solution = Solution::from_stock_solution(&stock);
    let text = solution.to_text();
    assert!(text.starts_with(&format!("Solution[id={}", solution.get_id())));
    assert!(text.ends_with(", mosaics=1, used_area=0, unused_area=600000]"));
}

#[test]
fn add_mosaic_keeps_the_order_of_sheets_with_equal_unused_area() {
    let mut s = Solution::new();
    s.add_mosaic(Mosaic::new(&TileDimensions::simple(100, 200)));
    s.add_mosaic(Mosaic::new(&TileDimensions::simple(200, 100)));
    s.add_mosaic(Mosaic::new(&TileDimensions::simple(50, 50)));
    s.add_mosaic(Mosaic::new(&TileDimensions::simple(40, 500)));
    let widths: Vec<i32> = s.get_mosaics().iter().map(|m| m.get_root_tile_node().get_width()).collect();
    assert_eq!(widths, vec![50, 100, 200, 40]);
}

#[test]
fn removing_duplicates_twice_removes_nothing_the_second_time() {
    let big = StockSolution::new(vec![TileDimensions::simple(1000, 600)]);
    let small = StockSolution::new(vec![TileDimensions::simple(500, 500)]);
    let mut v = vec![
        Solution::from_stock_solution(&big),
        Solution::from_stock_solution(&small),
        Solution::from_stock_solution(&big),
    ];
    let first_id = v[0].get_id();
    assert_eq!(SolutionUtils::remove_duplicates(&mut v), 1);
    assert_eq!(v.len(), 2);
    assert_eq!(v[0].get_id(), first_id);
    assert_eq!(SolutionUtils::remove_duplicates(&mut v), 0);
    assert_eq!(v.len(), 2);
}

#[test]
fn placing_a_panel_gives_solutions_with_new_identifiers() {
    let mut s = Solution::from_stock_solution(&StockSolution::new(vec![TileDimensions::simple(1000, 600)]));
    let id = s.get_id();
    let placed = s.try_place_tile(&TileDimensions::simple(400, 300)).unwrap();
    assert!(!placed.is_empty());
    for p in &placed {
        assert_ne!(p.get_id(), id);
    }
    let nowhere = s.try_place_tile(&TileDimensions::simple(4000, 3000)).unwrap();
    assert_eq!(nowhere.len(), 1);
    assert_ne!(nowhere[0].get_id(), id);
    assert_eq!(nowhere[0].get_no_fit_panels().len(), 1);
    assert_eq!(Solution::copy(&s).get_id() == id, false);
}
