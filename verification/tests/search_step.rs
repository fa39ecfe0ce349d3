use cutlist_optimizer::engine::cut_list_thread::structs::CutListThread;
use cutlist_optimizer::engine::stock::StockSolution;
use cutlist_optimizer::model::solution::Solution;
use cutlist_optimizer::model::tile::TileDimensions;

fn start() -> Vec<Solution> {
    let stock = StockSolution::new(vec![TileDimensions::simple(1000, 600), TileDimensions::simple(800, 800)]);
    vec![Solution::from_stock_solution(&stock)]
}

#[test]
fn step_places_on_the_first_sheet_that_takes_the_panel() {
    let thread = CutListThread::new();
    let out = thread.process_tile(&start(), &TileDimensions::simple(400, 300));
    assert!(!out.is_empty());
    assert!(out.len() <= 4);
    for s in &out {
        assert_eq!(s.get_mosaics().len(), 1);
        assert_eq!(s.get_unused_stock_panels().len(), 1);
        assert!(s.get_no_fit_panels().is_empty());
    }
}

#[test]
fn step_opens_a_new_sheet_from_the_first_fitting_stock_panel() {
    let thread = CutListThread::new();
    let out = thread.process_tile(&start(), &TileDimensions::simple(700, 700));
    assert!(!out.is_empty());
    for s in &out {
        assert_eq!(s.get_mosaics().len(), 2);
        assert!(s.get_unused_stock_panels().is_empty());
        assert!(s.get_no_fit_panels().is_empty());
    }
}

#[test]
fn step_leaves_a_panel_that_fits_nowhere_unplaced() {
    let thread = CutListThread::new();
    let current = start();
    let id = current[0].get_id();
    let out = thread.process_tile(&current, &TileDimensions::simple(2000, 2000));
    assert_eq!(out.len(), 1);
    assert_eq!(out[0].get_id(), id);
    assert_eq!(out[0].get_mosaics().len(), 1);
    assert_eq!(out[0].get_unused_stock_panels().len(), 1);
    assert_eq!(out[0].get_no_fit_panels().len(), 1);
    assert_eq!(out[0].get_no_fit_panels()[0].width, 2000);
}

#[test]
fn step_keeps_at_most_the_accuracy_factor() {
    let mut thread = CutListThread::new();
    thread.accuracy_factor = 1;
    let mut current = start();
    current.push(Solution::from_stock_solution(&StockSolution::new(vec![TileDimensions::simple(500, 500)])));
    let out = thread.process_tile(&current, &TileDimensions::simple(2000, 2000));
    assert_eq!(out.len(), 1);
}

#[test]
fn search_tries_every_panel_and_stores_what_it_kept() {
    let mut thread = CutListThread::new();
    thread.tiles = vec![
        TileDimensions::simple(400, 300),
        TileDimensions::simple(200, 100),
        TileDimensions::simple(100, 100),
        TileDimensions::simple(5000, 5000),
    ];
    thread.stock_solution = Some(StockSolution::new(vec![TileDimensions::simple(1000, 600)]));
    assert!(thread.compute_solutions().is_ok());
    assert!(thread.is_finished());
    assert_eq!(thread.percentage_done, 75);
    assert!(!thread.all_solutions.is_empty());
    assert!(thread.all_solutions.len() <= thread.accuracy_factor);
    for s in &thread.all_solutions {
        assert_eq!(s.get_no_fit_panels().len(), 1);
        assert_eq!(s.get_no_fit_panels()[0].width, 5000);
    }
    for m in thread.all_solutions[0].get_mosaics() {
        assert!(m.get_used_area_immutable() > 0);
    }
}

#[test]
fn search_without_stock_keeps_nothing_new() {
    let mut thread = CutListThread::new();
    thread.tiles = vec![TileDimensions::simple(400, 300)];
    assert!(thread.compute_solutions().is_ok());
    assert!(thread.all_solutions.is_empty());
    assert!(thread.is_finished());
}

#[test]
fn search_with_a_stock_panel_that_fits_nothing_finishes() {
    let mut thread = CutListThread::new();
    thread.tiles = vec![TileDimensions::simple(400, 300)];
    thread.stock_solution = Some(StockSolution::new(vec![TileDimensions::simple(0, 600)]));
    assert!(thread.compute_solutions().is_ok());
    assert!(thread.is_finished());
    assert_eq!(thread.all_solutions.len(), 1);
    assert_eq!(thread.all_solutions[0].get_no_fit_panels().len(), 1);
    assert!(thread.all_solutions[0].get_mosaics().is_empty());
}

#[test]
fn run_refuses_a_search_without_panels() {
    let mut thread = CutListThread::new();
    thread.stock_solution = Some(StockSolution::new(vec![TileDimensions::simple(1000, 600)]));
    thread.run();
    assert!(thread.has_error());
}

#[test]
fn run_finishes_a_valid_search() {
    let mut thread = CutListThread::new();
    thread.tiles = vec![TileDimensions::simple(400, 300)];
    thread.stock_solution = Some(StockSolution::new(vec![TileDimensions::simple(1000, 600)]));
    thread.run();
    assert!(thread.is_finished());
    assert!(!thread.all_solutions.is_empty());
}

#[test]
fn elapsed_time_from_the_start() {
    let mut thread = CutListThread::new();
    assert_eq!(thread.elapsed_time_at(500), 0);
    assert_eq!(thread.elapsed_time(), 0);
    thread.start_time = Some(1000);
    assert_eq!(thread.elapsed_time_at(1500), 500);
    assert_eq!(thread.elapsed_time_at(900), 0);
}

#[test]
fn thread_find_candidates_tells_when_the_trim_kept_a_panel_out() {
    let mut thread = CutListThread::new();
    thread.min_trim_dimension = 10;
    let root = cutlist_optimizer::model::tile_node::TileNode::new(0, 100, 0, 100);
    let mut candidates = Vec::new();
    assert!(thread.find_candidates(95, 100, &root, &mut candidates));
    assert!(candidates.is_empty());
    assert!(!thread.find_candidates(90, 100, &root, &mut candidates));
    assert_eq!(candidates.len(), 1);
    assert!(!thread.find_candidates(100, 100, &root, &mut candidates));
    assert_eq!(candidates.len(), 2);
    assert!(!thread.find_candidates(120, 100, &root, &mut candidates));
    assert_eq!(candidates.len(), 2);
}
