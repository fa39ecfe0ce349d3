use cutlist_optimizer::engine::cut_list_thread::structs::CutListThread;
use cutlist_optimizer::engine::cutting::{CutDirection, CuttingEngine};
use cutlist_optimizer::engine::stock::StockSolution;
use cutlist_optimizer::model::mosaic::Mosaic;
use cutlist_optimizer::model::request::{count_valid, panels_to_string, Panel};
use cutlist_optimizer::model::solution::Solution;
use cutlist_optimizer::model::tile::{TileDimensions, TileUtils};

fn area(group: &Vec<TileDimensions>) -> i64 {
    group.iter().map(|t| t.get_area()).sum()
}

#[test]
fn processing_groups_are_split_and_ordered_by_area() {
    let tiles = vec![
        TileDimensions::simple(100, 100),
        TileDimensions::simple(100, 100),
        TileDimensions::simple(100, 100),
        TileDimensions::simple(300, 200),
        TileDimensions::simple(200, 300).with_material("Oak".to_string()),
    ];
    let groups = TileUtils::create_processing_groups(&tiles, 2);
    assert_eq!(groups.len(), 4);
    for pair in groups.windows(2) {
        assert!(area(&pair[0]) >= area(&pair[1]));
    }
    assert_eq!(groups.iter().map(|g| g.len()).sum::<usize>(), 5);
    assert!(groups.iter().all(|g| g.len() <= 2));
    assert_eq!(area(&groups[0]), 60000);
    assert_eq!(area(&groups[1]), 60000);
    assert_eq!(area(&groups[2]), 20000);
    assert_eq!(area(&groups[3]), 10000);
}

#[test]
fn panels_are_written_with_their_counts() {
    let mut disabled = Panel::new(2, "5".to_string(), "6".to_string(), 1, None);
    disabled.enabled = false;
    let panels = vec![
        Panel::new(1, "100.5".to_string(), "200".to_string(), 3, None),
        Panel::new(3, "7".to_string(), "8".to_string(), 0, None),
        disabled,
    ];
    assert_eq!(panels[0].to_text(), "[100.5x200]*3");
    assert_eq!(panels_to_string(&panels), " [100.5x200]*3 [5x6]*1-disabled");
    assert_eq!(count_valid(&panels, &[true, false, false]), 3);
    assert_eq!(count_valid(&panels, &[true, false, true]), 4);
}

#[test]
fn first_suitable_unused_stock_panel() {
    let stock = StockSolution::new(vec![
        TileDimensions::simple(1000, 600),
        TileDimensions::simple(100, 100),
        TileDimensions::simple(300, 300).with_material("Oak".to_string()),
        TileDimensions::simple(400, 400),
    ]);
    let solution = Solution::from_stock_solution(&stock);
    let found = CuttingEngine::find_suitable_unused_stock(&solution, &TileDimensions::simple(200, 200)).unwrap();
    assert_eq!(found.width, 400);
    assert!(CuttingEngine::find_suitable_unused_stock(&solution, &TileDimensions::simple(900, 900)).is_none());
}

#[test]
fn duplicates_by_identifier_are_dropped() {
    let stock = StockSolution::new(vec![TileDimensions::simple(10, 10)]);
    let a = Solution::from_stock_solution(&stock);
    let mut b = Solution::from_stock_solution(&stock);
    b.id = a.id;
    let c = Solution::from_stock_solution(&stock);
    let first_id = a.id;
    let c_id = c.id;
    let mut all = vec![a, b, c];
    CuttingEngine::remove_duplicates(&mut all);
    let expected = if first_id == c_id { 1 } else { 2 };
    assert_eq!(all.len(), expected);
    for pair in all.windows(2) {
        assert!(pair[0].id < pair[1].id);
    }
}

#[test]
fn search_adds_cuts_for_each_order() {
    let mut thread = CutListThread::new();
    thread.set_first_cut_orientation(CutDirection::Both);
    let sheet = Mosaic::new(&TileDimensions::simple(1000, 600));
    let panel = TileDimensions::simple(400, 300);
    let mut results = Vec::new();
    thread.fit_tile(&panel, &sheet, &mut results, 0).unwrap();
    assert_eq!(results.len(), 2);
    assert_eq!(results[0].get_cuts().len(), 2);
    assert_eq!(results[1].get_cuts().len(), 2);
    assert!(results[0].get_cuts()[0].get_is_horizontal());
    assert!(!results[1].get_cuts()[0].get_is_horizontal());
    let mut both = Vec::new();
    thread.add_tile_to_mosaic(&panel, &sheet, &mut both).unwrap();
    assert_eq!(both.len(), 4);
}

#[test]
fn search_copies_an_exact_fit_shallowly() {
    let thread = CutListThread::new();
    let sheet = Mosaic::new(&TileDimensions::simple(500, 400));
    let mut results = Vec::new();
    thread.fit_tile(&TileDimensions::simple(500, 400), &sheet, &mut results, 0).unwrap();
    assert_eq!(results.len(), 1);
    assert_eq!(results[0].get_cuts().len(), 0);
    assert_eq!(results[0].get_root_tile_node().get_area(), 200000);
}

fn reads_positive(text: &str) -> bool {
    matches!(text.parse::<f64>(), Ok(v) if v > 0.0)
}

fn valid(panel: &Panel) -> bool {
    panel.is_valid(reads_positive(&panel.width), reads_positive(&panel.height))
}

#[test]
fn request_test_panel_validation() {
    let valid_panel = Panel::new(1, "100.5".to_string(), "200.0".to_string(), 5, None);
    assert!(valid(&valid_panel));

    let mut invalid_panel = Panel::new(1, "100.5".to_string(), "200.0".to_string(), 5, None);
    invalid_panel.enabled = false;
    assert!(!valid(&invalid_panel));

    let zero_count_panel = Panel::new(1, "100.5".to_string(), "200.0".to_string(), 0, None);
    assert!(!valid(&zero_count_panel));

    let invalid_width_panel = Panel::new(1, "invalid".to_string(), "200.0".to_string(), 5, None);
    assert!(!valid(&invalid_width_panel));
}
