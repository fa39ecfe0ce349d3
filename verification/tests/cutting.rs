use cutlist_optimizer::engine::stock::StockSolution;
use cutlist_optimizer::engine::cutting::{CutDirection, CuttingEngine};
use cutlist_optimizer::engine::fitting::PlacementResult;
use cutlist_optimizer::model::mosaic::Mosaic;
use cutlist_optimizer::model::tile::TileDimensions;
use cutlist_optimizer::model::tile_node::TileNode;

#[test]
fn test_split_horizontally_with_thickness() {
    let node = TileNode::new(0, 100, 0, 100);
    let result = CuttingEngine::split_horizontally(&node, 50, 3).unwrap();

    assert_eq!(result.left_node.get_y1(), 0);
    assert_eq!(result.left_node.get_y2(), 50);
    assert_eq!(result.right_node.get_y1(), 50);
    assert_eq!(result.right_node.get_y2(), 100);
    assert!(result.cut.get_is_horizontal());
}

#[test]
fn test_split_vertically_with_thickness() {
    let node = TileNode::new(0, 100, 0, 100);
    let result = CuttingEngine::split_vertically(&node, 50, 3).unwrap();

    assert_eq!(result.left_node.get_x1(), 0);
    assert_eq!(result.left_node.get_x2(), 50);
    assert_eq!(result.right_node.get_x1(), 50);
    assert_eq!(result.right_node.get_x2(), 100);
    assert!(!result.cut.get_is_horizontal());
}

#[test]
fn test_find_candidates() {
    let root = TileNode::new(0, 100, 0, 100);
    let mut candidates = Vec::new();

    CuttingEngine::find_candidates(50, 30, &root, &mut candidates, 10);

    assert_eq!(candidates.len(), 1);
    assert_eq!(candidates[0].get_area(), 10000);
}

#[test]
fn test_cut_direction_enum() {
    assert_eq!(CutDirection::Horizontal, CutDirection::Horizontal);
    assert_ne!(CutDirection::Horizontal, CutDirection::Vertical);
}

#[test]
fn split_outside_the_node_is_an_error() {
    let node = TileNode::new(0, 100, 0, 100);
    assert!(CuttingEngine::split_horizontally(&node, 0, 3).is_err());
    assert!(CuttingEngine::split_vertically(&node, 100, 3).is_err());
}

#[test]
fn find_candidates_keeps_the_trim_margin() {
    let root = TileNode::new(0, 100, 0, 100);
    let mut candidates = Vec::new();
    CuttingEngine::find_candidates(95, 100, &root, &mut candidates, 10);
    assert!(candidates.is_empty());
    CuttingEngine::find_candidates(90, 100, &root, &mut candidates, 10);
    assert_eq!(candidates.len(), 1);
}

#[test]
fn fit_tile_cuts_the_sheet_both_ways() {
    let sheet = Mosaic::new(&TileDimensions::simple(1000, 600));
    let panel = TileDimensions::simple(400, 300);
    let results = CuttingEngine::fit_tile(&panel, &sheet, 3, CutDirection::Horizontal, false).unwrap();
    assert_eq!(results.len(), 2);
    let first = &results[0];
    assert!(first.placed);
    assert_eq!(first.cuts_made, 2);
    assert_eq!(first.used_area, 120000);
    let placed = first.new_mosaic.as_ref().unwrap();
    assert_eq!(placed.get_cuts().len(), 2);
    assert_eq!(placed.get_used_area_immutable(), 120000);
    assert!(!placed.get_cuts()[0].get_is_horizontal());
    let turned = &results[1];
    assert!(turned.placed);
    assert_eq!(turned.used_area, 120000);
    assert_eq!(sheet.get_cuts().len(), 0);
}

#[test]
fn fit_tile_vertical_first_cuts_horizontally_first() {
    let sheet = Mosaic::new(&TileDimensions::simple(1000, 600));
    let panel = TileDimensions::simple(400, 300);
    let results = CuttingEngine::fit_tile(&panel, &sheet, 3, CutDirection::Vertical, false).unwrap();
    let placed = results[0].new_mosaic.as_ref().unwrap();
    assert!(placed.get_cuts()[0].get_is_horizontal());
}

#[test]
fn fit_tile_marks_an_exact_fit() {
    let sheet = Mosaic::new(&TileDimensions::simple(500, 400));
    let panel = TileDimensions::simple(500, 400);
    let results = CuttingEngine::fit_tile(&panel, &sheet, 3, CutDirection::Both, false).unwrap();
    assert_eq!(results.len(), 1);
    assert_eq!(results[0].cuts_made, 0);
    let placed = results[0].new_mosaic.as_ref().unwrap();
    assert_eq!(placed.get_cuts().len(), 0);
    assert_eq!(placed.get_used_area_immutable(), 200000);
}

#[test]
fn fit_tile_without_room_gives_nothing() {
    let sheet = Mosaic::new(&TileDimensions::simple(100, 100));
    let panel = TileDimensions::simple(200, 50);
    let results = CuttingEngine::fit_tile(&panel, &sheet, 3, CutDirection::Both, false).unwrap();
    assert!(results.is_empty());
}

#[test]
fn test_placement_result_creation() {
    let result = PlacementResult {
        placed: true,
        cuts_made: 2,
        used_area: 1500,
        new_mosaic: None,
    };

    assert!(result.placed);
    assert_eq!(result.cuts_made, 2);
    assert_eq!(result.used_area, 1500);
}

#[test]
fn layout_changed_in_place() {
    let mut sheet = Mosaic::new(&TileDimensions::simple(1000, 600));
    sheet.get_root_tile_node_mut().external_id = 7;
    assert_eq!(sheet.get_root_tile_node().external_id, 7);
    assert_eq!(sheet.get_root_tile_node().get_width(), 1000);
}

fn two_part_tree() -> (TileNode, TileNode, TileNode) {
    let left = TileNode::new(0, 50, 0, 100);
    let right = TileNode::new(50, 100, 0, 100);
    let mut root = TileNode::new(0, 100, 0, 100);
    root.child1 = Some(Box::new(left.duplicate()));
    root.child2 = Some(Box::new(right.duplicate()));
    (root, left, right)
}

#[test]
fn node_found_and_changed_in_place() {
    let (mut root, _left, right) = two_part_tree();
    match root.find_tile_mut(&right) {
        Some(node) => node.external_id = 9,
        None => panic!("the right part is in the tree"),
    }
    assert_eq!(root.child2.as_ref().unwrap().external_id, 9);
    assert_eq!(root.child1.as_ref().unwrap().external_id, -1);
    let stranger = TileNode::new(0, 10, 0, 10);
    assert!(root.find_tile_mut(&stranger).is_none());
}

#[test]
fn node_replaced_below_the_root() {
    let (mut root, left, _right) = two_part_tree();
    let mut part = TileNode::new(0, 50, 0, 100);
    part.is_final = true;
    let replaced = root.replace_tile(part, &left);
    assert!(replaced.is_some());
    assert!(root.child1.as_ref().unwrap().is_final);
    let copy = root.duplicate();
    assert!(root.replace_tile(TileNode::new(0, 1, 0, 1), &copy).is_none());
}

#[test]
fn engine_places_panels_one_after_the_other() {
    let stock = StockSolution::new(vec![
        TileDimensions::simple(1000, 600),
        TileDimensions::simple(500, 500),
    ]);
    let out = CuttingEngine::compute_solutions(
        &[TileDimensions::simple(1000, 600), TileDimensions::simple(500, 500)],
        &stock,
        0,
        CutDirection::Both,
        false,
    )
    .unwrap();
    assert_eq!(out.len(), 1);
    assert_eq!(out[0].get_mosaics().len(), 2);
    assert!(out[0].get_unused_stock_panels().is_empty());
    assert!(out[0].get_no_fit_panels().is_empty());

    let out = CuttingEngine::compute_solutions(&[TileDimensions::simple(2000, 2000)], &stock, 0, CutDirection::Both, false)
        .unwrap();
    assert_eq!(out.len(), 1);
    assert_eq!(out[0].get_no_fit_panels().len(), 1);
    assert_eq!(out[0].get_mosaics().len(), 1);
    assert_eq!(out[0].get_unused_stock_panels().len(), 1);
}
