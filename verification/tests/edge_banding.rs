use cutlist_optimizer::engine::edge_banding::{band_pieces, BandPiece};
use cutlist_optimizer::model::request::{Edge, Panel};
use cutlist_optimizer::model::tile_node::TileNode;

fn panel(id: i32, edge: Option<Edge>) -> Panel {
    let mut p = Panel::new(id, "100".to_string(), "200".to_string(), 1, None);
    p.edge = edge;
    p
}

fn node(external_id: i32, width: i32, height: i32, rotated: bool) -> TileNode {
    let mut n = TileNode::new(0, width, 0, height);
    n.external_id = external_id;
    n.is_rotated = rotated;
    n
}

fn edge(top: Option<&str>, left: Option<&str>, bottom: Option<&str>, right: Option<&str>) -> Edge {
    Edge {
        top: top.map(|s| s.to_string()),
        left: left.map(|s| s.to_string()),
        bottom: bottom.map(|s| s.to_string()),
        right: right.map(|s| s.to_string()),
    }
}

fn total(pieces: &[BandPiece], material: &str) -> i64 {
    pieces.iter().filter(|p| p.material == material).map(|p| p.length).sum()
}

#[test]
fn band_pieces_follow_the_sides() {
    let e = edge(Some("edge_material_1"), Some("edge_material_2"), Some("edge_material_1"), Some("edge_material_2"));
    let pieces = band_pieces(&vec![node(1, 100, 200, false)], &vec![panel(1, Some(e))], false).unwrap();
    assert_eq!(pieces.len(), 4);
    assert_eq!(pieces[0].length, 100);
    assert_eq!(pieces[1].length, 200);
    assert_eq!(total(&pieces, "edge_material_1"), 200);
    assert_eq!(total(&pieces, "edge_material_2"), 400);
}

#[test]
fn band_pieces_of_a_turned_panel_swap_the_sides() {
    let e = edge(Some("edge_material_1"), Some("edge_material_2"), Some("edge_material_1"), Some("edge_material_2"));
    let pieces = band_pieces(&vec![node(1, 100, 200, true)], &vec![panel(1, Some(e))], false).unwrap();
    assert_eq!(total(&pieces, "edge_material_1"), 400);
    assert_eq!(total(&pieces, "edge_material_2"), 200);
}

#[test]
fn band_pieces_need_banding() {
    let pieces = band_pieces(&vec![node(1, 100, 200, false)], &vec![panel(1, None)], true).unwrap();
    assert!(pieces.is_empty());
}

#[test]
fn band_pieces_for_a_panel_without_node() {
    let e = edge(Some("edge_material_1"), None, None, None);
    let nodes = vec![node(2, 100, 200, false)];
    let panels = vec![panel(1, Some(e))];
    assert_eq!(band_pieces(&nodes, &panels, true).unwrap_err(), 1);
    assert!(band_pieces(&nodes, &panels, false).unwrap().is_empty());
}

#[test]
fn band_pieces_per_panel() {
    let panels = vec![
        panel(1, Some(edge(Some("material_a"), Some("material_b"), None, None))),
        panel(2, Some(edge(Some("material_a"), None, Some("material_c"), None))),
    ];
    let nodes = vec![node(1, 100, 200, false), node(2, 150, 300, false)];
    let pieces = band_pieces(&nodes, &panels, true).unwrap();
    assert_eq!(pieces.len(), 4);
    assert_eq!((pieces[0].panel_id, pieces[0].material.as_str(), pieces[0].length), (1, "material_a", 100));
    assert_eq!((pieces[1].panel_id, pieces[1].material.as_str(), pieces[1].length), (1, "material_b", 200));
    assert_eq!((pieces[2].panel_id, pieces[2].material.as_str(), pieces[2].length), (2, "material_a", 150));
    assert_eq!((pieces[3].panel_id, pieces[3].material.as_str(), pieces[3].length), (2, "material_c", 150));
}
