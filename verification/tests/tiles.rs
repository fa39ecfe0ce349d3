use cutlist_optimizer::model::tile::{TileDimensions, TileUtils};

#[test]
fn test_tile_rotation() {
    let tile = TileDimensions::simple(100, 200);
    let rotated = tile.rotate90();

    assert_eq!(rotated.width, 200);
    assert_eq!(rotated.height, 100);
    assert_eq!(rotated.is_rotated, true);
    assert_eq!(tile.get_area(), rotated.get_area());
}

#[test]
fn test_tile_fits() {
    let container = TileDimensions::simple(300, 400);
    let tile1 = TileDimensions::simple(200, 300);
    let tile2 = TileDimensions::simple(350, 200);
    let tile3 = TileDimensions::simple(400, 500);

    assert!(container.fits(&tile1));
    assert!(container.fits(&tile2));
    assert!(!container.fits(&tile3));
}

#[test]
fn test_grouping_by_size() {
    let tiles = vec![
        TileDimensions::simple(100, 200),
        TileDimensions::simple(200, 100),
        TileDimensions::simple(150, 300),
    ];

    let groups = TileUtils::group_by_size(&tiles);

    assert_eq!(groups.len(), 2);
    assert!(groups.iter().any(|(key, _)| key == "100x200"));
    assert!(groups.iter().any(|(key, _)| key == "150x300"));
    let group = groups.iter().find(|(key, _)| key == "100x200").unwrap();
    assert_eq!(group.1.len(), 2);
}

#[test]
fn grouping_by_material_keeps_first_appearance_order() {
    let oak = TileDimensions::simple(10, 10).with_material("Oak".to_string());
    let pine = TileDimensions::simple(20, 10).with_material("Pine".to_string());
    let oak2 = TileDimensions::simple(30, 10).with_material("Oak".to_string());
    let groups = TileUtils::group_by_material(&[oak, pine, oak2]);
    assert_eq!(groups.len(), 2);
    assert_eq!(groups[0].0, "Oak");
    assert_eq!(groups[0].1.len(), 2);
    assert_eq!(groups[0].1[1].width, 30);
    assert_eq!(groups[1].0, "Pine");
    assert!(TileUtils::group_by_size(&[]).is_empty());
}

#[test]
fn test_placement_priority() {
    let small_tile = TileDimensions::simple(50, 50);
    let large_tile = TileDimensions::simple(200, 200);
    let elongated_tile = TileDimensions::simple(500, 25);

    assert!(large_tile.get_placement_priority() > small_tile.get_placement_priority());
    assert!(large_tile.get_placement_priority() > elongated_tile.get_placement_priority());
}

#[test]
fn placement_priority_values() {
    assert_eq!(TileDimensions::simple(200, 200).get_placement_priority(), 4);
    assert_eq!(TileDimensions::simple(500, 25).get_placement_priority(), -999);
    assert_eq!(TileDimensions::simple(300, 100).get_placement_priority(), 3);
    assert_eq!(TileDimensions::simple(301, 100).get_placement_priority(), -997);
    assert_eq!(TileDimensions::simple(33, 100).get_placement_priority(), 0);
    assert_eq!(TileDimensions::simple(32, 100).get_placement_priority(), -1000);
    assert_eq!(TileDimensions::simple(10, 0).get_placement_priority(), -1000);
}

#[test]
fn test_optimal_orientation() {
    let tile = TileDimensions::simple(100, 200);
    let container_wide = (300, 150);
    let container_tall = (150, 300);

    let oriented_wide = tile.get_optimal_orientation(container_wide.0, container_wide.1);
    let oriented_tall = tile.get_optimal_orientation(container_tall.0, container_tall.1);

    assert_eq!(oriented_wide.width, 200);
    assert_eq!(oriented_wide.height, 100);

    assert_eq!(oriented_tall.width, 100);
    assert_eq!(oriented_tall.height, 200);
}

fn shown_ratios(tiles: &[TileDimensions]) -> Vec<String> {
    tiles
        .iter()
        .map(|t| {
            let ratio = if t.height == 0 { f64::INFINITY } else { t.width as f64 / t.height as f64 };
            format!("{}", ratio.max(1.0 / ratio))
        })
        .collect()
}

#[test]
fn test_validation() {
    let tiles = vec![
        TileDimensions::simple(100, 200),
        TileDimensions::simple(0, 100),
        TileDimensions::simple(100, 200),
    ];

    let result = TileUtils::validate_tile_set(&tiles, &shown_ratios(&tiles));

    assert!(!result.is_valid);
    assert!(!result.errors.is_empty());
    assert!(!result.warnings.is_empty());
}

#[test]
fn validation_messages() {
    let mut unnamed = TileDimensions::simple(50, 600);
    unnamed.material = String::new();
    let tiles = vec![TileDimensions::simple(100, 200), unnamed, TileDimensions::simple(200, 100)];
    let result = TileUtils::validate_tile_set(&tiles, &shown_ratios(&tiles));
    assert!(result.is_valid);
    assert!(result.errors.is_empty());
    assert_eq!(
        result.warnings,
        vec![
            "Панель 1: пустой материал".to_string(),
            "Панель 1: экстремальные пропорции (12:1)".to_string(),
            "Панель 2: дубликат 100x200_DEFAULT_MATERIAL".to_string(),
        ]
    );
    let bad = vec![TileDimensions::simple(-5, 100001)];
    let result = TileUtils::validate_tile_set(&bad, &shown_ratios(&bad));
    assert_eq!(result.errors, vec!["Панель 0: неверные размеры -5x100001".to_string()]);
}

#[test]
fn totals_of_a_set_of_panels() {
    let tiles = vec![
        TileDimensions::simple(100, 200),
        TileDimensions::simple(300, 300),
        TileDimensions::simple(200, 100),
        TileDimensions::simple(50, 500).with_material("Oak".to_string()),
    ];
    let t = TileUtils::tile_totals(&tiles);
    assert_eq!(t.total_count, 4);
    assert_eq!(t.total_area, 20000 + 90000 + 20000 + 25000);
    assert_eq!((t.max_area, t.min_area), (90000, 20000));
    assert_eq!((t.max_width, t.min_width), (300, 50));
    assert_eq!((t.max_height, t.min_height), (500, 100));
    assert_eq!(t.unique_sizes, 3);
    assert_eq!(t.unique_materials, 2);
    assert_eq!(t.square_count, 1);
    assert_eq!(t.elongated_count, 1);
    assert_eq!(TileUtils::tile_totals(&[]).total_count, 0);
}
