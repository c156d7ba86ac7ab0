use lonely_highway_pipeline::naming::tile_file_prefix;
use lonely_highway_pipeline::tile::TileCoord;

#[test]
fn prefix_writes_coordinates_in_decimal() {
    assert_eq!(tile_file_prefix(&TileCoord { x: 0, y: 0 }), "tile_0_0");
    assert_eq!(tile_file_prefix(&TileCoord { x: 12, y: -3 }), "tile_12_-3");
    assert_eq!(tile_file_prefix(&TileCoord { x: -1, y: 250 }), "tile_-1_250");
}

#[test]
fn prefix_matches_format_at_extremes() {
    for (x, y) in [(i32::MIN, i32::MAX), (i32::MAX, i32::MIN), (10, 100), (-10, -100), (9, -9)] {
        assert_eq!(tile_file_prefix(&TileCoord { x, y }), format!("tile_{}_{}", x, y));
    }
}

#[test]
fn distinct_tiles_get_distinct_prefixes() {
    let a = tile_file_prefix(&TileCoord { x: 1, y: 12 });
    let b = tile_file_prefix(&TileCoord { x: 11, y: 2 });
    assert_ne!(a, b);
}
