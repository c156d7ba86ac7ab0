use lonely_highway_pipeline::tile::{tile_grid, TileCoord};

#[test]
fn grid_is_cut_column_by_column() {
    let g = tile_grid(TileCoord { x: -1, y: 0 }, TileCoord { x: 0, y: 1 });
    assert_eq!(
        g,
        vec![
            TileCoord { x: -1, y: 0 },
            TileCoord { x: -1, y: 1 },
            TileCoord { x: 0, y: 0 },
            TileCoord { x: 0, y: 1 },
        ]
    );
}

#[test]
fn empty_rectangle_has_no_tiles() {
    assert!(tile_grid(TileCoord { x: 1, y: 0 }, TileCoord { x: 0, y: 5 }).is_empty());
    assert_eq!(tile_grid(TileCoord { x: 3, y: 3 }, TileCoord { x: 3, y: 3 }), vec![TileCoord { x: 3, y: 3 }]);
}

#[test]
fn grid_reaches_the_largest_coordinates() {
    let g = tile_grid(TileCoord { x: i32::MAX - 1, y: i32::MAX }, TileCoord { x: i32::MAX, y: i32::MAX });
    assert_eq!(g.len(), 2);
    assert_eq!(g[1], TileCoord { x: i32::MAX, y: i32::MAX });
}
