use lonely_highway_pipeline::mesh::{building_shell_topology, road_strip_topology};

#[test]
fn straight_road_produces_quad() {
    let t = road_strip_topology(&vec![true, true]);
    assert_eq!(t.vertex_count, 4);
    assert_eq!(t.indices, vec![0, 2, 1, 1, 2, 3]);
}

#[test]
fn empty_road_returns_empty_mesh() {
    assert_eq!(road_strip_topology(&vec![]).vertex_count, 0);
    let t = road_strip_topology(&vec![true]);
    assert_eq!(t.vertex_count, 0);
    assert!(t.indices.is_empty());
}

#[test]
fn degenerate_middle_point_is_skipped() {
    let t = road_strip_topology(&vec![true, false, true]);
    assert_eq!(t.vertex_count, 4);
    assert_eq!(t.indices, vec![0, 2, 1, 1, 2, 3]);
}

#[test]
fn every_strip_index_names_a_vertex() {
    let t = road_strip_topology(&vec![true, true, false, true, true]);
    assert_eq!(t.vertex_count, 8);
    assert_eq!(t.indices.len(), 18);
    assert!(t.indices.iter().all(|&i| (i as usize) < t.vertex_count));
}

#[test]
fn square_building_has_walls_and_roof() {
    let t = building_shell_topology(4);
    assert_eq!(t.vertex_count, 20);
    assert_eq!(t.indices.len(), 30);
    assert_eq!(&t.indices[24..30], &[16, 17, 18, 16, 18, 19]);
    assert!(t.indices.iter().all(|&i| (i as usize) < 20));
}

#[test]
fn degenerate_footprint_has_no_geometry() {
    assert_eq!(building_shell_topology(2).vertex_count, 0);
    assert!(building_shell_topology(1).indices.is_empty());
}
