use lonely_highway_pipeline::fallbacks::{
    BuildingHeightFallbacks, Fallbacks, LaneCountFallbacks, SignalTimingFallbacks, SpeedLimitFallbacks,
};
use lonely_highway_pipeline::elevation::vertical_offset;
use lonely_highway_pipeline::lane_graph::{LaneEdge, LaneNode, TrafficGraph};
use lonely_highway_pipeline::osm::{scan_osm, OsmData};
use lonely_highway_pipeline::tile::filter_traffic_graph;
use lonely_highway_pipeline::traffic::{build_lane_graph, LaneRoad};

fn standard() -> Fallbacks<f32> {
    Fallbacks {
        lane_count: LaneCountFallbacks::standard(),
        speed_limit: SpeedLimitFallbacks { motorway: 100.0, primary: 60.0, secondary: 40.0, tertiary: 30.0, residential: 30.0 },
        building_height: BuildingHeightFallbacks { commercial: 40.0, residential: 25.0, industrial: 12.0, default: 10.0 },
        signal_timing: SignalTimingFallbacks { two_way: 60.0, four_way: 90.0, complex: 120.0 },
    }
}

fn number(xml: &str, start: usize, end: usize) -> f64 {
    let t: String = xml.chars().skip(start).take(end - start).collect();
    t.parse().unwrap_or(0.0)
}

/// The lane roads of a scanned document, projected around (22.5, 114.0).
fn lane_roads(xml: &str, data: &OsmData<f32>) -> Vec<LaneRoad<f32>> {
    let (olat, olon) = (22.5f64, 114.0f64);
    data.roads
        .iter()
        .map(|r| {
            let points: Vec<(f32, f32)> = data.coords[r.nodes.start..r.nodes.end]
                .iter()
                .map(|c| {
                    let lat = number(xml, c.lat.start, c.lat.end);
                    let lon = number(xml, c.lon.start, c.lon.end);
                    let dx = (lon - olon) * 111_320.0 * olat.to_radians().cos();
                    let dz = (lat - olat) * 111_320.0;
                    (dx as f32, dz as f32)
                })
                .collect();
            let segment_lengths = points
                .windows(2)
                .map(|w| ((w[1].0 - w[0].0).powi(2) + (w[1].1 - w[0].1).powi(2)).sqrt())
                .collect();
            let speed = r.maxspeed.map(|m| number(xml, m.start, m.end) as f32).unwrap_or(r.speed_fallback_kmh);
            LaneRoad {
                id: r.id,
                points,
                segment_lengths,
                height: vertical_offset(r.layer, r.is_bridge, r.is_tunnel) as f32,
                lanes_forward: r.lanes_forward,
                lanes_backward: r.lanes_backward,
                is_oneway: r.is_oneway,
                layer: r.layer,
                speed_limit_kmh: speed,
            }
        })
        .collect()
}

#[test]
fn builds_graph_from_parsed_roads() {
    let xml = r#"<?xml version="1.0" encoding="UTF-8"?>
<osm version="0.6">
  <node id="1" lat="22.530" lon="114.050"/>
  <node id="2" lat="22.531" lon="114.050"/>
  <way id="10">
    <nd ref="1"/>
    <nd ref="2"/>
    <tag k="highway" v="primary"/>
    <tag k="lanes" v="4"/>
  </way>
</osm>"#;
    let parsed = scan_osm(xml, &standard());
    let graph = build_lane_graph(&lane_roads(xml, &parsed));

    // 2 nodes, 4 edges (2 fwd lanes + 2 bwd lanes)
    assert_eq!(graph.nodes.len(), 2);
    assert_eq!(graph.edges.len(), 4);
}

#[test]
fn oneway_road_has_only_forward_edges() {
    let xml = r#"<?xml version="1.0" encoding="UTF-8"?>
<osm version="0.6">
  <node id="1" lat="22.530" lon="114.050"/>
  <node id="2" lat="22.531" lon="114.050"/>
  <way id="10">
    <nd ref="1"/>
    <nd ref="2"/>
    <tag k="highway" v="residential"/>
    <tag k="oneway" v="yes"/>
    <tag k="lanes" v="2"/>
  </way>
</osm>"#;
    let parsed = scan_osm(xml, &standard());
    let graph = build_lane_graph(&lane_roads(xml, &parsed));

    assert_eq!(graph.edges.len(), 2); // 2 forward lanes only
    // All edges should go from node 0 to node 1
    for edge in &graph.edges {
        assert_eq!(edge.from, 0);
        assert_eq!(edge.to, 1);
    }
}

fn three_point_road(oneway: bool) -> LaneRoad<f32> {
    LaneRoad {
        id: 42,
        points: vec![(0.0, 0.0), (3.0, 4.0), (3.0, 10.0)],
        segment_lengths: vec![5.0, 6.0],
        height: 8.0,
        lanes_forward: 2,
        lanes_backward: 1,
        is_oneway: oneway,
        layer: 1,
        speed_limit_kmh: 60.0,
    }
}

#[test]
fn lanes_follow_the_road_both_ways() {
    let graph = build_lane_graph(&vec![three_point_road(false)]);
    assert_eq!(graph.nodes.len(), 3);
    assert_eq!(graph.edges.len(), 6);
    let ends: Vec<(u64, u64, u8)> = graph.edges.iter().map(|e| (e.from, e.to, e.lane_index)).collect();
    assert_eq!(ends, vec![(0, 1, 0), (1, 2, 0), (0, 1, 1), (1, 2, 1), (2, 1, 0), (1, 0, 0)]);
    let lengths: Vec<f32> = graph.edges.iter().map(|e| e.length).collect();
    assert_eq!(lengths, vec![5.0, 6.0, 5.0, 6.0, 6.0, 5.0]);
    for (i, e) in graph.edges.iter().enumerate() {
        assert_eq!(e.id, i as u64);
        assert_eq!(e.road_id, 42);
    }
    assert!(graph.nodes.iter().all(|n| n.y == 8.0));
}

#[test]
fn second_road_continues_numbering() {
    let short = LaneRoad { points: vec![(1.0, 1.0)], segment_lengths: vec![], ..three_point_road(true) };
    let graph = build_lane_graph(&vec![three_point_road(true), short, three_point_road(true)]);
    assert_eq!(graph.nodes.len(), 6);
    assert_eq!(graph.edges.len(), 8);
    assert_eq!((graph.edges[4].from, graph.edges[4].to), (3, 4));
    assert_eq!(graph.nodes[5].id, 5);
}

#[test]
fn add_node_and_edge_return_positions() {
    let mut g: TrafficGraph<f32> = TrafficGraph::new();
    assert_eq!(g.add_node(0.0, 0.0, 0.0), 0);
    assert_eq!(g.add_node(3.0, 4.0, 0.0), 1);
    assert_eq!(g.add_edge(0, 1, 50.0, 0, 7, 0, 5.0), 0);
    assert_eq!(g.add_edge(1, 0, 50.0, 0, 7, 0, 5.0), 1);
    assert_eq!(g.edges[1].from, 1);
    assert_eq!(g.edges[1].length, 5.0);
}

#[test]
fn filtering_renumbers_kept_nodes_and_edges() {
    let graph = build_lane_graph(&vec![three_point_road(false)]);
    let tile = filter_traffic_graph(&graph, &vec![false, true, true]);
    assert_eq!(tile.nodes.len(), 2);
    assert_eq!((tile.nodes[0].id, tile.nodes[0].x, tile.nodes[0].z), (0, 3.0, 4.0));
    let ends: Vec<(u64, u64, u64)> = tile.edges.iter().map(|e| (e.id, e.from, e.to)).collect();
    assert_eq!(ends, vec![(0, 0, 1), (1, 0, 1), (2, 1, 0)]);
    assert!(tile.signals.is_empty());
    let none = filter_traffic_graph(&graph, &vec![false, false, false]);
    assert!(none.nodes.is_empty() && none.edges.is_empty());
}

#[test]
fn filtering_follows_node_ids_in_any_graph() {
    let node = |id: u64, x: f32| LaneNode { id, x, z: 0.0, y: 0.0 };
    let edge = |id: u64, from: u64, to: u64| LaneEdge {
        id,
        from,
        to,
        speed_limit_kmh: 50.0,
        lane_index: 0,
        road_id: 1,
        layer: 0,
        length: 1.0,
    };
    let graph: TrafficGraph<f32> = TrafficGraph {
        nodes: vec![node(10, 1.0), node(20, 2.0), node(30, 3.0), node(20, 4.0)],
        edges: vec![edge(0, 20, 10), edge(1, 10, 99), edge(2, 30, 20), edge(3, 10, 30)],
        signals: vec![],
    };
    let tile = filter_traffic_graph(&graph, &vec![true, true, false, true]);
    assert_eq!(tile.nodes.len(), 3);
    assert_eq!(tile.nodes[2].x, 4.0);
    // id 20 leads to the later of its two kept nodes; 99 and the dropped 30 lead nowhere.
    let ends: Vec<(u64, u64, u64)> = tile.edges.iter().map(|e| (e.id, e.from, e.to)).collect();
    assert_eq!(ends, vec![(0, 2, 0)]);
}
