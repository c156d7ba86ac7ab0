use lonely_highway_pipeline::config::BoundingBox;
use lonely_highway_pipeline::fetch::build_overpass_query;

fn written(b: BoundingBox<f64>) -> BoundingBox<String> {
    BoundingBox {
        south: format!("{}", b.south),
        west: format!("{}", b.west),
        north: format!("{}", b.north),
        east: format!("{}", b.east),
    }
}

#[test]
fn overpass_query_contains_bbox() {
    let bbox = BoundingBox { south: 22.52, west: 114.05, north: 22.56, east: 114.10 };
    let query = build_overpass_query(&written(bbox));
    assert!(query.contains("22.52"));
    assert!(query.contains("114.1"));
    assert!(query.contains("highway"));
    assert!(query.contains("building"));
}

#[test]
fn overpass_query_exact_text() {
    let bbox = BoundingBox {
        south: "1".to_string(),
        west: "2".to_string(),
        north: "3".to_string(),
        east: "4".to_string(),
    };
    let expected = "[out:xml][timeout:300];\n(\n  way[\"highway\"](1,2,3,4);\n  way[\"building\"](1,2,3,4);\n  node[\"highway\"=\"traffic_signals\"](1,2,3,4);\n  way[\"footway\"=\"crossing\"](1,2,3,4);\n);\n(._;>;);\nout body;";
    assert_eq!(build_overpass_query(&bbox), expected);
}
