use lonely_highway_pipeline::fallbacks::{
    BuildingHeightFallbacks, Fallbacks, LaneCountFallbacks, SignalTimingFallbacks, SpeedLimitFallbacks,
};
use lonely_highway_pipeline::osm::{scan_osm, TextSpan};
use lonely_highway_pipeline::types::{BuildingType, HighwayClass, SurfaceType};

fn standard() -> Fallbacks<f32> {
    Fallbacks {
        lane_count: LaneCountFallbacks::standard(),
        speed_limit: SpeedLimitFallbacks { motorway: 100.0, primary: 60.0, secondary: 40.0, tertiary: 30.0, residential: 30.0 },
        building_height: BuildingHeightFallbacks { commercial: 40.0, residential: 25.0, industrial: 12.0, default: 10.0 },
        signal_timing: SignalTimingFallbacks { two_way: 60.0, four_way: 90.0, complex: 120.0 },
    }
}

fn text(xml: &str, sp: TextSpan) -> String {
    xml.chars().skip(sp.start).take(sp.end - sp.start).collect()
}

fn test_xml() -> &'static str {
    r#"<?xml version="1.0" encoding="UTF-8"?>
<osm version="0.6">
  <node id="1" lat="22.530" lon="114.050"/>
  <node id="2" lat="22.531" lon="114.051"/>
  <node id="3" lat="22.532" lon="114.050"/>
  <node id="4" lat="22.530" lon="114.049"/>
  <node id="5" lat="22.530" lon="114.051"/>
  <node id="6" lat="22.531" lon="114.051"/>
  <node id="7" lat="22.531" lon="114.049"/>
  <node id="8" lat="22.530" lon="114.049"/>
  <node id="100" lat="22.5305" lon="114.0505">
    <tag k="highway" v="traffic_signals"/>
  </node>
  <way id="10">
    <nd ref="1"/>
    <nd ref="2"/>
    <nd ref="3"/>
    <tag k="highway" v="primary"/>
    <tag k="lanes" v="4"/>
    <tag k="maxspeed" v="60"/>
    <tag k="name" v="Shennan Road"/>
  </way>
  <way id="11">
    <nd ref="4"/>
    <nd ref="5"/>
    <tag k="highway" v="residential"/>
    <tag k="oneway" v="yes"/>
  </way>
  <way id="20">
    <nd ref="5"/>
    <nd ref="6"/>
    <nd ref="7"/>
    <nd ref="8"/>
    <nd ref="5"/>
    <tag k="building" v="commercial"/>
    <tag k="height" v="45"/>
  </way>
</osm>"#
}

#[test]
fn parses_roads() {
    let xml = test_xml();
    let data = scan_osm(xml, &standard());
    assert_eq!(data.roads.len(), 2);
    let primary = &data.roads[0];
    assert_eq!(primary.id, 10);
    assert_eq!(primary.highway_class, HighwayClass::Primary);
    assert_eq!(primary.lanes_forward, 2);
    assert_eq!(primary.lanes_backward, 2);
    assert_eq!(text(xml, primary.maxspeed.unwrap()), "60");
    assert_eq!(text(xml, primary.name.unwrap()), "Shennan Road");
    assert_eq!(primary.nodes.end - primary.nodes.start, 3);
    let first = data.coords[primary.nodes.start];
    assert_eq!(text(xml, first.lat), "22.530");
    assert_eq!(text(xml, first.lon), "114.050");
    let residential = &data.roads[1];
    assert!(residential.is_oneway);
    assert_eq!(residential.lanes_forward, 2);
    assert_eq!(residential.lanes_backward, 0);
    assert_eq!(residential.surface, SurfaceType::Asphalt);
}

#[test]
fn parses_buildings() {
    let xml = test_xml();
    let data = scan_osm(xml, &standard());
    assert_eq!(data.buildings.len(), 1);
    let b = &data.buildings[0];
    assert_eq!(b.building_type, BuildingType::Commercial);
    assert_eq!(text(xml, b.height.unwrap()), "45");
    assert_eq!(b.footprint.end - b.footprint.start, 5);
    assert_eq!(b.height_fallback, 40.0);
}

#[test]
fn parses_signals() {
    let data = scan_osm(test_xml(), &standard());
    assert_eq!(data.signals.len(), 1);
    assert_eq!(data.signals[0].id, 100);
    assert_eq!(data.signals[0].cycle_time, 90.0);
}

#[test]
fn applies_fallbacks_when_tags_missing() {
    let xml = r#"<?xml version="1.0" encoding="UTF-8"?>
<osm version="0.6">
  <node id="1" lat="22.530" lon="114.050"/>
  <node id="2" lat="22.531" lon="114.051"/>
  <way id="10">
    <nd ref="1"/>
    <nd ref="2"/>
    <tag k="highway" v="secondary"/>
  </way>
</osm>"#;
    let data = scan_osm(xml, &standard());
    assert_eq!(data.roads[0].lanes_forward, 2);
    assert_eq!(data.roads[0].lanes_backward, 2);
    assert!(data.roads[0].maxspeed.is_none());
    assert_eq!(data.roads[0].speed_fallback_kmh, 40.0);
}

#[test]
fn tag_values_are_trimmed_of_units() {
    let xml = "<node id=\"1\" lat=\"1\" lon=\"2\"/>\r\n<node id=\"2\" lat=\"3\" lon=\"4\"/>\r\n<way id=\"7\">\r\n<nd ref=\"1\"/>\r\n<nd ref=\"2\"/>\r\n<tag k=\"highway\" v=\"motorway\"/>\r\n<tag k=\"maxspeed\" v=\"80 km/h\"/>\r\n<tag k=\"layer\" v=\"-1\"/>\r\n<tag k=\"tunnel\" v=\"yes\"/>\r\n<tag k=\"surface\" v=\"concrete\"/>\r\n<tag k=\"building\" v=\"warehouse\"/>\r\n<tag k=\"height\" v=\"12.5 m\"/>\r\n<tag k=\"footway\" v=\"crossing\"/>\r\n</way>";
    let data = scan_osm(xml, &standard());
    assert_eq!(data.roads.len(), 1);
    let r = &data.roads[0];
    assert!(r.is_oneway);
    assert_eq!(r.lanes_forward, 8);
    assert_eq!(r.lanes_backward, 0);
    assert_eq!(text(xml, r.maxspeed.unwrap()), "80");
    assert_eq!(r.layer, -1);
    assert!(r.is_tunnel);
    assert!(!r.is_bridge);
    assert_eq!(r.surface, SurfaceType::Concrete);
    assert_eq!(data.buildings.len(), 1);
    assert_eq!(data.buildings[0].building_type, BuildingType::Industrial);
    assert_eq!(text(xml, data.buildings[0].height.unwrap()), "12.5");
    assert_eq!(data.crosswalks.len(), 1);
    assert_eq!(data.crosswalks[0].nodes, r.nodes);
    assert_eq!(data.coords.len(), 2);
}

#[test]
fn odd_lane_count_gives_extra_lane_backward() {
    let xml = "<node id=\"1\" lat=\"1\" lon=\"2\"/>\n<node id=\"2\" lat=\"3\" lon=\"4\"/>\n<way id=\"7\">\n<nd ref=\"1\"/>\n<nd ref=\"2\"/>\n<tag k=\"highway\" v=\"tertiary\"/>\n<tag k=\"lanes\" v=\"3\"/>\n<tag k=\"oneway\" v=\"no\"/>\n</way>\n";
    let data = scan_osm(xml, &standard());
    assert_eq!(data.roads[0].lanes_forward, 1);
    assert_eq!(data.roads[0].lanes_backward, 2);
    assert!(!data.roads[0].is_oneway);
}

#[test]
fn unparsable_numbers_fall_back() {
    let xml = "<node id=\"x\" lat=\"1\" lon=\"2\"/>\n<way id=\"7\">\n<nd ref=\"0\"/>\n<nd ref=\"+0\"/>\n<nd ref=\"-1\"/>\n<tag k=\"highway\" v=\"service\"/>\n<tag k=\"lanes\" v=\"300\"/>\n<tag k=\"layer\" v=\"200\"/>\n</way>\n";
    let data = scan_osm(xml, &standard());
    assert_eq!(data.roads.len(), 1);
    let r = &data.roads[0];
    assert_eq!(r.nodes.end - r.nodes.start, 2);
    assert_eq!(r.lanes_forward, 1);
    assert_eq!(r.lanes_backward, 1);
    assert_eq!(r.layer, 0);
}

#[test]
fn ways_without_known_nodes_or_tags_are_dropped() {
    let xml = "<node id=\"1\" lat=\"1\" lon=\"2\"/>\n<way id=\"7\">\n<nd ref=\"9\"/>\n<tag k=\"highway\" v=\"primary\"/>\n</way>\n<way id=\"8\">\n<nd ref=\"1\"/>\n<tag k=\"highway\" v=\"footway\"/>\n</way>\n";
    let data = scan_osm(xml, &standard());
    assert!(data.roads.is_empty());
    assert!(data.coords.is_empty());
}

#[test]
fn later_node_declaration_wins() {
    let xml = "<node id=\"1\" lat=\"1\" lon=\"2\"/>\n<node id=\"1\" lat=\"5\" lon=\"6\"/>\n<node id=\"2\" lat=\"3\" lon=\"4\"/>\n<way id=\"7\">\n<nd ref=\"1\"/>\n<nd ref=\"2\"/>\n<tag k=\"highway\" v=\"primary\"/>\n</way>\n";
    let data = scan_osm(xml, &standard());
    assert_eq!(text(xml, data.coords[0].lat), "5");
}
