use lonely_highway_pipeline::fallbacks::{
    BuildingHeightFallbacks, Fallbacks, LaneCountFallbacks, SignalTimingFallbacks, SpeedLimitFallbacks,
};
use lonely_highway_pipeline::types::{BuildingType, HighwayClass};

fn standard() -> Fallbacks<f32> {
    Fallbacks {
        lane_count: LaneCountFallbacks::standard(),
        speed_limit: SpeedLimitFallbacks { motorway: 100.0, primary: 60.0, secondary: 40.0, tertiary: 30.0, residential: 30.0 },
        building_height: BuildingHeightFallbacks { commercial: 40.0, residential: 25.0, industrial: 12.0, default: 10.0 },
        signal_timing: SignalTimingFallbacks { two_way: 60.0, four_way: 90.0, complex: 120.0 },
    }
}

#[test]
fn highway_class_names() {
    assert_eq!(HighwayClass::from_str("primary"), Some(HighwayClass::Primary));
    assert_eq!(HighwayClass::from_str("motorway_link"), Some(HighwayClass::MotorwayLink));
    assert_eq!(HighwayClass::from_str("unclassified"), Some(HighwayClass::Unclassified));
    assert_eq!(HighwayClass::from_str("footway"), None);
    assert_eq!(HighwayClass::from_str("Primary"), None);
    assert_eq!(HighwayClass::from_str(""), None);
    assert_eq!(HighwayClass::from_str("primary "), None);
}

#[test]
fn links_are_links() {
    assert!(HighwayClass::TrunkLink.is_link());
    assert!(HighwayClass::TertiaryLink.is_link());
    assert!(!HighwayClass::Trunk.is_link());
    assert!(!HighwayClass::Service.is_link());
}

#[test]
fn lane_fallbacks_by_class() {
    let f = standard();
    assert_eq!(f.lane_count_for(&HighwayClass::MotorwayLink), 4);
    assert_eq!(f.lane_count_for(&HighwayClass::Trunk), 3);
    assert_eq!(f.lane_count_for(&HighwayClass::SecondaryLink), 2);
    assert_eq!(f.lane_count_for(&HighwayClass::Tertiary), 1);
    assert_eq!(f.lane_count_for(&HighwayClass::Service), 1);
}

#[test]
fn speed_fallbacks_by_class() {
    let f = standard();
    assert_eq!(f.speed_limit_for(&HighwayClass::Motorway), 100.0);
    assert_eq!(f.speed_limit_for(&HighwayClass::TrunkLink), 60.0);
    assert_eq!(f.speed_limit_for(&HighwayClass::Secondary), 40.0);
    assert_eq!(f.speed_limit_for(&HighwayClass::Unclassified), 30.0);
}

#[test]
fn height_fallbacks_by_use() {
    let f = standard();
    assert_eq!(f.building_height_for(&BuildingType::Commercial), 40.0);
    assert_eq!(f.building_height_for(&BuildingType::Residential), 25.0);
    assert_eq!(f.building_height_for(&BuildingType::Industrial), 12.0);
    assert_eq!(f.building_height_for(&BuildingType::Other), 10.0);
}

#[test]
fn every_class_has_one_tag_and_links_end_in_link() {
    let tags = [
        "motorway", "motorway_link", "trunk", "trunk_link", "primary", "primary_link", "secondary",
        "secondary_link", "tertiary", "tertiary_link", "residential", "service", "unclassified",
    ];
    let classes: Vec<HighwayClass> = tags.iter().map(|t| HighwayClass::from_str(t).unwrap()).collect();
    for i in 0..classes.len() {
        for j in 0..i {
            assert_ne!(classes[i], classes[j]);
        }
        assert_eq!(classes[i].is_link(), tags[i].ends_with("_link"));
    }
}
