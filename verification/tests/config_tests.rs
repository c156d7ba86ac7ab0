use lonely_highway_pipeline::config::{bounding_box_from, BoundingBox, ConfigError};

#[test]
fn four_values_make_a_box() {
    let b = bounding_box_from(&vec![22.53f64, 114.05, 22.545, 114.07]).unwrap();
    assert_eq!(b, BoundingBox { south: 22.53, west: 114.05, north: 22.545, east: 114.07 });
}

#[test]
fn wrong_number_of_values_is_refused() {
    assert_eq!(bounding_box_from(&vec![1.0f64, 2.0, 3.0]), Err(ConfigError::BboxNeedsFourValues));
    assert_eq!(bounding_box_from(&vec![1.0f64, 2.0, 3.0, 4.0, 5.0]), Err(ConfigError::BboxNeedsFourValues));
    assert_eq!(bounding_box_from::<f64>(&vec![]), Err(ConfigError::BboxNeedsFourValues));
}
