use lonely_highway_pipeline::elevation::vertical_offset;

#[test]
fn ground_level_returns_zero() {
    assert_eq!(vertical_offset(0, false, false) as f32, 0.0);
}

#[test]
fn bridge_returns_elevated() {
    let offset = vertical_offset(1, true, false) as f32;
    assert_eq!(offset, 8.0);
}

#[test]
fn layer_2_bridge_returns_16m() {
    assert_eq!(vertical_offset(2, true, false) as f32, 16.0);
}

#[test]
fn tunnel_goes_below() {
    let offset = vertical_offset(0, false, true) as f32;
    assert!(offset < 0.0);
}

#[test]
fn bridge_with_zero_layer_still_elevated() {
    let offset = vertical_offset(0, true, false) as f32;
    assert_eq!(offset, 8.0);
}

#[test]
fn tunnels_on_upper_layers_stay_below_ground() {
    assert_eq!(vertical_offset(1, false, true), -8);
    assert_eq!(vertical_offset(2, false, true), -8);
    assert_eq!(vertical_offset(127, true, true), -8);
    assert_eq!(vertical_offset(-1, false, true), -16);
    for layer in -128i16..=127 {
        assert!(vertical_offset(layer as i8, false, true) < 0);
        assert!(vertical_offset(layer as i8, true, true) < 0);
    }
}

#[test]
fn positive_layer_without_bridge_is_raised() {
    assert_eq!(vertical_offset(3, false, false), 24);
    assert_eq!(vertical_offset(-2, false, false), -16);
}

#[test]
fn negative_layer_bridge_is_raised_one_layer() {
    assert_eq!(vertical_offset(-3, true, false), 8);
}

#[test]
fn extreme_layers() {
    assert_eq!(vertical_offset(127, false, false), 1016);
    assert_eq!(vertical_offset(-128, false, true), -1032);
    assert_eq!(vertical_offset(-128, false, false), -1024);
}

#[test]
fn higher_layer_never_lower() {
    for flags in [(false, false), (true, false), (false, true), (true, true)] {
        let mut prev = vertical_offset(-128, flags.0, flags.1);
        for layer in -127i16..=127 {
            let cur = vertical_offset(layer as i8, flags.0, flags.1);
            assert!(cur >= prev);
            prev = cur;
        }
    }
}
