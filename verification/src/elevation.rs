//! Height of a road above ground from its `layer`, `bridge` and `tunnel` tags.
use vstd::prelude::*;

verus! {

/// Height of one layer of stacked roads, in metres.
pub const LAYER_HEIGHT_M: i32 = 8i32;

/// The vertical offset in metres: tunnels go below ground, one layer below their
/// tagged layer where that layer is at or below the ground and one layer down where
/// it is above; bridges and roads on a positive layer are raised by their layer (at
/// least one); other roads sit at their layer's height.
pub open spec fn vertical_offset_m(layer: i8, is_bridge: bool, is_tunnel: bool) -> int {
    if is_tunnel {
        (if layer <= 0 { layer as int } else { 0 }) * 8 - 8
    } else if is_bridge || layer > 0 {
        (if layer >= 1 { layer as int } else { 1 }) * 8
    } else {
        layer * 8
    }
}

/// Vertical offset of a road, in whole metres (every offset is a multiple of the
/// 8 m layer height).
pub fn vertical_offset(layer: i8, is_bridge: bool, is_tunnel: bool) -> (res: i32)
    ensures
        res == vertical_offset_m(layer, is_bridge, is_tunnel),
        res % 8 == 0,
        // every tunnel lies below ground
        is_tunnel ==> res < 0,
        // bridges are raised at least one layer
        !is_tunnel && is_bridge ==> res >= 8,
        // an untagged road on layer 0 lies on the ground
        !is_tunnel && !is_bridge && layer == 0 ==> res == 0,
{
    let l = layer as i32;
    if is_tunnel {
        let sunk = if l <= 0 { l } else { 0 };
        return sunk * LAYER_HEIGHT_M - LAYER_HEIGHT_M;
    }
    if is_bridge || layer > 0 {
        let raised = if l >= 1 { l } else { 1 };
        return raised * LAYER_HEIGHT_M;
    }
    l * LAYER_HEIGHT_M
}

/// A road on a higher layer never lies lower than the same kind of road on a lower layer.
pub proof fn lemma_vertical_offset_monotone(a: i8, b: i8, is_bridge: bool, is_tunnel: bool)
    requires
        a <= b,
    ensures
        vertical_offset_m(a, is_bridge, is_tunnel) <= vertical_offset_m(b, is_bridge, is_tunnel),
{
}


/// The heights, case by case: a tunnel lies one layer (8 m) below its layer, or 8 m
/// down when its layer is above the ground; a bridge, or any road on a positive
/// layer, lies 8 m per layer up and at least 8 m up; any other road lies 8 m per
/// layer from the ground.
pub proof fn lemma_vertical_offset_values(layer: i8, is_bridge: bool, is_tunnel: bool)
    ensures
        is_tunnel && layer <= 0 ==> vertical_offset_m(layer, is_bridge, is_tunnel) == 8 * layer - 8,
        is_tunnel && layer > 0 ==> vertical_offset_m(layer, is_bridge, is_tunnel) == -8,
        !is_tunnel && layer >= 1 ==> vertical_offset_m(layer, is_bridge, is_tunnel) == 8 * layer,
        !is_tunnel && is_bridge && layer < 1 ==> vertical_offset_m(layer, is_bridge, is_tunnel) == 8,
        !is_tunnel && !is_bridge && layer <= 0 ==> vertical_offset_m(layer, is_bridge, is_tunnel) == 8 * layer,
{
}

} // verus!
