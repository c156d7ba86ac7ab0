//! Pipeline configuration that does not depend on how numbers are represented.
use vstd::prelude::*;

verus! {

/// A latitude/longitude box: south, west, north and east edges.
#[derive(Debug, Clone, Copy, PartialEq, Eq)]
pub struct BoundingBox<S> {
    pub south: S,
    pub west: S,
    pub north: S,
    pub east: S,
}

/// Why a configuration was refused.
#[derive(Debug, Clone, Copy, PartialEq, Eq, Structural)]
pub enum ConfigError {
    /// The bounding box was not given as exactly four values.
    BboxNeedsFourValues,
}

/// The bounding box given as `south,west,north,east`: exactly four values are needed.
pub fn bounding_box_from<S: Copy>(values: &Vec<S>) -> (res: Result<BoundingBox<S>, ConfigError>)
    ensures
        values@.len() == 4 <==> res is Ok,
        values@.len() != 4 ==> res == Err::<BoundingBox<S>, ConfigError>(ConfigError::BboxNeedsFourValues),
        res matches Ok(b) ==> b.south == values@[0] && b.west == values@[1] && b.north == values@[2]
            && b.east == values@[3],
{
    if values.len() != 4 {
        return Err(ConfigError::BboxNeedsFourValues);
    }
    Ok(BoundingBox { south: values[0], west: values[1], north: values[2], east: values[3] })
}

} // verus!
