//! Verified core of the OpenStreetMap-to-tile asset pipeline.

pub mod buffer;
pub mod bytes;
pub mod config;
pub mod elevation;
pub mod fetch;
pub mod fallbacks;
pub mod glb;
pub mod lane_graph;
pub mod mesh;
pub mod naming;
pub mod osm;
pub mod span;
pub mod text;
pub mod tile;
pub mod traffic;
pub mod types;
