//! The immutable arrays, one per geometry kind.

pub mod geometry;
pub mod linestring;
pub mod multilinestring;
pub mod multipoint;
pub mod multipolygon;
pub mod point;
pub mod polygon;
pub mod rect;
