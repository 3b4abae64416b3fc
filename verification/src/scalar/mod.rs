//! Single geometries: borrowed views into an array, and the copies taken from them.

pub mod linestring;
pub mod multipolygon;
pub mod owned;
pub mod polygon;
