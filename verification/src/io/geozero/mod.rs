//! The streaming protocol of the `geozero` processors: a geometry is a balanced sequence of
//! begin, coordinate and end events, so that neither side has to build a tree.

pub mod event;
pub mod linestring;
pub mod linestring_round_trip;
pub mod polygon;
pub mod polygon_round_trip;
