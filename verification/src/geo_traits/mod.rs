//! What an algorithm needs to know of a geometry, whoever stores it.
//!
//! Each trait reads one kind of geometry through counts and positions. The scalars of this
//! crate implement them, the borrowed ones and the owned ones, and so can any other
//! representation whose parts can be counted and indexed.

pub mod geometry;
pub mod geometry_collection;
pub mod line_string;
pub mod multi_line_string;
pub mod multi_point;
pub mod multi_polygon;
pub mod point;
pub mod polygon;
pub mod rect;
