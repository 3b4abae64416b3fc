//! The builders: the mutable, append-only counterparts of the arrays.

pub mod staging;
pub mod linestring;
pub mod multilinestring;
pub mod multipoint;
pub mod multipolygon;
pub mod point;
pub mod polygon;
