//! The well-known binary encoding of geometries.
//!
//! A geometry starts with one byte that names the byte order of what follows (0 for big
//! endian, 1 for little endian) and a 32-bit code of its kind. Counts are 32-bit unsigned
//! integers and ordinates are 64-bit doubles. The decoders read either byte order; the
//! encoders write little endian.

pub mod array;
pub mod convert;
pub mod convert_multipolygon;
pub mod convert_point;
pub mod linestring;
pub mod many;
pub mod multi;
pub mod point;
pub mod polygon;
pub mod primitive;
