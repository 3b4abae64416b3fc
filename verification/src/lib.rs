//! Columnar, Arrow-compatible storage for geometries.
//!
//! A geometry array keeps all its coordinates in one buffer and describes its geometries by
//! offsets into it: none for points, one level for line strings and multi points, two for
//! polygons and multi line strings, three for multi polygons. An optional validity mask
//! tells which slots are null. Arrays are immutable and share their buffers, so that a slice
//! costs no copy; builders are their append-only counterparts.
//!
//! Every function of the crate is verified against a contract over a mathematical model of
//! the array: a sequence of optional geometries, each a sequence of coordinates nested as
//! deep as its kind asks. Only the calls into `arrow_buffer`, gathered in [`buffer`], are
//! taken on trust.
//!
//! Coordinates are stored as the bit patterns of IEEE 754 doubles. The crate never does
//! arithmetic on them; it stores, copies, compares and encodes them.

pub mod array;
pub mod broadcasting;
pub mod buffer;
pub mod builder;
pub mod coord;
pub mod datatypes;
pub mod error;
pub mod geo_traits;
pub mod io;
pub mod offsets;
pub mod scalar;
pub mod trait_;
pub mod validity;

pub use crate::array::geometry::{GeometryArray, GeometryType};
pub use crate::array::linestring::LineStringArray;
pub use crate::array::multilinestring::MultiLineStringArray;
pub use crate::array::multipoint::MultiPointArray;
pub use crate::array::multipolygon::MultiPolygonArray;
pub use crate::array::point::PointArray;
pub use crate::array::polygon::PolygonArray;
pub use crate::array::rect::RectArray;
pub use crate::error::GeoArrowError;
pub use crate::io::wkb::array::WKBArray;
pub use crate::trait_::{GeoArrayAccessor, GeometryArrayTrait};
