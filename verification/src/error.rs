use crate::array::geometry::GeometryType;
use vstd::prelude::*;

verus! {

/// Why an operation of this crate failed.
#[derive(Debug, Clone, Copy, PartialEq, Eq, Structural)]
pub enum GeoArrowError {
    /// An offset sequence is empty, starts below zero or decreases somewhere.
    MalformedOffsets,
    /// The validity mask does not have one bit per slot.
    ValidityLength,
    /// The last offset of a level differs from the length of the level beneath it.
    /// Level 0 is the one directly above the coordinates.
    OffsetMismatch { level: u8 },
    /// The x and y buffers of separated coordinates differ in length, or an interleaved
    /// buffer holds an odd number of values.
    CoordLength,
    /// An offset does not fit the requested offset width.
    Overflow,
    /// The geometry kind is recognised but not supported by the operation.
    Unsupported { kind: GeometryType },
    /// An array of one kind was asked for as an array of another.
    WrongType { expected: GeometryType, found: GeometryType },
    /// A column is neither a list nor a large list.
    UnexpectedType,
    /// A builder was handed events out of order: a coordinate that no line announced, a
    /// line that no polygon announced, or a group begun or ended while the one before it
    /// still lacked children.
    Unbalanced,
    /// The bytes are not a well-formed binary geometry of the expected kind.
    MalformedBytes,
}

impl GeoArrowError {
    /// What went wrong, in words.
    pub open spec fn spec_message(self) -> Seq<char> {
        match self {
    GeoArrowError::MalformedOffsets => "offsets must start at or above zero and never decrease"@,
    GeoArrowError::ValidityLength => "validity mask length must match the number of values"@,
            GeoArrowError::OffsetMismatch { .. } => "largest offset must match the length of the level beneath it"@,
            GeoArrowError::CoordLength => "coordinate buffers must hold whole coordinates"@,
            GeoArrowError::Overflow => "offset does not fit the offset width"@,
            GeoArrowError::Unsupported { .. } => "geometry kind is not supported here"@,
            GeoArrowError::WrongType { .. } => "array holds another geometry kind"@,
            GeoArrowError::UnexpectedType => "unexpected type: neither a list nor a large list"@,
            GeoArrowError::Unbalanced => "events arrived out of order"@,
    GeoArrowError::MalformedBytes => "bytes are not a well-formed geometry of the expected kind"@,
        }
    }

    /// What went wrong, in words.
    pub fn message(self) -> (r: &'static str)
        ensures
            r@ == self.spec_message(),
    {
        match self {
    GeoArrowError::MalformedOffsets => "offsets must start at or above zero and never decrease",
            GeoArrowError::ValidityLength => "validity mask length must match the number of values",
            GeoArrowError::OffsetMismatch { .. } => "largest offset must match the length of the level beneath it",
            GeoArrowError::CoordLength => "coordinate buffers must hold whole coordinates",
            GeoArrowError::Overflow => "offset does not fit the offset width",
            GeoArrowError::Unsupported { .. } => "geometry kind is not supported here",
            GeoArrowError::WrongType { .. } => "array holds another geometry kind",
            GeoArrowError::UnexpectedType => "unexpected type: neither a list nor a large list",
            GeoArrowError::Unbalanced => "events arrived out of order",
    GeoArrowError::MalformedBytes => "bytes are not a well-formed geometry of the expected kind",
        }
    }
}

} // verus!
