//! Arguments that are either one geometry or an array of them.

use crate::array::linestring::LineStringArray;
use crate::array::multipolygon::MultiPolygonArray;
use crate::array::polygon::PolygonArray;
use crate::scalar::owned::{OwnedLineString, OwnedMultiPolygon, OwnedPolygon};
use vstd::prelude::*;

verus! {

/// One line string for every slot, or one per slot.
pub enum BroadcastableLineString {
    Scalar(OwnedLineString),
    Array(LineStringArray<i32>),
}

impl BroadcastableLineString {
    /// The same line string for every slot.
    pub fn from_scalar(value: OwnedLineString) -> (r: Self)
        ensures
            r == BroadcastableLineString::Scalar(value),
    {
        BroadcastableLineString::Scalar(value)
    }

    /// The line string of each slot of `values`.
    pub fn from_array(values: LineStringArray<i32>) -> (r: Self)
        ensures
            r == BroadcastableLineString::Array(values),
    {
        BroadcastableLineString::Array(values)
    }
}

/// One polygon for every slot, or one per slot.
pub enum BroadcastablePolygon {
    Scalar(OwnedPolygon),
    Array(PolygonArray<i32>),
}

impl BroadcastablePolygon {
    /// The same polygon for every slot.
    pub fn from_scalar(value: OwnedPolygon) -> (r: Self)
        ensures
            r == BroadcastablePolygon::Scalar(value),
    {
        BroadcastablePolygon::Scalar(value)
    }

    /// The polygon of each slot of `values`.
    pub fn from_array(values: PolygonArray<i32>) -> (r: Self)
        ensures
            r == BroadcastablePolygon::Array(values),
    {
        BroadcastablePolygon::Array(values)
    }
}

/// One multi polygon for every slot, or one per slot.
pub enum BroadcastableMultiPolygon {
    Scalar(OwnedMultiPolygon),
    Array(MultiPolygonArray<i32>),
}

impl BroadcastableMultiPolygon {
    /// The same multi polygon for every slot.
    pub fn from_scalar(value: OwnedMultiPolygon) -> (r: Self)
        ensures
            r == BroadcastableMultiPolygon::Scalar(value),
    {
        BroadcastableMultiPolygon::Scalar(value)
    }

    /// The multi polygon of each slot of `values`.
    pub fn from_array(values: MultiPolygonArray<i32>) -> (r: Self)
        ensures
            r == BroadcastableMultiPolygon::Array(values),
    {
        BroadcastableMultiPolygon::Array(values)
    }
}

} // verus!
