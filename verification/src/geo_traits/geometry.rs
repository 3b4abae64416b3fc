use crate::array::geometry::GeometryType as GeometryTag;
use crate::array::rect::Rect;
use crate::coord::Coord;
use crate::geo_traits::geometry_collection::GeometryCollectionTrait;
use crate::geo_traits::line_string::LineStringTrait;
use crate::geo_traits::multi_line_string::MultiLineStringTrait;
use crate::geo_traits::multi_point::MultiPointTrait;
use crate::geo_traits::multi_polygon::MultiPolygonTrait;
use crate::geo_traits::point::PointTrait;
use crate::geo_traits::polygon::PolygonTrait;
use crate::geo_traits::rect::RectTrait;
use crate::scalar::owned::{
    Geometry, OwnedGeometryCollection, OwnedLineString, OwnedMultiLineString, OwnedMultiPoint,
    OwnedMultiPolygon, OwnedPolygon,
};
use vstd::prelude::*;

verus! {

/// A geometry of a kind that is known only when the program runs.
pub trait GeometryTrait {
    type Point: PointTrait;

    type LineString: LineStringTrait;

    type Polygon: PolygonTrait;

    type MultiPoint: MultiPointTrait;

    type MultiLineString: MultiLineStringTrait;

    type MultiPolygon: MultiPolygonTrait;

    type GeometryCollection: GeometryCollectionTrait;

    type Rect: RectTrait;

    /// The kind of the geometry, where an array can hold it; a collection has none.
    spec fn spec_kind(&self) -> Option<GeometryTag>;

    /// The geometry, under the name of its kind.
    fn as_type(&self) -> (r: GeometryType<
        '_,
        Self::Point,
        Self::LineString,
        Self::Polygon,
        Self::MultiPoint,
        Self::MultiLineString,
        Self::MultiPolygon,
        Self::GeometryCollection,
        Self::Rect,
    >)
        ensures
            r.spec_kind() == self.spec_kind(),
    ;
}

/// A geometry under the name of its kind.
pub enum GeometryType<'a, P, L, Y, MP, ML, MY, GC, R> where
    P: PointTrait,
    L: LineStringTrait,
    Y: PolygonTrait,
    MP: MultiPointTrait,
    ML: MultiLineStringTrait,
    MY: MultiPolygonTrait,
    GC: GeometryCollectionTrait,
    R: RectTrait,
 {
    Point(&'a P),
    LineString(&'a L),
    Polygon(&'a Y),
    MultiPoint(&'a MP),
    MultiLineString(&'a ML),
    MultiPolygon(&'a MY),
    GeometryCollection(&'a GC),
    Rect(&'a R),
}

impl<'a, P, L, Y, MP, ML, MY, GC, R> GeometryType<'a, P, L, Y, MP, ML, MY, GC, R> where
    P: PointTrait,
    L: LineStringTrait,
    Y: PolygonTrait,
    MP: MultiPointTrait,
    ML: MultiLineStringTrait,
    MY: MultiPolygonTrait,
    GC: GeometryCollectionTrait,
    R: RectTrait,
 {
    /// The kind that the name tells, where an array can hold it; a collection has none.
    pub open spec fn spec_kind(&self) -> Option<GeometryTag> {
        match self {
            GeometryType::Point(_) => Some(GeometryTag::Point),
            GeometryType::LineString(_) => Some(GeometryTag::LineString),
            GeometryType::Polygon(_) => Some(GeometryTag::Polygon),
            GeometryType::MultiPoint(_) => Some(GeometryTag::MultiPoint),
            GeometryType::MultiLineString(_) => Some(GeometryTag::MultiLineString),
            GeometryType::MultiPolygon(_) => Some(GeometryTag::MultiPolygon),
            GeometryType::GeometryCollection(_) => None,
            GeometryType::Rect(_) => Some(GeometryTag::Rect),
        }
    }
}

impl GeometryTrait for Geometry {
    open spec fn spec_kind(&self) -> Option<GeometryTag> {
        match self {
            Geometry::Point(_) => Some(GeometryTag::Point),
            Geometry::LineString(_) => Some(GeometryTag::LineString),
            Geometry::Polygon(_) => Some(GeometryTag::Polygon),
            Geometry::MultiPoint(_) => Some(GeometryTag::MultiPoint),
            Geometry::MultiLineString(_) => Some(GeometryTag::MultiLineString),
            Geometry::MultiPolygon(_) => Some(GeometryTag::MultiPolygon),
            Geometry::GeometryCollection(_) => None,
            Geometry::Rect(_) => Some(GeometryTag::Rect),
        }
    }

    type Point = Coord;

    type LineString = OwnedLineString;

    type Polygon = OwnedPolygon;

    type MultiPoint = OwnedMultiPoint;

    type MultiLineString = OwnedMultiLineString;

    type MultiPolygon = OwnedMultiPolygon;

    type GeometryCollection = OwnedGeometryCollection;

    type Rect = Rect;

    fn as_type(&self) -> (r: GeometryType<
        '_,
        Coord,
        OwnedLineString,
        OwnedPolygon,
        OwnedMultiPoint,
        OwnedMultiLineString,
        OwnedMultiPolygon,
        OwnedGeometryCollection,
        Rect,
    >)
        ensures
            match (*self, r) {
                (Geometry::Point(a), GeometryType::Point(b)) => *b == a,
                (Geometry::LineString(a), GeometryType::LineString(b)) => *b == a,
                (Geometry::Polygon(a), GeometryType::Polygon(b)) => *b == a,
                (Geometry::MultiPoint(a), GeometryType::MultiPoint(b)) => *b == a,
                (Geometry::MultiLineString(a), GeometryType::MultiLineString(b)) => *b == a,
                (Geometry::MultiPolygon(a), GeometryType::MultiPolygon(b)) => *b == a,
                (Geometry::GeometryCollection(a), GeometryType::GeometryCollection(b)) => *b == a,
                (Geometry::Rect(a), GeometryType::Rect(b)) => *b == a,
                _ => false,
            },
    {
        match self {
            Geometry::Point(p) => GeometryType::Point(p),
            Geometry::LineString(p) => GeometryType::LineString(p),
            Geometry::Polygon(p) => GeometryType::Polygon(p),
            Geometry::MultiPoint(p) => GeometryType::MultiPoint(p),
            Geometry::MultiLineString(p) => GeometryType::MultiLineString(p),
            Geometry::MultiPolygon(p) => GeometryType::MultiPolygon(p),
            Geometry::GeometryCollection(p) => GeometryType::GeometryCollection(p),
            Geometry::Rect(p) => GeometryType::Rect(p),
        }
    }
}

impl Geometry {
    /// The kind of the geometry, where an array can hold it; a collection has none.
    pub fn kind(&self) -> (r: Option<GeometryTag>)
        ensures
            r == self.spec_kind(),
    {
        match self {
            Geometry::Point(_) => Some(GeometryTag::Point),
            Geometry::LineString(_) => Some(GeometryTag::LineString),
            Geometry::Polygon(_) => Some(GeometryTag::Polygon),
            Geometry::MultiPoint(_) => Some(GeometryTag::MultiPoint),
            Geometry::MultiLineString(_) => Some(GeometryTag::MultiLineString),
            Geometry::MultiPolygon(_) => Some(GeometryTag::MultiPolygon),
            Geometry::GeometryCollection(_) => None,
            Geometry::Rect(_) => Some(GeometryTag::Rect),
        }
    }
}

} // verus!
