use crate::array::linestring::LineStringArray;
use crate::array::multilinestring::MultiLineStringArray;
use crate::array::multipoint::MultiPointArray;
use crate::array::multipolygon::MultiPolygonArray;
use crate::array::point::PointArray;
use crate::array::polygon::PolygonArray;
use crate::array::rect::RectArray;
use crate::coord::Coord;
use crate::error::GeoArrowError;
use crate::offsets::OffsetSize;
use crate::scalar::owned::{Geometry, OwnedMultiLineString, OwnedMultiPoint};
use vstd::prelude::*;

verus! {

/// The geometry kinds that an array can hold.
#[derive(Debug, Clone, Copy, PartialEq, Eq, Structural)]
pub enum GeometryType {
    Point,
    LineString,
    Polygon,
    MultiPoint,
    MultiLineString,
    MultiPolygon,
    Rect,
}

/// An array of any one geometry kind, known only when the program runs.
pub enum GeometryArray<O: OffsetSize> {
    Point(PointArray),
    LineString(LineStringArray<O>),
    Polygon(PolygonArray<O>),
    MultiPoint(MultiPointArray<O>),
    MultiLineString(MultiLineStringArray<O>),
    MultiPolygon(MultiPolygonArray<O>),
    Rect(RectArray),
}

impl<O: OffsetSize> GeometryArray<O> {
    /// The kind of the array held.
    pub open spec fn spec_geometry_type(&self) -> GeometryType {
        match self {
            GeometryArray::Point(_) => GeometryType::Point,
            GeometryArray::LineString(_) => GeometryType::LineString,
            GeometryArray::Polygon(_) => GeometryType::Polygon,
            GeometryArray::MultiPoint(_) => GeometryType::MultiPoint,
            GeometryArray::MultiLineString(_) => GeometryType::MultiLineString,
            GeometryArray::MultiPolygon(_) => GeometryType::MultiPolygon,
            GeometryArray::Rect(_) => GeometryType::Rect,
        }
    }

    /// The number of slots of the array held.
    pub open spec fn spec_len(&self) -> int {
        match self {
            GeometryArray::Point(a) => a.spec_len(),
            GeometryArray::LineString(a) => a.spec_len(),
            GeometryArray::Polygon(a) => a.spec_len(),
            GeometryArray::MultiPoint(a) => a.spec_len(),
            GeometryArray::MultiLineString(a) => a.spec_len(),
            GeometryArray::MultiPolygon(a) => a.spec_len(),
            GeometryArray::Rect(a) => a.spec_len(),
        }
    }

    /// Whether slot `i` of the array held is valid.
    pub open spec fn spec_is_valid(&self, i: int) -> bool {
        match self {
            GeometryArray::Point(a) => a.spec_is_valid(i),
            GeometryArray::LineString(a) => a.spec_is_valid(i),
            GeometryArray::Polygon(a) => a.spec_is_valid(i),
            GeometryArray::MultiPoint(a) => a.spec_is_valid(i),
            GeometryArray::MultiLineString(a) => a.spec_is_valid(i),
            GeometryArray::MultiPolygon(a) => a.spec_is_valid(i),
            GeometryArray::Rect(a) => a.spec_is_valid(i),
        }
    }

    /// The array `arr`, tagged as points.
    pub fn from_point_array(arr: PointArray) -> (r: Self)
        ensures
            r == GeometryArray::<O>::Point(arr),
    {
        GeometryArray::Point(arr)
    }

    /// The array `arr`, tagged as line strings.
    pub fn from_line_string_array(arr: LineStringArray<O>) -> (r: Self)
        ensures
            r == GeometryArray::LineString(arr),
    {
        GeometryArray::LineString(arr)
    }

    /// The array `arr`, tagged as polygons.
    pub fn from_polygon_array(arr: PolygonArray<O>) -> (r: Self)
        ensures
            r == GeometryArray::Polygon(arr),
    {
        GeometryArray::Polygon(arr)
    }

    /// The array `arr`, tagged as multi points.
    pub fn from_multi_point_array(arr: MultiPointArray<O>) -> (r: Self)
        ensures
            r == GeometryArray::MultiPoint(arr),
    {
        GeometryArray::MultiPoint(arr)
    }

    /// The array `arr`, tagged as multi line strings.
    pub fn from_multi_line_string_array(arr: MultiLineStringArray<O>) -> (r: Self)
        ensures
            r == GeometryArray::MultiLineString(arr),
    {
        GeometryArray::MultiLineString(arr)
    }

    /// The array `arr`, tagged as multi polygons.
    pub fn from_multi_polygon_array(arr: MultiPolygonArray<O>) -> (r: Self)
        ensures
            r == GeometryArray::MultiPolygon(arr),
    {
        GeometryArray::MultiPolygon(arr)
    }

    /// The array `arr`, tagged as rectangles.
    pub fn from_rect_array(arr: RectArray) -> (r: Self)
        ensures
            r == GeometryArray::<O>::Rect(arr),
    {
        GeometryArray::Rect(arr)
    }

    /// The kind of the array held.
    pub fn geometry_type(&self) -> (t: GeometryType)
        ensures
            t == self.spec_geometry_type(),
    {
        match self {
            GeometryArray::Point(_) => GeometryType::Point,
            GeometryArray::LineString(_) => GeometryType::LineString,
            GeometryArray::Polygon(_) => GeometryType::Polygon,
            GeometryArray::MultiPoint(_) => GeometryType::MultiPoint,
            GeometryArray::MultiLineString(_) => GeometryType::MultiLineString,
            GeometryArray::MultiPolygon(_) => GeometryType::MultiPolygon,
            GeometryArray::Rect(_) => GeometryType::Rect,
        }
    }

    /// The number of slots.
    pub fn len(&self) -> (n: usize)
        ensures
            n == self.spec_len(),
    {
        match self {
            GeometryArray::Point(a) => a.len(),
            GeometryArray::LineString(a) => a.len(),
            GeometryArray::Polygon(a) => a.len(),
            GeometryArray::MultiPoint(a) => a.len(),
            GeometryArray::MultiLineString(a) => a.len(),
            GeometryArray::MultiPolygon(a) => a.len(),
            GeometryArray::Rect(a) => a.len(),
        }
    }

    /// Whether the array has no slots.
    pub fn is_empty(&self) -> (r: bool)
        ensures
            r == (self.spec_len() == 0),
    {
        self.len() == 0
    }

    /// Whether slot `i` is valid.
    pub fn is_valid(&self, i: usize) -> (r: bool)
        requires
            i < self.spec_len(),
        ensures
            r == self.spec_is_valid(i as int),
    {
        match self {
            GeometryArray::Point(a) => a.is_valid(i),
            GeometryArray::LineString(a) => a.is_valid(i),
            GeometryArray::Polygon(a) => a.is_valid(i),
            GeometryArray::MultiPoint(a) => a.is_valid(i),
            GeometryArray::MultiLineString(a) => a.is_valid(i),
            GeometryArray::MultiPolygon(a) => a.is_valid(i),
            GeometryArray::Rect(a) => a.is_valid(i),
        }
    }

    /// Whether slot `i` is null.
    pub fn is_null(&self, i: usize) -> (r: bool)
        requires
            i < self.spec_len(),
        ensures
            r == !self.spec_is_valid(i as int),
    {
        !self.is_valid(i)
    }

    /// Slots `offset .. offset + length` of the array held, under the same tag and sharing
    /// its buffers.
    pub fn slice(&self, offset: usize, length: usize) -> (r: Self)
        requires
            offset + length <= self.spec_len(),
        ensures
            r.spec_geometry_type() == self.spec_geometry_type(),
            r.spec_len() == length,
            match (*self, r) {
                (GeometryArray::Point(a), GeometryArray::Point(b)) => b@ == a@.subrange(
                    offset as int,
                    offset + length,
                ),
                (GeometryArray::LineString(a), GeometryArray::LineString(b)) => b@ == a@.subrange(
                    offset as int,
                    offset + length,
                ),
                (GeometryArray::Polygon(a), GeometryArray::Polygon(b)) => b@ == a@.subrange(
                    offset as int,
                    offset + length,
                ),
                (GeometryArray::MultiPoint(a), GeometryArray::MultiPoint(b)) => b@ == a@.subrange(
                    offset as int,
                    offset + length,
                ),
                (GeometryArray::MultiLineString(a), GeometryArray::MultiLineString(b)) => b@
                    == a@.subrange(offset as int, offset + length),
                (GeometryArray::MultiPolygon(a), GeometryArray::MultiPolygon(b)) => b@
                    == a@.subrange(offset as int, offset + length),
                (GeometryArray::Rect(a), GeometryArray::Rect(b)) => b@ == a@.subrange(
                    offset as int,
                    offset + length,
                ),
                _ => false,
            },
    {
        match self {
            GeometryArray::Point(a) => GeometryArray::Point(a.slice(offset, length)),
            GeometryArray::LineString(a) => GeometryArray::LineString(a.slice(offset, length)),
            GeometryArray::Polygon(a) => GeometryArray::Polygon(a.slice(offset, length)),
            GeometryArray::MultiPoint(a) => GeometryArray::MultiPoint(a.slice(offset, length)),
            GeometryArray::MultiLineString(a) => GeometryArray::MultiLineString(
                a.slice(offset, length),
            ),
            GeometryArray::MultiPolygon(a) => GeometryArray::MultiPolygon(a.slice(offset, length)),
            GeometryArray::Rect(a) => GeometryArray::Rect(a.slice(offset, length)),
        }
    }

    /// Slots `offset .. offset + length` of the array held, under the same tag and copied
    /// into buffers of their own.
    pub fn owned_slice(&self, offset: usize, length: usize) -> (r: Self)
        requires
            offset + length <= self.spec_len(),
        ensures
            r.spec_geometry_type() == self.spec_geometry_type(),
            r.spec_len() == length,
            match (*self, r) {
                (GeometryArray::Point(a), GeometryArray::Point(b)) => b@ == a@.subrange(
                    offset as int,
                    offset + length,
                ),
                (GeometryArray::LineString(a), GeometryArray::LineString(b)) => b@ == a@.subrange(
                    offset as int,
                    offset + length,
                ) && b.is_owned_slice_of(&a, offset as int, length as int),
                (GeometryArray::Polygon(a), GeometryArray::Polygon(b)) => b@ == a@.subrange(
                    offset as int,
                    offset + length,
                ) && b.is_owned_slice_of(&a, offset as int, length as int),
                (GeometryArray::MultiPoint(a), GeometryArray::MultiPoint(b)) => b@ == a@.subrange(
                    offset as int,
                    offset + length,
                ),
                (GeometryArray::MultiLineString(a), GeometryArray::MultiLineString(b)) => b@
                    == a@.subrange(offset as int, offset + length),
                (GeometryArray::MultiPolygon(a), GeometryArray::MultiPolygon(b)) => b@
                    == a@.subrange(offset as int, offset + length) && b.is_owned_slice_of(
                    &a,
                    offset as int,
                    length as int,
                ),
                (GeometryArray::Rect(a), GeometryArray::Rect(b)) => b@ == a@.subrange(
                    offset as int,
                    offset + length,
                ),
                _ => false,
            },
    {
        match self {
            GeometryArray::Point(a) => GeometryArray::Point(a.owned_slice(offset, length)),
            GeometryArray::LineString(a) => GeometryArray::LineString(a.owned_slice(offset, length)),
            GeometryArray::Polygon(a) => GeometryArray::Polygon(a.owned_slice(offset, length)),
            GeometryArray::MultiPoint(a) => GeometryArray::MultiPoint(a.owned_slice(offset, length)),
            GeometryArray::MultiLineString(a) => GeometryArray::MultiLineString(
                a.owned_slice(offset, length),
            ),
            GeometryArray::MultiPolygon(a) => GeometryArray::MultiPolygon(
                a.owned_slice(offset, length),
            ),
            GeometryArray::Rect(a) => GeometryArray::Rect(a.owned_slice(offset, length)),
        }
    }

    /// The line string array held, or `WrongType` where the tag is another.
    pub fn as_line_string(&self) -> (r: Result<&LineStringArray<O>, GeoArrowError>)
        ensures
            match *self {
                GeometryArray::LineString(a) => r is Ok && *r->Ok_0 == a,
                _ => r is Err && r->Err_0 == (GeoArrowError::WrongType {
                    expected: GeometryType::LineString,
                    found: self.spec_geometry_type(),
                }),
            },
    {
        match self {
            GeometryArray::LineString(a) => Ok(a),
            _ => Err(
                GeoArrowError::WrongType {
                    expected: GeometryType::LineString,
                    found: self.geometry_type(),
                },
            ),
        }
    }

    /// The polygon array held, or `WrongType` where the tag is another.
    pub fn as_polygon(&self) -> (r: Result<&PolygonArray<O>, GeoArrowError>)
        ensures
            match *self {
                GeometryArray::Polygon(a) => r is Ok && *r->Ok_0 == a,
                _ => r is Err && r->Err_0 == (GeoArrowError::WrongType {
                    expected: GeometryType::Polygon,
                    found: self.spec_geometry_type(),
                }),
            },
    {
        match self {
            GeometryArray::Polygon(a) => Ok(a),
            _ => Err(
                GeoArrowError::WrongType {
                    expected: GeometryType::Polygon,
                    found: self.geometry_type(),
                },
            ),
        }
    }

    /// The point array held, or `WrongType` where the tag is another.
    pub fn as_point(&self) -> (r: Result<&PointArray, GeoArrowError>)
        ensures
            match *self {
                GeometryArray::Point(a) => r is Ok && *r->Ok_0 == a,
                _ => r is Err && r->Err_0 == (GeoArrowError::WrongType {
                    expected: GeometryType::Point,
                    found: self.spec_geometry_type(),
                }),
            },
    {
        match self {
            GeometryArray::Point(a) => Ok(a),
            _ => Err(
                GeoArrowError::WrongType {
                    expected: GeometryType::Point,
                    found: self.geometry_type(),
                },
            ),
        }
    }

    /// The multi point array held, or `WrongType` where the tag is another.
    pub fn as_multi_point(&self) -> (r: Result<&MultiPointArray<O>, GeoArrowError>)
        ensures
            match *self {
                GeometryArray::MultiPoint(a) => r is Ok && *r->Ok_0 == a,
                _ => r is Err && r->Err_0 == (GeoArrowError::WrongType {
                    expected: GeometryType::MultiPoint,
                    found: self.spec_geometry_type(),
                }),
            },
    {
        match self {
            GeometryArray::MultiPoint(a) => Ok(a),
            _ => Err(
                GeoArrowError::WrongType {
                    expected: GeometryType::MultiPoint,
                    found: self.geometry_type(),
                },
            ),
        }
    }

    /// The multi line string array held, or `WrongType` where the tag is another.
    pub fn as_multi_line_string(&self) -> (r: Result<&MultiLineStringArray<O>, GeoArrowError>)
        ensures
            match *self {
                GeometryArray::MultiLineString(a) => r is Ok && *r->Ok_0 == a,
                _ => r is Err && r->Err_0 == (GeoArrowError::WrongType {
                    expected: GeometryType::MultiLineString,
                    found: self.spec_geometry_type(),
                }),
            },
    {
        match self {
            GeometryArray::MultiLineString(a) => Ok(a),
            _ => Err(
                GeoArrowError::WrongType {
                    expected: GeometryType::MultiLineString,
                    found: self.geometry_type(),
                },
            ),
        }
    }

    /// The multi polygon array held, or `WrongType` where the tag is another.
    pub fn as_multi_polygon(&self) -> (r: Result<&MultiPolygonArray<O>, GeoArrowError>)
        ensures
            match *self {
                GeometryArray::MultiPolygon(a) => r is Ok && *r->Ok_0 == a,
                _ => r is Err && r->Err_0 == (GeoArrowError::WrongType {
                    expected: GeometryType::MultiPolygon,
                    found: self.spec_geometry_type(),
                }),
            },
    {
        match self {
            GeometryArray::MultiPolygon(a) => Ok(a),
            _ => Err(
                GeoArrowError::WrongType {
                    expected: GeometryType::MultiPolygon,
                    found: self.geometry_type(),
                },
            ),
        }
    }

    /// The rectangle array held, or `WrongType` where the tag is another.
    pub fn as_rect(&self) -> (r: Result<&RectArray, GeoArrowError>)
        ensures
            match *self {
                GeometryArray::Rect(a) => r is Ok && *r->Ok_0 == a,
                _ => r is Err && r->Err_0 == (GeoArrowError::WrongType {
                    expected: GeometryType::Rect,
                    found: self.spec_geometry_type(),
                }),
            },
    {
        match self {
            GeometryArray::Rect(a) => Ok(a),
            _ => Err(
                GeoArrowError::WrongType {
                    expected: GeometryType::Rect,
                    found: self.geometry_type(),
                },
            ),
        }
    }

    /// What `as_generic_geometry` finds in slot `i` of an array that supports it.
    pub open spec fn spec_generic(&self, i: int) -> Option<GenericView> {
        match self {
            GeometryArray::Point(a) => match a@[i] {
                Some(c) => Some(GenericView::Point(c)),
                None => None,
            },
            GeometryArray::LineString(a) => match a@[i] {
                Some(l) => Some(GenericView::LineString(l)),
                None => None,
            },
            GeometryArray::Polygon(a) => match a@[i] {
                Some(p) => Some(GenericView::Polygon(p)),
                None => None,
            },
            GeometryArray::MultiPoint(a) => match a@[i] {
                Some(l) => Some(GenericView::MultiPoint(l)),
                None => None,
            },
            GeometryArray::MultiLineString(a) => match a@[i] {
                Some(p) => Some(GenericView::MultiLineString(p)),
                None => None,
            },
            GeometryArray::MultiPolygon(a) => match a@[i] {
                Some(p) => Some(GenericView::MultiPolygon(p)),
                None => None,
            },
            GeometryArray::Rect(_) => None,
        }
    }

    /// The geometry in slot `i` as a value of its own, whatever its kind; `None` where the
    /// slot is null.
    ///
    /// Rectangles have no generic form: an array of them is refused with `Unsupported`.
    pub fn as_generic_geometry(&self, i: usize) -> (r: Result<Option<Geometry>, GeoArrowError>)
        requires
            i < self.spec_len(),
        ensures
            r is Err <==> self.spec_geometry_type() == GeometryType::Rect,
            r is Err ==> r->Err_0 == (GeoArrowError::Unsupported { kind: GeometryType::Rect }),
            r is Ok ==> match (r->Ok_0, self.spec_generic(i as int)) {
                (None, None) => true,
                (Some(g), Some(v)) => generic_view(g) == Some(v),
                _ => false,
            },
    {
        match self {
            GeometryArray::Point(a) => match a.get(i) {
                Some(c) => Ok(Some(Geometry::Point(c))),
                None => Ok(None),
            },
            GeometryArray::LineString(a) => match a.get(i) {
                Some(l) => Ok(Some(Geometry::LineString(l.to_owned()))),
                None => Ok(None),
            },
            GeometryArray::Polygon(a) => match a.get(i) {
                Some(p) => Ok(Some(Geometry::Polygon(p.to_owned()))),
                None => Ok(None),
            },
            GeometryArray::MultiPoint(a) => match a.get(i) {
                Some(l) => Ok(Some(Geometry::MultiPoint(OwnedMultiPoint { points: l.to_vec() }))),
                None => Ok(None),
            },
            GeometryArray::MultiLineString(a) => match a.get(i) {
                Some(p) => Ok(
                    Some(Geometry::MultiLineString(OwnedMultiLineString { lines: p.to_vec() })),
                ),
                None => Ok(None),
            },
            GeometryArray::MultiPolygon(a) => match a.get(i) {
                Some(p) => Ok(Some(Geometry::MultiPolygon(p.to_owned()))),
                None => Ok(None),
            },
            GeometryArray::Rect(_) => Err(GeoArrowError::Unsupported { kind: GeometryType::Rect }),
        }
    }
}

/// What a generic geometry holds, as mathematical values. Rectangles and collections are
/// left out: no array hands them out in generic form.
pub enum GenericView {
    Point(Coord),
    LineString(Seq<Coord>),
    Polygon(Seq<Seq<Coord>>),
    MultiPoint(Seq<Coord>),
    MultiLineString(Seq<Seq<Coord>>),
    MultiPolygon(Seq<Seq<Seq<Coord>>>),
}

/// What `g` holds, where it is of a kind that has a generic form.
pub open spec fn generic_view(g: Geometry) -> Option<GenericView> {
    match g {
        Geometry::Point(c) => Some(GenericView::Point(c)),
        Geometry::LineString(l) => Some(GenericView::LineString(l@)),
        Geometry::Polygon(p) => Some(GenericView::Polygon(p@)),
        Geometry::MultiPoint(m) => Some(GenericView::MultiPoint(m@)),
        Geometry::MultiLineString(m) => Some(GenericView::MultiLineString(m@)),
        Geometry::MultiPolygon(m) => Some(GenericView::MultiPolygon(m@)),
        Geometry::GeometryCollection(_) => None,
        Geometry::Rect(_) => None,
    }
}

} // verus!
