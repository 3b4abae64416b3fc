use crate::array::rect::Rect;
use crate::coord::Coord;
use crate::offsets::OffsetSize;
use crate::scalar::linestring::LineString;
use crate::scalar::multipolygon::MultiPolygon;
use crate::scalar::polygon::Polygon;
use crate::scalar::multipolygon::polygons_view;
use crate::scalar::polygon::rings_view;
use vstd::prelude::*;

verus! {

/// A copy of `v`.
pub fn copy_coords(v: &Vec<Coord>) -> (r: Vec<Coord>)
    ensures
        r@ == v@,
{
    let n = v.len();
    let mut r: Vec<Coord> = Vec::new();
    let mut i: usize = 0;
    while i < n
        invariant
            n == v@.len(),
            i <= n,
            r@ == v@.subrange(0, i as int),
        decreases n - i,
    {
        r.push(v[i]);
        assert(r@ =~= v@.subrange(0, i + 1));
        i += 1;
    }
    assert(v@.subrange(0, n as int) =~= v@);
    r
}

/// A copy of `v`, ring by ring.
pub fn copy_rings(v: &Vec<Vec<Coord>>) -> (r: Vec<Vec<Coord>>)
    ensures
        rings_view(r@) == rings_view(v@),
{
    let n = v.len();
    let mut r: Vec<Vec<Coord>> = Vec::new();
    let mut i: usize = 0;
    while i < n
        invariant
            n == v@.len(),
            i <= n,
            r@.len() == i,
            forall|k: int| 0 <= k < i ==> (#[trigger] r@[k])@ == v@[k]@,
        decreases n - i,
    {
        r.push(copy_coords(&v[i]));
        i += 1;
    }
    assert(rings_view(r@) =~= rings_view(v@));
    r
}

/// Whether `a` and `b` hold the same coordinates.
pub fn coords_equal(a: &Vec<Coord>, b: &Vec<Coord>) -> (r: bool)
    ensures
        r == (a@ == b@),
{
    let n = a.len();
    if n != b.len() {
        return false;
    }
    let mut i: usize = 0;
    while i < n
        invariant
            n == a@.len(),
            n == b@.len(),
            i <= n,
            forall|k: int| 0 <= k < i ==> a@[k] == b@[k],
        decreases n - i,
    {
        if a[i].x != b[i].x || a[i].y != b[i].y {
            assert(a@[i as int] != b@[i as int]);
            return false;
        }
        i += 1;
    }
    assert(a@ =~= b@);
    true
}

/// Whether `a` and `b` hold the same rings.
pub fn rings_equal(a: &Vec<Vec<Coord>>, b: &Vec<Vec<Coord>>) -> (r: bool)
    ensures
        r == (rings_view(a@) == rings_view(b@)),
{
    let n = a.len();
    if n != b.len() {
        assert(rings_view(a@).len() != rings_view(b@).len());
        return false;
    }
    let mut i: usize = 0;
    while i < n
        invariant
            n == a@.len(),
            n == b@.len(),
            i <= n,
            forall|k: int| 0 <= k < i ==> a@[k]@ == b@[k]@,
        decreases n - i,
    {
        if !coords_equal(&a[i], &b[i]) {
            assert(rings_view(a@)[i as int] != rings_view(b@)[i as int]);
            return false;
        }
        i += 1;
    }
    assert(rings_view(a@) =~= rings_view(b@));
    true
}

/// A line string that owns its coordinates.
pub struct OwnedLineString {
    pub coords: Vec<Coord>,
}

/// A polygon that owns its rings. The first ring is the exterior.
pub struct OwnedPolygon {
    pub rings: Vec<Vec<Coord>>,
}

/// A multi point that owns its points.
pub struct OwnedMultiPoint {
    pub points: Vec<Coord>,
}

/// A multi line string that owns its lines.
pub struct OwnedMultiLineString {
    pub lines: Vec<Vec<Coord>>,
}

/// A multi polygon that owns its polygons.
pub struct OwnedMultiPolygon {
    pub polygons: Vec<Vec<Vec<Coord>>>,
}

/// A collection that owns its geometries.
pub struct OwnedGeometryCollection {
    pub geometries: Vec<Geometry>,
}

/// A geometry of any kind that owns its coordinates.
pub enum Geometry {
    Point(Coord),
    LineString(OwnedLineString),
    Polygon(OwnedPolygon),
    MultiPoint(OwnedMultiPoint),
    MultiLineString(OwnedMultiLineString),
    MultiPolygon(OwnedMultiPolygon),
    GeometryCollection(OwnedGeometryCollection),
    Rect(Rect),
}

impl View for OwnedLineString {
    type V = Seq<Coord>;

    open spec fn view(&self) -> Seq<Coord> {
        self.coords@
    }
}

impl View for OwnedPolygon {
    type V = Seq<Seq<Coord>>;

    open spec fn view(&self) -> Seq<Seq<Coord>> {
        rings_view(self.rings@)
    }
}

impl View for OwnedMultiPoint {
    type V = Seq<Coord>;

    open spec fn view(&self) -> Seq<Coord> {
        self.points@
    }
}

impl View for OwnedMultiLineString {
    type V = Seq<Seq<Coord>>;

    open spec fn view(&self) -> Seq<Seq<Coord>> {
        rings_view(self.lines@)
    }
}

impl View for OwnedMultiPolygon {
    type V = Seq<Seq<Seq<Coord>>>;

    open spec fn view(&self) -> Seq<Seq<Seq<Coord>>> {
        polygons_view(self.polygons@)
    }
}

impl<'a, O: OffsetSize> LineString<'a, O> {
    /// A copy that does not depend on the array.
    pub fn to_owned(&self) -> (r: OwnedLineString)
        ensures
            r@ == self@,
    {
        OwnedLineString { coords: self.to_vec() }
    }
}

impl<'a, O: OffsetSize> Polygon<'a, O> {
    /// A copy that does not depend on the array.
    pub fn to_owned(&self) -> (r: OwnedPolygon)
        ensures
            r@ == self@,
    {
        OwnedPolygon { rings: self.to_vec() }
    }
}

impl<'a, O: OffsetSize> MultiPolygon<'a, O> {
    /// A copy that does not depend on the array.
    pub fn to_owned(&self) -> (r: OwnedMultiPolygon)
        ensures
            r@ == self@,
    {
        OwnedMultiPolygon { polygons: self.to_vec() }
    }
}

} // verus!
