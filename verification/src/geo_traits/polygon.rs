use crate::coord::Coord;
use crate::geo_traits::line_string::LineStringTrait;
use crate::offsets::OffsetSize;
use crate::scalar::linestring::LineString;
use crate::scalar::owned::{copy_coords, OwnedLineString, OwnedPolygon};
use crate::scalar::polygon::Polygon;
use vstd::prelude::*;

verus! {

/// An area bounded by rings: an exterior one and any number of interior ones.
pub trait PolygonTrait {
    type ItemType: LineStringTrait;

    /// The rings, the exterior first.
    spec fn spec_rings(&self) -> Seq<Seq<Coord>>;

    /// The exterior ring, or `None` where the polygon is empty.
    fn exterior(&self) -> (r: Option<Self::ItemType>)
        ensures
            r is Some <==> self.spec_rings().len() > 0,
            r is Some ==> r->Some_0.spec_coords() == self.spec_rings()[0],
    ;

    /// The number of interior rings.
    fn num_interiors(&self) -> (n: usize)
        ensures
            n == if self.spec_rings().len() == 0 {
                0
            } else {
                self.spec_rings().len() - 1
            },
    ;

    /// The interior ring at position `i`, or `None` where `i` is out of bounds.
    fn interior(&self, i: usize) -> (r: Option<Self::ItemType>)
        ensures
            r is Some <==> i + 1 < self.spec_rings().len(),
            r is Some ==> r->Some_0.spec_coords() == self.spec_rings()[i + 1],
    ;
}

impl PolygonTrait for OwnedPolygon {
    type ItemType = OwnedLineString;

    open spec fn spec_rings(&self) -> Seq<Seq<Coord>> {
        self@
    }

    fn exterior(&self) -> (r: Option<OwnedLineString>) {
        if self.rings.len() > 0 {
            Some(OwnedLineString { coords: copy_coords(&self.rings[0]) })
        } else {
            None
        }
    }

    fn num_interiors(&self) -> (n: usize) {
        let n = self.rings.len();
        if n == 0 {
            0
        } else {
            n - 1
        }
    }

    fn interior(&self, i: usize) -> (r: Option<OwnedLineString>) {
        let n = self.rings.len();
        if i < n && i + 1 < n {
            Some(OwnedLineString { coords: copy_coords(&self.rings[i + 1]) })
        } else {
            None
        }
    }
}

impl<'a, O: OffsetSize> PolygonTrait for Polygon<'a, O> {
    type ItemType = LineString<'a, O>;

    open spec fn spec_rings(&self) -> Seq<Seq<Coord>> {
        self@
    }

    fn exterior(&self) -> (r: Option<LineString<'a, O>>) {
        Polygon::exterior(self)
    }

    fn num_interiors(&self) -> (n: usize) {
        Polygon::num_interiors(self)
    }

    fn interior(&self, i: usize) -> (r: Option<LineString<'a, O>>) {
        Polygon::interior(self, i)
    }
}

} // verus!
