use crate::coord::Coord;
use crate::geo_traits::point::PointTrait;
use crate::offsets::OffsetSize;
use crate::scalar::linestring::LineString;
use crate::scalar::owned::OwnedLineString;
use vstd::prelude::*;

verus! {

/// A sequence of positions joined by straight segments.
pub trait LineStringTrait {
    type ItemType: PointTrait;

    /// The positions, in order.
    spec fn spec_coords(&self) -> Seq<Coord>;

    /// The number of coordinates in this line string.
    fn num_coords(&self) -> (n: usize)
        ensures
            n == self.spec_coords().len(),
    ;

    /// The coordinate at position `i`, or `None` where `i` is out of bounds.
    fn coord(&self, i: usize) -> (r: Option<Self::ItemType>)
        ensures
            r is Some <==> i < self.spec_coords().len(),
            r is Some ==> r->Some_0.spec_coord() == self.spec_coords()[i as int],
    ;
}

impl LineStringTrait for OwnedLineString {
    type ItemType = Coord;

    open spec fn spec_coords(&self) -> Seq<Coord> {
        self@
    }

    fn num_coords(&self) -> (n: usize) {
        self.coords.len()
    }

    fn coord(&self, i: usize) -> (r: Option<Coord>) {
        if i < self.coords.len() {
            Some(self.coords[i])
        } else {
            None
        }
    }
}

impl<'a, O: OffsetSize> LineStringTrait for LineString<'a, O> {
    type ItemType = Coord;

    open spec fn spec_coords(&self) -> Seq<Coord> {
        self@
    }

    fn num_coords(&self) -> (n: usize) {
        LineString::num_coords(self)
    }

    fn coord(&self, i: usize) -> (r: Option<Coord>) {
        LineString::coord(self, i)
    }
}

} // verus!
