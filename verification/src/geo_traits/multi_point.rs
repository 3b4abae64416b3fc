use crate::coord::Coord;
use crate::geo_traits::point::PointTrait;
use crate::scalar::owned::{copy_coords, OwnedMultiPoint};
use vstd::prelude::*;

verus! {

/// A set of positions.
pub trait MultiPointTrait {
    type ItemType: PointTrait;

    /// The positions, in order.
    spec fn spec_points(&self) -> Seq<Coord>;

    /// The points in this MultiPoint, in order.
    fn points(&self) -> (r: Vec<Self::ItemType>)
        ensures
            r@.len() == self.spec_points().len(),
            forall|i: int|
                0 <= i < r@.len() ==> (#[trigger] r@[i]).spec_coord() == self.spec_points()[i],
    ;

    /// The number of points in this MultiPoint.
    fn num_points(&self) -> (n: usize)
        ensures
            n == self.spec_points().len(),
    ;

    /// The point at position `i`, or `None` where `i` is out of bounds.
    fn point(&self, i: usize) -> (r: Option<Self::ItemType>)
        ensures
            r is Some <==> i < self.spec_points().len(),
            r is Some ==> r->Some_0.spec_coord() == self.spec_points()[i as int],
    ;
}

impl MultiPointTrait for OwnedMultiPoint {
    type ItemType = Coord;

    open spec fn spec_points(&self) -> Seq<Coord> {
        self@
    }

    fn points(&self) -> (r: Vec<Coord>) {
        copy_coords(&self.points)
    }

    fn num_points(&self) -> (n: usize) {
        self.points.len()
    }

    fn point(&self, i: usize) -> (r: Option<Coord>) {
        if i < self.points.len() {
            Some(self.points[i])
        } else {
            None
        }
    }
}

} // verus!
