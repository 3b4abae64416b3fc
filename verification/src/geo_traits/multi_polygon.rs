use crate::coord::Coord;
use crate::geo_traits::polygon::PolygonTrait;
use crate::offsets::OffsetSize;
use crate::scalar::multipolygon::MultiPolygon;
use crate::scalar::owned::{copy_rings, OwnedMultiPolygon, OwnedPolygon};
use crate::scalar::polygon::Polygon;
use vstd::prelude::*;

verus! {

/// A set of polygons.
pub trait MultiPolygonTrait {
    type ItemType: PolygonTrait;

    /// The polygons, in order, each as its rings.
    spec fn spec_polygons(&self) -> Seq<Seq<Seq<Coord>>>;

    /// The Polygons in this MultiPolygon, in order.
    fn polygons(&self) -> (r: Vec<Self::ItemType>)
        ensures
            r@.len() == self.spec_polygons().len(),
            forall|i: int|
                0 <= i < r@.len() ==> (#[trigger] r@[i]).spec_rings() == self.spec_polygons()[i],
    ;

    /// The number of polygons in this MultiPolygon.
    fn num_polygons(&self) -> (n: usize)
        ensures
            n == self.spec_polygons().len(),
    ;

    /// The polygon at position `i`, or `None` where `i` is out of bounds.
    fn polygon(&self, i: usize) -> (r: Option<Self::ItemType>)
        ensures
            r is Some <==> i < self.spec_polygons().len(),
            r is Some ==> r->Some_0.spec_rings() == self.spec_polygons()[i as int],
    ;
}

impl MultiPolygonTrait for OwnedMultiPolygon {
    type ItemType = OwnedPolygon;

    open spec fn spec_polygons(&self) -> Seq<Seq<Seq<Coord>>> {
        self@
    }

    fn polygons(&self) -> (r: Vec<OwnedPolygon>) {
        let n = self.polygons.len();
        let mut r: Vec<OwnedPolygon> = Vec::new();
        let mut i: usize = 0;
        while i < n
            invariant
                n == self.polygons@.len(),
                i <= n,
                r@.len() == i,
                forall|k: int| 0 <= k < i ==> (#[trigger] r@[k]).spec_rings() == self@[k],
            decreases n - i,
        {
            r.push(OwnedPolygon { rings: copy_rings(&self.polygons[i]) });
            i += 1;
        }
        r
    }

    fn num_polygons(&self) -> (n: usize) {
        self.polygons.len()
    }

    fn polygon(&self, i: usize) -> (r: Option<OwnedPolygon>) {
        if i < self.polygons.len() {
            Some(OwnedPolygon { rings: copy_rings(&self.polygons[i]) })
        } else {
            None
        }
    }
}

impl<'a, O: OffsetSize> MultiPolygonTrait for MultiPolygon<'a, O> {
    type ItemType = Polygon<'a, O>;

    open spec fn spec_polygons(&self) -> Seq<Seq<Seq<Coord>>> {
        self@
    }

    fn polygons(&self) -> (r: Vec<Polygon<'a, O>>) {
        let n = MultiPolygon::num_polygons(self);
        let mut r: Vec<Polygon<'a, O>> = Vec::new();
        let mut i: usize = 0;
        while i < n
            invariant
                n == self@.len(),
                i <= n,
                r@.len() == i,
                forall|k: int| 0 <= k < i ==> (#[trigger] r@[k]).spec_rings() == self@[k],
            decreases n - i,
        {
            r.push(MultiPolygon::polygon(self, i).unwrap());
            i += 1;
        }
        r
    }

    fn num_polygons(&self) -> (n: usize) {
        MultiPolygon::num_polygons(self)
    }

    fn polygon(&self, i: usize) -> (r: Option<Polygon<'a, O>>) {
        MultiPolygon::polygon(self, i)
    }
}

} // verus!
