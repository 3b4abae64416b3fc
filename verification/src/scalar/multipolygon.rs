use crate::array::polygon::PolygonArray;
use crate::coord::Coord;
use crate::offsets::{is_offsets, lemma_offsets_ordered, OffsetSize, Offsets};
use crate::scalar::polygon::{rings_view, Polygon};
use vstd::prelude::*;

verus! {

/// The polygons of group `i`: those that the offsets `i` and `i + 1` bound among `polygons`.
pub open spec fn multipolygon_at(
    polygons: Seq<Seq<Seq<Coord>>>,
    geom_offsets: Seq<int>,
    i: int,
) -> Seq<Seq<Seq<Coord>>> {
    polygons.subrange(geom_offsets[i], geom_offsets[i + 1])
}

/// The polygons that a vector of vectors of vectors holds.
pub open spec fn polygons_view(polygons: Seq<Vec<Vec<Coord>>>) -> Seq<Seq<Seq<Coord>>> {
    Seq::new(polygons.len(), |i: int| rings_view(polygons[i]@))
}

/// One multi polygon of an array, read in place.
pub struct MultiPolygon<'a, O: OffsetSize> {
    polygons: &'a PolygonArray<O>,
    geom_offsets: &'a Offsets<O>,
    geom_index: usize,
}

impl<'a, O: OffsetSize> View for MultiPolygon<'a, O> {
    type V = Seq<Seq<Seq<Coord>>>;

    closed spec fn view(&self) -> Seq<Seq<Seq<Coord>>> {
        multipolygon_at(self.polygons.spec_values(), self.geom_offsets@, self.geom_index as int)
    }
}

impl<'a, O: OffsetSize> MultiPolygon<'a, O> {
    #[verifier::type_invariant]
    closed spec fn wf(&self) -> bool {
        &&& is_offsets(self.geom_offsets@)
        &&& self.geom_offsets@.last() <= self.polygons.spec_len()
        &&& self.geom_index < self.geom_offsets@.len() - 1
    }

    /// The multi polygon at group `geom_index` of `geom_offsets`, over `polygons`.
    pub fn new_borrowed(
        polygons: &'a PolygonArray<O>,
        geom_offsets: &'a Offsets<O>,
        geom_index: usize,
    ) -> (r: Self)
        requires
            geom_index < geom_offsets@.len() - 1,
            geom_offsets@.last() <= polygons.spec_len(),
        ensures
            r@ == multipolygon_at(polygons.spec_values(), geom_offsets@, geom_index as int),
    {
        proof {
            use_type_invariant(geom_offsets);
        }
        MultiPolygon { polygons, geom_offsets, geom_index }
    }

    /// The number of polygons.
    pub fn num_polygons(&self) -> (n: usize)
        ensures
            n == self@.len(),
    {
        proof {
            use_type_invariant(self);
            lemma_offsets_ordered(
                self.geom_offsets@,
                self.geom_index + 1,
                self.geom_offsets@.len() - 1,
            );
        }
        let (start, end) = self.geom_offsets.start_end(self.geom_index);
        end - start
    }

    /// The polygon at position `i`, or `None` where there are fewer.
    pub fn polygon(&self, i: usize) -> (r: Option<Polygon<'a, O>>)
        ensures
            r is Some <==> i < self@.len(),
            r is Some ==> r->Some_0@ == self@[i as int],
    {
        proof {
            use_type_invariant(self);
            lemma_offsets_ordered(
                self.geom_offsets@,
                self.geom_index + 1,
                self.geom_offsets@.len() - 1,
            );
        }
        let (start, end) = self.geom_offsets.start_end(self.geom_index);
        if i < end - start {
            Some(self.polygons.value(start + i))
        } else {
            None
        }
    }

    /// The polygons, each as its rings, copied out.
    pub fn to_vec(&self) -> (v: Vec<Vec<Vec<Coord>>>)
        ensures
            polygons_view(v@) == self@,
    {
        let n = self.num_polygons();
        let mut v: Vec<Vec<Vec<Coord>>> = Vec::new();
        let mut i: usize = 0;
        while i < n
            invariant
                n == self@.len(),
                i <= n,
                v@.len() == i,
                forall|k: int| 0 <= k < i ==> rings_view((#[trigger] v@[k])@) == self@[k],
            decreases n - i,
        {
            let polygon = self.polygon(i).unwrap();
            v.push(polygon.to_vec());
            i += 1;
        }
        assert(polygons_view(v@) =~= self@);
        v
    }
}

} // verus!
