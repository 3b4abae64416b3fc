use crate::coord::{Coord, CoordBuffer};
use crate::offsets::{is_offsets, lemma_offsets_ordered, OffsetSize, Offsets};
use crate::scalar::linestring::{line_at, LineString};
use vstd::prelude::*;

verus! {

/// The rings of group `i`: the lines that the offsets `i` and `i + 1` of `geom_offsets`
/// bound among the groups of `ring_offsets`.
pub open spec fn polygon_at(
    coords: Seq<Coord>,
    ring_offsets: Seq<int>,
    geom_offsets: Seq<int>,
    i: int,
) -> Seq<Seq<Coord>> {
    Seq::new(
        (geom_offsets[i + 1] - geom_offsets[i]) as nat,
        |r: int| line_at(coords, ring_offsets, geom_offsets[i] + r),
    )
}

/// The rings that a vector of vectors holds.
pub open spec fn rings_view(rings: Seq<Vec<Coord>>) -> Seq<Seq<Coord>> {
    Seq::new(rings.len(), |i: int| rings[i]@)
}

/// Whether two levels of offsets fit over `coords_len` coordinates: the rings stay within
/// the coordinates and the geometries within the rings.
pub open spec fn polygon_levels_fit(
    coords_len: int,
    ring_offsets: Seq<int>,
    geom_offsets: Seq<int>,
) -> bool {
    &&& is_offsets(ring_offsets)
    &&& is_offsets(geom_offsets)
    &&& ring_offsets.last() <= coords_len
    &&& geom_offsets.last() <= ring_offsets.len() - 1
}

/// One polygon of an array, read in place. Its first ring is the exterior.
pub struct Polygon<'a, O: OffsetSize> {
    coords: &'a CoordBuffer,
    geom_offsets: &'a Offsets<O>,
    ring_offsets: &'a Offsets<O>,
    geom_index: usize,
}

impl<'a, O: OffsetSize> View for Polygon<'a, O> {
    type V = Seq<Seq<Coord>>;

    closed spec fn view(&self) -> Seq<Seq<Coord>> {
        polygon_at(self.coords@, self.ring_offsets@, self.geom_offsets@, self.geom_index as int)
    }
}

impl<'a, O: OffsetSize> Polygon<'a, O> {
    #[verifier::type_invariant]
    closed spec fn wf(&self) -> bool {
        &&& polygon_levels_fit(self.coords@.len() as int, self.ring_offsets@, self.geom_offsets@)
        &&& self.geom_index < self.geom_offsets@.len() - 1
    }

    /// The polygon at group `geom_index` of `geom_offsets`.
    pub fn new_borrowed(
        coords: &'a CoordBuffer,
        geom_offsets: &'a Offsets<O>,
        ring_offsets: &'a Offsets<O>,
        geom_index: usize,
    ) -> (r: Self)
        requires
            geom_index < geom_offsets@.len() - 1,
            ring_offsets@.last() <= coords@.len(),
            geom_offsets@.last() <= ring_offsets@.len() - 1,
        ensures
            r@ == polygon_at(coords@, ring_offsets@, geom_offsets@, geom_index as int),
    {
        proof {
            use_type_invariant(geom_offsets);
            use_type_invariant(ring_offsets);
        }
        Polygon { coords, geom_offsets, ring_offsets, geom_index }
    }

    /// The number of rings, the exterior included.
    pub fn num_rings(&self) -> (n: usize)
        ensures
            n == self@.len(),
    {
        proof {
            use_type_invariant(self);
        }
        let (start, end) = self.geom_offsets.start_end(self.geom_index);
        end - start
    }

    /// The ring at position `i`, or `None` where the polygon has fewer rings.
    pub fn ring(&self, i: usize) -> (r: Option<LineString<'a, O>>)
        ensures
            r is Some <==> i < self@.len(),
            r is Some ==> r->Some_0@ == self@[i as int],
    {
        proof {
            use_type_invariant(self);
            lemma_offsets_ordered(
                self.geom_offsets@,
                self.geom_index + 1,
                self.geom_offsets@.len() - 1,
            );
        }
        let (start, end) = self.geom_offsets.start_end(self.geom_index);
        if i < end - start {
            Some(LineString::new_borrowed(self.coords, self.ring_offsets, start + i))
        } else {
            None
        }
    }

    /// The exterior ring, or `None` where the polygon is empty.
    pub fn exterior(&self) -> (r: Option<LineString<'a, O>>)
        ensures
            r is Some <==> self@.len() > 0,
            r is Some ==> r->Some_0@ == self@[0],
    {
        self.ring(0)
    }

    /// The number of rings after the exterior.
    pub fn num_interiors(&self) -> (n: usize)
        ensures
            n == if self@.len() == 0 {
                0
            } else {
                self@.len() - 1
            },
    {
        let n = self.num_rings();
        if n == 0 {
            0
        } else {
            n - 1
        }
    }

    /// The interior ring at position `i`, or `None` where there are fewer.
    pub fn interior(&self, i: usize) -> (r: Option<LineString<'a, O>>)
        ensures
            r is Some <==> i + 1 < self@.len(),
            r is Some ==> r->Some_0@ == self@[i + 1],
    {
        let n = self.num_rings();
        if n >= 2 && i <= n - 2 {
            self.ring(i + 1)
        } else {
            None
        }
    }

    /// The rings, copied out.
    pub fn to_vec(&self) -> (v: Vec<Vec<Coord>>)
        ensures
            rings_view(v@) == self@,
    {
        let n = self.num_rings();
        let mut v: Vec<Vec<Coord>> = Vec::new();
        let mut i: usize = 0;
        while i < n
            invariant
                n == self@.len(),
                i <= n,
                v@.len() == i,
                forall|k: int| 0 <= k < i ==> (#[trigger] v@[k])@ == self@[k],
            decreases n - i,
        {
            let ring = self.ring(i).unwrap();
            v.push(ring.to_vec());
            i += 1;
        }
        assert(rings_view(v@) =~= self@);
        v
    }
}

} // verus!
