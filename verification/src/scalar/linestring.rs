use crate::coord::{Coord, CoordBuffer};
use crate::offsets::{is_offsets, lemma_offsets_ordered, OffsetSize, Offsets};
use vstd::prelude::*;

verus! {

/// The coordinates of group `i`: those that the offsets `i` and `i + 1` bound.
pub open spec fn line_at(coords: Seq<Coord>, offsets: Seq<int>, i: int) -> Seq<Coord> {
    coords.subrange(offsets[i], offsets[i + 1])
}

/// One line string of an array, read in place: nothing is copied until asked for.
pub struct LineString<'a, O: OffsetSize> {
    coords: &'a CoordBuffer,
    geom_offsets: &'a Offsets<O>,
    geom_index: usize,
}

impl<'a, O: OffsetSize> View for LineString<'a, O> {
    type V = Seq<Coord>;

    closed spec fn view(&self) -> Seq<Coord> {
        line_at(self.coords@, self.geom_offsets@, self.geom_index as int)
    }
}

impl<'a, O: OffsetSize> LineString<'a, O> {
    #[verifier::type_invariant]
    closed spec fn wf(&self) -> bool {
        &&& is_offsets(self.geom_offsets@)
        &&& self.geom_index < self.geom_offsets@.len() - 1
        &&& self.geom_offsets@.last() <= self.coords@.len()
    }

    /// The line string at group `geom_index` of `geom_offsets`, over `coords`.
    pub fn new_borrowed(coords: &'a CoordBuffer, geom_offsets: &'a Offsets<O>, geom_index: usize) -> (r:
        Self)
        requires
            geom_index < geom_offsets@.len() - 1,
            geom_offsets@.last() <= coords@.len(),
        ensures
            r@ == line_at(coords@, geom_offsets@, geom_index as int),
    {
        proof {
            use_type_invariant(geom_offsets);
        }
        LineString { coords, geom_offsets, geom_index }
    }

    /// The number of coordinates.
    pub fn num_coords(&self) -> (n: usize)
        ensures
            n == self@.len(),
    {
        proof {
            use_type_invariant(self);
            lemma_offsets_ordered(
                self.geom_offsets@,
                self.geom_index as int,
                self.geom_index + 1,
            );
        }
        let (start, end) = self.geom_offsets.start_end(self.geom_index);
        end - start
    }

    /// The coordinate at position `i`, or `None` where the line is shorter.
    pub fn coord(&self, i: usize) -> (r: Option<Coord>)
        ensures
            r is Some <==> i < self@.len(),
            r is Some ==> r->Some_0 == self@[i as int],
    {
        proof {
            use_type_invariant(self);
            lemma_offsets_ordered(
                self.geom_offsets@,
                self.geom_index as int,
                self.geom_index + 1,
            );
        }
        let (start, end) = self.geom_offsets.start_end(self.geom_index);
        if i < end - start {
            Some(self.coords.value(start + i))
        } else {
            None
        }
    }

    /// The coordinates, copied out.
    pub fn to_vec(&self) -> (v: Vec<Coord>)
        ensures
            v@ == self@,
    {
        proof {
            use_type_invariant(self);
            lemma_offsets_ordered(
                self.geom_offsets@,
                self.geom_index as int,
                self.geom_index + 1,
            );
        }
        let (start, end) = self.geom_offsets.start_end(self.geom_index);
        self.coords.to_vec(start, end - start)
    }
}

} // verus!
