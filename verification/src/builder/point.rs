use crate::array::point::PointArray;
use crate::coord::{interleaved_coords, Coord, CoordBuffer, InterleavedCoordBuffer};
use crate::datatypes::CoordType;
use crate::validity::{all_set, validity_from_bits};
use vstd::prelude::*;

verus! {

/// The points that staged buffers spell, slot by slot.
pub open spec fn staged_points(coords: Seq<Coord>, bits: Seq<bool>) -> Seq<Option<Coord>> {
    Seq::new(
        bits.len(),
        |i: int|
            if bits[i] {
                Some(coords[i])
            } else {
                None
            },
    )
}

/// A growing array of points.
pub struct MutablePointArray {
    coords: Vec<u64>,
    validity: Vec<bool>,
}

impl View for MutablePointArray {
    type V = Seq<Option<Coord>>;

    closed spec fn view(&self) -> Seq<Option<Coord>> {
        staged_points(interleaved_coords(self.coords@), self.validity@)
    }
}

impl MutablePointArray {
    /// What holds of a builder between any two operations: one coordinate and one bit per
    /// slot.
    pub closed spec fn wf(&self) -> bool {
        self.coords@.len() == 2 * self.validity@.len()
    }

    /// An empty builder.
    pub fn new() -> (r: Self)
        ensures
            r.wf(),
            r@ == Seq::<Option<Coord>>::empty(),
    {
        Self::with_capacity(0)
    }

    /// An empty builder with room for `capacity` slots.
    pub fn with_capacity(capacity: usize) -> (r: Self)
        ensures
            r.wf(),
            r@ == Seq::<Option<Coord>>::empty(),
    {
        let mut coords: Vec<u64> = Vec::new();
        let mut validity: Vec<bool> = Vec::new();
        if capacity <= usize::MAX / 2 {
            let _ = coords.try_reserve(2 * capacity);
        }
        let _ = validity.try_reserve(capacity);
        let r = MutablePointArray { coords, validity };
        assert(r@ =~= Seq::<Option<Coord>>::empty());
        r
    }

    /// The number of slots pushed so far.
    pub fn len(&self) -> (n: usize)
        requires
            self.wf(),
        ensures
            n == self@.len(),
    {
        self.validity.len()
    }

    /// Appends one slot: the point `value`, or a null slot where there is none.
    ///
    /// A null slot stores the coordinate whose two words are zero.
    pub fn push_point(&mut self, value: Option<Coord>)
        requires
            old(self).wf(),
        ensures
            final(self).wf(),
            final(self)@ == old(self)@.push(value),
    {
        let ghost before = self.coords@;
        let ghost old_view = self@;
        let c = match value {
            Some(c) => c,
            None => Coord { x: 0, y: 0 },
        };
        self.coords.push(c.x);
        self.coords.push(c.y);
        self.validity.push(value.is_some());
        proof {
            assert(interleaved_coords(self.coords@) =~= interleaved_coords(before).push(c));
            assert(self@ =~= old_view.push(value));
        }
    }

    /// Appends a null slot.
    pub fn push_null(&mut self)
        requires
            old(self).wf(),
        ensures
            final(self).wf(),
            final(self)@ == old(self)@.push(None),
    {
        self.push_point(None)
    }

    /// The finished array: the staged buffers, frozen. The mask is left out where every slot
    /// is valid.
    pub fn finish(self) -> (r: PointArray)
        requires
            self.wf(),
        ensures
            r@ == self@,
            r.spec_coord_type() == CoordType::Interleaved,
            r.spec_mask() is None <==> forall|i: int| 0 <= i < self@.len() ==> self@[i] is Some,
    {
        let ghost me = self@;
        let ghost bits = self.validity@;
        let coords = CoordBuffer::Interleaved(InterleavedCoordBuffer::new(self.coords));
        let validity = validity_from_bits(self.validity);
        let r = PointArray::new(coords, validity);
        proof {
            assert(r@ =~= me);
            if all_set(bits) {
                assert forall|i: int| 0 <= i < me.len() implies me[i] is Some by {
                    assert(bits[i]);
                }
            } else {
                let i = choose|i: int| 0 <= i < bits.len() && !bits[i];
                assert(me[i] is None);
            }
        }
        r
    }
}

} // verus!
