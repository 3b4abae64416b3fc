use crate::array::multipoint::MultiPointArray;
use crate::builder::linestring::{LineStage, MutableLineStringArray};
use crate::coord::Coord;
use crate::error::GeoArrowError;
use crate::offsets::OffsetSize;
use vstd::prelude::*;

verus! {

/// A growing array of multi points.
///
/// Multi points are staged exactly as line strings are, so the builder keeps a line string
/// builder that never owes coordinates.
pub struct MutableMultiPointArray<O: OffsetSize> {
    inner: MutableLineStringArray<O>,
}

impl<O: OffsetSize> View for MutableMultiPointArray<O> {
    type V = LineStage;

    closed spec fn view(&self) -> LineStage {
        self.inner@
    }
}

impl<O: OffsetSize> MutableMultiPointArray<O> {
    /// What holds of a builder between any two operations.
    pub closed spec fn wf(&self) -> bool {
        &&& self.inner.wf()
        &&& self.inner@.wf()
        &&& self.inner@.is_balanced()
    }

    /// An empty builder.
    pub fn new() -> (r: Self)
        ensures
            r.wf(),
            r@ == LineStage::empty(),
    {
        MutableMultiPointArray { inner: MutableLineStringArray::new() }
    }

    /// The number of slots pushed so far.
    pub fn len(&self) -> (n: usize)
        requires
            self.wf(),
        ensures
            n == self@.bits.len(),
    {
        self.inner.len()
    }

    /// Appends one slot: the points of `value`, or a null slot where there is none.
    ///
    /// Fails with `Overflow`, and changes nothing, where the new offset does not fit the width.
    pub fn push_multi_point(&mut self, value: Option<&Vec<Coord>>) -> (r: Result<
        (),
        GeoArrowError,
    >)
        requires
            old(self).wf(),
        ensures
            final(self).wf(),
            r is Ok <==> (value is Some ==> old(self)@.geom_offsets.last() + value->Some_0@.len()
                <= O::max_value()),
            r is Ok ==> final(self)@.lines() == old(self)@.lines().push(
                match value {
                    Some(points) => Some(points@),
                    None => None,
                },
            ),
            r is Err ==> r->Err_0 == GeoArrowError::Overflow && final(self)@ == old(self)@,
    {
        let ghost s = self.inner@;
        let r = self.inner.push_line_string(value);
        proof {
            if r is Ok {
                match value {
                    Some(points) => s.lemma_with_line(points@),
                    None => s.lemma_add_null(),
                }
            }
        }
        r
    }

    /// Appends a null slot.
    pub fn push_null(&mut self)
        requires
            old(self).wf(),
        ensures
            final(self).wf(),
            final(self)@.lines() == old(self)@.lines().push(None),
    {
        let ghost s = self.inner@;
        self.inner.push_null();
        proof {
            s.lemma_add_null();
        }
    }

    /// The finished array: the staged buffers, frozen.
    pub fn finish(self) -> (r: MultiPointArray<O>)
        requires
            self.wf(),
        ensures
            r@ == self@.lines(),
            r.spec_layout().is_frozen(self@),
    {
        MultiPointArray::from_line_strings(self.inner.into_array())
    }
}

} // verus!
