use crate::array::multilinestring::MultiLineStringArray;
use crate::builder::polygon::{flat, MutablePolygonArray, PolygonStage};
use crate::builder::staging::{lemma_staged_last, lemma_staged_push};
use crate::coord::Coord;
use crate::error::GeoArrowError;
use crate::offsets::OffsetSize;
use crate::scalar::polygon::rings_view;
use vstd::prelude::*;

verus! {

/// A growing array of multi line strings.
///
/// Multi line strings are staged exactly as polygons are, so the builder keeps a polygon
/// builder that never owes rings or coordinates.
pub struct MutableMultiLineStringArray<O: OffsetSize> {
    inner: MutablePolygonArray<O>,
}

impl<O: OffsetSize> View for MutableMultiLineStringArray<O> {
    type V = PolygonStage;

    closed spec fn view(&self) -> PolygonStage {
        self.inner@
    }
}

impl<O: OffsetSize> MutableMultiLineStringArray<O> {
    /// What holds of a builder between any two operations.
    pub closed spec fn wf(&self) -> bool {
        &&& self.inner.wf()
        &&& self.inner@.wf()
        &&& self.inner@.is_balanced()
    }

    /// An empty builder.
    pub fn new() -> (r: Self)
        ensures
            r.wf(),
            r@ == PolygonStage::empty(),
    {
        MutableMultiLineStringArray { inner: MutablePolygonArray::new() }
    }

    /// The number of slots pushed so far.
    pub fn len(&self) -> (n: usize)
        requires
            self.wf(),
        ensures
            n == self@.bits.len(),
    {
        self.inner.len()
    }

    /// Appends one slot: the lines of `value`, or a null slot where there is none.
    ///
    /// Fails with `Overflow`, and changes nothing, where the number of lines or of
    /// coordinates takes an offset beyond the width.
    pub fn push_multi_line_string(&mut self, value: Option<&Vec<Vec<Coord>>>) -> (r: Result<
        (),
        GeoArrowError,
    >)
        requires
            old(self).wf(),
        ensures
            final(self).wf(),
            r is Ok <==> (value is Some ==> {
                &&& old(self)@.geom_offsets.last() + value->Some_0@.len() <= O::max_value()
                &&& old(self)@.ring_offsets.last() + flat(
                    rings_view(value->Some_0@),
                    value->Some_0@.len() as int,
                ).len() <= O::max_value()
            }),
            r is Ok ==> final(self)@.polygons() == old(self)@.polygons().push(
                match value {
                    Some(lines) => Some(rings_view(lines@)),
                    None => None,
                },
            ),
            r is Err ==> r->Err_0 == GeoArrowError::Overflow && final(self)@ == old(self)@,
    {
        let ghost s = self.inner@;
        let r = self.inner.push_polygon(value);
        proof {
            if r is Ok {
                match value {
                    Some(lines) => s.lemma_with_polygon(rings_view(lines@)),
                    None => {
                        lemma_staged_last(s.geom_offsets);
                        lemma_staged_push(s.geom_offsets, s.geom_offsets.last());
                    },
                }
            }
        }
        r
    }

    /// Appends a null slot.
    pub fn push_null(&mut self)
        requires
            old(self).wf(),
        ensures
            final(self).wf(),
            final(self)@.polygons() == old(self)@.polygons().push(None),
    {
        let ghost s = self.inner@;
        self.inner.push_null();
        proof {
            crate::builder::polygon::lemma_null_keeps_polygons(s);
            lemma_staged_last(s.geom_offsets);
            lemma_staged_push(s.geom_offsets, s.geom_offsets.last());
        }
    }

    /// The finished array: the staged buffers, frozen.
    pub fn finish(self) -> (r: MultiLineStringArray<O>)
        requires
            self.wf(),
        ensures
            r@ == self@.polygons(),
            r.spec_layout().is_frozen(self@),
    {
        MultiLineStringArray::from_polygons(self.inner.into_array())
    }
}

} // verus!
