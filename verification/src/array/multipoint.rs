use crate::array::linestring::{check_spec, LineStringArray};
use crate::array::polygon::mask_len;
use crate::coord::{Coord, CoordBuffer};
use crate::datatypes::CoordType;
use crate::error::GeoArrowError;
use crate::offsets::{OffsetSize, Offsets};
use crate::scalar::linestring::LineString;
use crate::validity::mask_bits;
use arrow_buffer::NullBuffer;
use vstd::prelude::*;
use vstd::std_specs::cmp::PartialEqSpecImpl;

verus! {

/// An immutable array of multi points.
///
/// A multi point is stored exactly as a line string is: one level of offsets over the
/// coordinates. The array therefore keeps a line string array and reads its groups as sets
/// of points. The two kinds share a layout, not a meaning.
pub struct MultiPointArray<O: OffsetSize> {
    inner: LineStringArray<O>,
}

impl<O: OffsetSize> View for MultiPointArray<O> {
    type V = Seq<Option<Seq<Coord>>>;

    open spec fn view(&self) -> Seq<Option<Seq<Coord>>> {
        self.spec_layout()@
    }
}

impl<O: OffsetSize> MultiPointArray<O> {
    /// The line string array that has the same buffers.
    pub closed spec fn spec_layout(&self) -> LineStringArray<O> {
        self.inner
    }

    /// What holds of every array: what holds of its layout.
    #[verifier::type_invariant]
    pub open spec fn wf(&self) -> bool {
        self.spec_layout().wf()
    }

    /// The number of slots.
    pub open spec fn spec_len(&self) -> int {
        self.spec_layout().spec_len()
    }

    /// Whether slot `i` is valid.
    pub open spec fn spec_is_valid(&self, i: int) -> bool {
        self.spec_layout().spec_is_valid(i)
    }

    /// The points that the offsets of slot `i` bound, whatever the mask says.
    pub open spec fn spec_value(&self, i: int) -> Seq<Coord> {
        self.spec_layout().spec_value(i)
    }

    /// The multi point in slot `i`, or `None` where the slot is null.
    pub open spec fn spec_get(&self, i: int) -> Option<Seq<Coord>> {
        self.spec_layout().spec_get(i)
    }

    /// The multi point array that reads the buffers of `lines` as sets of points. Nothing is
    /// copied.
    pub fn from_line_strings(lines: LineStringArray<O>) -> (r: Self)
        ensures
            r.spec_layout() == lines,
            r@ == lines@,
    {
        proof {
            use_type_invariant(&lines);
        }
        MultiPointArray { inner: lines }
    }

    /// The line string array that reads the buffers of `self` as lines. Nothing is copied.
    pub fn into_line_strings(self) -> (r: LineStringArray<O>)
        ensures
            r == self.spec_layout(),
            r@ == self@,
    {
        self.inner
    }

    /// The line string array that has the same buffers.
    pub fn layout(&self) -> (r: &LineStringArray<O>)
        ensures
            *r == self.spec_layout(),
    {
        &self.inner
    }

    /// An array from its parts, which must fit together.
    pub fn new(coords: CoordBuffer, geom_offsets: Offsets<O>, validity: Option<NullBuffer>) -> (r:
        Self)
        requires
            check_spec(coords@.len() as int, mask_len(mask_bits(validity)), geom_offsets@) is Ok,
        ensures
            r.spec_layout().spec_coords() == coords@,
            r.spec_layout().spec_coord_type() == coords.spec_coord_type(),
            r.spec_layout().spec_offsets() == geom_offsets@,
            r.spec_layout().spec_mask() == mask_bits(validity),
    {
        Self::from_line_strings(LineStringArray::new(coords, geom_offsets, validity))
    }

    /// An array from its parts, or the first reason why they do not fit together.
    pub fn try_new(
        coords: CoordBuffer,
        geom_offsets: Offsets<O>,
        validity: Option<NullBuffer>,
    ) -> (r: Result<Self, GeoArrowError>)
        ensures
            match check_spec(coords@.len() as int, mask_len(mask_bits(validity)), geom_offsets@) {
                Ok(_) => r is Ok && r->Ok_0.spec_layout().spec_coords() == coords@
                    && r->Ok_0.spec_layout().spec_coord_type() == coords.spec_coord_type()
                    && r->Ok_0.spec_layout().spec_offsets() == geom_offsets@
                    && r->Ok_0.spec_layout().spec_mask() == mask_bits(validity),
                Err(e) => r is Err && r->Err_0 == e,
            },
    {
        match LineStringArray::try_new(coords, geom_offsets, validity) {
            Ok(inner) => Ok(Self::from_line_strings(inner)),
            Err(e) => Err(e),
        }
    }

    /// The validity mask, if there is one.
    pub fn validity(&self) -> (r: Option<&NullBuffer>)
        ensures
            r is Some <==> self.spec_layout().spec_mask() is Some,
            r is Some ==> mask_bits(Some(*r->Some_0)) == self.spec_layout().spec_mask(),
    {
        self.inner.validity()
    }

    /// The layout of the coordinates.
    pub fn coord_type(&self) -> (t: CoordType)
        ensures
            t == self.spec_layout().spec_coord_type(),
    {
        self.inner.coord_type()
    }

    /// The number of slots.
    pub fn len(&self) -> (n: usize)
        ensures
            n == self.spec_len(),
            n == self@.len(),
    {
        self.inner.len()
    }

    /// Whether the array has no slots.
    pub fn is_empty(&self) -> (r: bool)
        ensures
            r == (self.spec_len() == 0),
    {
        self.inner.is_empty()
    }

    /// Whether slot `i` is valid.
    pub fn is_valid(&self, i: usize) -> (r: bool)
        requires
            i < self.spec_len(),
        ensures
            r == self.spec_is_valid(i as int),
    {
        self.inner.is_valid(i)
    }

    /// Whether slot `i` is null.
    pub fn is_null(&self, i: usize) -> (r: bool)
        requires
            i < self.spec_len(),
        ensures
            r == !self.spec_is_valid(i as int),
            r == (self@[i as int] is None),
    {
        self.inner.is_null(i)
    }

    /// The points that the offsets of slot `i` bound, whatever the mask says.
    pub fn value(&self, i: usize) -> (r: LineString<'_, O>)
        requires
            i < self.spec_len(),
        ensures
            r@ == self.spec_value(i as int),
    {
        self.inner.value(i)
    }

    /// The multi point in slot `i`, or `None` where the slot is null.
    pub fn get(&self, i: usize) -> (r: Option<LineString<'_, O>>)
        requires
            i < self.spec_len(),
        ensures
            r is None <==> !self.spec_is_valid(i as int),
            r is Some ==> r->Some_0@ == self.spec_value(i as int),
            match r {
                Some(g) => self@[i as int] == Some(g@),
                None => self@[i as int] is None,
            },
    {
        self.inner.get(i)
    }

    /// Slots `offset .. offset + length`, sharing every buffer with `self`.
    pub fn slice(&self, offset: usize, length: usize) -> (r: Self)
        requires
            offset + length <= self.spec_len(),
        ensures
            r.spec_layout().is_slice_of(&self.spec_layout(), offset as int, length as int),
            r@ == self@.subrange(offset as int, offset + length),
            forall|i: int|
                0 <= i < length ==> r.spec_value(i) == self.spec_value(offset + i) && r.spec_get(i)
                    == self.spec_get(offset + i),
            forall|i: int| 0 <= i < length ==> r.spec_is_valid(i) == self.spec_is_valid(offset + i),
            r.spec_len() == length,
    {
        Self::from_line_strings(self.inner.slice(offset, length))
    }

    /// Slots `offset .. offset + length`, copied into buffers of their own.
    pub fn owned_slice(&self, offset: usize, length: usize) -> (r: Self)
        requires
            offset + length <= self.spec_len(),
        ensures
            r.spec_layout().is_owned_slice_of(&self.spec_layout(), offset as int, length as int),
            r@ == self@.subrange(offset as int, offset + length),
            forall|i: int|
                0 <= i < length ==> r.spec_value(i) == self.spec_value(offset + i) && r.spec_get(i)
                    == self.spec_get(offset + i),
            forall|i: int| 0 <= i < length ==> r.spec_is_valid(i) == self.spec_is_valid(offset + i),
            r.spec_len() == length,
    {
        Self::from_line_strings(self.inner.owned_slice(offset, length))
    }

    /// The same array with its coordinates laid out as `coord_type` says.
    pub fn into_coord_type(self, coord_type: CoordType) -> (r: Self)
        ensures
            r.spec_layout().spec_coord_type() == coord_type,
            r.spec_layout().spec_coords() == self.spec_layout().spec_coords(),
            r.spec_layout().spec_offsets() == self.spec_layout().spec_offsets(),
            r.spec_layout().spec_mask() == self.spec_layout().spec_mask(),
            r@ == self@,
    {
        Self::from_line_strings(self.inner.into_coord_type(coord_type))
    }

    /// The same array with offsets of another width; `Overflow` where the last offset does
    /// not fit it.
    pub fn convert<P: OffsetSize>(self) -> (r: Result<MultiPointArray<P>, GeoArrowError>)
        ensures
            r is Ok <==> self.spec_layout().spec_offsets().last() <= P::max_value(),
            r is Ok ==> r->Ok_0@ == self@ && r->Ok_0.spec_layout().spec_offsets()
                == self.spec_layout().spec_offsets(),
            r is Err ==> r->Err_0 == GeoArrowError::Overflow,
    {
        match self.inner.convert::<P>() {
            Ok(inner) => Ok(MultiPointArray::<P>::from_line_strings(inner)),
            Err(e) => Err(e),
        }
    }

    /// Whether `self` and `other` have the same mask, the same offsets and the same
    /// coordinates. Arrays that are equal hold the same multi point in every slot.
    pub fn equals(&self, other: &Self) -> (r: bool)
        ensures
            r == self.spec_layout().spec_equals(&other.spec_layout()),
            r ==> self@ == other@,
    {
        self.inner.equals(&other.inner)
    }
}

impl<O: OffsetSize> Clone for MultiPointArray<O> {
    /// A second handle on the same buffers.
    fn clone(&self) -> (r: Self)
        ensures
            r@ == self@,
    {
        Self::from_line_strings(self.inner.clone())
    }
}

impl<O: OffsetSize> Default for MultiPointArray<O> {
    /// The array without slots.
    fn default() -> (r: Self)
        ensures
            r.spec_len() == 0,
    {
        Self::from_line_strings(LineStringArray::default())
    }
}

impl<O: OffsetSize> PartialEq for MultiPointArray<O> {
    fn eq(&self, other: &Self) -> (r: bool) {
        self.equals(other)
    }
}

impl<O: OffsetSize> PartialEqSpecImpl for MultiPointArray<O> {
    open spec fn obeys_eq_spec() -> bool {
        true
    }

    open spec fn eq_spec(&self, other: &Self) -> bool {
        self.spec_layout().spec_equals(&other.spec_layout())
    }
}

} // verus!
