use crate::coord::{Coord, CoordBuffer};
use crate::datatypes::CoordType;
use crate::error::GeoArrowError;
use crate::offsets::{
    convert_spec, is_offsets, lemma_narrow_overflow, lemma_offsets_ordered,
    lemma_rebased_is_offsets, lemma_subrange_is_offsets, rebased, OffsetSize,
    Offsets,
};
use crate::scalar::linestring::{line_at, LineString};
use crate::validity::{
    bit_at, mask_bits, mask_fits, mask_range, owned_slice_validity, validity_bit, validity_eq,
    validity_len, validity_slice,
};
use arrow_buffer::NullBuffer;
use vstd::prelude::*;
use vstd::std_specs::cmp::PartialEqSpecImpl;

verus! {

/// What `LineStringArray::try_new` accepts: a mask, if any, with one bit per slot, and offsets
/// that end exactly at the end of the coordinates.
pub open spec fn check_spec(coords_len: int, validity_len: Option<int>, offsets: Seq<int>) -> Result<
    (),
    GeoArrowError,
> {
    if validity_len is Some && validity_len->Some_0 != offsets.len() - 1 {
        Err(GeoArrowError::ValidityLength)
    } else if offsets.last() != coords_len {
        Err(GeoArrowError::OffsetMismatch { level: 0 })
    } else {
        Ok(())
    }
}

/// Checks that the parts of a line string array fit together: first the mask, then the offsets.
pub fn check<O: OffsetSize>(
    coords: &CoordBuffer,
    validity_len: Option<usize>,
    geom_offsets: &Offsets<O>,
) -> (r: Result<(), GeoArrowError>)
    ensures
        r == check_spec(
            coords@.len() as int,
            match validity_len {
                Some(n) => Some(n as int),
                None => None,
            },
            geom_offsets@,
        ),
{
    match validity_len {
        Some(n) => {
            if n != geom_offsets.len_proxy() {
                return Err(GeoArrowError::ValidityLength);
            }
        },
        None => {},
    }
    if geom_offsets.last() != coords.len() {
        return Err(GeoArrowError::OffsetMismatch { level: 0 });
    }
    Ok(())
}

/// The parts of a generic list column over coordinates, as a consumer of columnar data
/// hands them over: with narrow offsets, with wide ones, or of some other type.
#[allow(inconsistent_fields)]
pub enum ListParts {
    List { coords: CoordBuffer, offsets: Offsets<i32>, validity: Option<NullBuffer> },
    LargeList { coords: CoordBuffer, offsets: Offsets<i64>, validity: Option<NullBuffer> },
    Other,
}

/// What `LineStringArray::try_from_list` makes of a column, where the offsets of the result
/// may go up to `max`: the parts must fit together, and their offsets must fit the width.
pub open spec fn from_list_spec(value: ListParts, max: int) -> Result<(), GeoArrowError> {
    match value {
        ListParts::List { coords, offsets, validity } => match check_spec(
            coords@.len() as int,
            match mask_bits(validity) {
                Some(m) => Some(m.len() as int),
                None => None,
            },
            offsets@,
        ) {
            Ok(_) => match convert_spec(offsets@, max) {
                Ok(_) => Ok(()),
                Err(e) => Err(e),
            },
            Err(e) => Err(e),
        },
        ListParts::LargeList { coords, offsets, validity } => match check_spec(
            coords@.len() as int,
            match mask_bits(validity) {
                Some(m) => Some(m.len() as int),
                None => None,
            },
            offsets@,
        ) {
            Ok(_) => match convert_spec(offsets@, max) {
                Ok(_) => Ok(()),
                Err(e) => Err(e),
            },
            Err(e) => Err(e),
        },
        ListParts::Other => Err(GeoArrowError::UnexpectedType),
    }
}

/// An immutable array of line strings.
///
/// Logically a sequence of optional line strings: slot `i` holds the coordinates that offsets
/// `i` and `i + 1` bound, unless the validity mask marks it null.
pub struct LineStringArray<O: OffsetSize> {
    coords: CoordBuffer,
    geom_offsets: Offsets<O>,
    validity: Option<NullBuffer>,
}

impl<O: OffsetSize> View for LineStringArray<O> {
    type V = Seq<Option<Seq<Coord>>>;

    open spec fn view(&self) -> Seq<Option<Seq<Coord>>> {
        Seq::new(self.spec_len() as nat, |i: int| self.spec_get(i))
    }
}

impl<O: OffsetSize> LineStringArray<O> {
    /// The coordinates that the offsets index. A slice keeps all of them.
    pub closed spec fn spec_coords(&self) -> Seq<Coord> {
        self.coords@
    }

    /// The layout of the coordinates.
    pub closed spec fn spec_coord_type(&self) -> CoordType {
        self.coords.spec_coord_type()
    }

    /// The offsets into the coordinates, one more than there are slots.
    pub closed spec fn spec_offsets(&self) -> Seq<int> {
        self.geom_offsets@
    }

    /// The bits of the validity mask, if there is one.
    pub closed spec fn spec_mask(&self) -> Option<Seq<bool>> {
        mask_bits(self.validity)
    }

    /// What holds of every array: the offsets are valid and stay within the coordinates, and
    /// the mask, if any, has one bit per slot.
    #[verifier::type_invariant]
    pub open spec fn wf(&self) -> bool {
        &&& is_offsets(self.spec_offsets())
        &&& self.spec_offsets().last() <= self.spec_coords().len()
        &&& self.spec_offsets().last() <= O::max_value()
        &&& mask_fits(self.spec_mask(), self.spec_len())
    }

    /// The number of slots.
    pub open spec fn spec_len(&self) -> int {
        self.spec_offsets().len() - 1
    }

    /// Whether slot `i` is valid.
    pub open spec fn spec_is_valid(&self, i: int) -> bool {
        bit_at(self.spec_mask(), i)
    }

    /// The line string that the offsets of slot `i` bound, whatever the mask says.
    pub open spec fn spec_value(&self, i: int) -> Seq<Coord> {
        line_at(self.spec_coords(), self.spec_offsets(), i)
    }

    /// The line string in slot `i`, or `None` where the slot is null.
    pub open spec fn spec_get(&self, i: int) -> Option<Seq<Coord>> {
        if self.spec_is_valid(i) {
            Some(self.spec_value(i))
        } else {
            None
        }
    }

    /// An array from its parts, which must fit together.
    pub fn new(coords: CoordBuffer, geom_offsets: Offsets<O>, validity: Option<NullBuffer>) -> (r:
        Self)
        requires
            check_spec(
                coords@.len() as int,
                match mask_bits(validity) {
                    Some(m) => Some(m.len() as int),
                    None => None,
                },
                geom_offsets@,
            ) is Ok,
        ensures
            r.spec_coords() == coords@,
            r.spec_coord_type() == coords.spec_coord_type(),
            r.spec_offsets() == geom_offsets@,
            r.spec_mask() == mask_bits(validity),
    {
        proof {
            use_type_invariant(&geom_offsets);
        }
        LineStringArray { coords, geom_offsets, validity }
    }

    /// An array from its parts, or the first reason why they do not fit together.
    pub fn try_new(
        coords: CoordBuffer,
        geom_offsets: Offsets<O>,
        validity: Option<NullBuffer>,
    ) -> (r: Result<Self, GeoArrowError>)
        ensures
            match check_spec(
                coords@.len() as int,
                match mask_bits(validity) {
                    Some(m) => Some(m.len() as int),
                    None => None,
                },
                geom_offsets@,
            ) {
                Ok(_) => r is Ok && r->Ok_0.spec_coords() == coords@ && r->Ok_0.spec_coord_type()
                    == coords.spec_coord_type() && r->Ok_0.spec_offsets() == geom_offsets@
                    && r->Ok_0.spec_mask() == mask_bits(validity),
                Err(e) => r is Err && r->Err_0 == e,
            },
    {
        match check(&coords, validity_len(&validity), &geom_offsets) {
            Ok(_) => Ok(LineStringArray::new(coords, geom_offsets, validity)),
            Err(e) => Err(e),
        }
    }

    /// The line string array that a list column holds, with offsets of the width `O`
    /// whichever width the column has.
    ///
    /// Fails with `UnexpectedType` where the column is no list, with the reason where its
    /// parts do not fit together, and with `Overflow` where a wide column does not fit narrow
    /// offsets.
    pub fn try_from_list(value: ListParts) -> (r: Result<Self, GeoArrowError>)
        ensures
            match from_list_spec(value, O::max_value()) {
                Ok(_) => r is Ok && match value {
                    ListParts::List { coords, offsets, validity } => r->Ok_0.spec_coords()
                        == coords@ && r->Ok_0.spec_offsets() == offsets@ && r->Ok_0.spec_mask()
                        == mask_bits(validity),
                    ListParts::LargeList { coords, offsets, validity } => r->Ok_0.spec_coords()
                        == coords@ && r->Ok_0.spec_offsets() == offsets@ && r->Ok_0.spec_mask()
                        == mask_bits(validity),
                    ListParts::Other => false,
                },
                Err(e) => r is Err && r->Err_0 == e,
            },
    {
        match value {
            ListParts::List { coords, offsets, validity } => {
                match LineStringArray::<i32>::try_new(coords, offsets, validity) {
                    Ok(a) => a.convert::<O>(),
                    Err(e) => Err(e),
                }
            },
            ListParts::LargeList { coords, offsets, validity } => {
                match LineStringArray::<i64>::try_new(coords, offsets, validity) {
                    Ok(a) => a.convert::<O>(),
                    Err(e) => Err(e),
                }
            },
            ListParts::Other => Err(GeoArrowError::UnexpectedType),
        }
    }

    /// The parts of the array: its coordinates, its offsets and its mask.
    pub fn into_inner(self) -> (r: (CoordBuffer, Offsets<O>, Option<NullBuffer>))
        ensures
            r.0@ == self.spec_coords(),
            r.0.spec_coord_type() == self.spec_coord_type(),
            r.1@ == self.spec_offsets(),
            mask_bits(r.2) == self.spec_mask(),
    {
        (self.coords, self.geom_offsets, self.validity)
    }

    /// The coordinates that the offsets index.
    pub fn coords(&self) -> (r: &CoordBuffer)
        ensures
            r@ == self.spec_coords(),
            r.spec_coord_type() == self.spec_coord_type(),
    {
        &self.coords
    }

    /// The offsets into the coordinates.
    pub fn geom_offsets(&self) -> (r: &Offsets<O>)
        ensures
            r@ == self.spec_offsets(),
    {
        &self.geom_offsets
    }

    /// The validity mask, if there is one.
    pub fn validity(&self) -> (r: Option<&NullBuffer>)
        ensures
            r is Some <==> self.spec_mask() is Some,
            r is Some ==> mask_bits(Some(*r->Some_0)) == self.spec_mask(),
    {
        self.validity.as_ref()
    }

    /// The layout of the coordinates.
    pub fn coord_type(&self) -> (t: CoordType)
        ensures
            t == self.spec_coord_type(),
    {
        self.coords.coord_type()
    }

    /// The number of slots.
    pub fn len(&self) -> (n: usize)
        ensures
            n == self.spec_len(),
            n == self@.len(),
    {
        self.geom_offsets.len_proxy()
    }

    /// Whether the array has no slots.
    pub fn is_empty(&self) -> (r: bool)
        ensures
            r == (self.spec_len() == 0),
    {
        self.len() == 0
    }

    /// Whether slot `i` is valid.
    pub fn is_valid(&self, i: usize) -> (r: bool)
        requires
            i < self.spec_len(),
        ensures
            r == self.spec_is_valid(i as int),
    {
        proof {
            use_type_invariant(self);
        }
        validity_bit(&self.validity, i)
    }

    /// Whether slot `i` is null.
    pub fn is_null(&self, i: usize) -> (r: bool)
        requires
            i < self.spec_len(),
        ensures
            r == !self.spec_is_valid(i as int),
            r == (self@[i as int] is None),
    {
        !self.is_valid(i)
    }

    /// The line string that the offsets of slot `i` bound, whatever the mask says.
    pub fn value(&self, i: usize) -> (r: LineString<'_, O>)
        requires
            i < self.spec_len(),
        ensures
            r@ == self.spec_value(i as int),
    {
        proof {
            use_type_invariant(self);
        }
        LineString::new_borrowed(&self.coords, &self.geom_offsets, i)
    }

    /// The line string in slot `i`, or `None` where the slot is null.
    pub fn get(&self, i: usize) -> (r: Option<LineString<'_, O>>)
        requires
            i < self.spec_len(),
        ensures
            r is None <==> !self.spec_is_valid(i as int),
            r is Some ==> r->Some_0@ == self.spec_value(i as int),
            match r {
                Some(g) => self@[i as int] == Some(g@),
                None => self@[i as int] is None,
            },
    {
        if self.is_null(i) {
            None
        } else {
            Some(self.value(i))
        }
    }

    /// Slots `offset .. offset + length`, sharing every buffer with `self`.
    ///
    /// Only the offsets and the mask are cut. The coordinates stay whole, and the offsets of
    /// the slice keep indexing them.
    pub fn slice(&self, offset: usize, length: usize) -> (r: Self)
        requires
            offset + length <= self.spec_len(),
        ensures
            r.is_slice_of(self, offset as int, length as int),
            r@ == self@.subrange(offset as int, offset + length),
            forall|i: int|
                0 <= i < length ==> r.spec_value(i) == self.spec_value(offset + i) && r.spec_get(i)
                    == self.spec_get(offset + i),
            forall|i: int| 0 <= i < length ==> r.spec_is_valid(i) == self.spec_is_valid(offset + i),
            r.spec_len() == length,
    {
        proof {
            use_type_invariant(self);
            lemma_subrange_is_offsets(self.spec_offsets(), offset as int, offset + length + 1);
            lemma_offsets_ordered(self.spec_offsets(), offset + length, offset + length);
        }
        let r = LineStringArray {
            coords: self.coords.clone(),
            geom_offsets: self.geom_offsets.slice(offset, length),
            validity: validity_slice(&self.validity, offset, length),
        };
        proof {
            self.lemma_slice_value(&r, offset as int, length as int);
        }
        r
    }

    /// Slots `offset .. offset + length`, copied into buffers of their own.
    ///
    /// The copy holds the coordinates that those slots span and no others, and its offsets
    /// start at zero.
    pub fn owned_slice(&self, offset: usize, length: usize) -> (r: Self)
        requires
            offset + length <= self.spec_len(),
        ensures
            r.is_owned_slice_of(self, offset as int, length as int),
            r@ == self@.subrange(offset as int, offset + length),
            forall|i: int|
                0 <= i < length ==> r.spec_value(i) == self.spec_value(offset + i) && r.spec_get(i)
                    == self.spec_get(offset + i),
            forall|i: int| 0 <= i < length ==> r.spec_is_valid(i) == self.spec_is_valid(offset + i),
            r.spec_len() == length,
    {
        proof {
            use_type_invariant(self);
            lemma_rebased_is_offsets(self.spec_offsets(), offset as int, length as int);
            lemma_offsets_ordered(self.spec_offsets(), offset as int, offset + length);
        }
        let _offsets = self.geom_offsets.len();
        let start = self.geom_offsets.get(offset);
        let end = self.geom_offsets.get(offset + length);
        let geom_offsets = self.geom_offsets.owned_slice(offset, length);
        let coords = self.coords.owned_slice(start, end - start);
        let validity = owned_slice_validity(&self.validity, offset, length);
        proof {
            use_type_invariant(&geom_offsets);
        }
        let r = LineStringArray { coords, geom_offsets, validity };
        proof {
            self.lemma_owned_slice_value(&r, offset as int, length as int);
        }
        r
    }

    /// The same array over `coords`, which must hold as many coordinates as the present ones.
    pub fn with_coords(self, coords: CoordBuffer) -> (r: Self)
        requires
            coords@.len() == self.spec_coords().len(),
        ensures
            r.spec_coords() == coords@,
            r.spec_coord_type() == coords.spec_coord_type(),
            r.spec_offsets() == self.spec_offsets(),
            r.spec_mask() == self.spec_mask(),
    {
        proof {
            use_type_invariant(&self);
        }
        LineStringArray { coords, geom_offsets: self.geom_offsets, validity: self.validity }
    }

    /// The same array with its coordinates laid out as `coord_type` says.
    pub fn into_coord_type(self, coord_type: CoordType) -> (r: Self)
        ensures
            r.spec_coords() == self.spec_coords(),
            r.spec_coord_type() == coord_type,
            r.spec_offsets() == self.spec_offsets(),
            r.spec_mask() == self.spec_mask(),
            r@ == self@,
    {
        proof {
            use_type_invariant(&self);
        }
        let r = LineStringArray {
            coords: self.coords.into_coord_type(coord_type),
            geom_offsets: self.geom_offsets,
            validity: self.validity,
        };
        proof {
            assert(r@ =~= self@);
        }
        r
    }

    /// The same array with offsets of another width.
    ///
    /// Widening always succeeds. Narrowing fails with `Overflow` exactly when the last offset
    /// is above what the narrower width can hold.
    pub fn convert<P: OffsetSize>(self) -> (r: Result<LineStringArray<P>, GeoArrowError>)
        ensures
            r is Ok <==> self.spec_offsets().last() <= P::max_value(),
            r is Ok ==> {
                &&& r->Ok_0.spec_coords() == self.spec_coords()
                &&& r->Ok_0.spec_coord_type() == self.spec_coord_type()
                &&& r->Ok_0.spec_offsets() == self.spec_offsets()
                &&& r->Ok_0.spec_mask() == self.spec_mask()
                &&& r->Ok_0@ == self@
            },
            r is Err ==> r->Err_0 == GeoArrowError::Overflow,
    {
        proof {
            use_type_invariant(&self);
        }
        match self.geom_offsets.convert::<P>() {
            Ok(geom_offsets) => {
                proof {
                    use_type_invariant(&geom_offsets);
                }
                let r = LineStringArray { coords: self.coords, geom_offsets, validity: self.validity };
                proof {
                    assert(r@ =~= self@);
                }
                Ok(r)
            },
            Err(e) => Err(e),
        }
    }

    /// Whether `self` and `other` have the same mask, the same offsets and the same
    /// coordinates. Arrays that are equal hold the same line string in every slot.
    pub fn equals(&self, other: &Self) -> (r: bool)
        ensures
            r == self.spec_equals(other),
            r ==> self@ == other@,
    {
        proof {
            use_type_invariant(self);
            use_type_invariant(other);
            if self.spec_equals(other) {
                self.lemma_equal_arrays_hold_equal_values(other);
            }
        }
        validity_eq(&self.validity, &other.validity) && self.geom_offsets.equals(
            &other.geom_offsets,
        ) && self.coords.equals(&other.coords)
    }

    /// Whether `self` and `other` hold the same line strings and the same nulls, slot by slot,
    /// whatever their offset widths, coordinate layouts and unused storage.
    pub fn same_geometries<P: OffsetSize>(&self, other: &LineStringArray<P>) -> (r: bool)
        ensures
            r == (self@ == other@),
    {
        let n = self.len();
        if n != other.len() {
            return false;
        }
        let mut i: usize = 0;
        while i < n
            invariant
                n == self.spec_len(),
                n == other.spec_len(),
                i <= n,
                forall|k: int| 0 <= k < i ==> self@[k] == other@[k],
            decreases n - i,
        {
            let same = match (self.get(i), other.get(i)) {
                (None, None) => true,
                (Some(a), Some(b)) => {
                    let x = a.to_vec();
                    let y = b.to_vec();
                    crate::scalar::owned::coords_equal(&x, &y)
                },
                _ => false,
            };
            if !same {
                assert(self@[i as int] != other@[i as int]);
                return false;
            }
            i += 1;
        }
        assert(self@ =~= other@);
        true
    }

    /// What `equals` and `==` decide: the same mask, the same offsets and the same
    /// coordinates.
    pub open spec fn spec_equals(&self, other: &Self) -> bool {
        &&& self.spec_mask() == other.spec_mask()
        &&& self.spec_offsets() == other.spec_offsets()
        &&& self.spec_coords() == other.spec_coords()
    }

    /// Equal arrays have as many slots and hold the same line string in every one of them,
    /// and equality does not depend on the side an array stands on.
    pub proof fn lemma_equal_arrays_hold_equal_values(&self, other: &Self)
        requires
            self.spec_equals(other),
        ensures
            other.spec_equals(self),
            self.spec_len() == other.spec_len(),
            self@ == other@,
            forall|i: int|
                0 <= i < self.spec_len() ==> self.spec_value(i) == other.spec_value(i)
                    && self.spec_is_valid(i) == other.spec_is_valid(i),
    {
        assert(self@ =~= other@);
    }

    /// Whether `self` is what `slice(offset, length)` makes of `a`: the same coordinates,
    /// whole, under the offsets and the mask of the chosen slots.
    pub open spec fn is_slice_of(&self, a: &Self, offset: int, length: int) -> bool {
        &&& self.spec_coords() == a.spec_coords()
        &&& self.spec_coord_type() == a.spec_coord_type()
        &&& self.spec_offsets() == a.spec_offsets().subrange(offset, offset + length + 1)
        &&& self.spec_mask() == mask_range(a.spec_mask(), offset, length)
    }

    /// Whether `self` is what `owned_slice(offset, length)` makes of `a`: the coordinates
    /// that the chosen slots span and no others, under offsets renumbered from zero.
    pub open spec fn is_owned_slice_of(&self, a: &Self, offset: int, length: int) -> bool {
        &&& self.spec_coords() == a.spec_coords().subrange(
            a.spec_offsets()[offset],
            a.spec_offsets()[offset + length],
        )
        &&& self.spec_coord_type() == a.spec_coord_type()
        &&& self.spec_offsets() == rebased(a.spec_offsets(), offset, length)
        &&& self.spec_mask() == mask_range(a.spec_mask(), offset, length)
    }

    /// Slot `i` of a slice is slot `offset + i` of the array it was cut from.
    pub proof fn lemma_slice_value(&self, b: &Self, offset: int, length: int)
        requires
            self.wf(),
            0 <= offset,
            0 <= length,
            offset + length <= self.spec_len(),
            b.is_slice_of(self, offset, length),
        ensures
            b.wf(),
            b.spec_len() == length,
            b@ == self@.subrange(offset, offset + length),
            forall|i: int|
                0 <= i < length ==> b.spec_value(i) == self.spec_value(offset + i) && b.spec_get(i)
                    == self.spec_get(offset + i),
            forall|i: int| 0 <= i < length ==> b.spec_is_valid(i) == self.spec_is_valid(offset + i),
    {
        lemma_subrange_is_offsets(self.spec_offsets(), offset, offset + length + 1);
        lemma_offsets_ordered(self.spec_offsets(), offset + length, offset + length);
        assert(b@ =~= self@.subrange(offset, offset + length));
    }

    /// An owned slice holds the same line strings as the slots it copies, in buffers that
    /// hold nothing else: its offsets start at zero and end at the end of its coordinates.
    pub proof fn lemma_owned_slice_value(&self, b: &Self, offset: int, length: int)
        requires
            self.wf(),
            0 <= offset,
            0 <= length,
            offset + length <= self.spec_len(),
            b.is_owned_slice_of(self, offset, length),
        ensures
            b.wf(),
            b.spec_len() == length,
            b.spec_offsets()[0] == 0,
            b.spec_offsets().last() == b.spec_coords().len(),
            b.spec_coords().len() == self.spec_offsets()[offset + length]
                - self.spec_offsets()[offset],
            b@ == self@.subrange(offset, offset + length),
            forall|i: int|
                0 <= i < length ==> b.spec_value(i) == self.spec_value(offset + i) && b.spec_get(i)
                    == self.spec_get(offset + i),
            forall|i: int| 0 <= i < length ==> b.spec_is_valid(i) == self.spec_is_valid(offset + i),
    {
        lemma_rebased_is_offsets(self.spec_offsets(), offset, length);
        lemma_offsets_ordered(self.spec_offsets(), offset, offset + length);
        lemma_offsets_ordered(self.spec_offsets(), offset + length, self.spec_len());
        assert forall|i: int| 0 <= i < length implies b.spec_value(i) == self.spec_value(
            offset + i,
        ) && b.spec_get(i) == self.spec_get(offset + i) by {
            lemma_offsets_ordered(self.spec_offsets(), offset, offset + i);
            lemma_offsets_ordered(self.spec_offsets(), offset + i, offset + i + 1);
            lemma_offsets_ordered(self.spec_offsets(), offset + i + 1, offset + length);
            assert(b.spec_value(i) =~= self.spec_value(offset + i));
        }
        assert(b@ =~= self@.subrange(offset, offset + length));
    }

    /// A slot is null exactly when `get` finds nothing in it; what `value` finds there does
    /// not depend on the mask.
    pub proof fn lemma_null_iff_absent(&self, i: int)
        requires
            self.wf(),
            0 <= i < self.spec_len(),
        ensures
            !self.spec_is_valid(i) <==> self.spec_get(i) is None,
            self@[i] == self.spec_get(i),
            self.spec_get(i) is Some ==> self.spec_get(i)->Some_0 == self.spec_value(i),
    {
    }

    /// An array of narrow offsets comes back unchanged from widening and narrowing again,
    /// and narrowing fails, with `Overflow`, exactly when some offset is above the narrow
    /// maximum.
    pub proof fn lemma_width_conversion(&self)
        requires
            self.wf(),
        ensures
            O::max_value() == i32::MAX ==> convert_spec(
                self.spec_offsets(),
                i64::MAX as int,
            ) is Ok && convert_spec(self.spec_offsets(), i32::MAX as int) is Ok,
            convert_spec(self.spec_offsets(), i32::MAX as int) is Err <==> exists|i: int|
                0 <= i < self.spec_offsets().len() && self.spec_offsets()[i] > i32::MAX as int,
            convert_spec(self.spec_offsets(), i32::MAX as int) is Err ==> convert_spec(
                self.spec_offsets(),
                i32::MAX as int,
            )->Err_0 == GeoArrowError::Overflow,
    {
        lemma_narrow_overflow(self.spec_offsets());
    }

    /// The line strings of all slots, whatever the mask says, copied out.
    pub fn iter_geo_values(&self) -> (v: Vec<Vec<Coord>>)
        ensures
            v@.len() == self.spec_len(),
            forall|i: int| 0 <= i < v@.len() ==> (#[trigger] v@[i])@ == self.spec_value(i),
    {
        let n = self.len();
        let mut v: Vec<Vec<Coord>> = Vec::new();
        let mut i: usize = 0;
        while i < n
            invariant
                n == self.spec_len(),
                i <= n,
                v@.len() == i,
                forall|k: int| 0 <= k < i ==> (#[trigger] v@[k])@ == self.spec_value(k),
            decreases n - i,
        {
            v.push(self.value(i).to_vec());
            i += 1;
        }
        v
    }

    /// The line strings of all slots, `None` for the null ones, copied out.
    pub fn iter_geo(&self) -> (v: Vec<Option<Vec<Coord>>>)
        ensures
            v@.len() == self.spec_len(),
            forall|i: int|
                0 <= i < v@.len() ==> match #[trigger] v@[i] {
                    Some(line) => self@[i] == Some(line@),
                    None => self@[i] is None,
                },
    {
        let n = self.len();
        let mut v: Vec<Option<Vec<Coord>>> = Vec::new();
        let mut i: usize = 0;
        while i < n
            invariant
                n == self.spec_len(),
                i <= n,
                v@.len() == i,
                forall|k: int|
                    0 <= k < i ==> match #[trigger] v@[k] {
                        Some(line) => self@[k] == Some(line@),
                        None => self@[k] is None,
                    },
            decreases n - i,
        {
            match self.get(i) {
                Some(line) => v.push(Some(line.to_vec())),
                None => v.push(None),
            }
            i += 1;
        }
        v
    }
}

impl<O: OffsetSize> Default for LineStringArray<O> {
    /// The array without slots.
    fn default() -> (r: Self)
        ensures
            r.spec_len() == 0,
            r.spec_coords() == Seq::<Coord>::empty(),
            r.spec_offsets() == seq![0int],
            r.spec_mask() is None,
    {
        let coords = CoordBuffer::from_coords(&Vec::new(), CoordType::Interleaved);
        LineStringArray::new(coords, Offsets::new_empty(), None)
    }
}

impl<O: OffsetSize> Clone for LineStringArray<O> {
    /// A second handle on the same buffers.
    fn clone(&self) -> (r: Self)
        ensures
            r.spec_coords() == self.spec_coords(),
            r.spec_coord_type() == self.spec_coord_type(),
            r.spec_offsets() == self.spec_offsets(),
            r.spec_mask() == self.spec_mask(),
            r@ == self@,
            r.spec_equals(self),
    {
        let n = self.len();
        let r = self.slice(0, n);
        proof {
            use_type_invariant(self);
            assert(self@.subrange(0, n as int) =~= self@);
            assert(mask_range(self.spec_mask(), 0, n as int) =~= self.spec_mask());
        }
        r
    }
}

impl<O: OffsetSize> PartialEq for LineStringArray<O> {
    fn eq(&self, other: &Self) -> (r: bool) {
        self.equals(other)
    }
}

impl<O: OffsetSize> PartialEqSpecImpl for LineStringArray<O> {
    open spec fn obeys_eq_spec() -> bool {
        true
    }

    open spec fn eq_spec(&self, other: &Self) -> bool {
        self.spec_equals(other)
    }
}

} // verus!
