use crate::coord::{Coord, CoordBuffer};
use crate::datatypes::CoordType;
use crate::error::GeoArrowError;
use crate::validity::{
    bit_at, mask_bits, mask_fits, mask_range, owned_slice_validity, validity_bit, validity_eq,
    validity_len, validity_slice,
};
use arrow_buffer::NullBuffer;
use vstd::prelude::*;
use vstd::std_specs::cmp::PartialEqSpecImpl;

verus! {

/// What `PointArray::try_new` accepts: a mask, if any, with one bit per coordinate.
pub open spec fn check_spec(coords_len: int, validity_len: Option<int>) -> Result<
    (),
    GeoArrowError,
> {
    if validity_len is Some && validity_len->Some_0 != coords_len {
        Err(GeoArrowError::ValidityLength)
    } else {
        Ok(())
    }
}

/// Checks that the parts of a point array fit together.
pub fn check(coords: &CoordBuffer, validity_len: Option<usize>) -> (r: Result<(), GeoArrowError>)
    ensures
        r == check_spec(
            coords@.len() as int,
            match validity_len {
                Some(n) => Some(n as int),
                None => None,
            },
        ),
{
    match validity_len {
        Some(n) => {
            if n != coords.len() {
                return Err(GeoArrowError::ValidityLength);
            }
        },
        None => {},
    }
    Ok(())
}

/// An immutable array of points: one coordinate per slot.
pub struct PointArray {
    coords: CoordBuffer,
    validity: Option<NullBuffer>,
}

impl View for PointArray {
    type V = Seq<Option<Coord>>;

    open spec fn view(&self) -> Seq<Option<Coord>> {
        Seq::new(self.spec_len() as nat, |i: int| self.spec_get(i))
    }
}

impl PointArray {
    /// The coordinates, one per slot.
    pub closed spec fn spec_coords(&self) -> Seq<Coord> {
        self.coords@
    }

    /// The layout of the coordinates.
    pub closed spec fn spec_coord_type(&self) -> CoordType {
        self.coords.spec_coord_type()
    }

    /// The bits of the validity mask, if there is one.
    pub closed spec fn spec_mask(&self) -> Option<Seq<bool>> {
        mask_bits(self.validity)
    }

    /// What holds of every array: the mask, if any, has one bit per slot.
    #[verifier::type_invariant]
    pub open spec fn wf(&self) -> bool {
        mask_fits(self.spec_mask(), self.spec_len())
    }

    /// The number of slots.
    pub open spec fn spec_len(&self) -> int {
        self.spec_coords().len() as int
    }

    /// Whether slot `i` is valid.
    pub open spec fn spec_is_valid(&self, i: int) -> bool {
        bit_at(self.spec_mask(), i)
    }

    /// The coordinate stored in slot `i`, whatever the mask says.
    pub open spec fn spec_value(&self, i: int) -> Coord {
        self.spec_coords()[i]
    }

    /// The point in slot `i`, or `None` where the slot is null.
    pub open spec fn spec_get(&self, i: int) -> Option<Coord> {
        if self.spec_is_valid(i) {
            Some(self.spec_value(i))
        } else {
            None
        }
    }

    /// Whether `self` is what `slice(offset, length)` and `owned_slice(offset, length)` make
    /// of `a`: the coordinates and the mask of the chosen slots.
    pub open spec fn is_slice_of(&self, a: &Self, offset: int, length: int) -> bool {
        &&& self.spec_coords() == a.spec_coords().subrange(offset, offset + length)
        &&& self.spec_coord_type() == a.spec_coord_type()
        &&& self.spec_mask() == mask_range(a.spec_mask(), offset, length)
    }

    /// What `equals` decides.
    pub open spec fn spec_equals(&self, other: &Self) -> bool {
        &&& self.spec_mask() == other.spec_mask()
        &&& self.spec_coords() == other.spec_coords()
    }

    /// An array from its parts, which must fit together.
    pub fn new(coords: CoordBuffer, validity: Option<NullBuffer>) -> (r: Self)
        requires
            mask_fits(mask_bits(validity), coords@.len() as int),
        ensures
            r.spec_coords() == coords@,
            r.spec_coord_type() == coords.spec_coord_type(),
            r.spec_mask() == mask_bits(validity),
    {
        PointArray { coords, validity }
    }

    /// An array from its parts, or the reason why they do not fit together.
    pub fn try_new(coords: CoordBuffer, validity: Option<NullBuffer>) -> (r: Result<
        Self,
        GeoArrowError,
    >)
        ensures
            r is Ok <==> mask_fits(mask_bits(validity), coords@.len() as int),
            r is Ok ==> {
                &&& r->Ok_0.spec_coords() == coords@
                &&& r->Ok_0.spec_coord_type() == coords.spec_coord_type()
                &&& r->Ok_0.spec_mask() == mask_bits(validity)
            },
            r is Err ==> r->Err_0 == GeoArrowError::ValidityLength,
    {
        match check(&coords, validity_len(&validity)) {
            Ok(_) => Ok(PointArray::new(coords, validity)),
            Err(e) => Err(e),
        }
    }

    /// The coordinates.
    pub fn coords(&self) -> (r: &CoordBuffer)
        ensures
            r@ == self.spec_coords(),
            r.spec_coord_type() == self.spec_coord_type(),
    {
        &self.coords
    }

    /// The validity mask, if there is one.
    pub fn validity(&self) -> (r: Option<&NullBuffer>)
        ensures
            r is Some <==> self.spec_mask() is Some,
            r is Some ==> mask_bits(Some(*r->Some_0)) == self.spec_mask(),
    {
        self.validity.as_ref()
    }

    /// The layout of the coordinates.
    pub fn coord_type(&self) -> (t: CoordType)
        ensures
            t == self.spec_coord_type(),
    {
        self.coords.coord_type()
    }

    /// The number of slots.
    pub fn len(&self) -> (n: usize)
        ensures
            n == self.spec_len(),
            n == self@.len(),
    {
        self.coords.len()
    }

    /// Whether the array has no slots.
    pub fn is_empty(&self) -> (r: bool)
        ensures
            r == (self.spec_len() == 0),
    {
        self.len() == 0
    }

    /// Whether slot `i` is valid.
    pub fn is_valid(&self, i: usize) -> (r: bool)
        requires
            i < self.spec_len(),
        ensures
            r == self.spec_is_valid(i as int),
    {
        proof {
            use_type_invariant(self);
        }
        validity_bit(&self.validity, i)
    }

    /// Whether slot `i` is null.
    pub fn is_null(&self, i: usize) -> (r: bool)
        requires
            i < self.spec_len(),
        ensures
            r == !self.spec_is_valid(i as int),
            r == (self@[i as int] is None),
    {
        !self.is_valid(i)
    }

    /// The coordinate stored in slot `i`, whatever the mask says.
    pub fn value(&self, i: usize) -> (r: Coord)
        requires
            i < self.spec_len(),
        ensures
            r == self.spec_value(i as int),
    {
        self.coords.value(i)
    }

    /// The point in slot `i`, or `None` where the slot is null.
    pub fn get(&self, i: usize) -> (r: Option<Coord>)
        requires
            i < self.spec_len(),
        ensures
            r == self.spec_get(i as int),
            r == self@[i as int],
    {
        if self.is_null(i) {
            None
        } else {
            Some(self.value(i))
        }
    }

    /// Slots `offset .. offset + length`, sharing every buffer with `self`.
    pub fn slice(&self, offset: usize, length: usize) -> (r: Self)
        requires
            offset + length <= self.spec_len(),
        ensures
            r.is_slice_of(self, offset as int, length as int),
            r@ == self@.subrange(offset as int, offset + length),
            r.spec_len() == length,
            forall|i: int| 0 <= i < length ==> r.spec_is_valid(i) == self.spec_is_valid(offset + i),
    {
        proof {
            use_type_invariant(self);
        }
        let r = PointArray {
            coords: self.coords.slice(offset, length),
            validity: validity_slice(&self.validity, offset, length),
        };
        assert(r@ =~= self@.subrange(offset as int, offset + length));
        r
    }

    /// Slots `offset .. offset + length`, copied into buffers of their own.
    pub fn owned_slice(&self, offset: usize, length: usize) -> (r: Self)
        requires
            offset + length <= self.spec_len(),
        ensures
            r.is_slice_of(self, offset as int, length as int),
            r@ == self@.subrange(offset as int, offset + length),
            r.spec_len() == length,
            forall|i: int| 0 <= i < length ==> r.spec_is_valid(i) == self.spec_is_valid(offset + i),
    {
        proof {
            use_type_invariant(self);
        }
        let r = PointArray {
            coords: self.coords.owned_slice(offset, length),
            validity: owned_slice_validity(&self.validity, offset, length),
        };
        assert(r@ =~= self@.subrange(offset as int, offset + length));
        r
    }

    /// The same array over `coords`, which must hold as many coordinates as the present ones.
    pub fn with_coords(self, coords: CoordBuffer) -> (r: Self)
        requires
            coords@.len() == self.spec_coords().len(),
        ensures
            r.spec_coords() == coords@,
            r.spec_coord_type() == coords.spec_coord_type(),
            r.spec_mask() == self.spec_mask(),
    {
        proof {
            use_type_invariant(&self);
        }
        PointArray { coords, validity: self.validity }
    }

    /// The same array with its coordinates laid out as `coord_type` says.
    pub fn into_coord_type(self, coord_type: CoordType) -> (r: Self)
        ensures
            r.spec_coords() == self.spec_coords(),
            r.spec_coord_type() == coord_type,
            r.spec_mask() == self.spec_mask(),
            r@ == self@,
    {
        proof {
            use_type_invariant(&self);
        }
        let r = PointArray {
            coords: self.coords.into_coord_type(coord_type),
            validity: self.validity,
        };
        assert(r@ =~= self@);
        r
    }

    /// Whether `self` and `other` have the same mask and the same coordinates.
    pub fn equals(&self, other: &Self) -> (r: bool)
        ensures
            r == self.spec_equals(other),
    {
        validity_eq(&self.validity, &other.validity) && self.coords.equals(&other.coords)
    }

    /// Slot `i` of a slice is slot `offset + i` of the array it was cut from.
    pub proof fn lemma_slice_value(&self, b: &Self, offset: int, length: int)
        requires
            self.wf(),
            0 <= offset,
            0 <= length,
            offset + length <= self.spec_len(),
            b.is_slice_of(self, offset, length),
        ensures
            b.wf(),
            b.spec_len() == length,
            b@ == self@.subrange(offset, offset + length),
            forall|i: int|
                0 <= i < length ==> b.spec_value(i) == self.spec_value(offset + i) && b.spec_get(i)
                    == self.spec_get(offset + i),
    {
        assert(b@ =~= self@.subrange(offset, offset + length));
    }

    /// A slot is null exactly when `get` finds nothing in it.
    pub proof fn lemma_null_iff_absent(&self, i: int)
        requires
            self.wf(),
            0 <= i < self.spec_len(),
        ensures
            !self.spec_is_valid(i) <==> self.spec_get(i) is None,
            self@[i] == self.spec_get(i),
    {
    }
}

impl Clone for PointArray {
    /// A second handle on the same buffers.
    fn clone(&self) -> (r: Self)
        ensures
            r@ == self@,
    {
        let n = self.len();
        let r = self.slice(0, n);
        proof {
            assert(self@.subrange(0, n as int) =~= self@);
        }
        r
    }
}

impl Default for PointArray {
    /// The array without slots.
    fn default() -> (r: Self)
        ensures
            r.spec_len() == 0,
            r.spec_mask() is None,
    {
        let coords = CoordBuffer::from_coords(&Vec::new(), CoordType::Interleaved);
        PointArray::new(coords, None)
    }
}

impl PartialEq for PointArray {
    fn eq(&self, other: &Self) -> (r: bool) {
        self.equals(other)
    }
}

impl PartialEqSpecImpl for PointArray {
    open spec fn obeys_eq_spec() -> bool {
        true
    }

    open spec fn eq_spec(&self, other: &Self) -> bool {
        self.spec_equals(other)
    }
}

} // verus!
