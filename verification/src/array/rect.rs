use crate::coord::{Coord, CoordBuffer};
use crate::error::GeoArrowError;
use crate::validity::{
    bit_at, mask_bits, mask_fits, mask_range, owned_slice_validity, validity_bit, validity_eq,
    validity_len, validity_slice,
};
use arrow_buffer::NullBuffer;
use vstd::prelude::*;

verus! {

/// An axis-aligned rectangle, given by two opposite corners.
#[derive(Debug, Clone, Copy, PartialEq, Eq, Structural)]
pub struct Rect {
    pub lower: Coord,
    pub upper: Coord,
}

/// An immutable array of rectangles: a lower and an upper corner per slot.
pub struct RectArray {
    lower: CoordBuffer,
    upper: CoordBuffer,
    validity: Option<NullBuffer>,
}

impl View for RectArray {
    type V = Seq<Option<Rect>>;

    open spec fn view(&self) -> Seq<Option<Rect>> {
        Seq::new(self.spec_len() as nat, |i: int| self.spec_get(i))
    }
}

impl RectArray {
    /// The lower corners, one per slot.
    pub closed spec fn spec_lower(&self) -> Seq<Coord> {
        self.lower@
    }

    /// The upper corners, one per slot.
    pub closed spec fn spec_upper(&self) -> Seq<Coord> {
        self.upper@
    }

    /// The bits of the validity mask, if there is one.
    pub closed spec fn spec_mask(&self) -> Option<Seq<bool>> {
        mask_bits(self.validity)
    }

    /// What holds of every array: as many upper corners as lower ones, and a mask, if any,
    /// with one bit per slot.
    #[verifier::type_invariant]
    pub open spec fn wf(&self) -> bool {
        &&& self.spec_lower().len() == self.spec_upper().len()
        &&& mask_fits(self.spec_mask(), self.spec_len())
    }

    /// The number of slots.
    pub open spec fn spec_len(&self) -> int {
        self.spec_lower().len() as int
    }

    /// Whether slot `i` is valid.
    pub open spec fn spec_is_valid(&self, i: int) -> bool {
        bit_at(self.spec_mask(), i)
    }

    /// The rectangle stored in slot `i`, whatever the mask says.
    pub open spec fn spec_value(&self, i: int) -> Rect {
        Rect { lower: self.spec_lower()[i], upper: self.spec_upper()[i] }
    }

    /// The rectangle in slot `i`, or `None` where the slot is null.
    pub open spec fn spec_get(&self, i: int) -> Option<Rect> {
        if self.spec_is_valid(i) {
            Some(self.spec_value(i))
        } else {
            None
        }
    }

    /// Whether `self` holds the corners and the mask of slots `offset .. offset + length` of
    /// `a`.
    pub open spec fn is_slice_of(&self, a: &Self, offset: int, length: int) -> bool {
        &&& self.spec_lower() == a.spec_lower().subrange(offset, offset + length)
        &&& self.spec_upper() == a.spec_upper().subrange(offset, offset + length)
        &&& self.spec_mask() == mask_range(a.spec_mask(), offset, length)
    }

    /// What `equals` decides.
    pub open spec fn spec_equals(&self, other: &Self) -> bool {
        &&& self.spec_mask() == other.spec_mask()
        &&& self.spec_lower() == other.spec_lower()
        &&& self.spec_upper() == other.spec_upper()
    }

    /// An array from its parts, or the reason why they do not fit together: `CoordLength`
    /// where the corners differ in number, else `ValidityLength` where the mask does not
    /// have one bit per slot.
    pub fn try_new(lower: CoordBuffer, upper: CoordBuffer, validity: Option<NullBuffer>) -> (r:
        Result<Self, GeoArrowError>)
        ensures
            r is Ok <==> lower@.len() == upper@.len() && mask_fits(
                mask_bits(validity),
                lower@.len() as int,
            ),
            r is Ok ==> {
                &&& r->Ok_0.spec_lower() == lower@
                &&& r->Ok_0.spec_upper() == upper@
                &&& r->Ok_0.spec_mask() == mask_bits(validity)
            },
            r is Err ==> r->Err_0 == if lower@.len() != upper@.len() {
                GeoArrowError::CoordLength
            } else {
                GeoArrowError::ValidityLength
            },
    {
        if lower.len() != upper.len() {
            return Err(GeoArrowError::CoordLength);
        }
        match validity_len(&validity) {
            Some(n) => {
                if n != lower.len() {
                    return Err(GeoArrowError::ValidityLength);
                }
            },
            None => {},
        }
        Ok(RectArray { lower, upper, validity })
    }

    /// The validity mask, if there is one.
    pub fn validity(&self) -> (r: Option<&NullBuffer>)
        ensures
            r is Some <==> self.spec_mask() is Some,
            r is Some ==> mask_bits(Some(*r->Some_0)) == self.spec_mask(),
    {
        self.validity.as_ref()
    }

    /// The number of slots.
    pub fn len(&self) -> (n: usize)
        ensures
            n == self.spec_len(),
            n == self@.len(),
    {
        self.lower.len()
    }

    /// Whether the array has no slots.
    pub fn is_empty(&self) -> (r: bool)
        ensures
            r == (self.spec_len() == 0),
    {
        self.len() == 0
    }

    /// Whether slot `i` is valid.
    pub fn is_valid(&self, i: usize) -> (r: bool)
        requires
            i < self.spec_len(),
        ensures
            r == self.spec_is_valid(i as int),
    {
        proof {
            use_type_invariant(self);
        }
        validity_bit(&self.validity, i)
    }

    /// Whether slot `i` is null.
    pub fn is_null(&self, i: usize) -> (r: bool)
        requires
            i < self.spec_len(),
        ensures
            r == !self.spec_is_valid(i as int),
            r == (self@[i as int] is None),
    {
        !self.is_valid(i)
    }

    /// The rectangle stored in slot `i`, whatever the mask says.
    pub fn value(&self, i: usize) -> (r: Rect)
        requires
            i < self.spec_len(),
        ensures
            r == self.spec_value(i as int),
    {
        proof {
            use_type_invariant(self);
        }
        Rect { lower: self.lower.value(i), upper: self.upper.value(i) }
    }

    /// The rectangle in slot `i`, or `None` where the slot is null.
    pub fn get(&self, i: usize) -> (r: Option<Rect>)
        requires
            i < self.spec_len(),
        ensures
            r == self.spec_get(i as int),
            r == self@[i as int],
    {
        if self.is_null(i) {
            None
        } else {
            Some(self.value(i))
        }
    }

    /// Slots `offset .. offset + length`, sharing every buffer with `self`.
    pub fn slice(&self, offset: usize, length: usize) -> (r: Self)
        requires
            offset + length <= self.spec_len(),
        ensures
            r.is_slice_of(self, offset as int, length as int),
            r@ == self@.subrange(offset as int, offset + length),
            r.spec_len() == length,
            forall|i: int| 0 <= i < length ==> r.spec_is_valid(i) == self.spec_is_valid(offset + i),
    {
        proof {
            use_type_invariant(self);
        }
        let r = RectArray {
            lower: self.lower.slice(offset, length),
            upper: self.upper.slice(offset, length),
            validity: validity_slice(&self.validity, offset, length),
        };
        assert(r@ =~= self@.subrange(offset as int, offset + length));
        r
    }

    /// Slots `offset .. offset + length`, copied into buffers of their own.
    pub fn owned_slice(&self, offset: usize, length: usize) -> (r: Self)
        requires
            offset + length <= self.spec_len(),
        ensures
            r.is_slice_of(self, offset as int, length as int),
            r@ == self@.subrange(offset as int, offset + length),
            r.spec_len() == length,
            forall|i: int| 0 <= i < length ==> r.spec_is_valid(i) == self.spec_is_valid(offset + i),
    {
        proof {
            use_type_invariant(self);
        }
        let r = RectArray {
            lower: self.lower.owned_slice(offset, length),
            upper: self.upper.owned_slice(offset, length),
            validity: owned_slice_validity(&self.validity, offset, length),
        };
        assert(r@ =~= self@.subrange(offset as int, offset + length));
        r
    }

    /// Whether `self` and `other` have the same mask and the same corners.
    pub fn equals(&self, other: &Self) -> (r: bool)
        ensures
            r == self.spec_equals(other),
    {
        validity_eq(&self.validity, &other.validity) && self.lower.equals(&other.lower)
            && self.upper.equals(&other.upper)
    }
}

impl Clone for RectArray {
    /// A second handle on the same buffers.
    fn clone(&self) -> (r: Self)
        ensures
            r@ == self@,
    {
        let n = self.len();
        let r = self.slice(0, n);
        proof {
            assert(self@.subrange(0, n as int) =~= self@);
        }
        r
    }
}

} // verus!
