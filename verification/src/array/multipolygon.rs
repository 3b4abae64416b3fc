use crate::array::polygon::{mask_len, PolygonArray};
use crate::coord::{Coord, CoordBuffer};
use crate::datatypes::CoordType;
use crate::error::GeoArrowError;
use crate::offsets::{
    is_offsets, lemma_offsets_ordered, lemma_rebased_is_offsets, lemma_subrange_is_offsets,
    rebased, OffsetSize, Offsets,
};
use crate::scalar::multipolygon::{multipolygon_at, MultiPolygon};
use crate::validity::{
    bit_at, mask_bits, mask_fits, mask_range, owned_slice_validity, validity_bit, validity_eq,
    validity_len, validity_slice,
};
use arrow_buffer::NullBuffer;
use vstd::prelude::*;
use vstd::std_specs::cmp::PartialEqSpecImpl;

verus! {

/// What `MultiPolygonArray::try_new` accepts: a mask, if any, with one bit per slot, and
/// three levels of offsets, each ending exactly at the length of the level beneath it. The
/// checks are made in this order: the mask, then the levels from the coordinates upwards.
pub open spec fn check_spec(
    coords_len: int,
    validity_len: Option<int>,
    geom_offsets: Seq<int>,
    polygon_offsets: Seq<int>,
    ring_offsets: Seq<int>,
) -> Result<(), GeoArrowError> {
    if validity_len is Some && validity_len->Some_0 != geom_offsets.len() - 1 {
        Err(GeoArrowError::ValidityLength)
    } else if ring_offsets.last() != coords_len {
        Err(GeoArrowError::OffsetMismatch { level: 0 })
    } else if polygon_offsets.last() != ring_offsets.len() - 1 {
        Err(GeoArrowError::OffsetMismatch { level: 1 })
    } else if geom_offsets.last() != polygon_offsets.len() - 1 {
        Err(GeoArrowError::OffsetMismatch { level: 2 })
    } else {
        Ok(())
    }
}

/// An immutable array of multi polygons.
///
/// Three levels of offsets lie over the coordinates. The two lower ones, with the
/// coordinates, are a polygon array without a mask; the geometry offsets of slot `i` bound
/// its polygons among the slots of that array.
pub struct MultiPolygonArray<O: OffsetSize> {
    polygons: PolygonArray<O>,
    geom_offsets: Offsets<O>,
    validity: Option<NullBuffer>,
}

impl<O: OffsetSize> View for MultiPolygonArray<O> {
    type V = Seq<Option<Seq<Seq<Seq<Coord>>>>>;

    open spec fn view(&self) -> Seq<Option<Seq<Seq<Seq<Coord>>>>> {
        Seq::new(self.spec_len() as nat, |i: int| self.spec_get(i))
    }
}

impl<O: OffsetSize> MultiPolygonArray<O> {
    /// The polygon array made of the coordinates and the two lower levels of offsets. A
    /// slice keeps all of it.
    pub closed spec fn spec_polygons(&self) -> PolygonArray<O> {
        self.polygons
    }

    /// The offsets into the polygons, one more than there are slots.
    pub closed spec fn spec_geom_offsets(&self) -> Seq<int> {
        self.geom_offsets@
    }

    /// The bits of the validity mask, if there is one.
    pub closed spec fn spec_mask(&self) -> Option<Seq<bool>> {
        mask_bits(self.validity)
    }

    /// What holds of every array: the polygons are well formed and have no mask, the
    /// geometry offsets are valid and stay within them, and the mask, if any, has one bit per
    /// slot.
    #[verifier::type_invariant]
    pub open spec fn wf(&self) -> bool {
        &&& self.spec_polygons().wf()
        &&& self.spec_polygons().spec_mask() is None
        &&& is_offsets(self.spec_geom_offsets())
        &&& self.spec_geom_offsets().last() <= self.spec_polygons().spec_len()
        &&& self.spec_geom_offsets().last() <= O::max_value()
        &&& mask_fits(self.spec_mask(), self.spec_len())
    }

    /// The number of slots.
    pub open spec fn spec_len(&self) -> int {
        self.spec_geom_offsets().len() - 1
    }

    /// Whether slot `i` is valid.
    pub open spec fn spec_is_valid(&self, i: int) -> bool {
        bit_at(self.spec_mask(), i)
    }

    /// The multi polygon that the offsets of slot `i` bound, whatever the mask says.
    pub open spec fn spec_value(&self, i: int) -> Seq<Seq<Seq<Coord>>> {
        multipolygon_at(self.spec_polygons().spec_values(), self.spec_geom_offsets(), i)
    }

    /// The multi polygon in slot `i`, or `None` where the slot is null.
    pub open spec fn spec_get(&self, i: int) -> Option<Seq<Seq<Seq<Coord>>>> {
        if self.spec_is_valid(i) {
            Some(self.spec_value(i))
        } else {
            None
        }
    }

    /// Whether `self` is what `slice(offset, length)` makes of `a`: the same polygons, whole,
    /// under the geometry offsets and the mask of the chosen slots.
    pub open spec fn is_slice_of(&self, a: &Self, offset: int, length: int) -> bool {
        &&& self.spec_polygons().is_slice_of(
            &a.spec_polygons(),
            0,
            a.spec_polygons().spec_len(),
        )
        &&& self.spec_geom_offsets() == a.spec_geom_offsets().subrange(offset, offset + length + 1)
        &&& self.spec_mask() == mask_range(a.spec_mask(), offset, length)
    }

    /// Whether `self` is what `owned_slice(offset, length)` makes of `a`: the polygons that
    /// the chosen slots span and no others, copied, under offsets renumbered from zero.
    pub open spec fn is_owned_slice_of(&self, a: &Self, offset: int, length: int) -> bool {
        let g = a.spec_geom_offsets();
        &&& self.spec_polygons().is_owned_slice_of(
            &a.spec_polygons(),
            g[offset],
            g[offset + length] - g[offset],
        )
        &&& self.spec_geom_offsets() == rebased(g, offset, length)
        &&& self.spec_mask() == mask_range(a.spec_mask(), offset, length)
    }

    /// What `equals` and `==` decide: the same mask, the same offsets at all three levels
    /// and the same coordinates.
    pub open spec fn spec_equals(&self, other: &Self) -> bool {
        &&& self.spec_mask() == other.spec_mask()
        &&& self.spec_geom_offsets() == other.spec_geom_offsets()
        &&& self.spec_polygons().spec_equals(&other.spec_polygons())
    }

    /// Equal arrays have as many slots and hold the same multi polygon in every one of
    /// them, and equality does not depend on the side an array stands on.
    pub proof fn lemma_equal_arrays_hold_equal_values(&self, other: &Self)
        requires
            self.spec_equals(other),
        ensures
            other.spec_equals(self),
            self.spec_len() == other.spec_len(),
            self@ == other@,
            forall|i: int|
                0 <= i < self.spec_len() ==> self.spec_value(i) == other.spec_value(i)
                    && self.spec_is_valid(i) == other.spec_is_valid(i),
    {
        self.spec_polygons().lemma_equal_arrays_hold_equal_values(&other.spec_polygons());
        assert(self@ =~= other@);
    }

    /// An array from its parts, or the first reason why they do not fit together.
    pub fn try_new(
        coords: CoordBuffer,
        geom_offsets: Offsets<O>,
        polygon_offsets: Offsets<O>,
        ring_offsets: Offsets<O>,
        validity: Option<NullBuffer>,
    ) -> (r: Result<Self, GeoArrowError>)
        ensures
            match check_spec(
                coords@.len() as int,
                mask_len(mask_bits(validity)),
                geom_offsets@,
                polygon_offsets@,
                ring_offsets@,
            ) {
                Ok(_) => r is Ok && r->Ok_0.spec_polygons().has_parts(
                    coords,
                    polygon_offsets,
                    ring_offsets,
                    None,
                ) && r->Ok_0.spec_geom_offsets() == geom_offsets@ && r->Ok_0.spec_mask()
                    == mask_bits(validity),
                Err(e) => r is Err && r->Err_0 == e,
            },
    {
        match validity_len(&validity) {
            Some(n) => {
                if n != geom_offsets.len_proxy() {
                    return Err(GeoArrowError::ValidityLength);
                }
            },
            None => {},
        }
        let polygons = match PolygonArray::try_new(coords, polygon_offsets, ring_offsets, None) {
            Ok(p) => p,
            Err(e) => {
                return Err(e);
            },
        };
        if geom_offsets.last() != polygons.len() {
            return Err(GeoArrowError::OffsetMismatch { level: 2 });
        }
        proof {
            use_type_invariant(&geom_offsets);
            use_type_invariant(&polygons);
        }
        Ok(MultiPolygonArray { polygons, geom_offsets, validity })
    }

    /// An array from a polygon array without a mask and the geometry offsets and the mask
    /// that group its polygons, which must fit it.
    pub fn from_parts(
        polygons: PolygonArray<O>,
        geom_offsets: Offsets<O>,
        validity: Option<NullBuffer>,
    ) -> (r: Self)
        requires
            polygons.spec_mask() is None,
            geom_offsets@.last() == polygons.spec_len(),
            mask_fits(mask_bits(validity), geom_offsets@.len() - 1),
        ensures
            r.spec_polygons() == polygons,
            r.spec_geom_offsets() == geom_offsets@,
            r.spec_mask() == mask_bits(validity),
    {
        proof {
            use_type_invariant(&geom_offsets);
            use_type_invariant(&polygons);
        }
        MultiPolygonArray { polygons, geom_offsets, validity }
    }

    /// The polygon array made of the coordinates and the two lower levels of offsets.
    pub fn polygons(&self) -> (r: &PolygonArray<O>)
        ensures
            *r == self.spec_polygons(),
    {
        &self.polygons
    }

    /// The coordinates that the ring offsets index.
    pub fn coords(&self) -> (r: &CoordBuffer)
        ensures
            r@ == self.spec_polygons().spec_coords(),
    {
        self.polygons.coords()
    }

    /// The offsets into the polygons.
    pub fn geom_offsets(&self) -> (r: &Offsets<O>)
        ensures
            r@ == self.spec_geom_offsets(),
    {
        &self.geom_offsets
    }

    /// The offsets into the rings.
    pub fn polygon_offsets(&self) -> (r: &Offsets<O>)
        ensures
            r@ == self.spec_polygons().spec_geom_offsets(),
    {
        self.polygons.geom_offsets()
    }

    /// The offsets into the coordinates.
    pub fn ring_offsets(&self) -> (r: &Offsets<O>)
        ensures
            r@ == self.spec_polygons().spec_ring_offsets(),
    {
        self.polygons.ring_offsets()
    }

    /// The validity mask, if there is one.
    pub fn validity(&self) -> (r: Option<&NullBuffer>)
        ensures
            r is Some <==> self.spec_mask() is Some,
            r is Some ==> mask_bits(Some(*r->Some_0)) == self.spec_mask(),
    {
        self.validity.as_ref()
    }

    /// The layout of the coordinates.
    pub fn coord_type(&self) -> (t: CoordType)
        ensures
            t == self.spec_polygons().spec_coord_type(),
    {
        self.polygons.coord_type()
    }

    /// The number of slots.
    pub fn len(&self) -> (n: usize)
        ensures
            n == self.spec_len(),
            n == self@.len(),
    {
        self.geom_offsets.len_proxy()
    }

    /// Whether the array has no slots.
    pub fn is_empty(&self) -> (r: bool)
        ensures
            r == (self.spec_len() == 0),
    {
        self.len() == 0
    }

    /// Whether slot `i` is valid.
    pub fn is_valid(&self, i: usize) -> (r: bool)
        requires
            i < self.spec_len(),
        ensures
            r == self.spec_is_valid(i as int),
    {
        proof {
            use_type_invariant(self);
        }
        validity_bit(&self.validity, i)
    }

    /// Whether slot `i` is null.
    pub fn is_null(&self, i: usize) -> (r: bool)
        requires
            i < self.spec_len(),
        ensures
            r == !self.spec_is_valid(i as int),
            r == (self@[i as int] is None),
    {
        !self.is_valid(i)
    }

    /// The multi polygon that the offsets of slot `i` bound, whatever the mask says.
    pub fn value(&self, i: usize) -> (r: MultiPolygon<'_, O>)
        requires
            i < self.spec_len(),
        ensures
            r@ == self.spec_value(i as int),
    {
        proof {
            use_type_invariant(self);
        }
        MultiPolygon::new_borrowed(&self.polygons, &self.geom_offsets, i)
    }

    /// The multi polygon in slot `i`, or `None` where the slot is null.
    pub fn get(&self, i: usize) -> (r: Option<MultiPolygon<'_, O>>)
        requires
            i < self.spec_len(),
        ensures
            r is None <==> !self.spec_is_valid(i as int),
            r is Some ==> r->Some_0@ == self.spec_value(i as int),
            match r {
                Some(g) => self@[i as int] == Some(g@),
                None => self@[i as int] is None,
            },
    {
        if self.is_null(i) {
            None
        } else {
            Some(self.value(i))
        }
    }

    /// Slots `offset .. offset + length`, sharing every buffer with `self`.
    ///
    /// Only the geometry offsets and the mask are cut. Everything beneath them stays whole.
    pub fn slice(&self, offset: usize, length: usize) -> (r: Self)
        requires
            offset + length <= self.spec_len(),
        ensures
            r.is_slice_of(self, offset as int, length as int),
            r@ == self@.subrange(offset as int, offset + length),
            forall|i: int|
                0 <= i < length ==> r.spec_value(i) == self.spec_value(offset + i) && r.spec_get(i)
                    == self.spec_get(offset + i),
            forall|i: int| 0 <= i < length ==> r.spec_is_valid(i) == self.spec_is_valid(offset + i),
            r.spec_len() == length,
    {
        proof {
            use_type_invariant(self);
            use_type_invariant(&self.polygons);
        }
        let n = self.polygons.len();
        let polygons = self.polygons.slice(0, n);
        let geom_offsets = self.geom_offsets.slice(offset, length);
        let validity = validity_slice(&self.validity, offset, length);
        proof {
            use_type_invariant(&polygons);
            use_type_invariant(&geom_offsets);
            lemma_offsets_ordered(self.spec_geom_offsets(), offset + length, self.spec_len());
        }
        let r = MultiPolygonArray { polygons, geom_offsets, validity };
        proof {
            self.lemma_slice_value(&r, offset as int, length as int);
        }
        r
    }

    /// Slots `offset .. offset + length`, copied into buffers of their own.
    ///
    /// The copy holds the polygons, rings and coordinates that those slots span and no
    /// others, and every level of its offsets starts at zero.
    pub fn owned_slice(&self, offset: usize, length: usize) -> (r: Self)
        requires
            offset + length <= self.spec_len(),
        ensures
            r.is_owned_slice_of(self, offset as int, length as int),
            r@ == self@.subrange(offset as int, offset + length),
            forall|i: int|
                0 <= i < length ==> r.spec_value(i) == self.spec_value(offset + i) && r.spec_get(i)
                    == self.spec_get(offset + i),
            forall|i: int| 0 <= i < length ==> r.spec_is_valid(i) == self.spec_is_valid(offset + i),
            r.spec_len() == length,
    {
        let ghost g = self.spec_geom_offsets();
        proof {
            use_type_invariant(self);
            use_type_invariant(&self.polygons);
            lemma_offsets_ordered(g, offset as int, offset + length);
            lemma_offsets_ordered(g, offset + length, g.len() - 1);
            lemma_rebased_is_offsets(g, offset as int, length as int);
        }
        let _offsets = self.geom_offsets.len();
        let start = self.geom_offsets.get(offset);
        let end = self.geom_offsets.get(offset + length);
        let polygons = self.polygons.owned_slice(start, end - start);
        let geom_offsets = self.geom_offsets.owned_slice(offset, length);
        let validity = owned_slice_validity(&self.validity, offset, length);
        proof {
            use_type_invariant(&polygons);
            use_type_invariant(&geom_offsets);
        }
        let r = MultiPolygonArray { polygons, geom_offsets, validity };
        proof {
            self.lemma_owned_slice_value(&r, offset as int, length as int);
        }
        r
    }

    /// The same array with its coordinates laid out as `coord_type` says.
    pub fn into_coord_type(self, coord_type: CoordType) -> (r: Self)
        ensures
            r.spec_polygons().spec_coord_type() == coord_type,
            r.spec_polygons()@ == self.spec_polygons()@,
            r.spec_polygons().spec_values() == self.spec_polygons().spec_values(),
            r.spec_geom_offsets() == self.spec_geom_offsets(),
            r.spec_mask() == self.spec_mask(),
            r@ == self@,
    {
        proof {
            use_type_invariant(&self);
        }
        let polygons = self.polygons.into_coord_type(coord_type);
        proof {
            use_type_invariant(&polygons);
        }
        let r = MultiPolygonArray {
            polygons,
            geom_offsets: self.geom_offsets,
            validity: self.validity,
        };
        proof {
            assert(r.spec_polygons().spec_values() =~= self.spec_polygons().spec_values());
            assert(r@ =~= self@);
        }
        r
    }

    /// The same array with offsets of another width; `Overflow` where the last offset of some
    /// level does not fit it.
    pub fn convert<P: OffsetSize>(self) -> (r: Result<MultiPolygonArray<P>, GeoArrowError>)
        ensures
            r is Ok <==> self.spec_geom_offsets().last() <= P::max_value()
                && self.spec_polygons().spec_geom_offsets().last() <= P::max_value()
                && self.spec_polygons().spec_ring_offsets().last() <= P::max_value(),
            r is Ok ==> r->Ok_0@ == self@ && r->Ok_0.spec_geom_offsets()
                == self.spec_geom_offsets() && r->Ok_0.spec_mask() == self.spec_mask(),
            r is Err ==> r->Err_0 == GeoArrowError::Overflow,
    {
        proof {
            use_type_invariant(&self);
        }
        let geom_offsets = match self.geom_offsets.convert::<P>() {
            Ok(o) => o,
            Err(e) => {
                return Err(e);
            },
        };
        let polygons = match self.polygons.convert::<P>() {
            Ok(p) => p,
            Err(e) => {
                return Err(e);
            },
        };
        proof {
            use_type_invariant(&geom_offsets);
            use_type_invariant(&polygons);
        }
        let r = MultiPolygonArray { polygons, geom_offsets, validity: self.validity };
        proof {
            assert(r.spec_polygons().spec_values() =~= self.spec_polygons().spec_values());
            assert(r@ =~= self@);
        }
        Ok(r)
    }

    /// Whether `self` and `other` have the same mask, the same offsets at every level and the
    /// same coordinates. Arrays that are equal hold the same multi polygon in every slot.
    pub fn equals(&self, other: &Self) -> (r: bool)
        ensures
            r == self.spec_equals(other),
            r ==> self@ == other@,
    {
        proof {
            if self.spec_equals(other) {
                self.lemma_equal_arrays_hold_equal_values(other);
            }
        }
        validity_eq(&self.validity, &other.validity) && self.geom_offsets.equals(
            &other.geom_offsets,
        ) && self.polygons.equals(&other.polygons)
    }

    /// Slot `i` of a slice is slot `offset + i` of the array it was cut from.
    pub proof fn lemma_slice_value(&self, b: &Self, offset: int, length: int)
        requires
            self.wf(),
            0 <= offset,
            0 <= length,
            offset + length <= self.spec_len(),
            b.is_slice_of(self, offset, length),
            b.spec_polygons().spec_mask() is None,
        ensures
            b.wf(),
            b.spec_len() == length,
            b@ == self@.subrange(offset, offset + length),
            forall|i: int|
                0 <= i < length ==> b.spec_value(i) == self.spec_value(offset + i) && b.spec_get(i)
                    == self.spec_get(offset + i),
            forall|i: int| 0 <= i < length ==> b.spec_is_valid(i) == self.spec_is_valid(offset + i),
    {
        let p = self.spec_polygons();
        p.lemma_slice_value(&b.spec_polygons(), 0, p.spec_len());
        lemma_subrange_is_offsets(self.spec_geom_offsets(), offset, offset + length + 1);
        lemma_offsets_ordered(self.spec_geom_offsets(), offset + length, self.spec_len());
        assert(b.spec_polygons().spec_values() =~= p.spec_values());
        assert(b@ =~= self@.subrange(offset, offset + length));
    }

    /// An owned slice holds the same multi polygons as the slots it copies, in buffers that
    /// hold nothing else.
    pub proof fn lemma_owned_slice_value(&self, b: &Self, offset: int, length: int)
        requires
            self.wf(),
            0 <= offset,
            0 <= length,
            offset + length <= self.spec_len(),
            b.is_owned_slice_of(self, offset, length),
            b.spec_polygons().spec_mask() is None,
        ensures
            b.wf(),
            b.spec_len() == length,
            b.spec_geom_offsets()[0] == 0,
            b.spec_geom_offsets().last() == b.spec_polygons().spec_len(),
            b@ == self@.subrange(offset, offset + length),
            forall|i: int|
                0 <= i < length ==> b.spec_value(i) == self.spec_value(offset + i) && b.spec_get(i)
                    == self.spec_get(offset + i),
            forall|i: int| 0 <= i < length ==> b.spec_is_valid(i) == self.spec_is_valid(offset + i),
    {
        let g = self.spec_geom_offsets();
        let p = self.spec_polygons();
        lemma_offsets_ordered(g, offset, offset + length);
        lemma_offsets_ordered(g, offset + length, g.len() - 1);
        lemma_rebased_is_offsets(g, offset, length);
        let start = g[offset];
        let end = g[offset + length];
        p.lemma_owned_slice_value(&b.spec_polygons(), start, end - start);
        assert forall|i: int| 0 <= i < length implies b.spec_value(i) == self.spec_value(
            offset + i,
        ) && b.spec_get(i) == self.spec_get(offset + i) by {
            lemma_offsets_ordered(g, offset, offset + i);
            lemma_offsets_ordered(g, offset + i, offset + i + 1);
            lemma_offsets_ordered(g, offset + i + 1, offset + length);
            assert(b.spec_value(i) =~= self.spec_value(offset + i));
        }
        assert(b@ =~= self@.subrange(offset, offset + length));
    }

    /// A slot is null exactly when `get` finds nothing in it; what `value` finds there does
    /// not depend on the mask.
    pub proof fn lemma_null_iff_absent(&self, i: int)
        requires
            self.wf(),
            0 <= i < self.spec_len(),
        ensures
            !self.spec_is_valid(i) <==> self.spec_get(i) is None,
            self@[i] == self.spec_get(i),
            self.spec_get(i) is Some ==> self.spec_get(i)->Some_0 == self.spec_value(i),
    {
    }
}

impl<O: OffsetSize> Clone for MultiPolygonArray<O> {
    /// A second handle on the same buffers.
    fn clone(&self) -> (r: Self)
        ensures
            r@ == self@,
    {
        let n = self.len();
        let r = self.slice(0, n);
        proof {
            assert(self@.subrange(0, n as int) =~= self@);
        }
        r
    }
}

impl<O: OffsetSize> Default for MultiPolygonArray<O> {
    /// The array without slots.
    fn default() -> (r: Self)
        ensures
            r.spec_len() == 0,
            r.spec_mask() is None,
    {
        let polygons = PolygonArray::default();
        let geom_offsets = Offsets::new_empty();
        proof {
            use_type_invariant(&polygons);
        }
        MultiPolygonArray { polygons, geom_offsets, validity: None }
    }
}

impl<O: OffsetSize> PartialEq for MultiPolygonArray<O> {
    fn eq(&self, other: &Self) -> (r: bool) {
        self.equals(other)
    }
}

impl<O: OffsetSize> PartialEqSpecImpl for MultiPolygonArray<O> {
    open spec fn obeys_eq_spec() -> bool {
        true
    }

    open spec fn eq_spec(&self, other: &Self) -> bool {
        self.spec_equals(other)
    }
}

} // verus!
