use crate::coord::{Coord, CoordBuffer};
use crate::datatypes::CoordType;
use crate::error::GeoArrowError;
use crate::offsets::{
    lemma_offsets_ordered, lemma_rebased_is_offsets, lemma_subrange_is_offsets, rebased,
    OffsetSize, Offsets,
};
use crate::scalar::polygon::{polygon_at, polygon_levels_fit, Polygon};
use crate::validity::{
    bit_at, mask_bits, mask_fits, mask_range, owned_slice_validity, validity_bit, validity_eq,
    validity_len, validity_slice,
};
use arrow_buffer::NullBuffer;
use vstd::prelude::*;
use vstd::std_specs::cmp::PartialEqSpecImpl;

verus! {

/// What `PolygonArray::try_new` accepts: a mask, if any, with one bit per slot, ring offsets
/// that end exactly at the end of the coordinates, and geometry offsets that end exactly at
/// the number of rings. The checks are made in this order.
pub open spec fn check_spec(
    coords_len: int,
    validity_len: Option<int>,
    geom_offsets: Seq<int>,
    ring_offsets: Seq<int>,
) -> Result<(), GeoArrowError> {
    if validity_len is Some && validity_len->Some_0 != geom_offsets.len() - 1 {
        Err(GeoArrowError::ValidityLength)
    } else if ring_offsets.last() != coords_len {
        Err(GeoArrowError::OffsetMismatch { level: 0 })
    } else if geom_offsets.last() != ring_offsets.len() - 1 {
        Err(GeoArrowError::OffsetMismatch { level: 1 })
    } else {
        Ok(())
    }
}

/// The length of an optional mask, as a mathematical integer.
pub open spec fn mask_len(mask: Option<Seq<bool>>) -> Option<int> {
    match mask {
        Some(m) => Some(m.len() as int),
        None => None,
    }
}

/// Checks that the parts of a polygon array fit together: first the mask, then the ring
/// offsets, then the geometry offsets.
pub fn check<O: OffsetSize>(
    coords: &CoordBuffer,
    validity_len: Option<usize>,
    geom_offsets: &Offsets<O>,
    ring_offsets: &Offsets<O>,
) -> (r: Result<(), GeoArrowError>)
    ensures
        r == check_spec(
            coords@.len() as int,
            match validity_len {
                Some(n) => Some(n as int),
                None => None,
            },
            geom_offsets@,
            ring_offsets@,
        ),
{
    match validity_len {
        Some(n) => {
            if n != geom_offsets.len_proxy() {
                return Err(GeoArrowError::ValidityLength);
            }
        },
        None => {},
    }
    if ring_offsets.last() != coords.len() {
        return Err(GeoArrowError::OffsetMismatch { level: 0 });
    }
    if geom_offsets.last() != ring_offsets.len_proxy() {
        return Err(GeoArrowError::OffsetMismatch { level: 1 });
    }
    Ok(())
}

/// An immutable array of polygons.
///
/// Logically a sequence of optional polygons, each a sequence of rings: the geometry offsets
/// of slot `i` bound its rings among the groups of the ring offsets, which in turn bound
/// coordinates.
pub struct PolygonArray<O: OffsetSize> {
    coords: CoordBuffer,
    geom_offsets: Offsets<O>,
    ring_offsets: Offsets<O>,
    validity: Option<NullBuffer>,
}

impl<O: OffsetSize> View for PolygonArray<O> {
    type V = Seq<Option<Seq<Seq<Coord>>>>;

    open spec fn view(&self) -> Seq<Option<Seq<Seq<Coord>>>> {
        Seq::new(self.spec_len() as nat, |i: int| self.spec_get(i))
    }
}

impl<O: OffsetSize> PolygonArray<O> {
    /// The coordinates that the ring offsets index. A slice keeps all of them.
    pub closed spec fn spec_coords(&self) -> Seq<Coord> {
        self.coords@
    }

    /// The layout of the coordinates.
    pub closed spec fn spec_coord_type(&self) -> CoordType {
        self.coords.spec_coord_type()
    }

    /// The offsets into the rings, one more than there are slots.
    pub closed spec fn spec_geom_offsets(&self) -> Seq<int> {
        self.geom_offsets@
    }

    /// The offsets into the coordinates, one more than there are rings. A slice keeps all of
    /// them.
    pub closed spec fn spec_ring_offsets(&self) -> Seq<int> {
        self.ring_offsets@
    }

    /// The bits of the validity mask, if there is one.
    pub closed spec fn spec_mask(&self) -> Option<Seq<bool>> {
        mask_bits(self.validity)
    }

    /// What holds of every array: each level of offsets is valid and stays within the level
    /// beneath it, and the mask, if any, has one bit per slot.
    #[verifier::type_invariant]
    pub open spec fn wf(&self) -> bool {
        &&& polygon_levels_fit(
            self.spec_coords().len() as int,
            self.spec_ring_offsets(),
            self.spec_geom_offsets(),
        )
        &&& self.spec_geom_offsets().last() <= O::max_value()
        &&& self.spec_ring_offsets().last() <= O::max_value()
        &&& mask_fits(self.spec_mask(), self.spec_len())
    }

    /// The number of slots.
    pub open spec fn spec_len(&self) -> int {
        self.spec_geom_offsets().len() - 1
    }

    /// Whether slot `i` is valid.
    pub open spec fn spec_is_valid(&self, i: int) -> bool {
        bit_at(self.spec_mask(), i)
    }

    /// The polygon that the offsets of slot `i` bound, whatever the mask says.
    pub open spec fn spec_value(&self, i: int) -> Seq<Seq<Coord>> {
        polygon_at(self.spec_coords(), self.spec_ring_offsets(), self.spec_geom_offsets(), i)
    }

    /// The polygons of all slots, whatever the mask says.
    pub open spec fn spec_values(&self) -> Seq<Seq<Seq<Coord>>> {
        Seq::new(self.spec_len() as nat, |i: int| self.spec_value(i))
    }

    /// The polygon in slot `i`, or `None` where the slot is null.
    pub open spec fn spec_get(&self, i: int) -> Option<Seq<Seq<Coord>>> {
        if self.spec_is_valid(i) {
            Some(self.spec_value(i))
        } else {
            None
        }
    }

    /// Whether `r` is made of exactly these parts.
    pub open spec fn has_parts(
        &self,
        coords: CoordBuffer,
        geom_offsets: Offsets<O>,
        ring_offsets: Offsets<O>,
        validity: Option<NullBuffer>,
    ) -> bool {
        &&& self.spec_coords() == coords@
        &&& self.spec_coord_type() == coords.spec_coord_type()
        &&& self.spec_geom_offsets() == geom_offsets@
        &&& self.spec_ring_offsets() == ring_offsets@
        &&& self.spec_mask() == mask_bits(validity)
    }

    /// An array from its parts, which must fit together.
    pub fn new(
        coords: CoordBuffer,
        geom_offsets: Offsets<O>,
        ring_offsets: Offsets<O>,
        validity: Option<NullBuffer>,
    ) -> (r: Self)
        requires
            check_spec(
                coords@.len() as int,
                mask_len(mask_bits(validity)),
                geom_offsets@,
                ring_offsets@,
            ) is Ok,
        ensures
            r.has_parts(coords, geom_offsets, ring_offsets, validity),
    {
        proof {
            use_type_invariant(&geom_offsets);
            use_type_invariant(&ring_offsets);
        }
        PolygonArray { coords, geom_offsets, ring_offsets, validity }
    }

    /// An array from its parts, or the first reason why they do not fit together.
    pub fn try_new(
        coords: CoordBuffer,
        geom_offsets: Offsets<O>,
        ring_offsets: Offsets<O>,
        validity: Option<NullBuffer>,
    ) -> (r: Result<Self, GeoArrowError>)
        ensures
            match check_spec(
                coords@.len() as int,
                mask_len(mask_bits(validity)),
                geom_offsets@,
                ring_offsets@,
            ) {
                Ok(_) => r is Ok && r->Ok_0.has_parts(coords, geom_offsets, ring_offsets, validity),
                Err(e) => r is Err && r->Err_0 == e,
            },
    {
        match check(&coords, validity_len(&validity), &geom_offsets, &ring_offsets) {
            Ok(_) => Ok(PolygonArray::new(coords, geom_offsets, ring_offsets, validity)),
            Err(e) => Err(e),
        }
    }

    /// The coordinates that the ring offsets index.
    pub fn coords(&self) -> (r: &CoordBuffer)
        ensures
            r@ == self.spec_coords(),
            r.spec_coord_type() == self.spec_coord_type(),
    {
        &self.coords
    }

    /// The offsets into the rings.
    pub fn geom_offsets(&self) -> (r: &Offsets<O>)
        ensures
            r@ == self.spec_geom_offsets(),
    {
        &self.geom_offsets
    }

    /// The offsets into the coordinates.
    pub fn ring_offsets(&self) -> (r: &Offsets<O>)
        ensures
            r@ == self.spec_ring_offsets(),
    {
        &self.ring_offsets
    }

    /// The validity mask, if there is one.
    pub fn validity(&self) -> (r: Option<&NullBuffer>)
        ensures
            r is Some <==> self.spec_mask() is Some,
            r is Some ==> mask_bits(Some(*r->Some_0)) == self.spec_mask(),
    {
        self.validity.as_ref()
    }

    /// The layout of the coordinates.
    pub fn coord_type(&self) -> (t: CoordType)
        ensures
            t == self.spec_coord_type(),
    {
        self.coords.coord_type()
    }

    /// The number of slots.
    pub fn len(&self) -> (n: usize)
        ensures
            n == self.spec_len(),
            n == self@.len(),
    {
        self.geom_offsets.len_proxy()
    }

    /// Whether the array has no slots.
    pub fn is_empty(&self) -> (r: bool)
        ensures
            r == (self.spec_len() == 0),
    {
        self.len() == 0
    }

    /// Whether slot `i` is valid.
    pub fn is_valid(&self, i: usize) -> (r: bool)
        requires
            i < self.spec_len(),
        ensures
            r == self.spec_is_valid(i as int),
    {
        proof {
            use_type_invariant(self);
        }
        validity_bit(&self.validity, i)
    }

    /// Whether slot `i` is null.
    pub fn is_null(&self, i: usize) -> (r: bool)
        requires
            i < self.spec_len(),
        ensures
            r == !self.spec_is_valid(i as int),
            r == (self@[i as int] is None),
    {
        !self.is_valid(i)
    }

    /// The polygon that the offsets of slot `i` bound, whatever the mask says.
    pub fn value(&self, i: usize) -> (r: Polygon<'_, O>)
        requires
            i < self.spec_len(),
        ensures
            r@ == self.spec_value(i as int),
    {
        proof {
            use_type_invariant(self);
        }
        Polygon::new_borrowed(&self.coords, &self.geom_offsets, &self.ring_offsets, i)
    }

    /// The polygon in slot `i`, or `None` where the slot is null.
    pub fn get(&self, i: usize) -> (r: Option<Polygon<'_, O>>)
        requires
            i < self.spec_len(),
        ensures
            r is None <==> !self.spec_is_valid(i as int),
            r is Some ==> r->Some_0@ == self.spec_value(i as int),
            match r {
                Some(g) => self@[i as int] == Some(g@),
                None => self@[i as int] is None,
            },
    {
        if self.is_null(i) {
            None
        } else {
            Some(self.value(i))
        }
    }

    /// Slots `offset .. offset + length`, sharing every buffer with `self`.
    ///
    /// Only the geometry offsets and the mask are cut. The ring offsets and the coordinates
    /// stay whole, and the offsets of the slice keep indexing them.
    pub fn slice(&self, offset: usize, length: usize) -> (r: Self)
        requires
            offset + length <= self.spec_len(),
        ensures
            r.is_slice_of(self, offset as int, length as int),
            r@ == self@.subrange(offset as int, offset + length),
            forall|i: int|
                0 <= i < length ==> r.spec_value(i) == self.spec_value(offset + i) && r.spec_get(i)
                    == self.spec_get(offset + i),
            forall|i: int| 0 <= i < length ==> r.spec_is_valid(i) == self.spec_is_valid(offset + i),
            r.spec_len() == length,
    {
        proof {
            use_type_invariant(self);
            lemma_subrange_is_offsets(self.spec_geom_offsets(), offset as int, offset + length + 1);
            lemma_offsets_ordered(self.spec_geom_offsets(), offset + length, offset + length);
        }
        let r = PolygonArray {
            coords: self.coords.clone(),
            geom_offsets: self.geom_offsets.slice(offset, length),
            ring_offsets: self.ring_offsets.clone(),
            validity: validity_slice(&self.validity, offset, length),
        };
        proof {
            self.lemma_slice_value(&r, offset as int, length as int);
        }
        r
    }

    /// Slots `offset .. offset + length`, copied into buffers of their own.
    ///
    /// The copy holds the rings and the coordinates that those slots span and no others, and
    /// both levels of its offsets start at zero.
    pub fn owned_slice(&self, offset: usize, length: usize) -> (r: Self)
        requires
            offset + length <= self.spec_len(),
        ensures
            r.is_owned_slice_of(self, offset as int, length as int),
            r@ == self@.subrange(offset as int, offset + length),
            forall|i: int|
                0 <= i < length ==> r.spec_value(i) == self.spec_value(offset + i) && r.spec_get(i)
                    == self.spec_get(offset + i),
            forall|i: int| 0 <= i < length ==> r.spec_is_valid(i) == self.spec_is_valid(offset + i),
            r.spec_len() == length,
    {
        let ghost g = self.spec_geom_offsets();
        let ghost ro = self.spec_ring_offsets();
        proof {
            use_type_invariant(self);
            lemma_offsets_ordered(g, offset as int, offset + length);
            lemma_offsets_ordered(g, offset + length, g.len() - 1);
            lemma_rebased_is_offsets(g, offset as int, length as int);
        }
        let _geoms = self.geom_offsets.len();
        let start_ring = self.geom_offsets.get(offset);
        let end_ring = self.geom_offsets.get(offset + length);
        proof {
            lemma_offsets_ordered(ro, start_ring as int, end_ring as int);
            lemma_rebased_is_offsets(ro, start_ring as int, end_ring - start_ring);
        }
        let _rings = self.ring_offsets.len();
        let start_coord = self.ring_offsets.get(start_ring);
        let end_coord = self.ring_offsets.get(end_ring);
        let geom_offsets = self.geom_offsets.owned_slice(offset, length);
        let ring_offsets = self.ring_offsets.owned_slice(start_ring, end_ring - start_ring);
        let coords = self.coords.owned_slice(start_coord, end_coord - start_coord);
        let validity = owned_slice_validity(&self.validity, offset, length);
        proof {
            use_type_invariant(&geom_offsets);
            use_type_invariant(&ring_offsets);
        }
        let r = PolygonArray { coords, geom_offsets, ring_offsets, validity };
        proof {
            self.lemma_owned_slice_value(&r, offset as int, length as int);
        }
        r
    }

    /// Whether `self` is what `slice(offset, length)` makes of `a`: the same coordinates and
    /// ring offsets, whole, under the geometry offsets and the mask of the chosen slots.
    pub open spec fn is_slice_of(&self, a: &Self, offset: int, length: int) -> bool {
        &&& self.spec_coords() == a.spec_coords()
        &&& self.spec_coord_type() == a.spec_coord_type()
        &&& self.spec_ring_offsets() == a.spec_ring_offsets()
        &&& self.spec_geom_offsets() == a.spec_geom_offsets().subrange(offset, offset + length + 1)
        &&& self.spec_mask() == mask_range(a.spec_mask(), offset, length)
    }

    /// Whether `self` is what `owned_slice(offset, length)` makes of `a`: the rings and the
    /// coordinates that the chosen slots span and no others, under offsets renumbered from
    /// zero at both levels.
    pub open spec fn is_owned_slice_of(&self, a: &Self, offset: int, length: int) -> bool {
        let g = a.spec_geom_offsets();
        let ro = a.spec_ring_offsets();
        &&& self.spec_coord_type() == a.spec_coord_type()
        &&& self.spec_geom_offsets() == rebased(g, offset, length)
        &&& self.spec_ring_offsets() == rebased(ro, g[offset], g[offset + length] - g[offset])
        &&& self.spec_coords() == a.spec_coords().subrange(ro[g[offset]], ro[g[offset + length]])
        &&& self.spec_mask() == mask_range(a.spec_mask(), offset, length)
    }

    /// Slot `i` of a slice is slot `offset + i` of the array it was cut from.
    pub proof fn lemma_slice_value(&self, b: &Self, offset: int, length: int)
        requires
            self.wf(),
            0 <= offset,
            0 <= length,
            offset + length <= self.spec_len(),
            b.is_slice_of(self, offset, length),
        ensures
            b.wf(),
            b.spec_len() == length,
            b@ == self@.subrange(offset, offset + length),
            forall|i: int|
                0 <= i < length ==> b.spec_value(i) == self.spec_value(offset + i) && b.spec_get(i)
                    == self.spec_get(offset + i),
            forall|i: int| 0 <= i < length ==> b.spec_is_valid(i) == self.spec_is_valid(offset + i),
    {
        lemma_subrange_is_offsets(self.spec_geom_offsets(), offset, offset + length + 1);
        lemma_offsets_ordered(self.spec_geom_offsets(), offset + length, self.spec_len());
        assert forall|i: int| 0 <= i < length implies b.spec_value(i) == self.spec_value(
            offset + i,
        ) && b.spec_get(i) == self.spec_get(offset + i) by {
            assert(b.spec_value(i) =~= self.spec_value(offset + i));
        }
        assert(b@ =~= self@.subrange(offset, offset + length));
    }

    /// An owned slice holds the same polygons as the slots it copies, in buffers that hold
    /// nothing else: both levels of its offsets start at zero and end at the end of the level
    /// beneath them.
    pub proof fn lemma_owned_slice_value(&self, b: &Self, offset: int, length: int)
        requires
            self.wf(),
            0 <= offset,
            0 <= length,
            offset + length <= self.spec_len(),
            b.is_owned_slice_of(self, offset, length),
        ensures
            b.wf(),
            b.spec_len() == length,
            b.spec_geom_offsets()[0] == 0,
            b.spec_geom_offsets().last() == b.spec_ring_offsets().len() - 1,
            b.spec_ring_offsets()[0] == 0,
            b.spec_ring_offsets().last() == b.spec_coords().len(),
            b@ == self@.subrange(offset, offset + length),
            forall|i: int|
                0 <= i < length ==> b.spec_value(i) == self.spec_value(offset + i) && b.spec_get(i)
                    == self.spec_get(offset + i),
            forall|i: int| 0 <= i < length ==> b.spec_is_valid(i) == self.spec_is_valid(offset + i),
    {
        let g = self.spec_geom_offsets();
        let ro = self.spec_ring_offsets();
        lemma_offsets_ordered(g, offset, offset + length);
        lemma_offsets_ordered(g, offset + length, g.len() - 1);
        lemma_rebased_is_offsets(g, offset, length);
        let start_ring = g[offset];
        let end_ring = g[offset + length];
        lemma_offsets_ordered(ro, start_ring, end_ring);
        lemma_offsets_ordered(ro, end_ring, ro.len() - 1);
        lemma_rebased_is_offsets(ro, start_ring, end_ring - start_ring);
        assert forall|i: int| 0 <= i < length implies b.spec_value(i) == self.spec_value(
            offset + i,
        ) && b.spec_get(i) == self.spec_get(offset + i) by {
            lemma_offsets_ordered(g, offset, offset + i);
            lemma_offsets_ordered(g, offset + i, offset + i + 1);
            lemma_offsets_ordered(g, offset + i + 1, offset + length);
            let x = b.spec_value(i);
            let y = self.spec_value(offset + i);
            assert(x.len() == y.len());
            assert forall|k: int| 0 <= k < x.len() implies x[k] == y[k] by {
                let ring = g[offset + i] + k;
                lemma_offsets_ordered(ro, start_ring, ring);
                lemma_offsets_ordered(ro, ring, ring + 1);
                lemma_offsets_ordered(ro, ring + 1, end_ring);
                assert(x[k] =~= y[k]);
            }
            assert(x =~= y);
        }
        assert(b@ =~= self@.subrange(offset, offset + length));
    }

    /// A slot is null exactly when `get` finds nothing in it; what `value` finds there does
    /// not depend on the mask.
    pub proof fn lemma_null_iff_absent(&self, i: int)
        requires
            self.wf(),
            0 <= i < self.spec_len(),
        ensures
            !self.spec_is_valid(i) <==> self.spec_get(i) is None,
            self@[i] == self.spec_get(i),
            self.spec_get(i) is Some ==> self.spec_get(i)->Some_0 == self.spec_value(i),
    {
    }

    /// The same array over `coords`, which must hold as many coordinates as the present ones.
    pub fn with_coords(self, coords: CoordBuffer) -> (r: Self)
        requires
            coords@.len() == self.spec_coords().len(),
        ensures
            r.spec_coords() == coords@,
            r.spec_coord_type() == coords.spec_coord_type(),
            r.spec_geom_offsets() == self.spec_geom_offsets(),
            r.spec_ring_offsets() == self.spec_ring_offsets(),
            r.spec_mask() == self.spec_mask(),
    {
        proof {
            use_type_invariant(&self);
        }
        PolygonArray {
            coords,
            geom_offsets: self.geom_offsets,
            ring_offsets: self.ring_offsets,
            validity: self.validity,
        }
    }

    /// The same array with its coordinates laid out as `coord_type` says.
    pub fn into_coord_type(self, coord_type: CoordType) -> (r: Self)
        ensures
            r.spec_coords() == self.spec_coords(),
            r.spec_coord_type() == coord_type,
            r.spec_geom_offsets() == self.spec_geom_offsets(),
            r.spec_ring_offsets() == self.spec_ring_offsets(),
            r.spec_mask() == self.spec_mask(),
            r@ == self@,
    {
        proof {
            use_type_invariant(&self);
        }
        let r = PolygonArray {
            coords: self.coords.into_coord_type(coord_type),
            geom_offsets: self.geom_offsets,
            ring_offsets: self.ring_offsets,
            validity: self.validity,
        };
        proof {
            assert(r@ =~= self@);
        }
        r
    }

    /// The same array with offsets of another width.
    ///
    /// Widening always succeeds. Narrowing fails with `Overflow` exactly when the last offset
    /// of either level is above what the narrower width can hold.
    pub fn convert<P: OffsetSize>(self) -> (r: Result<PolygonArray<P>, GeoArrowError>)
        ensures
            r is Ok <==> self.spec_geom_offsets().last() <= P::max_value()
                && self.spec_ring_offsets().last() <= P::max_value(),
            r is Ok ==> {
                &&& r->Ok_0.spec_coords() == self.spec_coords()
                &&& r->Ok_0.spec_coord_type() == self.spec_coord_type()
                &&& r->Ok_0.spec_geom_offsets() == self.spec_geom_offsets()
                &&& r->Ok_0.spec_ring_offsets() == self.spec_ring_offsets()
                &&& r->Ok_0.spec_mask() == self.spec_mask()
                &&& r->Ok_0@ == self@
            },
            r is Err ==> r->Err_0 == GeoArrowError::Overflow,
    {
        proof {
            use_type_invariant(&self);
        }
        let geom_offsets = match self.geom_offsets.convert::<P>() {
            Ok(o) => o,
            Err(e) => {
                return Err(e);
            },
        };
        let ring_offsets = match self.ring_offsets.convert::<P>() {
            Ok(o) => o,
            Err(e) => {
                return Err(e);
            },
        };
        proof {
            use_type_invariant(&geom_offsets);
            use_type_invariant(&ring_offsets);
        }
        let r = PolygonArray { coords: self.coords, geom_offsets, ring_offsets, validity: self.validity };
        proof {
            assert(r@ =~= self@);
        }
        Ok(r)
    }

    /// Whether `self` and `other` hold the same polygons and the same nulls, slot by slot,
    /// whatever their offset widths, coordinate layouts and unused storage.
    pub fn same_geometries<P: OffsetSize>(&self, other: &PolygonArray<P>) -> (r: bool)
        ensures
            r == (self@ == other@),
    {
        let n = self.len();
        if n != other.len() {
            return false;
        }
        let mut i: usize = 0;
        while i < n
            invariant
                n == self.spec_len(),
                n == other.spec_len(),
                i <= n,
                forall|k: int| 0 <= k < i ==> self@[k] == other@[k],
            decreases n - i,
        {
            let same = match (self.get(i), other.get(i)) {
                (None, None) => true,
                (Some(a), Some(b)) => {
                    let x = a.to_vec();
                    let y = b.to_vec();
                    crate::scalar::owned::rings_equal(&x, &y)
                },
                _ => false,
            };
            if !same {
                assert(self@[i as int] != other@[i as int]);
                return false;
            }
            i += 1;
        }
        assert(self@ =~= other@);
        true
    }

    /// What `equals` and `==` decide: the same mask, the same offsets at both levels and
    /// the same coordinates.
    pub open spec fn spec_equals(&self, other: &Self) -> bool {
        &&& self.spec_mask() == other.spec_mask()
        &&& self.spec_geom_offsets() == other.spec_geom_offsets()
        &&& self.spec_ring_offsets() == other.spec_ring_offsets()
        &&& self.spec_coords() == other.spec_coords()
    }

    /// Equal arrays have as many slots and hold the same polygon in every one of them, and
    /// equality does not depend on the side an array stands on.
    pub proof fn lemma_equal_arrays_hold_equal_values(&self, other: &Self)
        requires
            self.spec_equals(other),
        ensures
            other.spec_equals(self),
            self.spec_len() == other.spec_len(),
            self@ == other@,
            self.spec_values() == other.spec_values(),
            forall|i: int|
                0 <= i < self.spec_len() ==> self.spec_value(i) == other.spec_value(i)
                    && self.spec_is_valid(i) == other.spec_is_valid(i),
    {
        assert(self@ =~= other@);
        assert(self.spec_values() =~= other.spec_values());
    }

    /// Whether `self` and `other` have the same mask, the same offsets at both levels and
    /// the same coordinates. Arrays that are equal hold the same polygon in every slot.
    pub fn equals(&self, other: &Self) -> (r: bool)
        ensures
            r == self.spec_equals(other),
            r ==> self@ == other@,
    {
        proof {
            if self.spec_equals(other) {
                self.lemma_equal_arrays_hold_equal_values(other);
            }
        }
        validity_eq(&self.validity, &other.validity) && self.geom_offsets.equals(
            &other.geom_offsets,
        ) && self.ring_offsets.equals(&other.ring_offsets) && self.coords.equals(&other.coords)
    }
}

impl<O: OffsetSize> Default for PolygonArray<O> {
    /// The array without slots.
    fn default() -> (r: Self)
        ensures
            r.spec_len() == 0,
            r.spec_coords() == Seq::<Coord>::empty(),
            r.spec_geom_offsets() == seq![0int],
            r.spec_ring_offsets() == seq![0int],
            r.spec_mask() is None,
    {
        let coords = CoordBuffer::from_coords(&Vec::new(), CoordType::Interleaved);
        PolygonArray::new(coords, Offsets::new_empty(), Offsets::new_empty(), None)
    }
}

impl<O: OffsetSize> Clone for PolygonArray<O> {
    /// A second handle on the same buffers.
    fn clone(&self) -> (r: Self)
        ensures
            r.spec_coords() == self.spec_coords(),
            r.spec_coord_type() == self.spec_coord_type(),
            r.spec_geom_offsets() == self.spec_geom_offsets(),
            r.spec_ring_offsets() == self.spec_ring_offsets(),
            r.spec_mask() == self.spec_mask(),
            r@ == self@,
            r.spec_equals(self),
    {
        let n = self.len();
        let r = self.slice(0, n);
        proof {
            use_type_invariant(self);
            assert(self@.subrange(0, n as int) =~= self@);
            assert(mask_range(self.spec_mask(), 0, n as int) =~= self.spec_mask());
        }
        r
    }
}

impl<O: OffsetSize> PartialEq for PolygonArray<O> {
    fn eq(&self, other: &Self) -> (r: bool) {
        self.equals(other)
    }
}

impl<O: OffsetSize> PartialEqSpecImpl for PolygonArray<O> {
    open spec fn obeys_eq_spec() -> bool {
        true
    }

    open spec fn eq_spec(&self, other: &Self) -> bool {
        self.spec_equals(other)
    }
}

} // verus!
