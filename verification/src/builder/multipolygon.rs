use crate::array::multipolygon::MultiPolygonArray;
use crate::builder::polygon::{flat, MutablePolygonArray, PolygonStage};
use crate::builder::staging::{
    is_staged, lemma_staged_last, lemma_staged_push, push_empty, push_length, staged_new,
};
use crate::coord::Coord;
use crate::datatypes::CoordType;
use crate::error::GeoArrowError;
use crate::offsets::{lemma_monotone_from_steps, offset_ints, OffsetSize, Offsets};
use crate::scalar::multipolygon::{multipolygon_at, polygons_view};
use crate::scalar::polygon::rings_view;
use crate::validity::validity_from_bits;
use vstd::prelude::*;

verus! {

/// The number of rings in the first `n` of `polygons`.
pub open spec fn ring_total(polygons: Seq<Seq<Seq<Coord>>>, n: int) -> int
    decreases n,
{
    if n <= 0 {
        0
    } else {
        ring_total(polygons, n - 1) + polygons[n - 1].len()
    }
}

/// The number of coordinates in the first `n` of `polygons`.
pub open spec fn coord_total(polygons: Seq<Seq<Seq<Coord>>>, n: int) -> int
    decreases n,
{
    if n <= 0 {
        0
    } else {
        coord_total(polygons, n - 1) + flat(polygons[n - 1], polygons[n - 1].len() as int).len()
    }
}

/// Neither total is negative.
pub proof fn lemma_totals_nonnegative(polygons: Seq<Seq<Seq<Coord>>>, n: int)
    ensures
        0 <= ring_total(polygons, n),
        0 <= coord_total(polygons, n),
    decreases n,
{
    if n > 0 {
        lemma_totals_nonnegative(polygons, n - 1);
    }
}

/// Both totals grow with the number of polygons taken.
pub proof fn lemma_totals_grow(polygons: Seq<Seq<Seq<Coord>>>, j: int, n: int)
    requires
        0 <= j <= n,
    ensures
        0 <= ring_total(polygons, j) <= ring_total(polygons, n),
        0 <= coord_total(polygons, j) <= coord_total(polygons, n),
    decreases n - j,
{
    lemma_totals_nonnegative(polygons, j);
    if j < n {
        lemma_totals_grow(polygons, j, n - 1);
    }
}

/// Whether every slot is valid.
pub open spec fn no_nulls<T>(slots: Seq<Option<T>>) -> bool {
    forall|i: int| 0 <= i < slots.len() ==> (#[trigger] slots[i]) is Some
}

/// The polygons of a stage in which every slot is valid.
pub open spec fn all_polygons(s: PolygonStage) -> Seq<Seq<Seq<Coord>>> {
    Seq::new(s.bits.len(), |i: int| s.polygons()[i]->Some_0)
}

/// The multi polygons that staged buffers spell, slot by slot.
pub open spec fn staged_multipolygons(
    polygons: Seq<Seq<Seq<Coord>>>,
    geom_offsets: Seq<int>,
    bits: Seq<bool>,
) -> Seq<Option<Seq<Seq<Seq<Coord>>>>> {
    Seq::new(
        bits.len(),
        |i: int|
            if bits[i] {
                Some(multipolygon_at(polygons, geom_offsets, i))
            } else {
                None
            },
    )
}

/// Appending a slot leaves the slots before it as they were, as long as the polygons that
/// they cover stay in place.
pub proof fn lemma_push_keeps_multipolygons(
    p0: Seq<Seq<Seq<Coord>>>,
    p1: Seq<Seq<Seq<Coord>>>,
    g: Seq<int>,
    bits: Seq<bool>,
    slot: Option<Seq<Seq<Seq<Coord>>>>,
)
    requires
        is_staged(g),
        bits.len() == g.len() - 1,
        g.last() == p0.len(),
        match slot {
            Some(added) => p1 == p0 + added,
            None => p1 == p0,
        },
    ensures
        staged_multipolygons(p1, g.push(p1.len() as int), bits.push(slot is Some))
            == staged_multipolygons(p0, g, bits).push(slot),
        is_staged(g.push(p1.len() as int)),
{
    let g1 = g.push(p1.len() as int);
    let b1 = bits.push(slot is Some);
    let a = staged_multipolygons(p1, g1, b1);
    let b = staged_multipolygons(p0, g, bits);
    lemma_staged_push(g, p1.len() as int);
    assert forall|i: int| 0 <= i < bits.len() implies a[i] == b[i] by {
        lemma_monotone_from_steps(g, 0, i);
        lemma_monotone_from_steps(g, i, i + 1);
        lemma_monotone_from_steps(g, i + 1, g.len() - 1);
        assert(multipolygon_at(p1, g1, i) =~= multipolygon_at(p0, g, i));
    }
    if slot is Some {
        assert(multipolygon_at(p1, g1, bits.len() as int) =~= slot->Some_0);
    }
    assert(a =~= b.push(slot));
}

/// A growing array of multi polygons.
///
/// Every operation appends a whole slot.
pub struct MutableMultiPolygonArray<O: OffsetSize> {
    polygons: MutablePolygonArray<O>,
    geom_offsets: Vec<O>,
    validity: Vec<bool>,
}

impl<O: OffsetSize> View for MutableMultiPolygonArray<O> {
    type V = Seq<Option<Seq<Seq<Seq<Coord>>>>>;

    closed spec fn view(&self) -> Seq<Option<Seq<Seq<Seq<Coord>>>>> {
        staged_multipolygons(
            all_polygons(self.polygons@),
            offset_ints(self.geom_offsets@),
            self.validity@,
        )
    }
}

impl<O: OffsetSize> MutableMultiPolygonArray<O> {
    /// The number of polygons pushed so far, over all slots.
    pub closed spec fn spec_num_polygons(&self) -> int {
        self.polygons@.bits.len() as int
    }

    /// The number of rings pushed so far, over all slots.
    pub closed spec fn spec_num_rings(&self) -> int {
        self.polygons@.geom_offsets.last()
    }

    /// The number of coordinates pushed so far, over all slots.
    pub closed spec fn spec_num_coords(&self) -> int {
        self.polygons@.ring_offsets.last()
    }

    /// What holds of a builder between any two operations.
    pub closed spec fn wf(&self) -> bool {
        &&& self.polygons.wf()
        &&& self.polygons@.wf()
        &&& self.polygons@.is_balanced()
        &&& no_nulls(self.polygons@.polygons())
        &&& is_staged(offset_ints(self.geom_offsets@))
        &&& self.validity@.len() == self.geom_offsets@.len() - 1
        &&& offset_ints(self.geom_offsets@).last() == self.polygons@.bits.len()
    }

    /// An empty builder.
    pub fn new() -> (r: Self)
        ensures
            r.wf(),
            r@ == Seq::<Option<Seq<Seq<Seq<Coord>>>>>::empty(),
            r.spec_num_polygons() == 0,
            r.spec_num_rings() == 0,
            r.spec_num_coords() == 0,
    {
        let r = MutableMultiPolygonArray {
            polygons: MutablePolygonArray::new(),
            geom_offsets: staged_new(0),
            validity: Vec::new(),
        };
        assert(r@ =~= Seq::<Option<Seq<Seq<Seq<Coord>>>>>::empty());
        r
    }

    /// The number of slots pushed so far.
    pub fn len(&self) -> (n: usize)
        requires
            self.wf(),
        ensures
            n == self@.len(),
    {
        self.validity.len()
    }

    /// Appends a null slot: no polygons, and a cleared validity bit.
    pub fn push_null(&mut self)
        requires
            old(self).wf(),
        ensures
            final(self).wf(),
            final(self)@ == old(self)@.push(None),
            final(self).spec_num_polygons() == old(self).spec_num_polygons(),
            final(self).spec_num_rings() == old(self).spec_num_rings(),
            final(self).spec_num_coords() == old(self).spec_num_coords(),
    {
        let ghost g = offset_ints(self.geom_offsets@);
        let ghost p = all_polygons(self.polygons@);
        let ghost bits = self.validity@;
        push_empty(&mut self.geom_offsets);
        self.validity.push(false);
        proof {
            lemma_push_keeps_multipolygons(p, p, g, bits, None);
        }
    }

    /// Appends one slot: the multi polygon `value`, or a null slot where there is none.
    ///
    /// Fails with `Overflow`, and changes nothing, where the number of polygons, of rings or
    /// of coordinates takes an offset beyond the width.
    pub fn push_multi_polygon(&mut self, value: Option<&Vec<Vec<Vec<Coord>>>>) -> (r: Result<
        (),
        GeoArrowError,
    >)
        requires
            old(self).wf(),
        ensures
            final(self).wf(),
            r is Ok <==> (value is Some ==> {
                let added = polygons_view(value->Some_0@);
                &&& old(self).spec_num_polygons() + added.len() <= O::max_value()
                &&& old(self).spec_num_rings() + ring_total(added, added.len() as int)
                    <= O::max_value()
                &&& old(self).spec_num_coords() + coord_total(added, added.len() as int)
                    <= O::max_value()
            }),
            r is Ok ==> final(self)@ == old(self)@.push(
                match value {
                    Some(polygons) => Some(polygons_view(polygons@)),
                    None => None,
                },
            ),
            r is Ok && value is Some ==> {
                let added = polygons_view(value->Some_0@);
                &&& final(self).spec_num_polygons() == old(self).spec_num_polygons() + added.len()
                &&& final(self).spec_num_rings() == old(self).spec_num_rings() + ring_total(
                    added,
                    added.len() as int,
                )
                &&& final(self).spec_num_coords() == old(self).spec_num_coords() + coord_total(
                    added,
                    added.len() as int,
                )
            },
            r is Err ==> r->Err_0 == GeoArrowError::Overflow && final(self)@ == old(self)@
                && final(self).spec_num_polygons() == old(self).spec_num_polygons()
                && final(self).spec_num_rings() == old(self).spec_num_rings()
                && final(self).spec_num_coords() == old(self).spec_num_coords(),
    {
        let polygons = match value {
            None => {
                self.push_null();
                return Ok(());
            },
            Some(polygons) => polygons,
        };
        let ghost added = polygons_view(polygons@);
        let ghost s0 = self.polygons@;
        let ghost g0 = offset_ints(self.geom_offsets@);
        let ghost bits0 = self.validity@;
        let ghost p0 = all_polygons(s0);
        let n = polygons.len();
        proof {
            O::lemma_bounds();
            lemma_staged_last(s0.geom_offsets);
            lemma_staged_last(s0.ring_offsets);
        }
        // All or nothing: count rings and coordinates before anything is pushed.
        let mut rings: u64 = 0;
        let mut coords: u64 = 0;
        let mut i: usize = 0;
        while i < n
            invariant
                n == polygons@.len(),
                i <= n,
                added == polygons_view(polygons@),
                rings == ring_total(added, i as int),
                coords == coord_total(added, i as int),
                rings <= i64::MAX,
                coords <= i64::MAX,
                self.wf(),
                *self == *old(self),
                value == Some(polygons),
                0 <= old(self).spec_num_rings(),
                0 <= old(self).spec_num_coords(),
                O::max_value() <= i64::MAX,
            decreases n - i,
        {
            let polygon = &polygons[i];
            let m = polygon.len();
            assert(added[i as int] == rings_view(polygon@));
            if m as u64 > 0x7fff_ffff_ffff_ffff - rings {
                proof {
                    lemma_totals_grow(added, i + 1, n as int);
                }
                return Err(GeoArrowError::Overflow);
            }
            let inner = match MutablePolygonArray::<O>::coord_count(polygon) {
                Some(inner) => inner,
                None => {
                    proof {
                        lemma_totals_nonnegative(added, i as int);
                        lemma_totals_grow(added, i + 1, n as int);
                    }
                    return Err(GeoArrowError::Overflow);
                },
            };
            if inner > 0x7fff_ffff_ffff_ffff - coords {
                proof {
                    lemma_totals_grow(added, i + 1, n as int);
                }
                return Err(GeoArrowError::Overflow);
            }
            rings = rings + m as u64;
            coords = coords + inner;
            i += 1;
        }
        let count = self.polygons.len() as u64;
        let n64 = n as u64;
        if n64 > 0x7fff_ffff_ffff_ffff || count > 0x7fff_ffff_ffff_ffff - n64 || O::from_wide(
            (count + n64) as i64,
        ).is_none() {
            return Err(GeoArrowError::Overflow);
        }
        if !self.polygons.fits(rings, coords) {
            return Err(GeoArrowError::Overflow);
        }
        let mut k: usize = 0;
        while k < n
            invariant
                n == polygons@.len(),
                k <= n,
                added == polygons_view(polygons@),
                self.polygons.wf(),
                self.polygons@.wf(),
                self.polygons@.is_balanced(),
                no_nulls(self.polygons@.polygons()),
                self.geom_offsets == old(self).geom_offsets,
                self.validity == old(self).validity,
                s0.geom_offsets.last() + ring_total(added, n as int) <= O::max_value(),
                s0.ring_offsets.last() + coord_total(added, n as int) <= O::max_value(),
                self.polygons@.geom_offsets.last() == s0.geom_offsets.last() + ring_total(
                    added,
                    k as int,
                ),
                self.polygons@.ring_offsets.last() == s0.ring_offsets.last() + coord_total(
                    added,
                    k as int,
                ),
                all_polygons(self.polygons@) == p0 + added.subrange(0, k as int),
            decreases n - k,
        {
            let ghost before = self.polygons@;
            proof {
                lemma_totals_grow(added, k + 1, n as int);
                before.lemma_with_polygon(added[k as int]);
                assert(added[k as int] == rings_view(polygons@[k as int]@));
            }
            let pushed = self.polygons.push_polygon(Some(&polygons[k]));
            assert(pushed is Ok);
            proof {
                assert(self.polygons@.polygons().len() == self.polygons@.bits.len());
                assert(before.polygons().len() == before.bits.len());
                assert(all_polygons(self.polygons@) =~= all_polygons(before).push(added[k as int]));
                assert(p0 + added.subrange(0, k + 1) =~= (p0 + added.subrange(0, k as int)).push(
                    added[k as int],
                ));
            }
            k += 1;
        }
        let pushed = push_length(&mut self.geom_offsets, n);
        assert(pushed is Ok);
        self.validity.push(true);
        proof {
            assert(added.subrange(0, n as int) =~= added);
            lemma_push_keeps_multipolygons(p0, p0 + added, g0, bits0, Some(added));
        }
        Ok(())
    }

    /// The finished array: the staged buffers, frozen. The mask is left out where every slot
    /// is valid.
    pub fn finish(self) -> (r: MultiPolygonArray<O>)
        requires
            self.wf(),
        ensures
            r@ == self@,
            r.spec_mask() is None <==> no_nulls(self@),
            r.spec_polygons().spec_coord_type() == CoordType::Interleaved,
            r.spec_geom_offsets()[0] == 0,
            r.spec_geom_offsets().last() == self.spec_num_polygons(),
            r.spec_polygons().spec_geom_offsets().last() == self.spec_num_rings(),
            r.spec_polygons().spec_ring_offsets().last() == self.spec_num_coords(),
    {
        let ghost me = self@;
        let ghost inner = self.polygons@;
        let ghost bits = self.validity@;
        proof {
            assert forall|i: int| 0 <= i < inner.bits.len() implies inner.bits[i] by {
                assert(inner.polygons()[i] is Some);
            }
        }
        let _polygons = self.polygons.len();
        let polygons = self.polygons.into_array();
        let geom_offsets = Offsets::new(self.geom_offsets);
        let validity = validity_from_bits(self.validity);
        let r = MultiPolygonArray::from_parts(polygons, geom_offsets, validity);
        proof {
            assert(r.spec_polygons().spec_values() =~= all_polygons(inner));
            assert(r@ =~= me);
            if crate::validity::all_set(bits) {
                assert forall|i: int| 0 <= i < me.len() implies (#[trigger] me[i]) is Some by {
                    assert(bits[i]);
                }
            } else {
                let i = choose|i: int| 0 <= i < bits.len() && !bits[i];
                assert(me[i] is None);
            }
        }
        r
    }
}

} // verus!
