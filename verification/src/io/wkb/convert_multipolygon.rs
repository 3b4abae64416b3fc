//! Multi polygon arrays to and from their encoded form, slot by slot.

use crate::array::multipolygon::MultiPolygonArray;
use crate::array::polygon::PolygonArray;
use crate::builder::multipolygon::{coord_total, ring_total, MutableMultiPolygonArray};
use crate::coord::Coord;
use crate::error::GeoArrowError;
use crate::io::geozero::polygon_round_trip::lemma_slot_coords;
use crate::io::wkb::array::{blobs_view, pack, WKBArray};
use crate::io::wkb::multi::{
    lemma_multi_polygon_round_trip, lemma_parsed_multi_polygon_encodable,
    multi_polygon_encodable, parse_multi_polygon, spec_parse_multi_polygon,
    spec_write_multi_polygon, write_multi_polygon,
};
use crate::offsets::{lemma_offsets_ordered, OffsetSize};
use vstd::prelude::*;

verus! {

/// The encodings of the multi polygons of an array, slot by slot; a null slot has none.
pub open spec fn multi_polygon_blobs(slots: Seq<Option<Seq<Seq<Seq<Coord>>>>>) -> Seq<
    Option<Seq<u8>>,
> {
    Seq::new(
        slots.len(),
        |i: int|
            match slots[i] {
                Some(polygons) => Some(spec_write_multi_polygon(polygons)),
                None => None,
            },
    )
}

/// Whether every multi polygon of the array can be encoded.
pub open spec fn multi_polygons_encodable(slots: Seq<Option<Seq<Seq<Seq<Coord>>>>>) -> bool {
    forall|i: int|
        0 <= i < slots.len() && (#[trigger] slots[i]) is Some ==> multi_polygon_encodable(
            slots[i]->Some_0,
        )
}

/// The slots decoded so far, with the numbers of polygons, rings and coordinates in them.
pub struct Decoded {
    pub slots: Seq<Option<Seq<Seq<Seq<Coord>>>>>,
    pub polygons: int,
    pub rings: int,
    pub coords: int,
}

/// What decoding the first `n` of `blobs` as multi polygons gives, where offsets may go up
/// to `max`: the first slot that does not decode ends it with `MalformedBytes`, and the
/// first one that outgrows `max`, in polygons, rings or coordinates, with `Overflow`.
pub open spec fn decode_multi_polygons(blobs: Seq<Option<Seq<u8>>>, n: int, max: int) -> Result<
    Decoded,
    GeoArrowError,
>
    decreases n,
{
    if n <= 0 {
        Ok(Decoded { slots: Seq::empty(), polygons: 0, rings: 0, coords: 0 })
    } else {
        match decode_multi_polygons(blobs, n - 1, max) {
            Err(e) => Err(e),
            Ok(d) => match blobs[n - 1] {
                None => Ok(Decoded { slots: d.slots.push(None), ..d }),
                Some(b) => match spec_parse_multi_polygon(b) {
                    None => Err(GeoArrowError::MalformedBytes),
                    Some(p) => if d.polygons + p.len() > max || d.rings + ring_total(
                        p,
                        p.len() as int,
                    ) > max || d.coords + coord_total(p, p.len() as int) > max {
                        Err(GeoArrowError::Overflow)
                    } else {
                        Ok(
                            Decoded {
                                slots: d.slots.push(Some(p)),
                                polygons: d.polygons + p.len(),
                                rings: d.rings + ring_total(p, p.len() as int),
                                coords: d.coords + coord_total(p, p.len() as int),
                            },
                        )
                    },
                },
            },
        }
    }
}

/// Once decoding fails, decoding more fails in the same way.
pub proof fn lemma_decode_multi_polygons_stays_err(
    blobs: Seq<Option<Seq<u8>>>,
    i: int,
    n: int,
    max: int,
)
    requires
        0 <= i <= n,
        decode_multi_polygons(blobs, i, max) is Err,
    ensures
        decode_multi_polygons(blobs, n, max) == decode_multi_polygons(blobs, i, max),
    decreases n - i,
{
    if i < n {
        lemma_decode_multi_polygons_stays_err(blobs, i, n - 1, max);
    }
}

/// The polygons `from .. from + j` of a polygon array hold as many rings and coordinates
/// as its offsets span.
pub proof fn lemma_span_totals<O: OffsetSize>(p: PolygonArray<O>, from: int, to: int, j: int)
    requires
        p.wf(),
        0 <= from <= to <= p.spec_len(),
        0 <= j <= to - from,
    ensures
        ring_total(p.spec_values().subrange(from, to), j) == p.spec_geom_offsets()[from + j]
            - p.spec_geom_offsets()[from],
        coord_total(p.spec_values().subrange(from, to), j)
            == p.spec_ring_offsets()[p.spec_geom_offsets()[from + j]]
            - p.spec_ring_offsets()[p.spec_geom_offsets()[from]],
    decreases j,
{
    if j > 0 {
        lemma_span_totals(p, from, to, j - 1);
        let i = from + j - 1;
        let polygon = p.spec_value(i);
        assert(p.spec_values().subrange(from, to)[j - 1] == polygon);
        lemma_slot_coords(p, i, polygon.len() as int);
    }
}

/// The encodings of the first `k` slots of an array decode to those slots.
pub proof fn lemma_decode_encoded_multi_polygons<O: OffsetSize>(a: MultiPolygonArray<O>, k: int)
    requires
        a.wf(),
        multi_polygons_encodable(a@),
        0 <= k <= a.spec_len(),
    ensures
        ({
            let back = decode_multi_polygons(multi_polygon_blobs(a@), k, O::max_value());
            let g = a.spec_geom_offsets();
            let pg = a.spec_polygons().spec_geom_offsets();
            let ro = a.spec_polygons().spec_ring_offsets();
            &&& back is Ok
            &&& back->Ok_0.slots == a@.subrange(0, k)
            &&& 0 <= back->Ok_0.polygons <= g[k] - g[0]
            &&& 0 <= back->Ok_0.rings <= pg[g[k]] - pg[g[0]]
            &&& 0 <= back->Ok_0.coords <= ro[pg[g[k]]] - ro[pg[g[0]]]
        }),
    decreases k,
{
    let g = a.spec_geom_offsets();
    let p = a.spec_polygons();
    let pg = p.spec_geom_offsets();
    let ro = p.spec_ring_offsets();
    if k > 0 {
        lemma_decode_encoded_multi_polygons(a, k - 1);
        lemma_offsets_ordered(g, 0, k - 1);
        lemma_offsets_ordered(g, k - 1, k);
        lemma_offsets_ordered(g, k, a.spec_len());
        lemma_offsets_ordered(pg, g[0], g[k - 1]);
        lemma_offsets_ordered(pg, g[k - 1], g[k]);
        lemma_offsets_ordered(pg, g[k], pg.len() - 1);
        lemma_offsets_ordered(ro, pg[g[0]], pg[g[k - 1]]);
        lemma_offsets_ordered(ro, pg[g[k - 1]], pg[g[k]]);
        lemma_offsets_ordered(ro, pg[g[k]], ro.len() - 1);
        match a@[k - 1] {
            Some(polygons) => {
                assert(polygons == a.spec_value(k - 1));
                lemma_span_totals(p, g[k - 1], g[k], g[k] - g[k - 1]);
                lemma_multi_polygon_round_trip(polygons);
                assert(a@.subrange(0, k - 1).push(Some(polygons)) =~= a@.subrange(0, k));
            },
            None => {
                assert(a@.subrange(0, k - 1).push(None) =~= a@.subrange(0, k));
            },
        }
    } else {
        assert(a@.subrange(0, 0) =~= Seq::<Option<Seq<Seq<Seq<Coord>>>>>::empty());
        lemma_offsets_ordered(g, 0, 0);
        lemma_offsets_ordered(pg, g[0], g[0]);
    }
}

/// Encoding a multi polygon array and decoding the result gives the array back.
pub proof fn lemma_multi_polygons_wkb_round_trip<O: OffsetSize>(a: MultiPolygonArray<O>)
    requires
        a.wf(),
        multi_polygons_encodable(a@),
    ensures
        decode_multi_polygons(multi_polygon_blobs(a@), a.spec_len(), O::max_value()) is Ok,
        decode_multi_polygons(multi_polygon_blobs(a@), a.spec_len(), O::max_value())->Ok_0.slots
            == a@,
{
    lemma_decode_encoded_multi_polygons(a, a.spec_len());
    assert(a@.subrange(0, a.spec_len()) =~= a@);
}

/// What was decoded has one slot per blob and can be encoded.
pub proof fn lemma_decoded_multi_polygons(blobs: Seq<Option<Seq<u8>>>, n: int, max: int)
    requires
        0 <= n <= blobs.len(),
        decode_multi_polygons(blobs, n, max) is Ok,
    ensures
        decode_multi_polygons(blobs, n, max)->Ok_0.slots.len() == n,
        multi_polygons_encodable(decode_multi_polygons(blobs, n, max)->Ok_0.slots),
    decreases n,
{
    if n > 0 {
        lemma_decoded_multi_polygons(blobs, n - 1, max);
        match blobs[n - 1] {
            Some(b) => {
                lemma_parsed_multi_polygon_encodable(b);
            },
            None => {},
        }
    }
}

/// Decoding, encoding what was decoded and decoding again gives what decoding gave the
/// first time: the bytes may differ, the geometries do not.
pub proof fn lemma_multi_polygons_wkb_reencode<O: OffsetSize>(
    blobs: Seq<Option<Seq<u8>>>,
    a: MultiPolygonArray<O>,
)
    requires
        a.wf(),
        decode_multi_polygons(blobs, blobs.len() as int, O::max_value()) is Ok,
        a@ == decode_multi_polygons(blobs, blobs.len() as int, O::max_value())->Ok_0.slots,
    ensures
        multi_polygons_encodable(a@),
        decode_multi_polygons(multi_polygon_blobs(a@), a.spec_len(), O::max_value()) is Ok,
        decode_multi_polygons(multi_polygon_blobs(a@), a.spec_len(), O::max_value())->Ok_0.slots
            == a@,
{
    lemma_decoded_multi_polygons(blobs, blobs.len() as int, O::max_value());
    lemma_multi_polygons_wkb_round_trip(a);
}

impl<O: OffsetSize> MultiPolygonArray<O> {
    /// The array with every multi polygon encoded; null slots stay null and take no bytes.
    ///
    /// Fails with `Overflow` where a count does not fit 32 bits, or the bytes outgrow the
    /// offset width.
    pub fn to_wkb(&self) -> (r: Result<WKBArray<O>, GeoArrowError>)
        ensures
            r is Ok <==> multi_polygons_encodable(self@) && pack(
                multi_polygon_blobs(self@),
                self.spec_len(),
                O::max_value(),
            ) is Ok,
            r is Ok ==> r->Ok_0@ == multi_polygon_blobs(self@),
            r is Err ==> r->Err_0 == GeoArrowError::Overflow,
    {
        let n = self.len();
        let mut blobs: Vec<Option<Vec<u8>>> = Vec::new();
        let mut i: usize = 0;
        while i < n
            invariant
                n == self.spec_len(),
                i <= n,
                blobs@.len() == i,
                forall|k: int|
                    0 <= k < i ==> (#[trigger] blobs_view(blobs@)[k]) == multi_polygon_blobs(
                        self@,
                    )[k],
                forall|k: int|
                    0 <= k < i && (#[trigger] self@[k]) is Some ==> multi_polygon_encodable(
                        self@[k]->Some_0,
                    ),
            decreases n - i,
        {
            let ghost before = blobs_view(blobs@);
            match self.get(i) {
                Some(multi) => {
                    let mut out: Vec<u8> = Vec::new();
                    let polygons = multi.to_vec();
                    match write_multi_polygon(&mut out, &polygons) {
                        Ok(_) => {},
                        Err(e) => {
                            assert(!multi_polygon_encodable(self@[i as int]->Some_0));
                            return Err(e);
                        },
                    }
                    assert(out@ =~= spec_write_multi_polygon(multi@));
                    blobs.push(Some(out));
                },
                None => {
                    blobs.push(None);
                },
            }
            assert forall|k: int| 0 <= k < i + 1 implies (#[trigger] blobs_view(blobs@)[k])
                == multi_polygon_blobs(self@)[k] by {
                if k < i {
                    assert(blobs_view(blobs@)[k] == before[k]);
                }
            }
            i += 1;
        }
        assert(blobs_view(blobs@) =~= multi_polygon_blobs(self@));
        WKBArray::from_blobs(&blobs)
    }

    /// The array of the multi polygons that `value` encodes; null slots stay null.
    ///
    /// All or nothing: the first slot that is not exactly one multi polygon fails the whole
    /// conversion with `MalformedBytes`, and the first that takes an offset beyond the width
    /// with `Overflow`.
    pub fn try_from_wkb(value: &WKBArray<O>) -> (r: Result<Self, GeoArrowError>)
        ensures
            match decode_multi_polygons(value@, value.spec_len(), O::max_value()) {
                Ok(d) => r is Ok && r->Ok_0@ == d.slots,
                Err(e) => r is Err && r->Err_0 == e,
            },
    {
        let n = value.len();
        let mut builder = MutableMultiPolygonArray::<O>::new();
        let mut i: usize = 0;
        while i < n
            invariant
                n == value.spec_len(),
                i <= n,
                builder.wf(),
                decode_multi_polygons(value@, i as int, O::max_value()) == Ok::<
                    Decoded,
                    GeoArrowError,
                >(
                    Decoded {
                        slots: builder@,
                        polygons: builder.spec_num_polygons(),
                        rings: builder.spec_num_rings(),
                        coords: builder.spec_num_coords(),
                    },
                ),
            decreases n - i,
        {
            match value.get(i) {
                None => {
                    builder.push_null();
                },
                Some(bytes) => {
                    let polygons = match parse_multi_polygon(bytes) {
                        Ok(polygons) => polygons,
                        Err(e) => {
                            proof {
                                lemma_decode_multi_polygons_stays_err(
                                    value@,
                                    i + 1,
                                    n as int,
                                    O::max_value(),
                                );
                            }
                            return Err(e);
                        },
                    };
                    match builder.push_multi_polygon(Some(&polygons)) {
                        Ok(_) => {},
                        Err(e) => {
                            proof {
                                lemma_decode_multi_polygons_stays_err(
                                    value@,
                                    i + 1,
                                    n as int,
                                    O::max_value(),
                                );
                            }
                            return Err(e);
                        },
                    }
                },
            }
            i += 1;
        }
        Ok(builder.finish())
    }
}

} // verus!
