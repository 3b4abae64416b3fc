//! Point arrays to and from their encoded form, slot by slot.

use crate::array::point::PointArray;
use crate::builder::point::MutablePointArray;
use crate::coord::Coord;
use crate::error::GeoArrowError;
use crate::io::wkb::array::{blobs_view, pack, WKBArray};
use crate::io::wkb::point::{
    lemma_point_round_trip, parse_point, spec_parse_point, spec_write_point, write_point,
};
use crate::offsets::OffsetSize;
use vstd::prelude::*;

verus! {

/// The encodings of the points of an array, slot by slot; a null slot has none.
pub open spec fn point_blobs(slots: Seq<Option<Coord>>) -> Seq<Option<Seq<u8>>> {
    Seq::new(
        slots.len(),
        |i: int|
            match slots[i] {
                Some(c) => Some(spec_write_point(c)),
                None => None,
            },
    )
}

/// What decoding the first `n` of `blobs` as points gives: the first slot that does not
/// decode ends it with `MalformedBytes`.
pub open spec fn decode_points(blobs: Seq<Option<Seq<u8>>>, n: int) -> Result<
    Seq<Option<Coord>>,
    GeoArrowError,
>
    decreases n,
{
    if n <= 0 {
        Ok(Seq::empty())
    } else {
        match decode_points(blobs, n - 1) {
            Err(e) => Err(e),
            Ok(slots) => match blobs[n - 1] {
                None => Ok(slots.push(None)),
                Some(b) => match spec_parse_point(b) {
                    None => Err(GeoArrowError::MalformedBytes),
                    Some(c) => Ok(slots.push(Some(c))),
                },
            },
        }
    }
}

/// Once decoding fails, decoding more fails in the same way.
pub proof fn lemma_decode_points_stays_err(blobs: Seq<Option<Seq<u8>>>, i: int, n: int)
    requires
        0 <= i <= n,
        decode_points(blobs, i) is Err,
    ensures
        decode_points(blobs, n) == decode_points(blobs, i),
    decreases n - i,
{
    if i < n {
        lemma_decode_points_stays_err(blobs, i, n - 1);
    }
}

/// The encodings of the first `k` slots decode to those slots.
pub proof fn lemma_decode_encoded_points(slots: Seq<Option<Coord>>, k: int)
    requires
        0 <= k <= slots.len(),
    ensures
        decode_points(point_blobs(slots), k) == Ok::<Seq<Option<Coord>>, GeoArrowError>(
            slots.subrange(0, k),
        ),
    decreases k,
{
    if k > 0 {
        lemma_decode_encoded_points(slots, k - 1);
        match slots[k - 1] {
            Some(c) => {
                lemma_point_round_trip(c);
            },
            None => {},
        }
        assert(slots.subrange(0, k - 1).push(slots[k - 1]) =~= slots.subrange(0, k));
    } else {
        assert(slots.subrange(0, 0) =~= Seq::<Option<Coord>>::empty());
    }
}

/// Encoding a point array and decoding the result gives the array back.
pub proof fn lemma_points_wkb_round_trip(a: PointArray)
    requires
        a.wf(),
    ensures
        decode_points(point_blobs(a@), a.spec_len()) == Ok::<Seq<Option<Coord>>, GeoArrowError>(
            a@,
        ),
{
    lemma_decode_encoded_points(a@, a.spec_len());
    assert(a@.subrange(0, a.spec_len()) =~= a@);
}

impl PointArray {
    /// The array with every point encoded; null slots stay null and take no bytes.
    ///
    /// Fails with `Overflow` where the bytes outgrow the offset width.
    pub fn to_wkb<O: OffsetSize>(&self) -> (r: Result<WKBArray<O>, GeoArrowError>)
        ensures
            r is Ok <==> pack(point_blobs(self@), self.spec_len(), O::max_value()) is Ok,
            r is Ok ==> r->Ok_0@ == point_blobs(self@),
            r is Err ==> r->Err_0 == GeoArrowError::Overflow,
    {
        let n = self.len();
        let mut blobs: Vec<Option<Vec<u8>>> = Vec::new();
        let mut i: usize = 0;
        while i < n
            invariant
                n == self.spec_len(),
                i <= n,
                blobs@.len() == i,
                forall|k: int|
                    0 <= k < i ==> (#[trigger] blobs_view(blobs@)[k]) == point_blobs(self@)[k],
            decreases n - i,
        {
            let ghost before = blobs_view(blobs@);
            match self.get(i) {
                Some(c) => {
                    let mut out: Vec<u8> = Vec::new();
                    write_point(&mut out, c);
                    assert(out@ =~= spec_write_point(c));
                    blobs.push(Some(out));
                },
                None => {
                    blobs.push(None);
                },
            }
            assert forall|k: int| 0 <= k < i + 1 implies (#[trigger] blobs_view(blobs@)[k])
                == point_blobs(self@)[k] by {
                if k < i {
                    assert(blobs_view(blobs@)[k] == before[k]);
                }
            }
            i += 1;
        }
        assert(blobs_view(blobs@) =~= point_blobs(self@));
        WKBArray::from_blobs(&blobs)
    }

    /// The array of the points that `value` encodes; null slots stay null.
    ///
    /// All or nothing: the first slot that is not exactly one point fails the whole
    /// conversion with `MalformedBytes`.
    pub fn try_from_wkb<O: OffsetSize>(value: &WKBArray<O>) -> (r: Result<Self, GeoArrowError>)
        ensures
            match decode_points(value@, value.spec_len()) {
                Ok(slots) => r is Ok && r->Ok_0@ == slots,
                Err(e) => r is Err && r->Err_0 == e,
            },
    {
        let n = value.len();
        let mut builder = MutablePointArray::with_capacity(n);
        let mut i: usize = 0;
        while i < n
            invariant
                n == value.spec_len(),
                i <= n,
                builder.wf(),
                decode_points(value@, i as int) == Ok::<Seq<Option<Coord>>, GeoArrowError>(
                    builder@,
                ),
            decreases n - i,
        {
            match value.get(i) {
                None => {
                    builder.push_null();
                },
                Some(bytes) => {
                    match parse_point(bytes) {
                        Ok(c) => {
                            builder.push_point(Some(c));
                        },
                        Err(e) => {
                            proof {
                                lemma_decode_points_stays_err(value@, i + 1, n as int);
                            }
                            return Err(e);
                        },
                    }
                },
            }
            i += 1;
        }
        Ok(builder.finish())
    }
}

} // verus!
