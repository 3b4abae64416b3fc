//! Whole arrays to and from their encoded form, slot by slot.

use crate::array::linestring::LineStringArray;
use crate::array::multilinestring::MultiLineStringArray;
use crate::array::multipoint::MultiPointArray;
use crate::array::polygon::PolygonArray;
use crate::builder::linestring::{LineStage, MutableLineStringArray};
use crate::builder::polygon::{flat, MutablePolygonArray, PolygonStage};
use crate::builder::staging::lemma_staged_last;
use crate::coord::Coord;
use crate::error::GeoArrowError;
use crate::io::geozero::polygon_round_trip::lemma_slot_coords;
use crate::io::wkb::array::{blobs_view, pack, WKBArray};
use crate::io::wkb::linestring::{
    lemma_line_string_round_trip, parse_line_string, spec_parse_line_string,
    spec_write_line_string, write_line_string,
};
use crate::io::wkb::multi::{
    lemma_multi_line_string_round_trip, lemma_multi_point_round_trip,
    lemma_parsed_multi_line_string_encodable, lemma_parsed_multi_point_encodable,
    parse_multi_line_string,
    parse_multi_point, spec_parse_multi_line_string, spec_parse_multi_point,
    spec_write_multi_line_string, spec_write_multi_point, write_multi_line_string,
    write_multi_point,
};
use crate::io::wkb::polygon::{
    lemma_parsed_polygon_encodable, lemma_polygon_round_trip, parse_polygon, polygon_encodable,
    spec_parse_polygon,
    spec_write_polygon, write_polygon,
};
use crate::offsets::{lemma_offsets_ordered, OffsetSize};
use crate::scalar::polygon::rings_view;
use vstd::prelude::*;

verus! {

/// How one kind of geometry that is a single run of coordinates is encoded: line strings
/// and multi points.
pub trait ListCodec {
    /// The geometry that the bytes encode, if they encode one and nothing else.
    spec fn spec_parse(b: Seq<u8>) -> Option<Seq<Coord>>;

    /// The bytes of a geometry.
    spec fn spec_write(line: Seq<Coord>) -> Seq<u8>;

    /// Decoding the encoding of a geometry gives it back.
    proof fn lemma_round_trip(line: Seq<Coord>)
        requires
            line.len() <= u32::MAX,
        ensures
            Self::spec_parse(Self::spec_write(line)) == Some(line),
    ;

    /// What was decoded can be encoded.
    proof fn lemma_parsed_encodable(b: Seq<u8>)
        requires
            Self::spec_parse(b) is Some,
        ensures
            Self::spec_parse(b)->Some_0.len() <= u32::MAX,
    ;

    /// Decodes a geometry, or fails with `MalformedBytes`.
    fn parse(bytes: &[u8]) -> (r: Result<Vec<Coord>, GeoArrowError>)
        ensures
            match Self::spec_parse(bytes@) {
                Some(line) => r is Ok && r->Ok_0@ == line,
                None => r is Err && r->Err_0 == GeoArrowError::MalformedBytes,
            },
    ;

    /// Appends the encoding of a geometry, or fails with `Overflow` and appends nothing.
    fn write(out: &mut Vec<u8>, line: &Vec<Coord>) -> (r: Result<(), GeoArrowError>)
        ensures
            r is Ok <==> line@.len() <= u32::MAX,
            r is Ok ==> final(out)@ == old(out)@ + Self::spec_write(line@),
            r is Err ==> r->Err_0 == GeoArrowError::Overflow && final(out)@ == old(out)@,
    ;
}

/// The encoding of line strings.
pub struct LineStringCodec;

/// The encoding of multi points.
pub struct MultiPointCodec;

impl ListCodec for LineStringCodec {
    open spec fn spec_parse(b: Seq<u8>) -> Option<Seq<Coord>> {
        spec_parse_line_string(b)
    }

    open spec fn spec_write(line: Seq<Coord>) -> Seq<u8> {
        spec_write_line_string(line)
    }

    proof fn lemma_round_trip(line: Seq<Coord>) {
        lemma_line_string_round_trip(line);
    }

    proof fn lemma_parsed_encodable(b: Seq<u8>) {
    }

    fn parse(bytes: &[u8]) -> (r: Result<Vec<Coord>, GeoArrowError>) {
        parse_line_string(bytes)
    }

    fn write(out: &mut Vec<u8>, line: &Vec<Coord>) -> (r: Result<(), GeoArrowError>) {
        write_line_string(out, line)
    }
}

impl ListCodec for MultiPointCodec {
    open spec fn spec_parse(b: Seq<u8>) -> Option<Seq<Coord>> {
        spec_parse_multi_point(b)
    }

    open spec fn spec_write(line: Seq<Coord>) -> Seq<u8> {
        spec_write_multi_point(line)
    }

    proof fn lemma_round_trip(line: Seq<Coord>) {
        lemma_multi_point_round_trip(line);
    }

    proof fn lemma_parsed_encodable(b: Seq<u8>) {
        lemma_parsed_multi_point_encodable(b);
    }

    fn parse(bytes: &[u8]) -> (r: Result<Vec<Coord>, GeoArrowError>) {
        parse_multi_point(bytes)
    }

    fn write(out: &mut Vec<u8>, line: &Vec<Coord>) -> (r: Result<(), GeoArrowError>) {
        write_multi_point(out, line)
    }
}

/// How one kind of geometry that is a sequence of runs of coordinates is encoded: polygons
/// and multi line strings.
pub trait NestedCodec {
    /// The geometry that the bytes encode, if they encode one and nothing else.
    spec fn spec_parse(b: Seq<u8>) -> Option<Seq<Seq<Coord>>>;

    /// The bytes of a geometry.
    spec fn spec_write(rings: Seq<Seq<Coord>>) -> Seq<u8>;

    /// Decoding the encoding of a geometry gives it back.
    proof fn lemma_round_trip(rings: Seq<Seq<Coord>>)
        requires
            polygon_encodable(rings),
        ensures
            Self::spec_parse(Self::spec_write(rings)) == Some(rings),
    ;

    /// What was decoded can be encoded.
    proof fn lemma_parsed_encodable(b: Seq<u8>)
        requires
            Self::spec_parse(b) is Some,
        ensures
            polygon_encodable(Self::spec_parse(b)->Some_0),
    ;

    /// Decodes a geometry, or fails with `MalformedBytes`.
    fn parse(bytes: &[u8]) -> (r: Result<Vec<Vec<Coord>>, GeoArrowError>)
        ensures
            match Self::spec_parse(bytes@) {
                Some(rings) => r is Ok && rings_view(r->Ok_0@) == rings,
                None => r is Err && r->Err_0 == GeoArrowError::MalformedBytes,
            },
    ;

    /// Appends the encoding of a geometry, or fails with `Overflow` and appends nothing.
    fn write(out: &mut Vec<u8>, rings: &Vec<Vec<Coord>>) -> (r: Result<(), GeoArrowError>)
        ensures
            r is Ok <==> polygon_encodable(rings_view(rings@)),
            r is Ok ==> final(out)@ == old(out)@ + Self::spec_write(rings_view(rings@)),
            r is Err ==> r->Err_0 == GeoArrowError::Overflow && final(out)@ == old(out)@,
    ;
}

/// The encoding of polygons.
pub struct PolygonCodec;

/// The encoding of multi line strings.
pub struct MultiLineStringCodec;

impl NestedCodec for PolygonCodec {
    open spec fn spec_parse(b: Seq<u8>) -> Option<Seq<Seq<Coord>>> {
        spec_parse_polygon(b)
    }

    open spec fn spec_write(rings: Seq<Seq<Coord>>) -> Seq<u8> {
        spec_write_polygon(rings)
    }

    proof fn lemma_round_trip(rings: Seq<Seq<Coord>>) {
        lemma_polygon_round_trip(rings);
    }

    proof fn lemma_parsed_encodable(b: Seq<u8>) {
        lemma_parsed_polygon_encodable(b, 0);
    }

    fn parse(bytes: &[u8]) -> (r: Result<Vec<Vec<Coord>>, GeoArrowError>) {
        parse_polygon(bytes)
    }

    fn write(out: &mut Vec<u8>, rings: &Vec<Vec<Coord>>) -> (r: Result<(), GeoArrowError>) {
        write_polygon(out, rings)
    }
}

impl NestedCodec for MultiLineStringCodec {
    open spec fn spec_parse(b: Seq<u8>) -> Option<Seq<Seq<Coord>>> {
        spec_parse_multi_line_string(b)
    }

    open spec fn spec_write(rings: Seq<Seq<Coord>>) -> Seq<u8> {
        spec_write_multi_line_string(rings)
    }

    proof fn lemma_round_trip(rings: Seq<Seq<Coord>>) {
        lemma_multi_line_string_round_trip(rings);
    }

    proof fn lemma_parsed_encodable(b: Seq<u8>) {
        lemma_parsed_multi_line_string_encodable(b);
    }

    fn parse(bytes: &[u8]) -> (r: Result<Vec<Vec<Coord>>, GeoArrowError>) {
        parse_multi_line_string(bytes)
    }

    fn write(out: &mut Vec<u8>, rings: &Vec<Vec<Coord>>) -> (r: Result<(), GeoArrowError>) {
        write_multi_line_string(out, rings)
    }
}


/// The encodings of the line strings of an array, slot by slot; a null slot has none.
pub open spec fn line_string_blobs<C: ListCodec>(slots: Seq<Option<Seq<Coord>>>) -> Seq<Option<Seq<u8>>> {
    Seq::new(
        slots.len(),
        |i: int|
            match slots[i] {
                Some(line) => Some(C::spec_write(line)),
                None => None,
            },
    )
}

/// Whether every line string of the array has few enough coordinates for a 32-bit count.
pub open spec fn line_strings_encodable(slots: Seq<Option<Seq<Coord>>>) -> bool {
    forall|i: int|
        0 <= i < slots.len() && (#[trigger] slots[i]) is Some ==> slots[i]->Some_0.len()
            <= u32::MAX
}

/// What decoding the first `n` of `blobs` as line strings gives, where offsets may go up to
/// `max`: the first slot that does not decode ends it with `MalformedBytes`, and the first
/// one that outgrows `max` with `Overflow`.
pub open spec fn decode_line_strings<C: ListCodec>(
    blobs: Seq<Option<Seq<u8>>>,
    n: int,
    max: int,
) -> Result<
    LineStage,
    GeoArrowError,
>
    decreases n,
{
    if n <= 0 {
        Ok(LineStage::empty())
    } else {
        match decode_line_strings::<C>(blobs, n - 1, max) {
            Err(e) => Err(e),
            Ok(s) => match blobs[n - 1] {
                None => Ok(s.add_null()),
                Some(b) => match C::spec_parse(b) {
                    None => Err(GeoArrowError::MalformedBytes),
                    Some(line) => if s.geom_offsets.last() + line.len() > max {
                        Err(GeoArrowError::Overflow)
                    } else {
                        Ok(s.with_line(line))
                    },
                },
            },
        }
    }
}

/// Once decoding fails, decoding more fails in the same way.
pub proof fn lemma_decode_line_strings_stays_err<C: ListCodec>(
    blobs: Seq<Option<Seq<u8>>>,
    i: int,
    n: int,
    max: int,
)
    requires
        0 <= i <= n,
        decode_line_strings::<C>(blobs, i, max) is Err,
    ensures
        decode_line_strings::<C>(blobs, n, max) == decode_line_strings::<C>(blobs, i, max),
    decreases n - i,
{
    if i < n {
        lemma_decode_line_strings_stays_err::<C>(blobs, i, n - 1, max);
    }
}

/// The encodings of the first `k` slots of an array decode to those slots.
pub proof fn lemma_decode_encoded_line_strings<C: ListCodec, O: OffsetSize>(
    a: LineStringArray<O>,
    k: int,
)
    requires
        a.wf(),
        line_strings_encodable(a@),
        0 <= k <= a.spec_len(),
    ensures
        ({
            let back = decode_line_strings::<C>(line_string_blobs::<C>(a@), k, O::max_value());
            &&& back is Ok
            &&& back->Ok_0.wf()
            &&& back->Ok_0.is_balanced()
            &&& back->Ok_0.lines() == a@.subrange(0, k)
            &&& back->Ok_0.geom_offsets.last() <= a.spec_offsets()[k] - a.spec_offsets()[0]
        }),
    decreases k,
{
    if k > 0 {
        lemma_decode_encoded_line_strings::<C, O>(a, k - 1);
        lemma_offsets_ordered(a.spec_offsets(), 0, k - 1);
        lemma_offsets_ordered(a.spec_offsets(), k - 1, k);
        lemma_offsets_ordered(a.spec_offsets(), k, a.spec_len());
        let s = decode_line_strings::<C>(line_string_blobs::<C>(a@), k - 1, O::max_value())->Ok_0;
        match a@[k - 1] {
            Some(line) => {
                assert(line == a.spec_value(k - 1));
                C::lemma_round_trip(line);
                s.lemma_with_line(line);
                assert(a@.subrange(0, k - 1).push(Some(line)) =~= a@.subrange(0, k));
            },
            None => {
                s.lemma_add_null();
                assert(a@.subrange(0, k - 1).push(None) =~= a@.subrange(0, k));
            },
        }
    } else {
        assert(LineStage::empty().lines() =~= a@.subrange(0, 0));
    }
}

/// Encoding a line string array and decoding the result gives the array back.
pub proof fn lemma_line_strings_wkb_round_trip<C: ListCodec, O: OffsetSize>(a: LineStringArray<O>)
    requires
        a.wf(),
        line_strings_encodable(a@),
    ensures
        decode_line_strings::<C>(line_string_blobs::<C>(a@), a.spec_len(), O::max_value()) is Ok,
        decode_line_strings::<C>(
            line_string_blobs::<C>(a@),
            a.spec_len(),
            O::max_value(),
        )->Ok_0.lines() == a@,
{
    lemma_decode_encoded_line_strings::<C, O>(a, a.spec_len());
    assert(a@.subrange(0, a.spec_len()) =~= a@);
}

/// What was decoded is well formed, owes nothing, has one slot per blob and can be encoded.
pub proof fn lemma_decoded_line_strings<C: ListCodec>(
    blobs: Seq<Option<Seq<u8>>>,
    n: int,
    max: int,
)
    requires
        0 <= n <= blobs.len(),
        decode_line_strings::<C>(blobs, n, max) is Ok,
    ensures
        ({
            let s = decode_line_strings::<C>(blobs, n, max)->Ok_0;
            &&& s.wf()
            &&& s.is_balanced()
            &&& s.lines().len() == n
            &&& line_strings_encodable(s.lines())
        }),
    decreases n,
{
    if n > 0 {
        lemma_decoded_line_strings::<C>(blobs, n - 1, max);
        let before = decode_line_strings::<C>(blobs, n - 1, max)->Ok_0;
        match blobs[n - 1] {
            Some(b) => {
                C::lemma_parsed_encodable(b);
                before.lemma_with_line(C::spec_parse(b)->Some_0);
            },
            None => {
                before.lemma_add_null();
            },
        }
    }
}

/// Decoding, encoding what was decoded and decoding again gives what decoding gave the
/// first time: the bytes may differ, the geometries do not.
pub proof fn lemma_line_strings_wkb_reencode<C: ListCodec, O: OffsetSize>(
    blobs: Seq<Option<Seq<u8>>>,
    a: LineStringArray<O>,
)
    requires
        a.wf(),
        decode_line_strings::<C>(blobs, blobs.len() as int, O::max_value()) is Ok,
        a@ == decode_line_strings::<C>(blobs, blobs.len() as int, O::max_value())->Ok_0.lines(),
    ensures
        line_strings_encodable(a@),
        decode_line_strings::<C>(line_string_blobs::<C>(a@), a.spec_len(), O::max_value()) is Ok,
        decode_line_strings::<C>(
            line_string_blobs::<C>(a@),
            a.spec_len(),
            O::max_value(),
        )->Ok_0.lines() == a@,
{
    lemma_decoded_line_strings::<C>(blobs, blobs.len() as int, O::max_value());
    lemma_line_strings_wkb_round_trip::<C, O>(a);
}

/// Encodes every geometry of `a` with the codec `C`; null slots stay null and take no
/// bytes.
///
/// Fails with `Overflow` where a geometry has more coordinates than a 32-bit count can tell,
/// or the bytes outgrow the offset width.
pub fn lists_to_wkb<C: ListCodec, O: OffsetSize>(a: &LineStringArray<O>) -> (r: Result<
    WKBArray<O>,
    GeoArrowError,
>)
    ensures
        r is Ok <==> line_strings_encodable(a@) && pack(
            line_string_blobs::<C>(a@),
            a.spec_len(),
            O::max_value(),
        ) is Ok,
        r is Ok ==> r->Ok_0@ == line_string_blobs::<C>(a@),
        r is Err ==> r->Err_0 == GeoArrowError::Overflow,
{
    let n = a.len();
    let mut blobs: Vec<Option<Vec<u8>>> = Vec::new();
    let mut i: usize = 0;
    while i < n
        invariant
            n == a.spec_len(),
            i <= n,
            blobs@.len() == i,
            forall|k: int|
                0 <= k < i ==> (#[trigger] blobs_view(blobs@)[k]) == line_string_blobs::<C>(a@)[k],
            forall|k: int|
                0 <= k < i && (#[trigger] a@[k]) is Some ==> a@[k]->Some_0.len() <= u32::MAX,
        decreases n - i,
    {
        let ghost before = blobs_view(blobs@);
        match a.get(i) {
            Some(line) => {
                let mut out: Vec<u8> = Vec::new();
                match C::write(&mut out, &line.to_vec()) {
                    Ok(_) => {},
                    Err(e) => {
                        assert(a@[i as int]->Some_0.len() > u32::MAX);
                        return Err(e);
                    },
                }
                assert(out@ =~= C::spec_write(line@));
                blobs.push(Some(out));
            },
            None => {
                blobs.push(None);
            },
        }
        assert forall|k: int| 0 <= k < i + 1 implies (#[trigger] blobs_view(blobs@)[k])
            == line_string_blobs::<C>(a@)[k] by {
            if k < i {
                assert(blobs_view(blobs@)[k] == before[k]);
            }
        }
        i += 1;
    }
    assert(blobs_view(blobs@) =~= line_string_blobs::<C>(a@));
    WKBArray::from_blobs(&blobs)
}

/// Decodes every slot of `value` with the codec `C`; null slots stay null.
///
/// All or nothing: the first slot that does not decode fails the whole conversion with
/// `MalformedBytes`, and the first that takes an offset beyond the width with `Overflow`.
pub fn lists_from_wkb<C: ListCodec, O: OffsetSize>(value: &WKBArray<O>) -> (r: Result<
    LineStringArray<O>,
    GeoArrowError,
>)
    ensures
        match decode_line_strings::<C>(value@, value.spec_len(), O::max_value()) {
            Ok(s) => r is Ok && r->Ok_0@ == s.lines(),
            Err(e) => r is Err && r->Err_0 == e,
        },
{
    let n = value.len();
    let mut builder = MutableLineStringArray::<O>::with_capacities(0, n);
    let mut i: usize = 0;
    while i < n
        invariant
            n == value.spec_len(),
            i <= n,
            builder.wf(),
            builder@.is_balanced(),
            decode_line_strings::<C>(value@, i as int, O::max_value()) == Ok::<
                LineStage,
                GeoArrowError,
            >(builder@),
        decreases n - i,
    {
        match value.get(i) {
            None => {
                builder.push_null();
            },
            Some(bytes) => {
                let line = match C::parse(bytes) {
                    Ok(line) => line,
                    Err(e) => {
                        proof {
                            lemma_decode_line_strings_stays_err::<C>(
                                value@,
                                i + 1,
                                n as int,
                                O::max_value(),
                            );
                        }
                        return Err(e);
                    },
                };
                match builder.push_line_string(Some(&line)) {
                    Ok(_) => {},
                    Err(e) => {
                        proof {
                            lemma_decode_line_strings_stays_err::<C>(
                                value@,
                                i + 1,
                                n as int,
                                O::max_value(),
                            );
                        }
                        return Err(e);
                    },
                }
            },
        }
        i += 1;
    }
    builder.finish()
}

impl<O: OffsetSize> LineStringArray<O> {
    /// The array with every line string encoded; null slots stay null and take no bytes.
    ///
    /// Fails with `Overflow` where a line string has more coordinates than a 32-bit count
    /// can tell, or the bytes outgrow the offset width.
    pub fn to_wkb(&self) -> (r: Result<WKBArray<O>, GeoArrowError>)
        ensures
            r is Ok <==> line_strings_encodable(self@) && pack(
                line_string_blobs::<LineStringCodec>(self@),
                self.spec_len(),
                O::max_value(),
            ) is Ok,
            r is Ok ==> r->Ok_0@ == line_string_blobs::<LineStringCodec>(self@),
            r is Err ==> r->Err_0 == GeoArrowError::Overflow,
    {
        lists_to_wkb::<LineStringCodec, O>(self)
    }

    /// The array of the line strings that `value` encodes; null slots stay null.
    ///
    /// All or nothing: the first slot that is not exactly one line string fails the whole
    /// conversion with `MalformedBytes`, and the first that takes an offset beyond the width
    /// with `Overflow`.
    pub fn try_from_wkb(value: &WKBArray<O>) -> (r: Result<Self, GeoArrowError>)
        ensures
            match decode_line_strings::<LineStringCodec>(
                value@,
                value.spec_len(),
                O::max_value(),
            ) {
                Ok(s) => r is Ok && r->Ok_0@ == s.lines(),
                Err(e) => r is Err && r->Err_0 == e,
            },
    {
        lists_from_wkb::<LineStringCodec, O>(value)
    }
}

impl<O: OffsetSize> MultiPointArray<O> {
    /// The array with every multi point encoded; null slots stay null and take no bytes.
    ///
    /// Fails with `Overflow` where a multi point has more points than a 32-bit count can
    /// tell, or the bytes outgrow the offset width.
    pub fn to_wkb(&self) -> (r: Result<WKBArray<O>, GeoArrowError>)
        ensures
            r is Ok <==> line_strings_encodable(self@) && pack(
                line_string_blobs::<MultiPointCodec>(self@),
                self.spec_len(),
                O::max_value(),
            ) is Ok,
            r is Ok ==> r->Ok_0@ == line_string_blobs::<MultiPointCodec>(self@),
            r is Err ==> r->Err_0 == GeoArrowError::Overflow,
    {
        lists_to_wkb::<MultiPointCodec, O>(self.layout())
    }

    /// The array of the multi points that `value` encodes; null slots stay null.
    ///
    /// All or nothing: the first slot that is not exactly one multi point fails the whole
    /// conversion with `MalformedBytes`, and the first that takes an offset beyond the width
    /// with `Overflow`.
    pub fn try_from_wkb(value: &WKBArray<O>) -> (r: Result<Self, GeoArrowError>)
        ensures
            match decode_line_strings::<MultiPointCodec>(
                value@,
                value.spec_len(),
                O::max_value(),
            ) {
                Ok(s) => r is Ok && r->Ok_0@ == s.lines(),
                Err(e) => r is Err && r->Err_0 == e,
            },
    {
        match lists_from_wkb::<MultiPointCodec, O>(value) {
            Ok(lines) => Ok(MultiPointArray::from_line_strings(lines)),
            Err(e) => Err(e),
        }
    }
}

/// The encodings of the polygons of an array, slot by slot; a null slot has none.
pub open spec fn polygon_blobs<C: NestedCodec>(slots: Seq<Option<Seq<Seq<Coord>>>>) -> Seq<Option<Seq<u8>>> {
    Seq::new(
        slots.len(),
        |i: int|
            match slots[i] {
                Some(rings) => Some(C::spec_write(rings)),
                None => None,
            },
    )
}

/// Whether every polygon of the array can be encoded.
pub open spec fn polygons_encodable(slots: Seq<Option<Seq<Seq<Coord>>>>) -> bool {
    forall|i: int|
        0 <= i < slots.len() && (#[trigger] slots[i]) is Some ==> polygon_encodable(
            slots[i]->Some_0,
        )
}

/// What decoding the first `n` of `blobs` as polygons gives, where offsets may go up to
/// `max`: the first slot that does not decode ends it with `MalformedBytes`, and the first
/// one that outgrows `max`, in rings or in coordinates, with `Overflow`.
pub open spec fn decode_polygons<C: NestedCodec>(
    blobs: Seq<Option<Seq<u8>>>,
    n: int,
    max: int,
) -> Result<
    PolygonStage,
    GeoArrowError,
>
    decreases n,
{
    if n <= 0 {
        Ok(PolygonStage::empty())
    } else {
        match decode_polygons::<C>(blobs, n - 1, max) {
            Err(e) => Err(e),
            Ok(s) => match blobs[n - 1] {
                None => Ok(s.add_null()),
                Some(b) => match C::spec_parse(b) {
                    None => Err(GeoArrowError::MalformedBytes),
                    Some(rings) => if s.geom_offsets.last() + rings.len() > max
                        || s.ring_offsets.last() + flat(rings, rings.len() as int).len() > max {
                        Err(GeoArrowError::Overflow)
                    } else {
                        Ok(s.with_polygon(rings))
                    },
                },
            },
        }
    }
}

/// Once decoding fails, decoding more fails in the same way.
pub proof fn lemma_decode_polygons_stays_err<C: NestedCodec>(
    blobs: Seq<Option<Seq<u8>>>,
    i: int,
    n: int,
    max: int,
)
    requires
        0 <= i <= n,
        decode_polygons::<C>(blobs, i, max) is Err,
    ensures
        decode_polygons::<C>(blobs, n, max) == decode_polygons::<C>(blobs, i, max),
    decreases n - i,
{
    if i < n {
        lemma_decode_polygons_stays_err::<C>(blobs, i, n - 1, max);
    }
}

/// The encodings of the first `k` slots of an array decode to those slots.
pub proof fn lemma_decode_encoded_polygons<C: NestedCodec, O: OffsetSize>(
    a: PolygonArray<O>,
    k: int,
)
    requires
        a.wf(),
        polygons_encodable(a@),
        0 <= k <= a.spec_len(),
    ensures
        ({
            let back = decode_polygons::<C>(polygon_blobs::<C>(a@), k, O::max_value());
            let g = a.spec_geom_offsets();
            let ro = a.spec_ring_offsets();
            &&& back is Ok
            &&& back->Ok_0.wf()
            &&& back->Ok_0.is_balanced()
            &&& back->Ok_0.polygons() == a@.subrange(0, k)
            &&& back->Ok_0.geom_offsets.last() <= g[k] - g[0]
            &&& back->Ok_0.ring_offsets.last() <= ro[g[k]] - ro[g[0]]
        }),
    decreases k,
{
    let g = a.spec_geom_offsets();
    let ro = a.spec_ring_offsets();
    if k > 0 {
        lemma_decode_encoded_polygons::<C, O>(a, k - 1);
        lemma_offsets_ordered(g, 0, k - 1);
        lemma_offsets_ordered(g, k - 1, k);
        lemma_offsets_ordered(g, k, a.spec_len());
        lemma_offsets_ordered(ro, g[0], g[k - 1]);
        lemma_offsets_ordered(ro, g[k - 1], g[k]);
        lemma_offsets_ordered(ro, g[k], ro.len() - 1);
        let s = decode_polygons::<C>(polygon_blobs::<C>(a@), k - 1, O::max_value())->Ok_0;
        match a@[k - 1] {
            Some(rings) => {
                assert(rings == a.spec_value(k - 1));
                lemma_slot_coords(a, k - 1, rings.len() as int);
                C::lemma_round_trip(rings);
                s.lemma_with_polygon(rings);
                assert(a@.subrange(0, k - 1).push(Some(rings)) =~= a@.subrange(0, k));
            },
            None => {
                crate::builder::polygon::lemma_null_keeps_polygons(s);
                lemma_staged_last(s.geom_offsets);
                crate::builder::staging::lemma_staged_push(s.geom_offsets, s.geom_offsets.last());
                assert(a@.subrange(0, k - 1).push(None) =~= a@.subrange(0, k));
            },
        }
    } else {
        assert(PolygonStage::empty().polygons() =~= a@.subrange(0, 0));
    }
}

/// Encoding a polygon array and decoding the result gives the array back.
pub proof fn lemma_polygons_wkb_round_trip<C: NestedCodec, O: OffsetSize>(a: PolygonArray<O>)
    requires
        a.wf(),
        polygons_encodable(a@),
    ensures
        decode_polygons::<C>(polygon_blobs::<C>(a@), a.spec_len(), O::max_value()) is Ok,
        decode_polygons::<C>(polygon_blobs::<C>(a@), a.spec_len(), O::max_value())->Ok_0.polygons()
            == a@,
{
    lemma_decode_encoded_polygons::<C, O>(a, a.spec_len());
    assert(a@.subrange(0, a.spec_len()) =~= a@);
}

/// What was decoded is well formed, owes nothing, has one slot per blob and can be encoded.
pub proof fn lemma_decoded_polygons<C: NestedCodec>(blobs: Seq<Option<Seq<u8>>>, n: int, max: int)
    requires
        0 <= n <= blobs.len(),
        decode_polygons::<C>(blobs, n, max) is Ok,
    ensures
        ({
            let s = decode_polygons::<C>(blobs, n, max)->Ok_0;
            &&& s.wf()
            &&& s.is_balanced()
            &&& s.polygons().len() == n
            &&& polygons_encodable(s.polygons())
        }),
    decreases n,
{
    if n > 0 {
        lemma_decoded_polygons::<C>(blobs, n - 1, max);
        let before = decode_polygons::<C>(blobs, n - 1, max)->Ok_0;
        match blobs[n - 1] {
            Some(b) => {
                C::lemma_parsed_encodable(b);
                before.lemma_with_polygon(C::spec_parse(b)->Some_0);
            },
            None => {
                crate::builder::polygon::lemma_null_keeps_polygons(before);
                lemma_staged_last(before.geom_offsets);
                crate::builder::staging::lemma_staged_push(
                    before.geom_offsets,
                    before.geom_offsets.last(),
                );
            },
        }
    }
}

/// Decoding, encoding what was decoded and decoding again gives what decoding gave the
/// first time: the bytes may differ, the geometries do not.
pub proof fn lemma_polygons_wkb_reencode<C: NestedCodec, O: OffsetSize>(
    blobs: Seq<Option<Seq<u8>>>,
    a: PolygonArray<O>,
)
    requires
        a.wf(),
        decode_polygons::<C>(blobs, blobs.len() as int, O::max_value()) is Ok,
        a@ == decode_polygons::<C>(blobs, blobs.len() as int, O::max_value())->Ok_0.polygons(),
    ensures
        polygons_encodable(a@),
        decode_polygons::<C>(polygon_blobs::<C>(a@), a.spec_len(), O::max_value()) is Ok,
        decode_polygons::<C>(polygon_blobs::<C>(a@), a.spec_len(), O::max_value())->Ok_0.polygons()
            == a@,
{
    lemma_decoded_polygons::<C>(blobs, blobs.len() as int, O::max_value());
    lemma_polygons_wkb_round_trip::<C, O>(a);
}

/// Encodes every geometry of `a` with the codec `C`; null slots stay null and take no
/// bytes.
///
/// Fails with `Overflow` where a count does not fit 32 bits, or the bytes outgrow the offset
/// width.
pub fn nested_to_wkb<C: NestedCodec, O: OffsetSize>(a: &PolygonArray<O>) -> (r: Result<
    WKBArray<O>,
    GeoArrowError,
>)
    ensures
        r is Ok <==> polygons_encodable(a@) && pack(
            polygon_blobs::<C>(a@),
            a.spec_len(),
            O::max_value(),
        ) is Ok,
        r is Ok ==> r->Ok_0@ == polygon_blobs::<C>(a@),
        r is Err ==> r->Err_0 == GeoArrowError::Overflow,
{
    let n = a.len();
    let mut blobs: Vec<Option<Vec<u8>>> = Vec::new();
    let mut i: usize = 0;
    while i < n
        invariant
            n == a.spec_len(),
            i <= n,
            blobs@.len() == i,
            forall|k: int|
                0 <= k < i ==> (#[trigger] blobs_view(blobs@)[k]) == polygon_blobs::<C>(a@)[k],
            forall|k: int|
                0 <= k < i && (#[trigger] a@[k]) is Some ==> polygon_encodable(a@[k]->Some_0),
        decreases n - i,
    {
        let ghost before = blobs_view(blobs@);
        match a.get(i) {
            Some(polygon) => {
                let mut out: Vec<u8> = Vec::new();
                let rings = polygon.to_vec();
                match C::write(&mut out, &rings) {
                    Ok(_) => {},
                    Err(e) => {
                        assert(!polygon_encodable(a@[i as int]->Some_0));
                        return Err(e);
                    },
                }
                assert(out@ =~= C::spec_write(polygon@));
                blobs.push(Some(out));
            },
            None => {
                blobs.push(None);
            },
        }
        assert forall|k: int| 0 <= k < i + 1 implies (#[trigger] blobs_view(blobs@)[k])
            == polygon_blobs::<C>(a@)[k] by {
            if k < i {
                assert(blobs_view(blobs@)[k] == before[k]);
            }
        }
        i += 1;
    }
    assert(blobs_view(blobs@) =~= polygon_blobs::<C>(a@));
    WKBArray::from_blobs(&blobs)
}

/// Decodes every slot of `value` with the codec `C`; null slots stay null.
///
/// All or nothing: the first slot that does not decode fails the whole conversion with
/// `MalformedBytes`, and the first that takes an offset beyond the width with `Overflow`.
pub fn nested_from_wkb<C: NestedCodec, O: OffsetSize>(value: &WKBArray<O>) -> (r: Result<
    PolygonArray<O>,
    GeoArrowError,
>)
    ensures
        match decode_polygons::<C>(value@, value.spec_len(), O::max_value()) {
            Ok(s) => r is Ok && r->Ok_0@ == s.polygons(),
            Err(e) => r is Err && r->Err_0 == e,
        },
{
    let n = value.len();
    let mut builder = MutablePolygonArray::<O>::with_capacities(0, 0, n);
    let mut i: usize = 0;
    while i < n
        invariant
            n == value.spec_len(),
            i <= n,
            builder.wf(),
            builder@.is_balanced(),
            decode_polygons::<C>(value@, i as int, O::max_value()) == Ok::<
                PolygonStage,
                GeoArrowError,
            >(builder@),
        decreases n - i,
    {
        let ghost s = builder@;
        proof {
            builder.lemma_wf();
            lemma_staged_last(s.geom_offsets);
            lemma_staged_last(s.ring_offsets);
        }
        match value.get(i) {
            None => {
                builder.push_null();
                proof {
                    crate::builder::polygon::lemma_null_keeps_polygons(s);
                }
            },
            Some(bytes) => {
                let rings = match C::parse(bytes) {
                    Ok(rings) => rings,
                    Err(e) => {
                        proof {
                            lemma_decode_polygons_stays_err::<C>(
                                value@,
                                i + 1,
                                n as int,
                                O::max_value(),
                            );
                        }
                        return Err(e);
                    },
                };
                match builder.push_polygon(Some(&rings)) {
                    Ok(_) => {},
                    Err(e) => {
                        proof {
                            lemma_decode_polygons_stays_err::<C>(
                                value@,
                                i + 1,
                                n as int,
                                O::max_value(),
                            );
                        }
                        return Err(e);
                    },
                }
            },
        }
        i += 1;
    }
    builder.finish()
}

impl<O: OffsetSize> PolygonArray<O> {
    /// The array with every polygon encoded; null slots stay null and take no bytes.
    ///
    /// Fails with `Overflow` where a count does not fit 32 bits, or the bytes outgrow the
    /// offset width.
    pub fn to_wkb(&self) -> (r: Result<WKBArray<O>, GeoArrowError>)
        ensures
            r is Ok <==> polygons_encodable(self@) && pack(
                polygon_blobs::<PolygonCodec>(self@),
                self.spec_len(),
                O::max_value(),
            ) is Ok,
            r is Ok ==> r->Ok_0@ == polygon_blobs::<PolygonCodec>(self@),
            r is Err ==> r->Err_0 == GeoArrowError::Overflow,
    {
        nested_to_wkb::<PolygonCodec, O>(self)
    }

    /// The array of the polygons that `value` encodes; null slots stay null.
    ///
    /// All or nothing: the first slot that is not exactly one polygon fails the whole
    /// conversion with `MalformedBytes`, and the first that takes an offset beyond the width
    /// with `Overflow`.
    pub fn try_from_wkb(value: &WKBArray<O>) -> (r: Result<Self, GeoArrowError>)
        ensures
            match decode_polygons::<PolygonCodec>(value@, value.spec_len(), O::max_value()) {
                Ok(s) => r is Ok && r->Ok_0@ == s.polygons(),
                Err(e) => r is Err && r->Err_0 == e,
            },
    {
        nested_from_wkb::<PolygonCodec, O>(value)
    }
}

impl<O: OffsetSize> MultiLineStringArray<O> {
    /// The array with every multi line string encoded; null slots stay null and take no
    /// bytes.
    ///
    /// Fails with `Overflow` where a count does not fit 32 bits, or the bytes outgrow the
    /// offset width.
    pub fn to_wkb(&self) -> (r: Result<WKBArray<O>, GeoArrowError>)
        ensures
            r is Ok <==> polygons_encodable(self@) && pack(
                polygon_blobs::<MultiLineStringCodec>(self@),
                self.spec_len(),
                O::max_value(),
            ) is Ok,
            r is Ok ==> r->Ok_0@ == polygon_blobs::<MultiLineStringCodec>(self@),
            r is Err ==> r->Err_0 == GeoArrowError::Overflow,
    {
        nested_to_wkb::<MultiLineStringCodec, O>(self.layout())
    }

    /// The array of the multi line strings that `value` encodes; null slots stay null.
    ///
    /// All or nothing: the first slot that is not exactly one multi line string fails the
    /// whole conversion with `MalformedBytes`, and the first that takes an offset beyond the
    /// width with `Overflow`.
    pub fn try_from_wkb(value: &WKBArray<O>) -> (r: Result<Self, GeoArrowError>)
        ensures
            match decode_polygons::<MultiLineStringCodec>(
                value@,
                value.spec_len(),
                O::max_value(),
            ) {
                Ok(s) => r is Ok && r->Ok_0@ == s.polygons(),
                Err(e) => r is Err && r->Err_0 == e,
            },
    {
        match nested_from_wkb::<MultiLineStringCodec, O>(value) {
            Ok(polygons) => Ok(MultiLineStringArray::from_polygons(polygons)),
            Err(e) => Err(e),
        }
    }
}

} // verus!
