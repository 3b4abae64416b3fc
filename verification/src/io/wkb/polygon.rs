use crate::coord::Coord;
use crate::error::GeoArrowError;
use crate::io::wkb::primitive::{
    lemma_read_written_coords, lemma_read_written_u32, lemma_write_coords_len, read_coord,
    read_u32, spec_read_coords, spec_read_u32, spec_write_coords, spec_write_header, write_coord,
    write_header, write_u32,
};
use crate::scalar::polygon::rings_view;
use vstd::bytes::{lemma_auto_spec_u32_to_from_le_bytes, spec_u32_to_le_bytes};
use vstd::prelude::*;

verus! {

/// The code of a polygon.
pub const POLYGON_CODE: u32 = 3;

/// The first `k` rings stored from `pos` on, each a count and as many coordinates, and the
/// position after them; `None` where the bytes end too early.
pub open spec fn spec_parse_rings(b: Seq<u8>, pos: int, k: int, little: bool) -> Option<
    (Seq<Seq<Coord>>, int),
>
    decreases k,
{
    if k <= 0 {
        Some((Seq::empty(), pos))
    } else {
        match spec_parse_rings(b, pos, k - 1, little) {
            None => None,
            Some((rings, at)) => if at + 4 > b.len() {
                None
            } else if at + 4 + 16 * spec_read_u32(b, at, little) > b.len() {
                None
            } else {
                Some(
                    (
                        rings.push(
                            spec_read_coords(b, at + 4, spec_read_u32(b, at, little) as int, little),
                        ),
                        at + 4 + 16 * spec_read_u32(b, at, little),
                    ),
                )
            },
        }
    }
}

/// The polygon that starts at `pos`, and the position after it.
pub open spec fn spec_parse_polygon_at(b: Seq<u8>, pos: int) -> Option<(Seq<Seq<Coord>>, int)> {
    if pos + 9 > b.len() || b[pos] > 1 {
        None
    } else if spec_read_u32(b, pos + 1, b[pos] == 1) != POLYGON_CODE {
        None
    } else {
        spec_parse_rings(b, pos + 9, spec_read_u32(b, pos + 5, b[pos] == 1) as int, b[pos] == 1)
    }
}

/// The polygon that `b` encodes, if it encodes one and nothing else: a byte order, the code
/// of a polygon, a count of rings, and exactly as many rings.
pub open spec fn spec_parse_polygon(b: Seq<u8>) -> Option<Seq<Seq<Coord>>> {
    match spec_parse_polygon_at(b, 0) {
        Some((rings, end)) => if end == b.len() {
            Some(rings)
        } else {
            None
        },
        None => None,
    }
}

/// The bytes of one ring, little endian: its count and its coordinates.
pub open spec fn spec_write_ring(ring: Seq<Coord>) -> Seq<u8> {
    spec_u32_to_le_bytes(ring.len() as u32) + spec_write_coords(ring, ring.len() as int)
}

/// The bytes of the first `k` of `rings`, little endian.
pub open spec fn spec_write_rings(rings: Seq<Seq<Coord>>, k: int) -> Seq<u8>
    decreases k,
{
    if k <= 0 {
        Seq::empty()
    } else {
        spec_write_rings(rings, k - 1) + spec_write_ring(rings[k - 1])
    }
}

/// The bytes of a polygon, little endian.
pub open spec fn spec_write_polygon(rings: Seq<Seq<Coord>>) -> Seq<u8> {
    spec_write_header(POLYGON_CODE, rings.len() as u32) + spec_write_rings(
        rings,
        rings.len() as int,
    )
}

/// Whether a polygon can be encoded: the number of its rings and the number of coordinates
/// of each fit a 32-bit count.
pub open spec fn polygon_encodable(rings: Seq<Seq<Coord>>) -> bool {
    &&& rings.len() <= u32::MAX
    &&& forall|r: int| 0 <= r < rings.len() ==> (#[trigger] rings[r]).len() <= u32::MAX
}

/// The encoding of a ring is four bytes and sixteen more for each coordinate.
pub proof fn lemma_write_ring_len(ring: Seq<Coord>)
    ensures
        spec_write_ring(ring).len() == 4 + 16 * ring.len(),
{
    lemma_auto_spec_u32_to_from_le_bytes();
    lemma_write_coords_len(ring, ring.len() as int);
}

/// Rings written at `pos`, little endian, read back as themselves.
pub proof fn lemma_read_written_rings(b: Seq<u8>, pos: int, rings: Seq<Seq<Coord>>, k: int)
    requires
        0 <= pos,
        0 <= k <= rings.len(),
        polygon_encodable(rings),
        pos + spec_write_rings(rings, k).len() <= b.len(),
        b.subrange(pos, pos + spec_write_rings(rings, k).len() as int) == spec_write_rings(
            rings,
            k,
        ),
    ensures
        spec_parse_rings(b, pos, k, true) == Some(
            (rings.subrange(0, k), pos + spec_write_rings(rings, k).len()),
        ),
    decreases k,
{
    lemma_auto_spec_u32_to_from_le_bytes();
    if k > 0 {
        let all = spec_write_rings(rings, k);
        let head = spec_write_rings(rings, k - 1);
        let ring = rings[k - 1];
        let n = ring.len() as int;
        lemma_write_ring_len(ring);
        lemma_write_coords_len(ring, n);
        assert(b.subrange(pos, pos + head.len() as int) =~= all.subrange(0, head.len() as int));
        assert(all.subrange(0, head.len() as int) =~= head);
        lemma_read_written_rings(b, pos, rings, k - 1);
        let h = head.len() as int;
        let at = pos + h;
        assert(b.subrange(at, at + 4) =~= all.subrange(h, h + 4));
        assert(all.subrange(h, h + 4) =~= spec_u32_to_le_bytes(ring.len() as u32));
        lemma_read_written_u32(b, at, ring.len() as u32);
        assert(b.subrange(at + 4, at + 4 + 16 * n) =~= all.subrange(h + 4, h + 4 + 16 * n));
        assert(all.subrange(h + 4, h + 4 + 16 * n) =~= spec_write_coords(ring, n));
        lemma_read_written_coords(b, at + 4, ring, n);
        assert(ring.subrange(0, n) =~= ring);
        assert(rings.subrange(0, k - 1).push(ring) =~= rings.subrange(0, k));
    } else {
        assert(rings.subrange(0, 0) =~= Seq::<Seq<Coord>>::empty());
    }
}

/// A polygon written at `pos` reads back as itself.
pub proof fn lemma_read_written_polygon(b: Seq<u8>, pos: int, rings: Seq<Seq<Coord>>)
    requires
        0 <= pos,
        polygon_encodable(rings),
        pos + spec_write_polygon(rings).len() <= b.len(),
        b.subrange(pos, pos + spec_write_polygon(rings).len() as int) == spec_write_polygon(rings),
    ensures
        spec_parse_polygon_at(b, pos) == Some((rings, pos + spec_write_polygon(rings).len())),
{
    lemma_auto_spec_u32_to_from_le_bytes();
    let n = rings.len() as int;
    let w = spec_write_polygon(rings);
    let body = spec_write_rings(rings, n);
    let l = body.len() as int;
    assert(w.len() == 9 + l);
    assert(b[pos] == w[0]);
    assert(b.subrange(pos + 1, pos + 5) =~= w.subrange(1, 5));
    assert(w.subrange(1, 5) =~= spec_u32_to_le_bytes(POLYGON_CODE));
    assert(b.subrange(pos + 5, pos + 9) =~= w.subrange(5, 9));
    assert(w.subrange(5, 9) =~= spec_u32_to_le_bytes(rings.len() as u32));
    lemma_read_written_u32(b, pos + 1, POLYGON_CODE);
    lemma_read_written_u32(b, pos + 5, rings.len() as u32);
    assert(b.subrange(pos + 9, pos + 9 + l) =~= w.subrange(9, 9 + l));
    assert(w.subrange(9, 9 + l) =~= body);
    lemma_read_written_rings(b, pos + 9, rings, n);
    assert(rings.subrange(0, n) =~= rings);
}

/// Decoding the encoding of a polygon gives the polygon back.
pub proof fn lemma_polygon_round_trip(rings: Seq<Seq<Coord>>)
    requires
        polygon_encodable(rings),
    ensures
        spec_parse_polygon(spec_write_polygon(rings)) == Some(rings),
{
    let b = spec_write_polygon(rings);
    assert(b.subrange(0, b.len() as int) =~= b);
    lemma_read_written_polygon(b, 0, rings);
}

/// What was read is as many rings as were asked for, each with a number of coordinates
/// that a 32-bit count can tell.
pub proof fn lemma_parsed_rings_fit(b: Seq<u8>, pos: int, k: int, little: bool)
    requires
        0 <= k,
        spec_parse_rings(b, pos, k, little) is Some,
    ensures
        spec_parse_rings(b, pos, k, little)->Some_0.0.len() == k,
        forall|r: int|
            0 <= r < k ==> (#[trigger] spec_parse_rings(b, pos, k, little)->Some_0.0[r]).len()
                <= u32::MAX,
    decreases k,
{
    if k > 0 {
        lemma_parsed_rings_fit(b, pos, k - 1, little);
    }
}

/// A polygon that was decoded can be encoded.
pub proof fn lemma_parsed_polygon_encodable(b: Seq<u8>, pos: int)
    requires
        spec_parse_polygon_at(b, pos) is Some,
    ensures
        polygon_encodable(spec_parse_polygon_at(b, pos)->Some_0.0),
{
    let little = b[pos] == 1;
    lemma_parsed_rings_fit(b, pos + 9, spec_read_u32(b, pos + 5, little) as int, little);
}

/// Whatever bytes decode to a polygon, encoding that polygon gives bytes that decode to it
/// again.
pub proof fn lemma_polygon_reencode(b: Seq<u8>)
    requires
        spec_parse_polygon(b) is Some,
    ensures
        spec_parse_polygon(spec_write_polygon(spec_parse_polygon(b)->Some_0)) == spec_parse_polygon(
            b,
        ),
{
    lemma_parsed_polygon_encodable(b, 0);
    lemma_polygon_round_trip(spec_parse_polygon(b)->Some_0);
}

/// Where the first `j` rings cannot be parsed, neither can more.
pub proof fn lemma_parse_rings_none(b: Seq<u8>, pos: int, j: int, k: int, little: bool)
    requires
        0 <= j <= k,
        spec_parse_rings(b, pos, j, little) is None,
    ensures
        spec_parse_rings(b, pos, k, little) is None,
    decreases k - j,
{
    if j < k {
        lemma_parse_rings_none(b, pos, j, k - 1, little);
    }
}

/// Decodes the polygon that starts at `pos`; also gives the position after it.
pub fn parse_polygon_at(bytes: &[u8], pos: usize) -> (r: Option<(Vec<Vec<Coord>>, usize)>)
    requires
        pos <= bytes@.len(),
    ensures
        match spec_parse_polygon_at(bytes@, pos as int) {
            Some((rings, end)) => r is Some && rings_view(r->Some_0.0@) == rings && r->Some_0.1
                == end && pos <= end <= bytes@.len(),
            None => r is None,
        },
{
    let len = bytes.len();
    if len - pos < 9 || bytes[pos] > 1 {
        return None;
    }
    let little = bytes[pos] == 1;
    if read_u32(bytes, pos + 1, little) != POLYGON_CODE {
        return None;
    }
    let count = read_u32(bytes, pos + 5, little);
    let first = pos + 9;
    let mut rings: Vec<Vec<Coord>> = Vec::new();
    let mut at: usize = first;
    let mut k: u32 = 0;
    while k < count
        invariant
            len == bytes@.len(),
            pos + 9 == first,
            bytes@[pos as int] <= 1,
            little == (bytes@[pos as int] == 1),
            spec_read_u32(bytes@, pos + 1, little) == POLYGON_CODE,
            count == spec_read_u32(bytes@, pos + 5, little),
            k <= count,
            first <= at <= len,
            spec_parse_rings(bytes@, first as int, k as int, little) == Some(
                (rings_view(rings@), at as int),
            ),
        decreases count - k,
    {
        if len - at < 4 {
            proof {
                lemma_parse_rings_none(bytes@, first as int, k + 1, count as int, little);
            }
            return None;
        }
        let n = read_u32(bytes, at, little);
        if ((len - at - 4) as u64) < 16 * (n as u64) {
            proof {
                lemma_parse_rings_none(bytes@, first as int, k + 1, count as int, little);
            }
            return None;
        }
        let points = n as usize;
        let start = at + 4;
        let mut ring: Vec<Coord> = Vec::new();
        let mut j: usize = 0;
        while j < points
            invariant
                len == bytes@.len(),
                start + 16 * points <= len,
                j <= points,
                ring@ == spec_read_coords(bytes@, start as int, j as int, little),
            decreases points - j,
        {
            ring.push(read_coord(bytes, start + 16 * j, little));
            assert(ring@ =~= spec_read_coords(bytes@, start as int, j + 1, little));
            j += 1;
        }
        let ghost before = rings_view(rings@);
        rings.push(ring);
        assert(rings_view(rings@) =~= before.push(ring@));
        at = start + 16 * points;
        k += 1;
    }
    Some((rings, at))
}

/// Decodes a polygon, of either byte order.
///
/// Fails with `MalformedBytes` unless the bytes are exactly one polygon.
pub fn parse_polygon(bytes: &[u8]) -> (r: Result<Vec<Vec<Coord>>, GeoArrowError>)
    ensures
        match spec_parse_polygon(bytes@) {
            Some(rings) => r is Ok && rings_view(r->Ok_0@) == rings,
            None => r is Err && r->Err_0 == GeoArrowError::MalformedBytes,
        },
{
    match parse_polygon_at(bytes, 0) {
        Some((rings, end)) => if end == bytes.len() {
            Ok(rings)
        } else {
            Err(GeoArrowError::MalformedBytes)
        },
        None => Err(GeoArrowError::MalformedBytes),
    }
}

/// Whether the rings can be encoded, decided by looking at them.
pub fn can_encode_polygon(rings: &Vec<Vec<Coord>>) -> (r: bool)
    ensures
        r == polygon_encodable(rings_view(rings@)),
{
    let n = rings.len();
    if n as u64 > 0xffff_ffff {
        return false;
    }
    let mut k: usize = 0;
    while k < n
        invariant
            n == rings@.len(),
            n <= u32::MAX,
            k <= n,
            forall|r: int| 0 <= r < k ==> (#[trigger] rings_view(rings@)[r]).len() <= u32::MAX,
        decreases n - k,
    {
        if rings[k].len() as u64 > 0xffff_ffff {
            assert(rings_view(rings@)[k as int].len() > u32::MAX);
            return false;
        }
        k += 1;
    }
    true
}

/// Appends the encoding of a polygon.
///
/// Fails with `Overflow`, and appends nothing, where the number of rings or the number of
/// coordinates of a ring is more than a 32-bit count can tell.
pub fn write_polygon(out: &mut Vec<u8>, rings: &Vec<Vec<Coord>>) -> (r: Result<(), GeoArrowError>)
    ensures
        r is Ok <==> polygon_encodable(rings_view(rings@)),
        r is Ok ==> final(out)@ == old(out)@ + spec_write_polygon(rings_view(rings@)),
        r is Err ==> r->Err_0 == GeoArrowError::Overflow && final(out)@ == old(out)@,
{
    if !can_encode_polygon(rings) {
        return Err(GeoArrowError::Overflow);
    }
    let ghost rv = rings_view(rings@);
    let n = rings.len();
    let ghost before = out@;
    write_header(out, POLYGON_CODE, n as u32);
    let ghost headed = out@;
    let mut k: usize = 0;
    while k < n
        invariant
            n == rings@.len(),
            k <= n,
            rv == rings_view(rings@),
            polygon_encodable(rv),
            out@ == headed + spec_write_rings(rv, k as int),
        decreases n - k,
    {
        let ring = &rings[k];
        let m = ring.len();
        assert(rv[k as int] == ring@);
        let ghost started = out@;
        write_u32(out, m as u32);
        let ghost counted = out@;
        let mut j: usize = 0;
        while j < m
            invariant
                m == ring@.len(),
                j <= m,
                out@ == counted + spec_write_coords(ring@, j as int),
            decreases m - j,
        {
            write_coord(out, ring[j]);
            assert(out@ =~= counted + spec_write_coords(ring@, j + 1));
            j += 1;
        }
        assert(out@ =~= started + spec_write_ring(ring@));
        assert(out@ =~= headed + spec_write_rings(rv, k + 1));
        k += 1;
    }
    assert(out@ =~= before + spec_write_polygon(rv));
    Ok(())
}

} // verus!
