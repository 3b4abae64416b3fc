use crate::coord::Coord;
use crate::error::GeoArrowError;
use crate::io::wkb::primitive::{
    lemma_read_written_u32, lemma_read_written_u64, read_coord, read_u32, spec_read_coord,
    spec_read_u32, spec_write_coord, write_coord, write_u32, LITTLE_ENDIAN,
};
use vstd::bytes::{
    lemma_auto_spec_u32_to_from_le_bytes, lemma_auto_spec_u64_to_from_le_bytes,
    spec_u32_to_le_bytes, spec_u64_to_le_bytes,
};
use vstd::prelude::*;

verus! {

/// The code of a point.
pub const POINT_CODE: u32 = 1;

/// The point that starts at `pos`, and the position after it: a byte order, the code of a
/// point and one coordinate.
pub open spec fn spec_parse_point_at(b: Seq<u8>, pos: int) -> Option<(Coord, int)> {
    if pos + 21 > b.len() || b[pos] > 1 {
        None
    } else if spec_read_u32(b, pos + 1, b[pos] == 1) != POINT_CODE {
        None
    } else {
        Some((spec_read_coord(b, pos + 5, b[pos] == 1), pos + 21))
    }
}

/// The point that `b` encodes, if it encodes one and nothing else.
pub open spec fn spec_parse_point(b: Seq<u8>) -> Option<Coord> {
    match spec_parse_point_at(b, 0) {
        Some((c, end)) => if end == b.len() {
            Some(c)
        } else {
            None
        },
        None => None,
    }
}

/// The bytes of a point, little endian.
pub open spec fn spec_write_point(c: Coord) -> Seq<u8> {
    seq![LITTLE_ENDIAN] + spec_u32_to_le_bytes(POINT_CODE) + spec_write_coord(c)
}

/// The encoding of a point is twenty-one bytes.
pub proof fn lemma_write_point_len(c: Coord)
    ensures
        spec_write_point(c).len() == 21,
{
    lemma_auto_spec_u32_to_from_le_bytes();
    lemma_auto_spec_u64_to_from_le_bytes();
}

/// A point written at `pos` reads back as itself.
pub proof fn lemma_read_written_point(b: Seq<u8>, pos: int, c: Coord)
    requires
        0 <= pos,
        pos + spec_write_point(c).len() <= b.len(),
        b.subrange(pos, pos + spec_write_point(c).len() as int) == spec_write_point(c),
    ensures
        spec_parse_point_at(b, pos) == Some((c, pos + spec_write_point(c).len())),
        spec_write_point(c).len() == 21,
{
    lemma_auto_spec_u32_to_from_le_bytes();
    lemma_auto_spec_u64_to_from_le_bytes();
    let w = spec_write_point(c);
    assert(b[pos] == w[0]);
    assert(b.subrange(pos + 1, pos + 5) =~= w.subrange(1, 5));
    assert(w.subrange(1, 5) =~= spec_u32_to_le_bytes(POINT_CODE));
    lemma_read_written_u32(b, pos + 1, POINT_CODE);
    assert(b.subrange(pos + 5, pos + 13) =~= w.subrange(5, 13));
    assert(w.subrange(5, 13) =~= spec_u64_to_le_bytes(c.x));
    assert(b.subrange(pos + 13, pos + 21) =~= w.subrange(13, 21));
    assert(w.subrange(13, 21) =~= spec_u64_to_le_bytes(c.y));
    lemma_read_written_u64(b, pos + 5, c.x);
    lemma_read_written_u64(b, pos + 13, c.y);
}

/// Decoding the encoding of a point gives the point back.
pub proof fn lemma_point_round_trip(c: Coord)
    ensures
        spec_parse_point(spec_write_point(c)) == Some(c),
{
    let b = spec_write_point(c);
    lemma_write_point_len(c);
    assert(b.subrange(0, b.len() as int) =~= b);
    lemma_read_written_point(b, 0, c);
}

/// Decodes the point that starts at `pos`; also gives the position after it.
pub fn parse_point_at(bytes: &[u8], pos: usize) -> (r: Option<(Coord, usize)>)
    requires
        pos <= bytes@.len(),
    ensures
        match spec_parse_point_at(bytes@, pos as int) {
            Some((c, end)) => r == Some((c, end as usize)) && pos <= end <= bytes@.len(),
            None => r is None,
        },
{
    let len = bytes.len();
    if len - pos < 21 || bytes[pos] > 1 {
        return None;
    }
    let little = bytes[pos] == 1;
    if read_u32(bytes, pos + 1, little) != POINT_CODE {
        return None;
    }
    Some((read_coord(bytes, pos + 5, little), pos + 21))
}

/// Decodes a point, of either byte order.
///
/// Fails with `MalformedBytes` unless the bytes are exactly one point.
pub fn parse_point(bytes: &[u8]) -> (r: Result<Coord, GeoArrowError>)
    ensures
        match spec_parse_point(bytes@) {
            Some(c) => r == Ok::<Coord, GeoArrowError>(c),
            None => r == Err::<Coord, GeoArrowError>(GeoArrowError::MalformedBytes),
        },
{
    match parse_point_at(bytes, 0) {
        Some((c, end)) => if end == bytes.len() {
            Ok(c)
        } else {
            Err(GeoArrowError::MalformedBytes)
        },
        None => Err(GeoArrowError::MalformedBytes),
    }
}

/// Appends the encoding of a point.
pub fn write_point(out: &mut Vec<u8>, c: Coord)
    ensures
        final(out)@ == old(out)@ + spec_write_point(c),
{
    let ghost before = out@;
    out.push(LITTLE_ENDIAN);
    write_u32(out, POINT_CODE);
    write_coord(out, c);
    assert(out@ =~= before + spec_write_point(c));
}

} // verus!
