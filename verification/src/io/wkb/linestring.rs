use crate::coord::Coord;
use crate::error::GeoArrowError;
use crate::io::wkb::primitive::{
    lemma_read_written_coords, lemma_read_written_u32, lemma_write_coords_len, read_coord,
    read_u32, spec_read_coords, spec_read_u32, spec_write_coords, spec_write_header, write_coord,
    write_header,
};
use vstd::bytes::{lemma_auto_spec_u32_to_from_le_bytes, spec_u32_to_le_bytes};
use vstd::prelude::*;

verus! {

/// The code of a line string.
pub const LINE_STRING_CODE: u32 = 2;

/// The geometry of kind `code` that starts at `pos` and is made of a count and as many
/// coordinates, and the position after it; `None` where the bytes at `pos` are no such
/// geometry.
pub open spec fn spec_parse_coords_at(b: Seq<u8>, pos: int, code: u32) -> Option<
    (Seq<Coord>, int),
> {
    if pos + 9 > b.len() || b[pos] > 1 {
        None
    } else if spec_read_u32(b, pos + 1, b[pos] == 1) != code {
        None
    } else if pos + 9 + 16 * spec_read_u32(b, pos + 5, b[pos] == 1) > b.len() {
        None
    } else {
        Some(
            (
                spec_read_coords(
                    b,
                    pos + 9,
                    spec_read_u32(b, pos + 5, b[pos] == 1) as int,
                    b[pos] == 1,
                ),
                pos + 9 + 16 * spec_read_u32(b, pos + 5, b[pos] == 1),
            ),
        )
    }
}

/// The line string that starts at `pos`, and the position after it.
pub open spec fn spec_parse_line_string_at(b: Seq<u8>, pos: int) -> Option<(Seq<Coord>, int)> {
    spec_parse_coords_at(b, pos, LINE_STRING_CODE)
}

/// The line string that `b` encodes, if it encodes one and nothing else: a byte order, the
/// code of a line string, a count, and exactly as many coordinates.
pub open spec fn spec_parse_line_string(b: Seq<u8>) -> Option<Seq<Coord>> {
    match spec_parse_line_string_at(b, 0) {
        Some((line, end)) => if end == b.len() {
            Some(line)
        } else {
            None
        },
        None => None,
    }
}

/// The bytes of a line string, little endian.
pub open spec fn spec_write_line_string(line: Seq<Coord>) -> Seq<u8> {
    spec_write_header(LINE_STRING_CODE, line.len() as u32) + spec_write_coords(
        line,
        line.len() as int,
    )
}

/// The encoding of a line string is nine bytes and sixteen more for each coordinate.
pub proof fn lemma_write_line_string_len(line: Seq<Coord>)
    ensures
        spec_write_line_string(line).len() == 9 + 16 * line.len(),
{
    lemma_auto_spec_u32_to_from_le_bytes();
    lemma_write_coords_len(line, line.len() as int);
}

/// A line string written at `pos` reads back as itself.
pub proof fn lemma_read_written_line_string(b: Seq<u8>, pos: int, line: Seq<Coord>)
    requires
        0 <= pos,
        line.len() <= u32::MAX,
        pos + spec_write_line_string(line).len() <= b.len(),
        b.subrange(pos, pos + spec_write_line_string(line).len() as int) == spec_write_line_string(
            line,
        ),
    ensures
        spec_parse_line_string_at(b, pos) == Some(
            (line, pos + spec_write_line_string(line).len()),
        ),
        spec_write_line_string(line).len() == 9 + 16 * line.len(),
{
    lemma_auto_spec_u32_to_from_le_bytes();
    let n = line.len() as int;
    let w = spec_write_line_string(line);
    lemma_write_line_string_len(line);
    assert(b[pos] == w[0]);
    assert(b.subrange(pos + 1, pos + 5) =~= w.subrange(1, 5));
    assert(w.subrange(1, 5) =~= spec_u32_to_le_bytes(LINE_STRING_CODE));
    assert(b.subrange(pos + 5, pos + 9) =~= w.subrange(5, 9));
    assert(w.subrange(5, 9) =~= spec_u32_to_le_bytes(line.len() as u32));
    lemma_read_written_u32(b, pos + 1, LINE_STRING_CODE);
    lemma_read_written_u32(b, pos + 5, line.len() as u32);
    assert(b.subrange(pos + 9, pos + 9 + 16 * n) =~= w.subrange(9, 9 + 16 * n));
    assert(w.subrange(9, 9 + 16 * n) =~= spec_write_coords(line, n));
    lemma_read_written_coords(b, pos + 9, line, n);
    assert(line.subrange(0, n) =~= line);
}

/// Decoding the encoding of a line string gives the line string back.
pub proof fn lemma_line_string_round_trip(line: Seq<Coord>)
    requires
        line.len() <= u32::MAX,
    ensures
        spec_parse_line_string(spec_write_line_string(line)) == Some(line),
{
    let b = spec_write_line_string(line);
    assert(b.subrange(0, b.len() as int) =~= b);
    lemma_read_written_line_string(b, 0, line);
}

/// Whatever bytes decode to a line string, encoding that line string gives bytes that
/// decode to it again.
pub proof fn lemma_line_string_reencode(b: Seq<u8>)
    requires
        spec_parse_line_string(b) is Some,
    ensures
        spec_parse_line_string(spec_write_line_string(spec_parse_line_string(b)->Some_0))
            == spec_parse_line_string(b),
{
    lemma_line_string_round_trip(spec_parse_line_string(b)->Some_0);
}

/// Decodes the geometry of kind `code` that starts at `pos` and is made of a count and as
/// many coordinates; also gives the position after it.
pub fn parse_coords_at(bytes: &[u8], pos: usize, code: u32) -> (r: Option<(Vec<Coord>, usize)>)
    requires
        pos <= bytes@.len(),
    ensures
        match spec_parse_coords_at(bytes@, pos as int, code) {
            Some((line, end)) => r is Some && r->Some_0.0@ == line && r->Some_0.1 == end,
            None => r is None,
        },
{
    let len = bytes.len();
    if len - pos < 9 || bytes[pos] > 1 {
        return None;
    }
    let little = bytes[pos] == 1;
    if read_u32(bytes, pos + 1, little) != code {
        return None;
    }
    let n = read_u32(bytes, pos + 5, little);
    if ((len - pos - 9) as u64) < 16 * (n as u64) {
        return None;
    }
    let count = n as usize;
    let start = pos + 9;
    let mut line: Vec<Coord> = Vec::new();
    let mut k: usize = 0;
    while k < count
        invariant
            len == bytes@.len(),
            start + 16 * count <= len,
            k <= count,
            line@ == spec_read_coords(bytes@, start as int, k as int, little),
        decreases count - k,
    {
        line.push(read_coord(bytes, start + 16 * k, little));
        assert(line@ =~= spec_read_coords(bytes@, start as int, k + 1, little));
        k += 1;
    }
    Some((line, start + 16 * count))
}

/// Decodes a line string, of either byte order.
///
/// Fails with `MalformedBytes` unless the bytes are exactly one line string.
pub fn parse_line_string(bytes: &[u8]) -> (r: Result<Vec<Coord>, GeoArrowError>)
    ensures
        match spec_parse_line_string(bytes@) {
            Some(line) => r is Ok && r->Ok_0@ == line,
            None => r is Err && r->Err_0 == GeoArrowError::MalformedBytes,
        },
{
    match parse_coords_at(bytes, 0, LINE_STRING_CODE) {
        Some((line, end)) => if end == bytes.len() {
            Ok(line)
        } else {
            Err(GeoArrowError::MalformedBytes)
        },
        None => Err(GeoArrowError::MalformedBytes),
    }
}

/// Appends the encoding of a line string.
///
/// Fails with `Overflow`, and appends nothing, where the line string has more coordinates
/// than a 32-bit count can tell.
pub fn write_line_string(out: &mut Vec<u8>, line: &Vec<Coord>) -> (r: Result<(), GeoArrowError>)
    ensures
        r is Ok <==> line@.len() <= u32::MAX,
        r is Ok ==> final(out)@ == old(out)@ + spec_write_line_string(line@),
        r is Err ==> r->Err_0 == GeoArrowError::Overflow && final(out)@ == old(out)@,
{
    let n = line.len();
    if n as u64 > 0xffff_ffff {
        return Err(GeoArrowError::Overflow);
    }
    let ghost before = out@;
    write_header(out, LINE_STRING_CODE, n as u32);
    let ghost headed = out@;
    let mut k: usize = 0;
    while k < n
        invariant
            n == line@.len(),
            k <= n,
            out@ == headed + spec_write_coords(line@, k as int),
        decreases n - k,
    {
        write_coord(out, line[k]);
        assert(out@ =~= headed + spec_write_coords(line@, k + 1));
        k += 1;
    }
    assert(out@ =~= before + spec_write_line_string(line@));
    Ok(())
}

} // verus!
