use crate::coord::Coord;
use vstd::bytes::{
    lemma_auto_spec_u32_to_from_le_bytes, lemma_auto_spec_u64_to_from_le_bytes,
    spec_u32_from_le_bytes, spec_u32_to_le_bytes, spec_u64_from_le_bytes, spec_u64_to_le_bytes,
    u32_from_le_bytes, u32_to_le_bytes, u64_from_le_bytes, u64_to_le_bytes,
};
use vstd::prelude::*;

verus! {

/// The byte that announces big endian.
pub const BIG_ENDIAN: u8 = 0;

/// The byte that announces little endian.
pub const LITTLE_ENDIAN: u8 = 1;

/// The number of bytes before the first count: the byte order and the kind.
pub const HEADER_LEN: usize = 5;

/// The number of bytes of one coordinate.
pub const COORD_LEN: usize = 16;

/// The four bytes at `pos`, least significant first.
pub open spec fn word4(b: Seq<u8>, pos: int, little: bool) -> Seq<u8> {
    if little {
        seq![b[pos], b[pos + 1], b[pos + 2], b[pos + 3]]
    } else {
        seq![b[pos + 3], b[pos + 2], b[pos + 1], b[pos]]
    }
}

/// The eight bytes at `pos`, least significant first.
pub open spec fn word8(b: Seq<u8>, pos: int, little: bool) -> Seq<u8> {
    if little {
        seq![
            b[pos],
            b[pos + 1],
            b[pos + 2],
            b[pos + 3],
            b[pos + 4],
            b[pos + 5],
            b[pos + 6],
            b[pos + 7],
        ]
    } else {
        seq![
            b[pos + 7],
            b[pos + 6],
            b[pos + 5],
            b[pos + 4],
            b[pos + 3],
            b[pos + 2],
            b[pos + 1],
            b[pos],
        ]
    }
}

/// The 32-bit unsigned integer stored at `pos`.
pub open spec fn spec_read_u32(b: Seq<u8>, pos: int, little: bool) -> u32 {
    spec_u32_from_le_bytes(word4(b, pos, little))
}

/// The 64-bit word stored at `pos`.
pub open spec fn spec_read_u64(b: Seq<u8>, pos: int, little: bool) -> u64 {
    spec_u64_from_le_bytes(word8(b, pos, little))
}

/// The coordinate stored at `pos`: its x, then its y.
pub open spec fn spec_read_coord(b: Seq<u8>, pos: int, little: bool) -> Coord {
    Coord { x: spec_read_u64(b, pos, little), y: spec_read_u64(b, pos + 8, little) }
}

/// The `n` coordinates stored from `pos` on.
pub open spec fn spec_read_coords(b: Seq<u8>, pos: int, n: int, little: bool) -> Seq<Coord> {
    Seq::new(n as nat, |k: int| spec_read_coord(b, pos + 16 * k, little))
}

/// The bytes of one coordinate, little endian.
pub open spec fn spec_write_coord(c: Coord) -> Seq<u8> {
    spec_u64_to_le_bytes(c.x) + spec_u64_to_le_bytes(c.y)
}

/// The bytes of the first `n` of `coords`, little endian.
pub open spec fn spec_write_coords(coords: Seq<Coord>, n: int) -> Seq<u8>
    decreases n,
{
    if n <= 0 {
        Seq::empty()
    } else {
        spec_write_coords(coords, n - 1) + spec_write_coord(coords[n - 1])
    }
}

/// The bytes that open a geometry of kind `code` with `count` children, little endian.
pub open spec fn spec_write_header(code: u32, count: u32) -> Seq<u8> {
    seq![LITTLE_ENDIAN] + spec_u32_to_le_bytes(code) + spec_u32_to_le_bytes(count)
}

/// A 32-bit integer written at `pos`, little endian, reads back as itself.
pub proof fn lemma_read_written_u32(b: Seq<u8>, pos: int, v: u32)
    requires
        0 <= pos,
        pos + 4 <= b.len(),
        b.subrange(pos, pos + 4) == spec_u32_to_le_bytes(v),
    ensures
        spec_read_u32(b, pos, true) == v,
{
    lemma_auto_spec_u32_to_from_le_bytes();
    let w = b.subrange(pos, pos + 4);
    assert(w[0] == b[pos] && w[1] == b[pos + 1] && w[2] == b[pos + 2] && w[3] == b[pos + 3]);
    assert(word4(b, pos, true) =~= w);
}

/// A 64-bit word written at `pos`, little endian, reads back as itself.
pub proof fn lemma_read_written_u64(b: Seq<u8>, pos: int, v: u64)
    requires
        0 <= pos,
        pos + 8 <= b.len(),
        b.subrange(pos, pos + 8) == spec_u64_to_le_bytes(v),
    ensures
        spec_read_u64(b, pos, true) == v,
{
    lemma_auto_spec_u64_to_from_le_bytes();
    let w = b.subrange(pos, pos + 8);
    assert(w[0] == b[pos] && w[1] == b[pos + 1] && w[2] == b[pos + 2] && w[3] == b[pos + 3]);
    assert(w[4] == b[pos + 4] && w[5] == b[pos + 5] && w[6] == b[pos + 6] && w[7] == b[pos + 7]);
    assert(word8(b, pos, true) =~= w);
}

/// The bytes of `n` coordinates are sixteen each.
pub proof fn lemma_write_coords_len(coords: Seq<Coord>, n: int)
    requires
        0 <= n,
    ensures
        spec_write_coords(coords, n).len() == 16 * n,
    decreases n,
{
    lemma_auto_spec_u64_to_from_le_bytes();
    if n > 0 {
        lemma_write_coords_len(coords, n - 1);
    }
}

/// Coordinates written at `pos`, little endian, read back as themselves.
pub proof fn lemma_read_written_coords(b: Seq<u8>, pos: int, coords: Seq<Coord>, n: int)
    requires
        0 <= pos,
        0 <= n <= coords.len(),
        pos + 16 * n <= b.len(),
        b.subrange(pos, pos + 16 * n) == spec_write_coords(coords, n),
    ensures
        spec_read_coords(b, pos, n, true) == coords.subrange(0, n),
    decreases n,
{
    lemma_auto_spec_u64_to_from_le_bytes();
    if n > 0 {
        lemma_write_coords_len(coords, n - 1);
        let all = spec_write_coords(coords, n);
        let head = spec_write_coords(coords, n - 1);
        let c = coords[n - 1];
        assert(b.subrange(pos, pos + 16 * (n - 1)) =~= all.subrange(0, 16 * (n - 1)));
        assert(all.subrange(0, 16 * (n - 1)) =~= head);
        lemma_read_written_coords(b, pos, coords, n - 1);
        let at = pos + 16 * (n - 1);
        assert(b.subrange(at, at + 8) =~= all.subrange(16 * (n - 1), 16 * (n - 1) + 8));
        assert(all.subrange(16 * (n - 1), 16 * (n - 1) + 8) =~= spec_u64_to_le_bytes(c.x));
        assert(b.subrange(at + 8, at + 16) =~= all.subrange(16 * (n - 1) + 8, 16 * n));
        assert(all.subrange(16 * (n - 1) + 8, 16 * n) =~= spec_u64_to_le_bytes(c.y));
        lemma_read_written_u64(b, at, c.x);
        lemma_read_written_u64(b, at + 8, c.y);
        assert(spec_read_coord(b, at, true) == c);
        assert(spec_read_coords(b, pos, n, true) =~= coords.subrange(0, n));
    } else {
        assert(spec_read_coords(b, pos, n, true) =~= coords.subrange(0, n));
    }
}

/// Reads the 32-bit unsigned integer stored at `pos`.
pub fn read_u32(bytes: &[u8], pos: usize, little: bool) -> (v: u32)
    requires
        pos + 4 <= bytes@.len(),
    ensures
        v == spec_read_u32(bytes@, pos as int, little),
{
    let _len = bytes.len();
    let mut word: Vec<u8> = Vec::new();
    if little {
        word.push(bytes[pos]);
        word.push(bytes[pos + 1]);
        word.push(bytes[pos + 2]);
        word.push(bytes[pos + 3]);
    } else {
        word.push(bytes[pos + 3]);
        word.push(bytes[pos + 2]);
        word.push(bytes[pos + 1]);
        word.push(bytes[pos]);
    }
    assert(word@ =~= word4(bytes@, pos as int, little));
    u32_from_le_bytes(word.as_slice())
}

/// Reads the 64-bit word stored at `pos`.
pub fn read_u64(bytes: &[u8], pos: usize, little: bool) -> (v: u64)
    requires
        pos + 8 <= bytes@.len(),
    ensures
        v == spec_read_u64(bytes@, pos as int, little),
{
    let n = bytes.len();
    let mut word: Vec<u8> = Vec::new();
    let mut k: usize = 0;
    while k < 8
        invariant
            n == bytes@.len(),
            pos + 8 <= bytes@.len(),
            k <= 8,
            word@.len() == k,
            forall|j: int|
                0 <= j < k ==> word@[j] == if little {
                    bytes@[pos + j]
                } else {
                    bytes@[pos + 7 - j]
                },
        decreases 8 - k,
    {
        if little {
            word.push(bytes[pos + k]);
        } else {
            word.push(bytes[pos + 7 - k]);
        }
        k += 1;
    }
    assert(word@ =~= word8(bytes@, pos as int, little));
    u64_from_le_bytes(word.as_slice())
}

/// Reads the coordinate stored at `pos`.
pub fn read_coord(bytes: &[u8], pos: usize, little: bool) -> (c: Coord)
    requires
        pos + 16 <= bytes@.len(),
    ensures
        c == spec_read_coord(bytes@, pos as int, little),
{
    let _len = bytes.len();
    Coord { x: read_u64(bytes, pos, little), y: read_u64(bytes, pos + 8, little) }
}

/// Appends a 32-bit unsigned integer, little endian.
pub fn write_u32(out: &mut Vec<u8>, v: u32)
    ensures
        final(out)@ == old(out)@ + spec_u32_to_le_bytes(v),
{
    let mut word = u32_to_le_bytes(v);
    out.append(&mut word);
}

/// Appends one coordinate, little endian.
pub fn write_coord(out: &mut Vec<u8>, c: Coord)
    ensures
        final(out)@ == old(out)@ + spec_write_coord(c),
{
    let ghost before = out@;
    let mut x = u64_to_le_bytes(c.x);
    out.append(&mut x);
    let mut y = u64_to_le_bytes(c.y);
    out.append(&mut y);
    assert(out@ =~= before + spec_write_coord(c));
}

/// Appends the bytes that open a geometry of kind `code` with `count` children.
pub fn write_header(out: &mut Vec<u8>, code: u32, count: u32)
    ensures
        final(out)@ == old(out)@ + spec_write_header(code, count),
{
    let ghost before = out@;
    out.push(LITTLE_ENDIAN);
    write_u32(out, code);
    write_u32(out, count);
    assert(out@ =~= before + spec_write_header(code, count));
}

} // verus!
