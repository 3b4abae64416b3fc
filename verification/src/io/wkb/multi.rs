//! The multi geometries: a byte order, a code, a count, and as many whole geometries of one
//! kind, each with a byte order of its own.

use crate::coord::Coord;
use crate::error::GeoArrowError;
use crate::io::wkb::linestring::{
    lemma_read_written_line_string, parse_coords_at, spec_parse_line_string_at,
    spec_write_line_string, write_line_string, LINE_STRING_CODE,
};
use crate::io::wkb::many::{
    lemma_parse_many_none, lemma_parse_many_ok, lemma_read_written_many, reads_back,
    spec_parse_many, spec_write_many,
};
use crate::io::wkb::point::{
    lemma_read_written_point, parse_point_at, spec_parse_point_at, spec_write_point, write_point,
};
use crate::io::wkb::polygon::{
    can_encode_polygon, lemma_parsed_polygon_encodable, lemma_read_written_polygon,
    parse_polygon_at, polygon_encodable, spec_parse_polygon_at, spec_write_polygon, write_polygon,
};
use crate::io::wkb::primitive::{
    lemma_read_written_u32, read_u32, spec_read_u32, spec_write_header, write_header,
};
use crate::scalar::multipolygon::polygons_view;
use crate::scalar::polygon::rings_view;
use vstd::bytes::{lemma_auto_spec_u32_to_from_le_bytes, spec_u32_to_le_bytes};
use vstd::prelude::*;

verus! {

/// The code of a multi point.
pub const MULTI_POINT_CODE: u32 = 4;

/// The code of a multi line string.
pub const MULTI_LINE_STRING_CODE: u32 = 5;

/// The code of a multi polygon.
pub const MULTI_POLYGON_CODE: u32 = 6;

/// The multi geometry of kind `code` that `b` encodes, if it encodes one and nothing else;
/// `child` reads one of its parts.
pub open spec fn spec_parse_multi<T>(
    b: Seq<u8>,
    code: u32,
    child: spec_fn(Seq<u8>, int) -> Option<(T, int)>,
) -> Option<Seq<T>> {
    if b.len() < 9 || b[0] > 1 {
        None
    } else if spec_read_u32(b, 1, b[0] == 1) != code {
        None
    } else {
        match spec_parse_many(b, 9, spec_read_u32(b, 5, b[0] == 1) as int, child) {
            Some((items, end)) => if end == b.len() {
                Some(items)
            } else {
                None
            },
            None => None,
        }
    }
}

/// The bytes of a multi geometry of kind `code`, little endian; `write` writes one of its
/// parts.
pub open spec fn spec_write_multi<T>(items: Seq<T>, code: u32, write: spec_fn(T) -> Seq<u8>) -> Seq<
    u8,
> {
    spec_write_header(code, items.len() as u32) + spec_write_many(
        items,
        items.len() as int,
        write,
    )
}

/// Decoding the encoding of a multi geometry gives it back, where its parts read back.
pub proof fn lemma_multi_round_trip<T>(
    items: Seq<T>,
    code: u32,
    child: spec_fn(Seq<u8>, int) -> Option<(T, int)>,
    write: spec_fn(T) -> Seq<u8>,
    ok: spec_fn(T) -> bool,
)
    requires
        reads_back(child, write, ok),
        items.len() <= u32::MAX,
        forall|i: int| 0 <= i < items.len() ==> ok(#[trigger] items[i]),
    ensures
        spec_parse_multi(spec_write_multi(items, code, write), code, child) == Some(items),
{
    lemma_auto_spec_u32_to_from_le_bytes();
    let n = items.len() as int;
    let b = spec_write_multi(items, code, write);
    let body = spec_write_many(items, n, write);
    let l = body.len() as int;
    assert(b.len() == 9 + l);
    assert(b[0] == 1);
    assert(b.subrange(1, 5) =~= spec_u32_to_le_bytes(code));
    assert(b.subrange(5, 9) =~= spec_u32_to_le_bytes(items.len() as u32));
    lemma_read_written_u32(b, 1, code);
    lemma_read_written_u32(b, 5, items.len() as u32);
    assert(b.subrange(9, 9 + l) =~= body);
    lemma_read_written_many(b, 9, items, n, child, write, ok);
    assert(items.subrange(0, n) =~= items);
}

/// Reads one point of a multi point.
pub open spec fn point_reader() -> spec_fn(Seq<u8>, int) -> Option<(Coord, int)> {
    |b: Seq<u8>, pos: int| spec_parse_point_at(b, pos)
}

/// Writes one point of a multi point.
pub open spec fn point_writer() -> spec_fn(Coord) -> Seq<u8> {
    |c: Coord| spec_write_point(c)
}

/// Every point can be written.
pub open spec fn any_point() -> spec_fn(Coord) -> bool {
    |c: Coord| true
}

/// Reads one line of a multi line string.
pub open spec fn line_reader() -> spec_fn(Seq<u8>, int) -> Option<(Seq<Coord>, int)> {
    |b: Seq<u8>, pos: int| spec_parse_line_string_at(b, pos)
}

/// Writes one line of a multi line string.
pub open spec fn line_writer() -> spec_fn(Seq<Coord>) -> Seq<u8> {
    |line: Seq<Coord>| spec_write_line_string(line)
}

/// The lines that can be written: those with few enough coordinates for a 32-bit count.
pub open spec fn short_line() -> spec_fn(Seq<Coord>) -> bool {
    |line: Seq<Coord>| line.len() <= u32::MAX
}

/// Reads one polygon of a multi polygon.
pub open spec fn polygon_reader() -> spec_fn(Seq<u8>, int) -> Option<(Seq<Seq<Coord>>, int)> {
    |b: Seq<u8>, pos: int| spec_parse_polygon_at(b, pos)
}

/// Writes one polygon of a multi polygon.
pub open spec fn polygon_writer() -> spec_fn(Seq<Seq<Coord>>) -> Seq<u8> {
    |rings: Seq<Seq<Coord>>| spec_write_polygon(rings)
}

/// The polygons that can be written.
pub open spec fn fit_polygon() -> spec_fn(Seq<Seq<Coord>>) -> bool {
    |rings: Seq<Seq<Coord>>| polygon_encodable(rings)
}

/// Points, lines and polygons read back wherever they were written.
pub proof fn lemma_parts_read_back()
    ensures
        reads_back(point_reader(), point_writer(), any_point()),
        reads_back(line_reader(), line_writer(), short_line()),
        reads_back(polygon_reader(), polygon_writer(), fit_polygon()),
{
    assert forall|b: Seq<u8>, pos: int, c: Coord|
        #![trigger point_reader()(b, pos), point_writer()(c)]
        0 <= pos && pos + point_writer()(c).len() <= b.len() && b.subrange(
            pos,
            pos + point_writer()(c).len() as int,
        ) == point_writer()(c) implies point_reader()(b, pos) == Some(
        (c, pos + point_writer()(c).len()),
    ) by {
        lemma_read_written_point(b, pos, c);
    }
    assert forall|b: Seq<u8>, pos: int, line: Seq<Coord>|
        #![trigger line_reader()(b, pos), line_writer()(line)]
        short_line()(line) && 0 <= pos && pos + line_writer()(line).len() <= b.len() && b.subrange(
            pos,
            pos + line_writer()(line).len() as int,
        ) == line_writer()(line) implies line_reader()(b, pos) == Some(
        (line, pos + line_writer()(line).len()),
    ) by {
        lemma_read_written_line_string(b, pos, line);
    }
    assert forall|b: Seq<u8>, pos: int, rings: Seq<Seq<Coord>>|
        #![trigger polygon_reader()(b, pos), polygon_writer()(rings)]
        fit_polygon()(rings) && 0 <= pos && pos + polygon_writer()(rings).len() <= b.len()
            && b.subrange(pos, pos + polygon_writer()(rings).len() as int) == polygon_writer()(
            rings,
        ) implies polygon_reader()(b, pos) == Some((rings, pos + polygon_writer()(rings).len())) by {
        lemma_read_written_polygon(b, pos, rings);
    }
}

/// The multi point that `b` encodes, if it encodes one and nothing else.
pub open spec fn spec_parse_multi_point(b: Seq<u8>) -> Option<Seq<Coord>> {
    spec_parse_multi(b, MULTI_POINT_CODE, point_reader())
}

/// The bytes of a multi point, little endian.
pub open spec fn spec_write_multi_point(points: Seq<Coord>) -> Seq<u8> {
    spec_write_multi(points, MULTI_POINT_CODE, point_writer())
}

/// The multi line string that `b` encodes, if it encodes one and nothing else.
pub open spec fn spec_parse_multi_line_string(b: Seq<u8>) -> Option<Seq<Seq<Coord>>> {
    spec_parse_multi(b, MULTI_LINE_STRING_CODE, line_reader())
}

/// The bytes of a multi line string, little endian.
pub open spec fn spec_write_multi_line_string(lines: Seq<Seq<Coord>>) -> Seq<u8> {
    spec_write_multi(lines, MULTI_LINE_STRING_CODE, line_writer())
}

/// The multi polygon that `b` encodes, if it encodes one and nothing else.
pub open spec fn spec_parse_multi_polygon(b: Seq<u8>) -> Option<Seq<Seq<Seq<Coord>>>> {
    spec_parse_multi(b, MULTI_POLYGON_CODE, polygon_reader())
}

/// The bytes of a multi polygon, little endian.
pub open spec fn spec_write_multi_polygon(polygons: Seq<Seq<Seq<Coord>>>) -> Seq<u8> {
    spec_write_multi(polygons, MULTI_POLYGON_CODE, polygon_writer())
}

/// Whether a multi polygon can be encoded: the number of its polygons fits a 32-bit count
/// and each of them can be encoded.
pub open spec fn multi_polygon_encodable(polygons: Seq<Seq<Seq<Coord>>>) -> bool {
    &&& polygons.len() <= u32::MAX
    &&& forall|i: int| 0 <= i < polygons.len() ==> polygon_encodable(#[trigger] polygons[i])
}

/// Decoding the encoding of a multi point gives the multi point back.
pub proof fn lemma_multi_point_round_trip(points: Seq<Coord>)
    requires
        points.len() <= u32::MAX,
    ensures
        spec_parse_multi_point(spec_write_multi_point(points)) == Some(points),
{
    lemma_parts_read_back();
    lemma_multi_round_trip(points, MULTI_POINT_CODE, point_reader(), point_writer(), any_point());
}

/// Decoding the encoding of a multi line string gives the multi line string back.
pub proof fn lemma_multi_line_string_round_trip(lines: Seq<Seq<Coord>>)
    requires
        polygon_encodable(lines),
    ensures
        spec_parse_multi_line_string(spec_write_multi_line_string(lines)) == Some(lines),
{
    lemma_parts_read_back();
    lemma_multi_round_trip(
        lines,
        MULTI_LINE_STRING_CODE,
        line_reader(),
        line_writer(),
        short_line(),
    );
}

/// Decoding the encoding of a multi polygon gives the multi polygon back.
pub proof fn lemma_multi_polygon_round_trip(polygons: Seq<Seq<Seq<Coord>>>)
    requires
        multi_polygon_encodable(polygons),
    ensures
        spec_parse_multi_polygon(spec_write_multi_polygon(polygons)) == Some(polygons),
{
    lemma_parts_read_back();
    lemma_multi_round_trip(
        polygons,
        MULTI_POLYGON_CODE,
        polygon_reader(),
        polygon_writer(),
        fit_polygon(),
    );
}

/// A multi geometry that was decoded has a number of parts that a 32-bit count can tell,
/// each of them one that `ok` accepts, where `child` reads no others.
pub proof fn lemma_parsed_multi_ok<T>(
    b: Seq<u8>,
    code: u32,
    child: spec_fn(Seq<u8>, int) -> Option<(T, int)>,
    ok: spec_fn(T) -> bool,
)
    requires
        forall|bb: Seq<u8>, p: int|
            (#[trigger] child(bb, p)) is Some ==> ok(child(bb, p)->Some_0.0),
        spec_parse_multi(b, code, child) is Some,
    ensures
        spec_parse_multi(b, code, child)->Some_0.len() <= u32::MAX,
        forall|i: int|
            0 <= i < spec_parse_multi(b, code, child)->Some_0.len() ==> ok(
                #[trigger] spec_parse_multi(b, code, child)->Some_0[i],
            ),
{
    lemma_parse_many_ok(b, 9, spec_read_u32(b, 5, b[0] == 1) as int, child, ok);
}

/// A multi point that was decoded can be encoded.
pub proof fn lemma_parsed_multi_point_encodable(b: Seq<u8>)
    requires
        spec_parse_multi_point(b) is Some,
    ensures
        spec_parse_multi_point(b)->Some_0.len() <= u32::MAX,
{
    lemma_parsed_multi_ok(b, MULTI_POINT_CODE, point_reader(), any_point());
}

/// A multi line string that was decoded can be encoded.
pub proof fn lemma_parsed_multi_line_string_encodable(b: Seq<u8>)
    requires
        spec_parse_multi_line_string(b) is Some,
    ensures
        polygon_encodable(spec_parse_multi_line_string(b)->Some_0),
{
    lemma_parsed_multi_ok(b, MULTI_LINE_STRING_CODE, line_reader(), short_line());
    let lines = spec_parse_multi_line_string(b)->Some_0;
    assert forall|r: int| 0 <= r < lines.len() implies (#[trigger] lines[r]).len() <= u32::MAX by {
        assert(short_line()(lines[r]));
    }
}

/// A multi polygon that was decoded can be encoded.
pub proof fn lemma_parsed_multi_polygon_encodable(b: Seq<u8>)
    requires
        spec_parse_multi_polygon(b) is Some,
    ensures
        multi_polygon_encodable(spec_parse_multi_polygon(b)->Some_0),
{
    assert forall|bb: Seq<u8>, p: int| (#[trigger] polygon_reader()(bb, p)) is Some implies fit_polygon()(
        polygon_reader()(bb, p)->Some_0.0,
    ) by {
        lemma_parsed_polygon_encodable(bb, p);
    }
    lemma_parsed_multi_ok(b, MULTI_POLYGON_CODE, polygon_reader(), fit_polygon());
    let polygons = spec_parse_multi_polygon(b)->Some_0;
    assert forall|i: int| 0 <= i < polygons.len() implies polygon_encodable(
        #[trigger] polygons[i],
    ) by {
        assert(fit_polygon()(polygons[i]));
    }
}

/// Reads the header of a multi geometry of kind `code`: its byte order and its count.
fn parse_multi_header(bytes: &[u8], code: u32) -> (r: Option<(bool, u32)>)
    ensures
        r is Some <==> bytes@.len() >= 9 && bytes@[0] <= 1 && spec_read_u32(
            bytes@,
            1,
            bytes@[0] == 1,
        ) == code,
        r is Some ==> r->Some_0.0 == (bytes@[0] == 1) && r->Some_0.1 == spec_read_u32(
            bytes@,
            5,
            bytes@[0] == 1,
        ),
{
    if bytes.len() < 9 || bytes[0] > 1 {
        return None;
    }
    let little = bytes[0] == 1;
    if read_u32(bytes, 1, little) != code {
        return None;
    }
    Some((little, read_u32(bytes, 5, little)))
}

/// Decodes a multi point, of any byte orders.
///
/// Fails with `MalformedBytes` unless the bytes are exactly one multi point.
pub fn parse_multi_point(bytes: &[u8]) -> (r: Result<Vec<Coord>, GeoArrowError>)
    ensures
        match spec_parse_multi_point(bytes@) {
            Some(points) => r is Ok && r->Ok_0@ == points,
            None => r is Err && r->Err_0 == GeoArrowError::MalformedBytes,
        },
{
    let count = match parse_multi_header(bytes, MULTI_POINT_CODE) {
        Some((_, count)) => count,
        None => {
            return Err(GeoArrowError::MalformedBytes);
        },
    };
    let len = bytes.len();
    let mut points: Vec<Coord> = Vec::new();
    let mut at: usize = 9;
    let mut k: u32 = 0;
    while k < count
        invariant
            len == bytes@.len(),
            bytes@[0] <= 1,
            spec_read_u32(bytes@, 1, bytes@[0] == 1) == MULTI_POINT_CODE,
            count == spec_read_u32(bytes@, 5, bytes@[0] == 1),
            k <= count,
            9 <= at <= len,
            spec_parse_many(bytes@, 9, k as int, point_reader()) == Some((points@, at as int)),
        decreases count - k,
    {
        match parse_point_at(bytes, at) {
            Some((c, end)) => {
                points.push(c);
                at = end;
            },
            None => {
                proof {
                    lemma_parse_many_none(bytes@, 9, k + 1, count as int, point_reader());
                }
                return Err(GeoArrowError::MalformedBytes);
            },
        }
        k += 1;
    }
    if at != len {
        return Err(GeoArrowError::MalformedBytes);
    }
    Ok(points)
}

/// Decodes a multi line string, of any byte orders.
///
/// Fails with `MalformedBytes` unless the bytes are exactly one multi line string.
pub fn parse_multi_line_string(bytes: &[u8]) -> (r: Result<Vec<Vec<Coord>>, GeoArrowError>)
    ensures
        match spec_parse_multi_line_string(bytes@) {
            Some(lines) => r is Ok && rings_view(r->Ok_0@) == lines,
            None => r is Err && r->Err_0 == GeoArrowError::MalformedBytes,
        },
{
    let count = match parse_multi_header(bytes, MULTI_LINE_STRING_CODE) {
        Some((_, count)) => count,
        None => {
            return Err(GeoArrowError::MalformedBytes);
        },
    };
    let len = bytes.len();
    let mut lines: Vec<Vec<Coord>> = Vec::new();
    let mut at: usize = 9;
    let mut k: u32 = 0;
    while k < count
        invariant
            len == bytes@.len(),
            bytes@[0] <= 1,
            spec_read_u32(bytes@, 1, bytes@[0] == 1) == MULTI_LINE_STRING_CODE,
            count == spec_read_u32(bytes@, 5, bytes@[0] == 1),
            k <= count,
            9 <= at <= len,
            spec_parse_many(bytes@, 9, k as int, line_reader()) == Some(
                (rings_view(lines@), at as int),
            ),
        decreases count - k,
    {
        match parse_coords_at(bytes, at, LINE_STRING_CODE) {
            Some((line, end)) => {
                let ghost before = rings_view(lines@);
                assert(rings_view(lines@.push(line)) =~= before.push(line@));
                lines.push(line);
                at = end;
            },
            None => {
                proof {
                    lemma_parse_many_none(bytes@, 9, k + 1, count as int, line_reader());
                }
                return Err(GeoArrowError::MalformedBytes);
            },
        }
        k += 1;
    }
    if at != len {
        return Err(GeoArrowError::MalformedBytes);
    }
    Ok(lines)
}

/// Decodes a multi polygon, of any byte orders.
///
/// Fails with `MalformedBytes` unless the bytes are exactly one multi polygon.
pub fn parse_multi_polygon(bytes: &[u8]) -> (r: Result<Vec<Vec<Vec<Coord>>>, GeoArrowError>)
    ensures
        match spec_parse_multi_polygon(bytes@) {
            Some(polygons) => r is Ok && polygons_view(r->Ok_0@) == polygons,
            None => r is Err && r->Err_0 == GeoArrowError::MalformedBytes,
        },
{
    let count = match parse_multi_header(bytes, MULTI_POLYGON_CODE) {
        Some((_, count)) => count,
        None => {
            return Err(GeoArrowError::MalformedBytes);
        },
    };
    let len = bytes.len();
    let mut polygons: Vec<Vec<Vec<Coord>>> = Vec::new();
    let mut at: usize = 9;
    let mut k: u32 = 0;
    while k < count
        invariant
            len == bytes@.len(),
            bytes@[0] <= 1,
            spec_read_u32(bytes@, 1, bytes@[0] == 1) == MULTI_POLYGON_CODE,
            count == spec_read_u32(bytes@, 5, bytes@[0] == 1),
            k <= count,
            9 <= at <= len,
            spec_parse_many(bytes@, 9, k as int, polygon_reader()) == Some(
                (polygons_view(polygons@), at as int),
            ),
        decreases count - k,
    {
        match parse_polygon_at(bytes, at) {
            Some((rings, end)) => {
                let ghost before = polygons_view(polygons@);
                assert(polygons_view(polygons@.push(rings)) =~= before.push(rings_view(rings@)));
                polygons.push(rings);
                at = end;
            },
            None => {
                proof {
                    lemma_parse_many_none(bytes@, 9, k + 1, count as int, polygon_reader());
                }
                return Err(GeoArrowError::MalformedBytes);
            },
        }
        k += 1;
    }
    if at != len {
        return Err(GeoArrowError::MalformedBytes);
    }
    Ok(polygons)
}

/// Appends the encoding of a multi point.
///
/// Fails with `Overflow`, and appends nothing, where there are more points than a 32-bit
/// count can tell.
pub fn write_multi_point(out: &mut Vec<u8>, points: &Vec<Coord>) -> (r: Result<(), GeoArrowError>)
    ensures
        r is Ok <==> points@.len() <= u32::MAX,
        r is Ok ==> final(out)@ == old(out)@ + spec_write_multi_point(points@),
        r is Err ==> r->Err_0 == GeoArrowError::Overflow && final(out)@ == old(out)@,
{
    let n = points.len();
    if n as u64 > 0xffff_ffff {
        return Err(GeoArrowError::Overflow);
    }
    let ghost before = out@;
    write_header(out, MULTI_POINT_CODE, n as u32);
    let ghost headed = out@;
    let mut k: usize = 0;
    while k < n
        invariant
            n == points@.len(),
            k <= n,
            out@ == headed + spec_write_many(points@, k as int, point_writer()),
        decreases n - k,
    {
        write_point(out, points[k]);
        assert(out@ =~= headed + spec_write_many(points@, k + 1, point_writer()));
        k += 1;
    }
    assert(out@ =~= before + spec_write_multi_point(points@));
    Ok(())
}

/// Appends the encoding of a multi line string.
///
/// Fails with `Overflow`, and appends nothing, where the number of lines or the number of
/// coordinates of a line is more than a 32-bit count can tell.
pub fn write_multi_line_string(out: &mut Vec<u8>, lines: &Vec<Vec<Coord>>) -> (r: Result<
    (),
    GeoArrowError,
>)
    ensures
        r is Ok <==> polygon_encodable(rings_view(lines@)),
        r is Ok ==> final(out)@ == old(out)@ + spec_write_multi_line_string(rings_view(lines@)),
        r is Err ==> r->Err_0 == GeoArrowError::Overflow && final(out)@ == old(out)@,
{
    if !can_encode_polygon(lines) {
        return Err(GeoArrowError::Overflow);
    }
    let ghost lv = rings_view(lines@);
    let n = lines.len();
    let ghost before = out@;
    write_header(out, MULTI_LINE_STRING_CODE, n as u32);
    let ghost headed = out@;
    let mut k: usize = 0;
    while k < n
        invariant
            n == lines@.len(),
            k <= n,
            lv == rings_view(lines@),
            polygon_encodable(lv),
            out@ == headed + spec_write_many(lv, k as int, line_writer()),
        decreases n - k,
    {
        assert(lv[k as int] == lines@[k as int]@);
        let written = write_line_string(out, &lines[k]);
        assert(written is Ok);
        assert(out@ =~= headed + spec_write_many(lv, k + 1, line_writer()));
        k += 1;
    }
    assert(out@ =~= before + spec_write_multi_line_string(lv));
    Ok(())
}

/// Whether the multi polygon can be encoded, decided by looking at it.
pub fn can_encode_multi_polygon(polygons: &Vec<Vec<Vec<Coord>>>) -> (r: bool)
    ensures
        r == multi_polygon_encodable(polygons_view(polygons@)),
{
    let n = polygons.len();
    if n as u64 > 0xffff_ffff {
        return false;
    }
    let mut k: usize = 0;
    while k < n
        invariant
            n == polygons@.len(),
            n <= u32::MAX,
            k <= n,
            forall|i: int|
                0 <= i < k ==> polygon_encodable(#[trigger] polygons_view(polygons@)[i]),
        decreases n - k,
    {
        if !can_encode_polygon(&polygons[k]) {
            assert(!polygon_encodable(polygons_view(polygons@)[k as int]));
            return false;
        }
        k += 1;
    }
    true
}

/// Appends the encoding of a multi polygon.
///
/// Fails with `Overflow`, and appends nothing, where a count does not fit 32 bits.
pub fn write_multi_polygon(out: &mut Vec<u8>, polygons: &Vec<Vec<Vec<Coord>>>) -> (r: Result<
    (),
    GeoArrowError,
>)
    ensures
        r is Ok <==> multi_polygon_encodable(polygons_view(polygons@)),
        r is Ok ==> final(out)@ == old(out)@ + spec_write_multi_polygon(polygons_view(polygons@)),
        r is Err ==> r->Err_0 == GeoArrowError::Overflow && final(out)@ == old(out)@,
{
    if !can_encode_multi_polygon(polygons) {
        return Err(GeoArrowError::Overflow);
    }
    let ghost pv = polygons_view(polygons@);
    let n = polygons.len();
    let ghost before = out@;
    write_header(out, MULTI_POLYGON_CODE, n as u32);
    let ghost headed = out@;
    let mut k: usize = 0;
    while k < n
        invariant
            n == polygons@.len(),
            k <= n,
            pv == polygons_view(polygons@),
            multi_polygon_encodable(pv),
            out@ == headed + spec_write_many(pv, k as int, polygon_writer()),
        decreases n - k,
    {
        assert(pv[k as int] == rings_view(polygons@[k as int]@));
        let written = write_polygon(out, &polygons[k]);
        assert(written is Ok);
        assert(out@ =~= headed + spec_write_many(pv, k + 1, polygon_writer()));
        k += 1;
    }
    assert(out@ =~= before + spec_write_multi_polygon(pv));
    Ok(())
}

} // verus!
