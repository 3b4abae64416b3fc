use geo::{Geometry, LineString, Polygon};
use geoarrow::array::linestring::LineStringArray;
use geoarrow::array::polygon::PolygonArray;
use geoarrow::builder::linestring::MutableLineStringArray;
use geoarrow::builder::polygon::MutablePolygonArray;
use geoarrow::coord::{Coord, CoordBuffer};
use geoarrow::datatypes::CoordType;
use geoarrow::error::GeoArrowError;
use geoarrow::io::wkb::array::WKBArray;
use geoarrow::io::wkb::linestring::{parse_line_string, write_line_string};
use geoarrow::io::wkb::polygon::{can_encode_polygon, parse_polygon, write_polygon};
use geoarrow::io::wkb::primitive::{read_coord, read_u32, read_u64, write_coord, write_header, write_u32};
use geoarrow::offsets::Offsets;
use geozero::wkb::Wkb;
use geozero::{CoordDimensions, ToGeo, ToWkb};

fn c(x: f64, y: f64) -> Coord {
    Coord { x: x.to_bits(), y: y.to_bits() }
}

fn geo_line(coords: &[Coord]) -> LineString {
    LineString::from(
        coords.iter().map(|c| (f64::from_bits(c.x), f64::from_bits(c.y))).collect::<Vec<_>>(),
    )
}

fn example_lines() -> Vec<Option<Vec<Coord>>> {
    vec![
        Some(vec![c(30., 10.), c(10., 30.), c(40., 40.)]),
        None,
        Some(vec![]),
        Some(vec![c(-1.5, 2.25), c(1e300, -0.0)]),
    ]
}

fn example_linestring_interleaved() -> LineStringArray<i64> {
    let mut b = MutableLineStringArray::<i64>::new();
    for l in &example_lines() {
        b.push_line_string(l.as_ref()).unwrap();
    }
    b.finish().unwrap()
}

fn example_linestring_separated() -> LineStringArray<i64> {
    let coords: Vec<Coord> = example_lines().into_iter().flatten().flatten().collect();
    LineStringArray::try_new(
        CoordBuffer::from_coords(&coords, CoordType::Separated),
        Offsets::try_new(vec![0i64, 3, 3, 3, 5]).unwrap(),
        Some(arrow_buffer::NullBuffer::from(vec![true, false, true, true])),
    )
    .unwrap()
}

/// The same lines, encoded by geozero.
fn example_linestring_wkb() -> WKBArray<i64> {
    let blobs: Vec<Option<Vec<u8>>> = example_lines()
        .iter()
        .map(|l| {
            l.as_ref().map(|l| {
                Geometry::LineString(geo_line(l)).to_wkb(CoordDimensions::xy()).unwrap()
            })
        })
        .collect();
    WKBArray::from_blobs(&blobs).unwrap()
}

#[test]
fn parse_wkb_geoarrow_interleaved_example() {
    let linestring_arr = example_linestring_interleaved();
    let wkb_arr = example_linestring_wkb();
    let parsed_linestring_arr = LineStringArray::<i64>::try_from_wkb(&wkb_arr).unwrap();
    assert!(linestring_arr == parsed_linestring_arr);
}

#[test]
fn parse_wkb_geoarrow_separated_example() {
    let linestring_arr = example_linestring_separated().into_coord_type(CoordType::Interleaved);
    let wkb_arr = example_linestring_wkb();
    let parsed_linestring_arr = LineStringArray::<i64>::try_from_wkb(&wkb_arr).unwrap();
    assert!(linestring_arr == parsed_linestring_arr);
}

#[test]
fn words_are_read_in_either_byte_order() {
    let bytes = [1u8, 2, 3, 4, 5, 6, 7, 8, 9, 10, 11, 12, 13, 14, 15, 16, 17];
    assert_eq!(read_u32(&bytes, 0, true), 0x04030201);
    assert_eq!(read_u32(&bytes, 0, false), 0x01020304);
    assert_eq!(read_u32(&bytes, 13, true), 0x11100f0e);
    assert_eq!(read_u64(&bytes, 1, true), 0x0908070605040302);
    assert_eq!(read_u64(&bytes, 1, false), 0x0203040506070809);
    assert_eq!(
        read_coord(&bytes, 1, true),
        Coord { x: 0x0908070605040302, y: 0x11100f0e0d0c0b0a }
    );
    assert_eq!(
        read_coord(&bytes, 0, false),
        Coord { x: 0x0102030405060708, y: 0x090a0b0c0d0e0f10 }
    );
}

#[test]
fn words_are_written_little_endian() {
    let mut out = vec![0xffu8];
    write_u32(&mut out, 0x04030201);
    assert_eq!(out, vec![0xff, 1, 2, 3, 4]);
    let mut out = Vec::new();
    write_coord(&mut out, Coord { x: 1, y: 0x0102030405060708 });
    assert_eq!(out, vec![1, 0, 0, 0, 0, 0, 0, 0, 8, 7, 6, 5, 4, 3, 2, 1]);
    let mut out = Vec::new();
    write_header(&mut out, 2, 3);
    assert_eq!(out, vec![1, 2, 0, 0, 0, 3, 0, 0, 0]);
}

#[test]
fn a_line_string_is_nine_bytes_and_sixteen_per_coordinate() {
    let line = vec![c(1., 2.), c(3., 4.)];
    let mut out = Vec::new();
    write_line_string(&mut out, &line).unwrap();
    let mut expected = vec![1u8, 2, 0, 0, 0, 2, 0, 0, 0];
    for v in [1f64, 2., 3., 4.] {
        expected.extend_from_slice(&v.to_le_bytes());
    }
    assert_eq!(out, expected);
    assert_eq!(parse_line_string(&out), Ok(line));
    let mut empty = Vec::new();
    write_line_string(&mut empty, &vec![]).unwrap();
    assert_eq!(empty, vec![1u8, 2, 0, 0, 0, 0, 0, 0, 0]);
    assert_eq!(parse_line_string(&empty), Ok(vec![]));
}

#[test]
fn a_big_endian_line_string_decodes_to_the_same_line() {
    let mut bytes = vec![0u8, 0, 0, 0, 2, 0, 0, 0, 2];
    for v in [1f64, 2., 3., 4.] {
        bytes.extend_from_slice(&v.to_be_bytes());
    }
    assert_eq!(parse_line_string(&bytes), Ok(vec![c(1., 2.), c(3., 4.)]));
    // encoding what was decoded gives other bytes and the same line
    let mut again = Vec::new();
    write_line_string(&mut again, &parse_line_string(&bytes).unwrap()).unwrap();
    assert_ne!(again, bytes);
    assert_eq!(parse_line_string(&again), parse_line_string(&bytes));
}

#[test]
fn malformed_line_strings_are_refused() {
    let mut good = Vec::new();
    write_line_string(&mut good, &vec![c(1., 2.), c(3., 4.)]).unwrap();
    let bad = Err(GeoArrowError::MalformedBytes);
    assert_eq!(parse_line_string(&[]), bad);
    assert_eq!(parse_line_string(&good[..8]), bad);
    assert_eq!(parse_line_string(&good[..good.len() - 1]), bad);
    let mut longer = good.clone();
    longer.push(0);
    assert_eq!(parse_line_string(&longer), bad);
    let mut order = good.clone();
    order[0] = 2;
    assert_eq!(parse_line_string(&order), bad);
    let mut kind = good.clone();
    kind[1] = 3;
    assert_eq!(parse_line_string(&kind), bad);
    let mut count = good.clone();
    count[5] = 3;
    assert_eq!(parse_line_string(&count), bad);
    let mut huge = good.clone();
    huge[8] = 0xff;
    assert_eq!(parse_line_string(&huge), bad);
    // the other byte order reads the count as 2 << 24
    let mut swapped = good.clone();
    swapped[0] = 0;
    assert_eq!(parse_line_string(&swapped), bad);
}

#[test]
fn line_strings_agree_with_geozero() {
    for line in example_lines().into_iter().flatten() {
        let mut ours = Vec::new();
        write_line_string(&mut ours, &line).unwrap();
        let theirs = Geometry::LineString(geo_line(&line)).to_wkb(CoordDimensions::xy()).unwrap();
        assert_eq!(ours, theirs);
        assert_eq!(Wkb(ours).to_geo().unwrap(), Geometry::LineString(geo_line(&line)));
        assert_eq!(parse_line_string(&theirs), Ok(line));
    }
}

fn example_polygons() -> Vec<Option<Vec<Vec<Coord>>>> {
    let square = vec![c(0., 0.), c(4., 0.), c(4., 4.), c(0., 4.), c(0., 0.)];
    let hole = vec![c(1., 1.), c(2., 1.), c(2., 2.), c(1., 1.)];
    vec![Some(vec![square.clone()]), None, Some(vec![square, hole]), Some(vec![])]
}

fn geo_polygon(rings: &[Vec<Coord>]) -> Polygon {
    let mut rings: Vec<LineString> = rings.iter().map(|r| geo_line(r)).collect();
    if rings.is_empty() {
        return Polygon::new(LineString::new(vec![]), vec![]);
    }
    let exterior = rings.remove(0);
    Polygon::new(exterior, rings)
}

#[test]
fn a_polygon_is_a_count_of_rings_and_the_rings() {
    let rings = vec![vec![c(1., 2.), c(3., 4.)], vec![], vec![c(5., 6.)]];
    let mut out = Vec::new();
    write_polygon(&mut out, &rings).unwrap();
    let mut expected = vec![1u8, 3, 0, 0, 0, 3, 0, 0, 0, 2, 0, 0, 0];
    for v in [1f64, 2., 3., 4.] {
        expected.extend_from_slice(&v.to_le_bytes());
    }
    expected.extend_from_slice(&[0, 0, 0, 0, 1, 0, 0, 0]);
    for v in [5f64, 6.] {
        expected.extend_from_slice(&v.to_le_bytes());
    }
    assert_eq!(out, expected);
    assert_eq!(parse_polygon(&out), Ok(rings.clone()));
    assert!(can_encode_polygon(&rings));
    let mut big = vec![0u8, 0, 0, 0, 3, 0, 0, 0, 1, 0, 0, 0, 1];
    for v in [7f64, 8.] {
        big.extend_from_slice(&v.to_be_bytes());
    }
    assert_eq!(parse_polygon(&big), Ok(vec![vec![c(7., 8.)]]));
}

#[test]
fn malformed_polygons_are_refused() {
    let mut good = Vec::new();
    write_polygon(&mut good, &vec![vec![c(1., 2.)], vec![c(3., 4.), c(5., 6.)]]).unwrap();
    let bad = Err(GeoArrowError::MalformedBytes);
    assert_eq!(parse_polygon(&[]), bad);
    assert_eq!(parse_polygon(&good[..9]), bad);
    assert_eq!(parse_polygon(&good[..12]), bad);
    assert_eq!(parse_polygon(&good[..good.len() - 1]), bad);
    let mut longer = good.clone();
    longer.push(0);
    assert_eq!(parse_polygon(&longer), bad);
    let mut kind = good.clone();
    kind[1] = 2;
    assert_eq!(parse_polygon(&kind), bad);
    let mut order = good.clone();
    order[0] = 7;
    assert_eq!(parse_polygon(&order), bad);
    let mut rings = good.clone();
    rings[5] = 3;
    assert_eq!(parse_polygon(&rings), bad);
    let mut points = good.clone();
    points[9] = 2;
    assert_eq!(parse_polygon(&points), bad);
    let mut line = Vec::new();
    write_line_string(&mut line, &vec![c(1., 2.)]).unwrap();
    assert_eq!(parse_polygon(&line), bad);
    assert_eq!(parse_line_string(&good), Err(GeoArrowError::MalformedBytes));
}

#[test]
fn polygons_agree_with_geozero() {
    for rings in example_polygons().into_iter().flatten() {
        if rings.is_empty() {
            continue;
        }
        let mut ours = Vec::new();
        write_polygon(&mut ours, &rings).unwrap();
        let theirs = Geometry::Polygon(geo_polygon(&rings)).to_wkb(CoordDimensions::xy()).unwrap();
        assert_eq!(ours, theirs);
        assert_eq!(Wkb(ours).to_geo().unwrap(), Geometry::Polygon(geo_polygon(&rings)));
        assert_eq!(parse_polygon(&theirs), Ok(rings));
    }
}

#[test]
fn a_line_string_array_round_trips_through_its_encoding() {
    let arr = example_linestring_interleaved();
    let wkb = arr.to_wkb().unwrap();
    assert_eq!(wkb.len(), 4);
    assert!(wkb.is_null(1));
    assert!(wkb.get(1).is_none());
    assert_eq!(wkb.value(0).len(), 9 + 3 * 16);
    assert_eq!(wkb.value(1).len(), 0);
    assert_eq!(wkb.get(2).map(|b| b.to_vec()), Some(vec![1u8, 2, 0, 0, 0, 0, 0, 0, 0]));
    let back = LineStringArray::<i64>::try_from_wkb(&wkb).unwrap();
    assert!(back.equals(&arr));
    assert_eq!(back.iter_geo(), example_lines());
    let narrow: LineStringArray<i32> = arr.clone().convert().unwrap();
    let back = LineStringArray::<i32>::try_from_wkb(&narrow.to_wkb().unwrap()).unwrap();
    assert_eq!(back.iter_geo(), example_lines());
    // a slice encodes only its own slots
    let sliced = arr.slice(2, 2).to_wkb().unwrap();
    assert_eq!(sliced.len(), 2);
    assert_eq!(sliced.value(1).len(), 9 + 2 * 16);
}

#[test]
fn a_polygon_array_round_trips_through_its_encoding() {
    let mut b = MutablePolygonArray::<i32>::new();
    for p in &example_polygons() {
        b.push_polygon(p.as_ref()).unwrap();
    }
    let arr = b.finish().unwrap();
    let wkb = arr.to_wkb().unwrap();
    assert_eq!(wkb.len(), 4);
    assert!(wkb.is_null(1));
    assert_eq!(wkb.value(3).to_vec(), vec![1u8, 3, 0, 0, 0, 0, 0, 0, 0]);
    let back = PolygonArray::<i32>::try_from_wkb(&wkb).unwrap();
    assert!(back.equals(&arr));
    for i in 0..4 {
        assert_eq!(back.get(i).map(|p| p.to_vec()), example_polygons()[i]);
    }
}

#[test]
fn one_malformed_slot_fails_the_whole_array() {
    let mut good = Vec::new();
    write_line_string(&mut good, &vec![c(1., 2.)]).unwrap();
    let mut polygon = Vec::new();
    write_polygon(&mut polygon, &vec![vec![c(1., 2.)]]).unwrap();
    let blobs = vec![Some(good.clone()), None, Some(polygon.clone()), Some(good.clone())];
    let wkb = WKBArray::<i32>::from_blobs(&blobs).unwrap();
    assert_eq!(LineStringArray::try_from_wkb(&wkb).err(), Some(GeoArrowError::MalformedBytes));
    assert_eq!(PolygonArray::try_from_wkb(&wkb).err(), Some(GeoArrowError::MalformedBytes));
    let fine = WKBArray::<i32>::from_blobs(&vec![Some(good), None]).unwrap();
    assert_eq!(LineStringArray::try_from_wkb(&fine).unwrap().len(), 2);
    let empty = WKBArray::<i32>::from_blobs(&vec![Some(vec![])]).unwrap();
    assert_eq!(LineStringArray::try_from_wkb(&empty).err(), Some(GeoArrowError::MalformedBytes));
}

#[test]
fn an_encoded_array_is_made_of_parts_that_fit() {
    let values = vec![1u8, 2, 3, 4, 5];
    let offsets = || Offsets::<i32>::try_new(vec![0, 2, 5]).unwrap();
    let arr = WKBArray::try_new(values.clone(), offsets(), None).unwrap();
    assert_eq!(arr.len(), 2);
    assert_eq!(arr.value(0), &[1u8, 2][..]);
    assert_eq!(arr.value(1), &[3u8, 4, 5][..]);
    assert!(arr.is_valid(1));
    let short = arrow_buffer::NullBuffer::from(vec![true]);
    assert_eq!(
        WKBArray::try_new(values.clone(), offsets(), Some(short)).err(),
        Some(GeoArrowError::ValidityLength)
    );
    assert_eq!(
        WKBArray::try_new(vec![1u8, 2, 3], offsets(), None).err(),
        Some(GeoArrowError::OffsetMismatch { level: 0 })
    );
    let packed = WKBArray::<i64>::from_blobs(&vec![Some(vec![9u8]), None, Some(vec![8u8, 7])]).unwrap();
    assert_eq!(packed.len(), 3);
    assert_eq!(packed.get(0), Some(&[9u8][..]));
    assert_eq!(packed.get(1), None);
    assert_eq!(packed.get(2), Some(&[8u8, 7][..]));
}
