use geo::{Geometry, LineString, MultiLineString, MultiPoint, MultiPolygon, Point, Polygon};
use geoarrow::array::multilinestring::MultiLineStringArray;
use geoarrow::array::multipoint::MultiPointArray;
use geoarrow::array::multipolygon::MultiPolygonArray;
use geoarrow::array::point::PointArray;
use geoarrow::builder::multilinestring::MutableMultiLineStringArray;
use geoarrow::builder::multipoint::MutableMultiPointArray;
use geoarrow::builder::multipolygon::MutableMultiPolygonArray;
use geoarrow::builder::point::MutablePointArray;
use geoarrow::coord::Coord;
use geoarrow::error::GeoArrowError;
use geoarrow::io::wkb::array::WKBArray;
use geoarrow::io::wkb::linestring::{parse_coords_at, write_line_string};
use geoarrow::io::wkb::multi::{
    can_encode_multi_polygon, parse_multi_line_string, parse_multi_point, parse_multi_polygon,
    write_multi_line_string, write_multi_point, write_multi_polygon,
};
use geoarrow::io::wkb::point::{parse_point, parse_point_at, write_point};
use geoarrow::io::wkb::polygon::{parse_polygon_at, write_polygon};
use geozero::wkb::Wkb;
use geozero::{CoordDimensions, ToGeo, ToWkb};

fn c(x: f64, y: f64) -> Coord {
    Coord { x: x.to_bits(), y: y.to_bits() }
}

fn ring(n: usize, at: f64) -> Vec<Coord> {
    let mut r: Vec<Coord> = (0..n).map(|i| c(at + i as f64, at - (i * i) as f64)).collect();
    if n > 0 {
        r.push(r[0]);
    }
    r
}

fn geo_line(coords: &[Coord]) -> LineString {
    LineString::from(
        coords.iter().map(|c| (f64::from_bits(c.x), f64::from_bits(c.y))).collect::<Vec<_>>(),
    )
}

fn geo_polygon(rings: &[Vec<Coord>]) -> Polygon {
    let mut rings: Vec<LineString> = rings.iter().map(|r| geo_line(r)).collect();
    let exterior = rings.remove(0);
    Polygon::new(exterior, rings)
}

fn wkb_of(g: Geometry) -> Vec<u8> {
    g.to_wkb(CoordDimensions::xy()).unwrap()
}

#[test]
fn a_point_is_twenty_one_bytes() {
    let mut out = vec![7u8];
    write_point(&mut out, c(1., 2.));
    let mut expected = vec![7u8, 1, 1, 0, 0, 0];
    expected.extend_from_slice(&1f64.to_le_bytes());
    expected.extend_from_slice(&2f64.to_le_bytes());
    assert_eq!(out, expected);
    assert_eq!(parse_point(&out[1..]), Ok(c(1., 2.)));
    assert_eq!(parse_point_at(&out, 1), Some((c(1., 2.), 22)));
    assert_eq!(parse_point_at(&out, 0), None);
    assert_eq!(parse_point_at(&out, 2), None);
    assert_eq!(parse_point_at(&out, 22), None);
    let mut big = vec![0u8, 0, 0, 0, 1];
    big.extend_from_slice(&1f64.to_be_bytes());
    big.extend_from_slice(&2f64.to_be_bytes());
    assert_eq!(parse_point(&big), Ok(c(1., 2.)));
    assert_eq!(parse_point(&out), Err(GeoArrowError::MalformedBytes));
    assert_eq!(parse_point(&big[..20]), Err(GeoArrowError::MalformedBytes));
    big[4] = 2;
    assert_eq!(parse_point(&big), Err(GeoArrowError::MalformedBytes));
    let theirs = wkb_of(Geometry::Point(Point::new(1., 2.)));
    assert_eq!(&out[1..], &theirs[..]);
}

#[test]
fn geometries_are_found_where_they_start() {
    let mut bytes = vec![9u8, 9];
    write_line_string(&mut bytes, &vec![c(1., 2.)]).unwrap();
    let line_end = bytes.len();
    write_polygon(&mut bytes, &vec![vec![c(3., 4.)], vec![]]).unwrap();
    let polygon_end = bytes.len();
    bytes.push(0);
    assert_eq!(parse_coords_at(&bytes, 2, 2), Some((vec![c(1., 2.)], line_end)));
    assert_eq!(parse_coords_at(&bytes, 2, 3), None);
    assert_eq!(parse_coords_at(&bytes, 0, 2), None);
    assert_eq!(parse_coords_at(&bytes, bytes.len(), 2), None);
    assert_eq!(
        parse_polygon_at(&bytes, line_end),
        Some((vec![vec![c(3., 4.)], vec![]], polygon_end))
    );
    assert_eq!(parse_polygon_at(&bytes, 2), None);
    assert_eq!(parse_polygon_at(&bytes, polygon_end), None);
}

#[test]
fn multi_points_agree_with_geozero() {
    for points in [vec![], vec![c(1., 2.)], vec![c(1., 2.), c(-3., 4.5), c(0., 0.)]] {
        let mut ours = Vec::new();
        write_multi_point(&mut ours, &points).unwrap();
        let geo = Geometry::MultiPoint(MultiPoint::new(
            points.iter().map(|c| Point::new(f64::from_bits(c.x), f64::from_bits(c.y))).collect(),
        ));
        let theirs = wkb_of(geo.clone());
        assert_eq!(ours, theirs);
        assert_eq!(ours.len(), 9 + 21 * points.len());
        assert_eq!(parse_multi_point(&theirs), Ok(points));
        assert_eq!(Wkb(ours).to_geo().unwrap(), geo);
    }
}

#[test]
fn multi_line_strings_agree_with_geozero() {
    for lines in [vec![], vec![ring(2, 0.)], vec![ring(3, 1.), vec![], ring(1, 5.)]] {
        let mut ours = Vec::new();
        write_multi_line_string(&mut ours, &lines).unwrap();
        let geo = Geometry::MultiLineString(MultiLineString::new(
            lines.iter().map(|l| geo_line(l)).collect(),
        ));
        let theirs = wkb_of(geo.clone());
        assert_eq!(ours, theirs);
        assert_eq!(parse_multi_line_string(&theirs), Ok(lines));
        assert_eq!(Wkb(ours).to_geo().unwrap(), geo);
    }
}

#[test]
fn multi_polygons_agree_with_geozero() {
    let cases = vec![
        vec![],
        vec![vec![ring(3, 0.)]],
        vec![vec![ring(4, 0.), ring(3, 1.)], vec![ring(3, 9.)]],
    ];
    for polygons in cases {
        let mut ours = Vec::new();
        write_multi_polygon(&mut ours, &polygons).unwrap();
        assert!(can_encode_multi_polygon(&polygons));
        let geo = Geometry::MultiPolygon(MultiPolygon::new(
            polygons.iter().map(|p| geo_polygon(p)).collect(),
        ));
        let theirs = wkb_of(geo.clone());
        assert_eq!(ours, theirs);
        assert_eq!(parse_multi_polygon(&theirs), Ok(polygons));
        assert_eq!(Wkb(ours).to_geo().unwrap(), geo);
    }
}

#[test]
fn the_parts_of_a_multi_geometry_may_differ_in_byte_order() {
    let mut bytes = vec![0u8, 0, 0, 0, 4, 0, 0, 0, 2];
    write_point(&mut bytes, c(1., 2.));
    bytes.extend_from_slice(&[0, 0, 0, 0, 1]);
    bytes.extend_from_slice(&3f64.to_be_bytes());
    bytes.extend_from_slice(&4f64.to_be_bytes());
    assert_eq!(parse_multi_point(&bytes), Ok(vec![c(1., 2.), c(3., 4.)]));
    let mut lines = vec![1u8, 5, 0, 0, 0, 1, 0, 0, 0, 0, 0, 0, 0, 2, 0, 0, 0, 1];
    lines.extend_from_slice(&5f64.to_be_bytes());
    lines.extend_from_slice(&6f64.to_be_bytes());
    assert_eq!(parse_multi_line_string(&lines), Ok(vec![vec![c(5., 6.)]]));
}

#[test]
fn malformed_multi_geometries_are_refused() {
    let bad = GeoArrowError::MalformedBytes;
    let mut points = Vec::new();
    write_multi_point(&mut points, &vec![c(1., 2.), c(3., 4.)]).unwrap();
    let mut lines = Vec::new();
    write_multi_line_string(&mut lines, &vec![ring(2, 0.), ring(1, 1.)]).unwrap();
    let mut polygons = Vec::new();
    write_multi_polygon(&mut polygons, &vec![vec![ring(3, 0.)], vec![ring(3, 5.)]]).unwrap();
    assert_eq!(parse_multi_point(&lines).err(), Some(bad));
    assert_eq!(parse_multi_line_string(&polygons).err(), Some(bad));
    assert_eq!(parse_multi_polygon(&points).err(), Some(bad));
    for good in [&points, &lines, &polygons] {
        for parse in [
            |b: &[u8]| parse_multi_point(b).err(),
            |b: &[u8]| parse_multi_line_string(b).err(),
            |b: &[u8]| parse_multi_polygon(b).err(),
        ] {
            assert_eq!(parse(&good[..good.len() - 1]), Some(bad));
            assert_eq!(parse(&good[..8]), Some(bad));
            assert_eq!(parse(&[]), Some(bad));
            let mut longer = good.clone();
            longer.push(1);
            assert_eq!(parse(&longer), Some(bad));
            let mut more = good.clone();
            more[5] = 3;
            assert_eq!(parse(&more), Some(bad));
            let mut order = good.clone();
            order[0] = 2;
            assert_eq!(parse(&order), Some(bad));
        }
    }
    // a part of the wrong kind
    let mut mixed = vec![1u8, 4, 0, 0, 0, 1, 0, 0, 0];
    write_line_string(&mut mixed, &vec![c(1., 2.)]).unwrap();
    assert_eq!(parse_multi_point(&mixed).err(), Some(bad));
    let mut mixed = vec![1u8, 6, 0, 0, 0, 1, 0, 0, 0];
    write_line_string(&mut mixed, &vec![c(1., 2.)]).unwrap();
    assert_eq!(parse_multi_polygon(&mixed).err(), Some(bad));
}

#[test]
fn a_point_array_round_trips_through_its_encoding() {
    let values = vec![Some(c(1., 2.)), None, Some(c(f64::NAN, -0.0))];
    let mut b = MutablePointArray::new();
    for v in &values {
        b.push_point(*v);
    }
    let arr = b.finish();
    let wkb: WKBArray<i32> = arr.to_wkb().unwrap();
    assert_eq!(wkb.len(), 3);
    assert_eq!(wkb.value(0).len(), 21);
    assert!(wkb.is_null(1));
    assert_eq!(wkb.value(1).len(), 0);
    let back = PointArray::try_from_wkb(&wkb).unwrap();
    assert_eq!((0..3).map(|i| back.get(i)).collect::<Vec<_>>(), values);
    let mut line = Vec::new();
    write_line_string(&mut line, &vec![c(1., 2.)]).unwrap();
    let other = WKBArray::<i64>::from_blobs(&vec![None, Some(line)]).unwrap();
    assert_eq!(PointArray::try_from_wkb(&other).err(), Some(GeoArrowError::MalformedBytes));
}

#[test]
fn multi_arrays_round_trip_through_their_encodings() {
    let points = vec![Some(ring(2, 0.)), None, Some(vec![]), Some(ring(1, 3.))];
    let mut b = MutableMultiPointArray::<i32>::new();
    for v in &points {
        b.push_multi_point(v.as_ref()).unwrap();
    }
    let arr = b.finish();
    let wkb = arr.to_wkb().unwrap();
    assert_eq!(wkb.value(0).len(), 9 + 21 * 3);
    let back = MultiPointArray::<i32>::try_from_wkb(&wkb).unwrap();
    assert!(back.equals(&arr));
    assert_eq!((0..4).map(|i| back.get(i).map(|p| p.to_vec())).collect::<Vec<_>>(), points);
    assert_eq!(
        geoarrow::array::linestring::LineStringArray::<i32>::try_from_wkb(&wkb).err(),
        Some(GeoArrowError::MalformedBytes)
    );

    let lines = vec![Some(vec![ring(2, 0.), ring(3, 1.)]), None, Some(vec![])];
    let mut b = MutableMultiLineStringArray::<i64>::new();
    for v in &lines {
        b.push_multi_line_string(v.as_ref()).unwrap();
    }
    let arr = b.finish();
    let wkb = arr.to_wkb().unwrap();
    let back = MultiLineStringArray::<i64>::try_from_wkb(&wkb).unwrap();
    assert!(back.equals(&arr));
    assert_eq!((0..3).map(|i| back.get(i).map(|p| p.to_vec())).collect::<Vec<_>>(), lines);
    assert_eq!(
        geoarrow::array::polygon::PolygonArray::<i64>::try_from_wkb(&wkb).err(),
        Some(GeoArrowError::MalformedBytes)
    );

    let polygons = vec![
        Some(vec![vec![ring(4, 0.), ring(3, 1.)], vec![ring(3, 9.)]]),
        None,
        Some(vec![]),
        Some(vec![vec![ring(3, 2.)]]),
    ];
    let mut b = MutableMultiPolygonArray::<i32>::new();
    for v in &polygons {
        b.push_multi_polygon(v.as_ref()).unwrap();
    }
    let arr = b.finish();
    let wkb = arr.to_wkb().unwrap();
    assert!(wkb.is_null(1));
    let back = MultiPolygonArray::<i32>::try_from_wkb(&wkb).unwrap();
    assert!(back.equals(&arr));
    assert_eq!((0..4).map(|i| back.get(i).map(|p| p.to_vec())).collect::<Vec<_>>(), polygons);
    assert_eq!(
        MultiLineStringArray::<i32>::try_from_wkb(&wkb).err(),
        Some(GeoArrowError::MalformedBytes)
    );
}
