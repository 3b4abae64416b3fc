use arrow_buffer::NullBuffer;
use geoarrow::array::geometry::{GeometryArray, GeometryType};
use geoarrow::array::linestring::LineStringArray;
use geoarrow::array::multilinestring::MultiLineStringArray;
use geoarrow::array::multipoint::MultiPointArray;
use geoarrow::array::multipolygon::MultiPolygonArray;
use geoarrow::array::point::PointArray;
use geoarrow::array::polygon::PolygonArray;
use geoarrow::array::rect::{Rect, RectArray};
use geoarrow::broadcasting::{
    BroadcastableLineString, BroadcastableMultiPolygon, BroadcastablePolygon,
};
use geoarrow::builder::linestring::MutableLineStringArray;
use geoarrow::builder::multilinestring::MutableMultiLineStringArray;
use geoarrow::builder::multipoint::MutableMultiPointArray;
use geoarrow::builder::multipolygon::MutableMultiPolygonArray;
use geoarrow::builder::point::MutablePointArray;
use geoarrow::builder::polygon::MutablePolygonArray;
use geoarrow::coord::{Coord, CoordBuffer};
use geoarrow::datatypes::{CoordType, GeoDataType, StorageType, EXTENSION_NAME_KEY};
use geoarrow::error::GeoArrowError;
use geoarrow::geo_traits::geometry::{GeometryTrait, GeometryType as GeometryRef};
use geoarrow::geo_traits::geometry_collection::GeometryCollectionTrait;
use geoarrow::geo_traits::line_string::LineStringTrait;
use geoarrow::geo_traits::multi_line_string::MultiLineStringTrait;
use geoarrow::geo_traits::multi_point::MultiPointTrait;
use geoarrow::geo_traits::multi_polygon::MultiPolygonTrait;
use geoarrow::geo_traits::point::PointTrait;
use geoarrow::geo_traits::polygon::PolygonTrait;
use geoarrow::geo_traits::rect::RectTrait;
use geoarrow::offsets::Offsets;
use geoarrow::scalar::owned::{
    copy_coords, copy_rings, Geometry, OwnedGeometryCollection, OwnedLineString,
    OwnedMultiLineString, OwnedMultiPoint, OwnedMultiPolygon, OwnedPolygon,
};
use geoarrow::trait_::{GeoArrayAccessor, GeometryArrayTrait};

fn c(x: f64, y: f64) -> Coord {
    Coord { x: x.to_bits(), y: y.to_bits() }
}

fn ring(n: usize, at: f64) -> Vec<Coord> {
    (0..n).map(|i| c(at + i as f64, at - i as f64)).collect()
}

fn mp0() -> Vec<Vec<Vec<Coord>>> {
    vec![vec![ring(4, 0.)], vec![ring(5, 10.), ring(4, 20.)]]
}

fn mp1() -> Vec<Vec<Vec<Coord>>> {
    vec![vec![ring(3, 30.), vec![], ring(2, 40.)]]
}

fn points(values: Vec<Option<Coord>>) -> PointArray {
    let mut b = MutablePointArray::with_capacity(values.len());
    for v in &values {
        b.push_point(*v);
    }
    b.finish()
}

fn multi_polygons(values: Vec<Option<Vec<Vec<Vec<Coord>>>>>) -> MultiPolygonArray<i32> {
    let mut b = MutableMultiPolygonArray::<i32>::new();
    for v in &values {
        b.push_multi_polygon(v.as_ref()).unwrap();
    }
    b.finish()
}

fn validity_of(a: &MultiPolygonArray<i32>) -> Option<Vec<bool>> {
    a.validity().map(|v| v.iter().collect())
}

fn multi_polygons_of(a: &MultiPolygonArray<i32>) -> Vec<Option<Vec<Vec<Vec<Coord>>>>> {
    (0..a.len()).map(|i| a.get(i).map(|m| m.to_vec())).collect()
}

#[test]
fn points_come_back_as_they_were_pushed() {
    let values = vec![Some(c(1., 2.)), None, Some(c(3., 4.)), Some(c(5., 6.))];
    let arr = points(values.clone());
    assert_eq!(arr.len(), 4);
    assert!(!arr.is_empty());
    assert_eq!((0..4).map(|i| arr.get(i)).collect::<Vec<_>>(), values);
    assert!(arr.is_null(1));
    assert!(arr.is_valid(0));
    assert_eq!(arr.value(1), Coord { x: 0, y: 0 });
    assert_eq!(arr.value(2), c(3., 4.));
    assert_eq!(arr.validity().map(|v| v.null_count()), Some(1));
    let shared = arr.slice(1, 2);
    let owned = arr.owned_slice(1, 2);
    for s in [&shared, &owned] {
        assert_eq!(s.len(), 2);
        assert_eq!(s.get(0), None);
        assert_eq!(s.get(1), Some(c(3., 4.)));
        assert_eq!(s.coords().len(), 2);
    }
    assert!(shared.equals(&owned));
    assert!(!shared.equals(&arr));
    let separated = arr.clone().into_coord_type(CoordType::Separated);
    assert_eq!(separated.coord_type(), CoordType::Separated);
    assert!(separated == arr);
    assert_eq!(GeometryArrayTrait::data_type(&separated), GeoDataType::Point(CoordType::Separated));
    assert_eq!(GeometryArrayTrait::extension_name(&arr), "geoarrow.point");
    assert_eq!(GeoArrayAccessor::get(&arr, 3), Some(c(5., 6.)));
    let all_valid = points(vec![Some(c(1., 1.))]);
    assert!(all_valid.validity().is_none());
    assert_eq!(PointArray::default().len(), 0);
    let mut b = MutablePointArray::new();
    b.push_null();
    assert_eq!(b.len(), 1);
}

#[test]
fn a_point_array_needs_one_bit_per_point() {
    let coords = || CoordBuffer::from_coords(&vec![c(1., 2.), c(3., 4.)], CoordType::Interleaved);
    assert_eq!(
        PointArray::try_new(coords(), Some(NullBuffer::from(vec![true]))).err(),
        Some(GeoArrowError::ValidityLength)
    );
    let arr = PointArray::try_new(coords(), Some(NullBuffer::from(vec![false, true]))).unwrap();
    assert_eq!(arr.get(0), None);
    assert_eq!(arr.get(1), Some(c(3., 4.)));
    let made = PointArray::new(coords(), None);
    assert_eq!(made.get(0), Some(c(1., 2.)));
    let replaced = made.with_coords(CoordBuffer::from_coords(
        &vec![c(7., 7.), c(8., 8.)],
        CoordType::Separated,
    ));
    assert_eq!(replaced.value(1), c(8., 8.));
}

#[test]
fn rectangles_hold_two_corners_per_slot() {
    let lower = || CoordBuffer::from_coords(&vec![c(0., 0.), c(1., 1.), c(2., 2.)], CoordType::Interleaved);
    let upper = || CoordBuffer::from_coords(&vec![c(5., 5.), c(6., 6.), c(7., 7.)], CoordType::Separated);
    let mask = || Some(NullBuffer::from(vec![true, false, true]));
    let arr = RectArray::try_new(lower(), upper(), mask()).unwrap();
    assert_eq!(arr.len(), 3);
    assert!(!arr.is_empty());
    assert_eq!(arr.get(0), Some(Rect { lower: c(0., 0.), upper: c(5., 5.) }));
    assert_eq!(arr.get(1), None);
    assert!(arr.is_null(1));
    assert!(arr.is_valid(2));
    assert_eq!(arr.value(1), Rect { lower: c(1., 1.), upper: c(6., 6.) });
    assert_eq!(arr.validity().map(|v| v.len()), Some(3));
    let shared = arr.slice(1, 2);
    let owned = arr.owned_slice(1, 2);
    assert!(shared.equals(&owned));
    assert!(!shared.equals(&arr));
    assert_eq!(owned.get(1), Some(Rect { lower: c(2., 2.), upper: c(7., 7.) }));
    assert_eq!(arr.clone().len(), 3);
    let short = CoordBuffer::from_coords(&vec![c(5., 5.)], CoordType::Separated);
    assert_eq!(RectArray::try_new(lower(), short, None).err(), Some(GeoArrowError::CoordLength));
    assert_eq!(
        RectArray::try_new(lower(), upper(), Some(NullBuffer::from(vec![true]))).err(),
        Some(GeoArrowError::ValidityLength)
    );
}

#[test]
fn multi_polygons_come_back_as_they_were_pushed() {
    let values = vec![Some(mp0()), None, Some(mp1()), Some(vec![])];
    let arr = multi_polygons(values.clone());
    assert_eq!(arr.len(), 4);
    assert_eq!(multi_polygons_of(&arr), values);
    assert_eq!(arr.geom_offsets().to_vec(), vec![0, 2, 2, 3, 3]);
    assert_eq!(arr.polygon_offsets().to_vec(), vec![0, 1, 3, 6]);
    assert_eq!(arr.ring_offsets().to_vec(), vec![0, 4, 9, 13, 16, 16, 18]);
    assert_eq!(arr.coords().len(), 18);
    assert_eq!(arr.polygons().len(), 3);
    assert!(arr.is_null(1));
    assert!(arr.is_valid(3));
    assert_eq!(arr.validity().map(|v| v.null_count()), Some(1));
    let m = arr.value(0);
    assert_eq!(m.num_polygons(), 2);
    assert_eq!(m.polygon(1).map(|p| p.to_vec()), Some(mp0()[1].clone()));
    assert!(m.polygon(2).is_none());
    assert_eq!(m.to_owned().polygons, mp0());
    assert_eq!(GeoArrayAccessor::value(&arr, 2).to_vec(), mp1());
    assert_eq!(
        GeometryArrayTrait::data_type(&arr),
        GeoDataType::MultiPolygon(CoordType::Interleaved)
    );
    assert_eq!(
        GeometryArrayTrait::storage_type(&arr),
        StorageType { levels: 3, large: false, coord_type: CoordType::Interleaved }
    );
    let field = GeometryArrayTrait::extension_field(&arr);
    assert!(field.nullable);
    assert_eq!(field.extension_name, "geoarrow.multipolygon");
    assert_eq!(EXTENSION_NAME_KEY, "ARROW:extension:name");
}

#[test]
fn multi_polygon_slices_share_and_owned_slices_compact() {
    let values = vec![Some(mp0()), None, Some(mp1()), Some(vec![]), Some(mp0())];
    let arr = multi_polygons(values.clone());
    for offset in 0..=values.len() {
        for length in 0..=(values.len() - offset) {
            let shared = arr.slice(offset, length);
            let owned = arr.owned_slice(offset, length);
            assert_eq!(multi_polygons_of(&shared), values[offset..offset + length].to_vec());
            assert_eq!(multi_polygons_of(&owned), values[offset..offset + length].to_vec());
            assert_eq!(shared.coords().len(), arr.coords().len());
            let polygons: usize =
                values[offset..offset + length].iter().flatten().map(|m| m.len()).sum();
            let coords: usize = values[offset..offset + length]
                .iter()
                .flatten()
                .flatten()
                .flatten()
                .map(|r| r.len())
                .sum();
            assert_eq!(owned.geom_offsets().first(), 0);
            assert_eq!(owned.geom_offsets().last(), polygons);
            assert_eq!(owned.polygons().len(), polygons);
            assert_eq!(owned.coords().len(), coords);
            // a slice is its own compacted copy only where it already is compact: where it
            // leaves nothing out
            assert_eq!(shared.equals(&owned), offset == 0 && length == values.len());
            if shared.equals(&owned) {
                assert_eq!(validity_of(&shared), validity_of(&owned));
                assert_eq!(shared.geom_offsets().to_vec(), owned.geom_offsets().to_vec());
            }
        }
    }
    let separated = arr.clone().into_coord_type(CoordType::Separated);
    assert_eq!(separated.coord_type(), CoordType::Separated);
    assert_eq!(multi_polygons_of(&separated), values);
    assert!(separated == arr);
    let wide: MultiPolygonArray<i64> = arr.clone().convert().unwrap();
    assert_eq!(wide.value(2).to_vec(), mp1());
    assert_eq!(wide.geom_offsets().to_vec(), vec![0i64, 2, 2, 3, 3, 5]);
    assert!(!arr.equals(&multi_polygons(vec![Some(mp0())])));
    assert_eq!(MultiPolygonArray::<i64>::default().len(), 0);
}

#[test]
fn multi_polygon_parts_that_do_not_fit_are_refused_innermost_first() {
    let coords = || CoordBuffer::from_coords(&ring(6, 0.), CoordType::Interleaved);
    let o = |v: Vec<i32>| Offsets::<i32>::try_new(v).unwrap();
    let try_new = |g: Vec<i32>, p: Vec<i32>, r: Vec<i32>, m: Option<NullBuffer>| {
        MultiPolygonArray::try_new(coords(), o(g), o(p), o(r), m).err()
    };
    assert_eq!(try_new(vec![0, 1], vec![0, 2], vec![0, 3, 6], None), None);
    assert_eq!(
        try_new(vec![0, 1], vec![0, 2], vec![0, 3, 5], None),
        Some(GeoArrowError::OffsetMismatch { level: 0 })
    );
    assert_eq!(
        try_new(vec![0, 1], vec![0, 1], vec![0, 3, 6], None),
        Some(GeoArrowError::OffsetMismatch { level: 1 })
    );
    assert_eq!(
        try_new(vec![0, 2], vec![0, 2], vec![0, 3, 6], None),
        Some(GeoArrowError::OffsetMismatch { level: 2 })
    );
    assert_eq!(
        try_new(vec![0, 2], vec![0, 1], vec![0, 3, 5], None),
        Some(GeoArrowError::OffsetMismatch { level: 0 })
    );
    assert_eq!(
        try_new(vec![0, 2], vec![0, 1], vec![0, 3, 5], Some(NullBuffer::from(vec![true, true]))),
        Some(GeoArrowError::ValidityLength)
    );
}

#[test]
fn the_multi_polygon_builder_changes_nothing_when_it_refuses() {
    let mut b = MutableMultiPolygonArray::<i32>::new();
    b.push_multi_polygon(Some(&mp0())).unwrap();
    b.push_null();
    assert_eq!(b.len(), 2);
    let arr = b.finish();
    assert_eq!(multi_polygons_of(&arr), vec![Some(mp0()), None]);
}

#[test]
fn multi_points_and_multi_line_strings_have_builders() {
    let mut b = MutableMultiPointArray::<i32>::new();
    b.push_multi_point(Some(&ring(3, 0.))).unwrap();
    b.push_null();
    b.push_multi_point(Some(&vec![])).unwrap();
    assert_eq!(b.len(), 3);
    let arr: MultiPointArray<i32> = b.finish();
    assert_eq!(arr.len(), 3);
    assert_eq!(arr.get(0).map(|p| p.to_vec()), Some(ring(3, 0.)));
    assert!(arr.get(1).is_none());
    assert_eq!(arr.value(2).num_coords(), 0);
    assert_eq!(arr.coord_type(), CoordType::Interleaved);
    let wide: MultiPointArray<i64> = arr.clone().convert().unwrap();
    assert_eq!(wide.value(0).to_vec(), ring(3, 0.));
    assert!(arr.clone().into_coord_type(CoordType::Separated).equals(&arr));
    assert_eq!(MultiPointArray::<i32>::default().len(), 0);
    let made = MultiPointArray::try_new(
        CoordBuffer::from_coords(&ring(3, 0.), CoordType::Interleaved),
        Offsets::<i32>::try_new(vec![0, 3]).unwrap(),
        None,
    )
    .unwrap();
    assert_eq!(made.owned_slice(0, 1).value(0).to_vec(), ring(3, 0.));
    assert!(MultiPointArray::try_new(
        CoordBuffer::from_coords(&ring(3, 0.), CoordType::Interleaved),
        Offsets::<i32>::try_new(vec![0, 2]).unwrap(),
        None,
    )
    .is_err());

    let mut b = MutableMultiLineStringArray::<i64>::new();
    b.push_multi_line_string(Some(&vec![ring(2, 0.), ring(3, 5.)])).unwrap();
    b.push_null();
    assert_eq!(b.len(), 2);
    let arr: MultiLineStringArray<i64> = b.finish();
    assert_eq!(arr.get(0).map(|l| l.to_vec()), Some(vec![ring(2, 0.), ring(3, 5.)]));
    assert!(arr.is_null(1));
    assert_eq!(
        GeometryArrayTrait::data_type(&arr),
        GeoDataType::LargeMultiLineString(CoordType::Interleaved)
    );
    let made = MultiLineStringArray::try_new(
        CoordBuffer::from_coords(&[ring(2, 0.), ring(3, 5.)].concat(), CoordType::Interleaved),
        Offsets::<i64>::try_new(vec![0, 2]).unwrap(),
        Offsets::<i64>::try_new(vec![0, 2, 5]).unwrap(),
        None,
    )
    .unwrap();
    assert_eq!(made.value(0).to_vec(), arr.slice(0, 1).value(0).to_vec());
    // the mask counts: one array has none, the other one that marks its slot valid
    assert!(!made.equals(&arr.slice(0, 1)));
    assert!(made.clone().into_coord_type(CoordType::Separated).equals(&made));
}

#[test]
fn a_geometry_array_reports_what_it_holds() {
    let line_strings = {
        let mut b = MutableLineStringArray::<i32>::new();
        b.push_line_string(Some(&ring(2, 0.))).unwrap();
        b.push_null();
        b.finish().unwrap()
    };
    let polygons = {
        let mut b = MutablePolygonArray::<i32>::new();
        b.push_polygon(Some(&vec![ring(4, 0.)])).unwrap();
        b.finish().unwrap()
    };
    let rects = RectArray::try_new(
        CoordBuffer::from_coords(&vec![c(0., 0.)], CoordType::Interleaved),
        CoordBuffer::from_coords(&vec![c(1., 1.)], CoordType::Interleaved),
        None,
    )
    .unwrap();
    let all: Vec<(GeometryArray<i32>, GeometryType, usize)> = vec![
        (GeometryArray::from_point_array(points(vec![Some(c(1., 2.)), None])), GeometryType::Point, 2),
        (GeometryArray::from_line_string_array(line_strings.clone()), GeometryType::LineString, 2),
        (GeometryArray::from_polygon_array(polygons.clone()), GeometryType::Polygon, 1),
        (
            GeometryArray::from_multi_point_array(MultiPointArray::from_line_strings(line_strings.clone())),
            GeometryType::MultiPoint,
            2,
        ),
        (
            GeometryArray::from_multi_line_string_array(MultiLineStringArray::from_polygons(polygons.clone())),
            GeometryType::MultiLineString,
            1,
        ),
        (
            GeometryArray::from_multi_polygon_array(multi_polygons(vec![Some(mp0()), None, Some(mp1())])),
            GeometryType::MultiPolygon,
            3,
        ),
        (GeometryArray::from_rect_array(rects), GeometryType::Rect, 1),
    ];
    for (array, kind, len) in &all {
        assert_eq!(array.geometry_type(), *kind);
        assert_eq!(array.len(), *len);
        assert!(!array.is_empty());
        assert!(array.is_valid(0));
        assert!(!array.is_null(0));
        let last = array.slice(len - 1, 1);
        assert_eq!(last.geometry_type(), *kind);
        assert_eq!(last.len(), 1);
        assert_eq!(last.is_null(0), array.is_null(len - 1));
        let owned = array.owned_slice(0, *len);
        assert_eq!(owned.geometry_type(), *kind);
        assert_eq!(owned.len(), *len);
        assert_eq!(array.as_point().is_ok(), *kind == GeometryType::Point);
        assert_eq!(array.as_line_string().is_ok(), *kind == GeometryType::LineString);
        assert_eq!(array.as_polygon().is_ok(), *kind == GeometryType::Polygon);
        assert_eq!(array.as_multi_point().is_ok(), *kind == GeometryType::MultiPoint);
        assert_eq!(array.as_multi_line_string().is_ok(), *kind == GeometryType::MultiLineString);
        assert_eq!(array.as_multi_polygon().is_ok(), *kind == GeometryType::MultiPolygon);
        assert_eq!(array.as_rect().is_ok(), *kind == GeometryType::Rect);
        if *kind != GeometryType::Polygon {
            assert_eq!(
                array.as_polygon().err(),
                Some(GeoArrowError::WrongType { expected: GeometryType::Polygon, found: *kind })
            );
        }
    }
    assert!(all[0].0.is_null(1));
    assert!(all[5].0.is_null(1));
}

#[test]
fn a_geometry_array_hands_out_generic_geometries_but_no_rectangles() {
    let line_strings = {
        let mut b = MutableLineStringArray::<i32>::new();
        b.push_line_string(Some(&ring(2, 0.))).unwrap();
        b.push_null();
        b.finish().unwrap()
    };
    let array = GeometryArray::from_line_string_array(line_strings.clone());
    match array.as_generic_geometry(0).unwrap() {
        Some(Geometry::LineString(l)) => assert_eq!(l.coords, ring(2, 0.)),
        _ => panic!("a line string was expected"),
    }
    assert!(array.as_generic_geometry(1).unwrap().is_none());
    let array: GeometryArray<i32> =
        GeometryArray::from_multi_point_array(MultiPointArray::from_line_strings(line_strings));
    match array.as_generic_geometry(0).unwrap() {
        Some(Geometry::MultiPoint(m)) => assert_eq!(m.points, ring(2, 0.)),
        _ => panic!("a multi point was expected"),
    }
    let array: GeometryArray<i32> = GeometryArray::from_point_array(points(vec![Some(c(1., 2.))]));
    match array.as_generic_geometry(0).unwrap() {
        Some(Geometry::Point(p)) => assert_eq!(p, c(1., 2.)),
        _ => panic!("a point was expected"),
    }
    let array: GeometryArray<i32> =
        GeometryArray::from_multi_polygon_array(multi_polygons(vec![Some(mp0())]));
    match array.as_generic_geometry(0).unwrap() {
        Some(Geometry::MultiPolygon(m)) => assert_eq!(m.polygons, mp0()),
        _ => panic!("a multi polygon was expected"),
    }
    let polygons = {
        let mut b = MutablePolygonArray::<i32>::new();
        b.push_polygon(Some(&mp0()[1])).unwrap();
        b.finish().unwrap()
    };
    match GeometryArray::from_polygon_array(polygons.clone()).as_generic_geometry(0).unwrap() {
        Some(Geometry::Polygon(p)) => assert_eq!(p.rings, mp0()[1]),
        _ => panic!("a polygon was expected"),
    }
    let lines = GeometryArray::from_multi_line_string_array(MultiLineStringArray::from_polygons(polygons));
    match lines.as_generic_geometry(0).unwrap() {
        Some(Geometry::MultiLineString(m)) => assert_eq!(m.lines, mp0()[1]),
        _ => panic!("a multi line string was expected"),
    }
    let rects = RectArray::try_new(
        CoordBuffer::from_coords(&vec![c(0., 0.)], CoordType::Interleaved),
        CoordBuffer::from_coords(&vec![c(1., 1.)], CoordType::Interleaved),
        None,
    )
    .unwrap();
    let array: GeometryArray<i32> = GeometryArray::from_rect_array(rects);
    assert_eq!(
        array.as_generic_geometry(0).err(),
        Some(GeoArrowError::Unsupported { kind: GeometryType::Rect })
    );
}

#[test]
fn owned_geometries_are_read_through_the_traits() {
    let p = c(1., 2.);
    assert_eq!(PointTrait::x(&p), 1f64.to_bits());
    assert_eq!(PointTrait::y(&p), 2f64.to_bits());
    let r = Rect { lower: c(0., 0.), upper: c(1., 1.) };
    assert_eq!(r.lower(), c(0., 0.));
    assert_eq!(r.upper(), c(1., 1.));
    let l = OwnedLineString { coords: ring(3, 0.) };
    assert_eq!(l.num_coords(), 3);
    assert_eq!(l.coord(2), Some(ring(3, 0.)[2]));
    assert_eq!(l.coord(3), None);
    let y = OwnedPolygon { rings: vec![ring(4, 0.), ring(3, 1.), ring(2, 2.)] };
    assert_eq!(y.exterior().map(|r| r.coords), Some(ring(4, 0.)));
    assert_eq!(y.num_interiors(), 2);
    assert_eq!(y.interior(1).map(|r| r.coords), Some(ring(2, 2.)));
    assert!(y.interior(2).is_none());
    assert!(y.interior(usize::MAX).is_none());
    let empty = OwnedPolygon { rings: vec![] };
    assert!(empty.exterior().is_none());
    assert_eq!(empty.num_interiors(), 0);
    let mp = OwnedMultiPoint { points: ring(3, 0.) };
    assert_eq!(mp.num_points(), 3);
    assert_eq!(mp.points(), ring(3, 0.));
    assert_eq!(mp.point(1), Some(ring(3, 0.)[1]));
    assert_eq!(mp.point(3), None);
    let ml = OwnedMultiLineString { lines: vec![ring(2, 0.), ring(3, 1.)] };
    assert_eq!(ml.num_lines(), 2);
    assert_eq!(ml.lines().into_iter().map(|l| l.coords).collect::<Vec<_>>(), ml.lines);
    assert_eq!(ml.line(1).map(|l| l.coords), Some(ring(3, 1.)));
    assert!(ml.line(2).is_none());
    let my = OwnedMultiPolygon { polygons: mp0() };
    assert_eq!(my.num_polygons(), 2);
    assert_eq!(my.polygons().into_iter().map(|p| p.rings).collect::<Vec<_>>(), mp0());
    assert_eq!(my.polygon(1).map(|p| p.rings), Some(mp0()[1].clone()));
    assert!(my.polygon(2).is_none());
    assert_eq!(copy_coords(&ring(3, 0.)), ring(3, 0.));
    assert_eq!(copy_rings(&mp0()[1]), mp0()[1]);
    let gc = OwnedGeometryCollection { geometries: vec![Geometry::Point(p), Geometry::Rect(r)] };
    assert_eq!(gc.num_geometries(), 2);
}

#[test]
fn a_geometry_is_handed_out_under_the_name_of_its_kind() {
    let p = c(1., 2.);
    let cases = vec![
        (Geometry::Point(p), Some(GeometryType::Point)),
        (Geometry::LineString(OwnedLineString { coords: ring(2, 0.) }), Some(GeometryType::LineString)),
        (Geometry::Polygon(OwnedPolygon { rings: vec![ring(4, 0.)] }), Some(GeometryType::Polygon)),
        (Geometry::MultiPoint(OwnedMultiPoint { points: ring(2, 0.) }), Some(GeometryType::MultiPoint)),
        (
            Geometry::MultiLineString(OwnedMultiLineString { lines: vec![ring(2, 0.)] }),
            Some(GeometryType::MultiLineString),
        ),
        (
            Geometry::MultiPolygon(OwnedMultiPolygon { polygons: mp0() }),
            Some(GeometryType::MultiPolygon),
        ),
        (Geometry::GeometryCollection(OwnedGeometryCollection { geometries: vec![] }), None),
        (Geometry::Rect(Rect { lower: p, upper: p }), Some(GeometryType::Rect)),
    ];
    for (g, kind) in &cases {
        assert_eq!(g.kind(), *kind);
        let same = match (g, g.as_type()) {
            (Geometry::Point(a), GeometryRef::Point(b)) => a == b,
            (Geometry::LineString(a), GeometryRef::LineString(b)) => a.coords == b.coords,
            (Geometry::Polygon(a), GeometryRef::Polygon(b)) => a.rings == b.rings,
            (Geometry::MultiPoint(a), GeometryRef::MultiPoint(b)) => a.points == b.points,
            (Geometry::MultiLineString(a), GeometryRef::MultiLineString(b)) => a.lines == b.lines,
            (Geometry::MultiPolygon(a), GeometryRef::MultiPolygon(b)) => a.polygons == b.polygons,
            (Geometry::GeometryCollection(a), GeometryRef::GeometryCollection(b)) => {
                a.geometries.len() == b.geometries.len()
            }
            (Geometry::Rect(a), GeometryRef::Rect(b)) => a == b,
            _ => false,
        };
        assert!(same);
    }
}

#[test]
fn borrowed_scalars_are_read_through_the_traits() {
    let arr = multi_polygons(vec![Some(mp0())]);
    let m = arr.value(0);
    assert_eq!(MultiPolygonTrait::num_polygons(&m), 2);
    let polygons = MultiPolygonTrait::polygons(&m);
    assert_eq!(polygons.len(), 2);
    let second = &polygons[1];
    assert_eq!(PolygonTrait::num_interiors(second), 1);
    let exterior = PolygonTrait::exterior(second).unwrap();
    assert_eq!(LineStringTrait::num_coords(&exterior), 5);
    assert_eq!(LineStringTrait::coord(&exterior, 4), Some(ring(5, 10.)[4]));
    assert_eq!(LineStringTrait::coord(&exterior, 5), None);
    assert_eq!(PolygonTrait::interior(second, 0).map(|r| r.to_vec()), Some(ring(4, 20.)));
    assert!(PolygonTrait::interior(second, 1).is_none());
    assert!(MultiPolygonTrait::polygon(&m, 2).is_none());
    assert_eq!(MultiPolygonTrait::polygon(&m, 0).map(|p| p.to_vec()), Some(mp0()[0].clone()));
}

#[test]
fn data_types_describe_their_storage() {
    let (inter, sep) = (CoordType::Interleaved, CoordType::Separated);
    let cases = vec![
        (GeoDataType::Point(sep), "geoarrow.point", Some((0, false, sep))),
        (GeoDataType::LineString(inter), "geoarrow.linestring", Some((1, false, inter))),
        (GeoDataType::LargeLineString(sep), "geoarrow.linestring", Some((1, true, sep))),
        (GeoDataType::Polygon(inter), "geoarrow.polygon", Some((2, false, inter))),
        (GeoDataType::LargePolygon(inter), "geoarrow.polygon", Some((2, true, inter))),
        (GeoDataType::MultiPoint(inter), "geoarrow.multipoint", Some((1, false, inter))),
        (GeoDataType::LargeMultiPoint(sep), "geoarrow.multipoint", Some((1, true, sep))),
        (
            GeoDataType::MultiLineString(sep),
            "geoarrow.multilinestring",
            Some((2, false, sep)),
        ),
        (
            GeoDataType::LargeMultiLineString(inter),
            "geoarrow.multilinestring",
            Some((2, true, inter)),
        ),
        (GeoDataType::MultiPolygon(sep), "geoarrow.multipolygon", Some((3, false, sep))),
        (
            GeoDataType::LargeMultiPolygon(inter),
            "geoarrow.multipolygon",
            Some((3, true, inter)),
        ),
        (GeoDataType::Rect, "geoarrow.box", None),
    ];
    for (t, name, storage) in cases {
        assert_eq!(t.extension_name(), name);
        assert_eq!(
            t.storage_type(),
            storage.map(|(levels, large, coord_type)| StorageType { levels, large, coord_type })
        );
    }
}

#[test]
fn one_geometry_or_an_array_of_them() {
    let line = OwnedLineString { coords: ring(2, 0.) };
    assert!(matches!(BroadcastableLineString::from_scalar(line), BroadcastableLineString::Scalar(l) if l.coords == ring(2, 0.)));
    assert!(matches!(
        BroadcastableLineString::from_array(LineStringArray::default()),
        BroadcastableLineString::Array(a) if a.len() == 0
    ));
    let polygon = OwnedPolygon { rings: vec![ring(4, 0.)] };
    assert!(matches!(BroadcastablePolygon::from_scalar(polygon), BroadcastablePolygon::Scalar(p) if p.rings.len() == 1));
    assert!(matches!(
        BroadcastablePolygon::from_array(PolygonArray::default()),
        BroadcastablePolygon::Array(a) if a.is_empty()
    ));
    let multi = OwnedMultiPolygon { polygons: mp0() };
    assert!(matches!(BroadcastableMultiPolygon::from_scalar(multi), BroadcastableMultiPolygon::Scalar(m) if m.polygons == mp0()));
    assert!(matches!(
        BroadcastableMultiPolygon::from_array(multi_polygons(vec![None])),
        BroadcastableMultiPolygon::Array(a) if a.len() == 1
    ));
}

#[test]
fn every_error_says_what_went_wrong() {
    let all = vec![
        GeoArrowError::MalformedOffsets,
        GeoArrowError::ValidityLength,
        GeoArrowError::OffsetMismatch { level: 1 },
        GeoArrowError::CoordLength,
        GeoArrowError::Overflow,
        GeoArrowError::Unsupported { kind: GeometryType::Rect },
        GeoArrowError::WrongType { expected: GeometryType::Point, found: GeometryType::Rect },
        GeoArrowError::UnexpectedType,
        GeoArrowError::Unbalanced,
        GeoArrowError::MalformedBytes,
    ];
    let messages: Vec<&str> = all.iter().map(|e| e.message()).collect();
    assert_eq!(messages[1], "validity mask length must match the number of values");
    for (i, m) in messages.iter().enumerate() {
        assert!(!m.is_empty());
        assert!(messages[..i].iter().all(|other| other != m));
    }
}

/// Looks at an array through the capability trait alone.
fn through_the_trait<A: GeometryArrayTrait>(array: A, valid: &[bool], levels: u8, name: &str) {
    assert_eq!(array.len(), valid.len());
    assert_eq!(array.is_empty(), valid.is_empty());
    assert_eq!(array.validity().is_some(), valid.iter().any(|v| !v));
    for (i, v) in valid.iter().enumerate() {
        assert_eq!(array.is_valid(i), *v);
        assert_eq!(array.is_null(i), !*v);
    }
    assert_eq!(array.extension_name(), name);
    assert_eq!(array.storage_type().levels, levels);
    assert_eq!(array.extension_field().extension_name, name);
    assert_eq!(array.coord_type(), CoordType::Interleaved);
    let tail = array.slice(1, valid.len() - 1);
    let owned = array.owned_slice(1, valid.len() - 1);
    for t in [&tail, &owned] {
        assert_eq!(t.len(), valid.len() - 1);
        assert_eq!(t.data_type(), array.data_type());
        for (i, v) in valid[1..].iter().enumerate() {
            assert_eq!(t.is_valid(i), *v);
        }
    }
    let separated = array.into_coord_type(CoordType::Separated);
    assert_eq!(separated.coord_type(), CoordType::Separated);
    assert_eq!(separated.storage_type().coord_type, CoordType::Separated);
    assert_eq!(separated.len(), valid.len());
    for (i, v) in valid.iter().enumerate() {
        assert_eq!(separated.is_valid(i), *v);
    }
}

#[test]
fn every_kind_of_array_offers_the_same_capabilities() {
    let lines = {
        let mut b = MutableLineStringArray::<i32>::new();
        b.push_line_string(Some(&ring(2, 0.))).unwrap();
        b.push_null();
        b.push_line_string(Some(&ring(3, 1.))).unwrap();
        b.finish().unwrap()
    };
    let polygons = {
        let mut b = MutablePolygonArray::<i64>::new();
        b.push_polygon(None).unwrap();
        b.push_polygon(Some(&vec![ring(4, 0.)])).unwrap();
        b.finish().unwrap()
    };
    through_the_trait(points(vec![Some(c(1., 2.)), Some(c(3., 4.))]), &[true, true], 0, "geoarrow.point");
    through_the_trait(lines.clone(), &[true, false, true], 1, "geoarrow.linestring");
    through_the_trait(polygons.clone(), &[false, true], 2, "geoarrow.polygon");
    through_the_trait(
        MultiPointArray::from_line_strings(lines),
        &[true, false, true],
        1,
        "geoarrow.multipoint",
    );
    through_the_trait(
        MultiLineStringArray::from_polygons(polygons),
        &[false, true],
        2,
        "geoarrow.multilinestring",
    );
    through_the_trait(
        multi_polygons(vec![Some(mp0()), Some(mp1()), None]),
        &[true, true, false],
        3,
        "geoarrow.multipolygon",
    );
}

#[test]
fn every_kind_of_array_hands_out_generic_geometries() {
    let lines = {
        let mut b = MutableLineStringArray::<i32>::new();
        b.push_line_string(Some(&ring(2, 0.))).unwrap();
        b.push_null();
        b.finish().unwrap()
    };
    assert!(matches!(
        GeoArrayAccessor::as_generic_geometry(&lines, 0),
        Some(Geometry::LineString(l)) if l.coords == ring(2, 0.)
    ));
    assert!(GeoArrayAccessor::as_generic_geometry(&lines, 1).is_none());
    let as_points = MultiPointArray::from_line_strings(lines);
    assert!(matches!(
        GeoArrayAccessor::as_generic_geometry(&as_points, 0),
        Some(Geometry::MultiPoint(m)) if m.points == ring(2, 0.)
    ));
    let multi = multi_polygons(vec![Some(mp1())]);
    assert!(matches!(
        GeoArrayAccessor::as_generic_geometry(&multi, 0),
        Some(Geometry::MultiPolygon(m)) if m.polygons == mp1()
    ));
    let p = points(vec![None, Some(c(1., 2.))]);
    assert!(GeoArrayAccessor::as_generic_geometry(&p, 0).is_none());
    assert!(matches!(
        GeoArrayAccessor::as_generic_geometry(&p, 1),
        Some(Geometry::Point(q)) if q == c(1., 2.)
    ));
}
