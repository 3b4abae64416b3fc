use geoarrow::array::linestring::LineStringArray;
use geoarrow::array::polygon::PolygonArray;
use geoarrow::builder::linestring::MutableLineStringArray;
use geoarrow::builder::polygon::MutablePolygonArray;
use geoarrow::coord::Coord;
use geoarrow::datatypes::CoordType;
use geoarrow::io::geozero::linestring::ToGeoArrowLineStringArray;
use geoarrow::io::geozero::polygon::ToGeoArrowPolygonArray;
use geoarrow::io::wkb::array::WKBArray;
use geoarrow::scalar::owned::{coords_equal, rings_equal};

fn c(x: f64, y: f64) -> Coord {
    Coord { x: x.to_bits(), y: y.to_bits() }
}

fn lines() -> Vec<Option<Vec<Coord>>> {
    vec![
        Some(vec![c(0., 0.), c(1., 1.)]),
        None,
        Some(vec![]),
        Some(vec![c(2., 2.), c(3., 3.), c(4., 4.)]),
        None,
    ]
}

fn polygons() -> Vec<Option<Vec<Vec<Coord>>>> {
    vec![
        None,
        Some(vec![vec![c(0., 0.), c(4., 0.), c(4., 4.), c(0., 0.)]]),
        Some(vec![]),
        Some(vec![
            vec![c(0., 0.), c(9., 0.), c(9., 9.), c(0., 0.)],
            vec![],
            vec![c(1., 1.), c(2., 1.), c(2., 2.), c(1., 1.)],
        ]),
    ]
}

fn line_string_array(values: &[Option<Vec<Coord>>]) -> LineStringArray<i32> {
    let mut b = MutableLineStringArray::<i32>::new();
    for v in values {
        b.push_line_string(v.as_ref()).unwrap();
    }
    b.finish().unwrap()
}

fn polygon_array(values: &[Option<Vec<Vec<Coord>>>]) -> PolygonArray<i32> {
    let mut b = MutablePolygonArray::<i32>::new();
    for v in values {
        b.push_polygon(v.as_ref()).unwrap();
    }
    b.finish().unwrap()
}

#[test]
fn the_same_geometries_in_other_storage_are_the_same_geometries() {
    let a = line_string_array(&lines());
    let wide: LineStringArray<i64> = a.clone().convert().unwrap();
    let separated = wide.clone().into_coord_type(CoordType::Separated);
    assert!(a.same_geometries(&wide));
    assert!(a.same_geometries(&separated));
    assert!(a.slice(1, 3).same_geometries(&separated.owned_slice(1, 3)));
    assert!(!a.same_geometries(&wide.slice(0, 4)));
    assert!(!a.slice(0, 1).same_geometries(&a.slice(1, 1)));
    assert!(!a.slice(0, 1).same_geometries(&a.slice(3, 1)));
    assert!(!a.slice(0, 1).same_geometries(&a.slice(2, 1)));
    assert!(a.slice(1, 1).same_geometries(&a.slice(4, 1)));
    let p = polygon_array(&polygons());
    let wide: PolygonArray<i64> = p.clone().convert().unwrap();
    assert!(p.same_geometries(&wide.clone().into_coord_type(CoordType::Separated)));
    assert!(p.slice(1, 2).same_geometries(&wide.owned_slice(1, 2)));
    assert!(!p.slice(1, 1).same_geometries(&wide.slice(3, 1)));
    assert!(!p.slice(2, 1).same_geometries(&wide.slice(0, 1)));
    assert!(!p.same_geometries(&wide.slice(0, 3)));
    assert!(coords_equal(&vec![c(1., 2.)], &vec![c(1., 2.)]));
    assert!(!coords_equal(&vec![c(1., 2.)], &vec![c(1., 3.)]));
    assert!(!coords_equal(&vec![c(1., 2.)], &vec![]));
    assert!(rings_equal(&vec![vec![c(1., 2.)], vec![]], &vec![vec![c(1., 2.)], vec![]]));
    assert!(!rings_equal(&vec![vec![c(1., 2.)], vec![]], &vec![vec![], vec![c(1., 2.)]]));
    assert!(!rings_equal(&vec![vec![]], &vec![]));
}

#[test]
fn encoding_and_decoding_gives_the_array_back() {
    let a = line_string_array(&lines());
    let back = LineStringArray::<i32>::try_from_wkb(&a.to_wkb().unwrap()).unwrap();
    assert!(back.same_geometries(&a));
    let wide: LineStringArray<i64> = a.clone().convert().unwrap();
    let back = LineStringArray::<i64>::try_from_wkb(&wide.slice(1, 4).to_wkb().unwrap()).unwrap();
    assert!(back.same_geometries(&a.slice(1, 4)));
    let p = polygon_array(&polygons());
    let back = PolygonArray::<i32>::try_from_wkb(&p.to_wkb().unwrap()).unwrap();
    assert!(back.same_geometries(&p));
    let sliced = p.slice(1, 3);
    let back = PolygonArray::<i32>::try_from_wkb(&sliced.to_wkb().unwrap()).unwrap();
    assert!(back.same_geometries(&sliced));
    assert!(back.same_geometries(&p.owned_slice(1, 3)));
}

#[test]
fn decoding_encoding_and_decoding_again_gives_the_same_geometries() {
    // the same two line strings, one in each byte order
    let mut little = vec![1u8, 2, 0, 0, 0, 1, 0, 0, 0];
    little.extend_from_slice(&1f64.to_le_bytes());
    little.extend_from_slice(&2f64.to_le_bytes());
    let mut big = vec![0u8, 0, 0, 0, 2, 0, 0, 0, 1];
    big.extend_from_slice(&1f64.to_be_bytes());
    big.extend_from_slice(&2f64.to_be_bytes());
    let given = WKBArray::<i32>::from_blobs(&vec![Some(big.clone()), None, Some(little.clone())]).unwrap();
    let first = LineStringArray::<i32>::try_from_wkb(&given).unwrap();
    let again = first.to_wkb().unwrap();
    assert_eq!(again.value(0), &little[..]);
    assert_ne!(again.value(0), given.value(0));
    assert_eq!(again.value(2), given.value(2));
    let second = LineStringArray::<i32>::try_from_wkb(&again).unwrap();
    assert!(second.same_geometries(&first));
    assert_eq!(second.iter_geo(), vec![Some(vec![c(1., 2.)]), None, Some(vec![c(1., 2.)])]);
}

#[test]
fn events_give_the_valid_slots_back() {
    let a = line_string_array(&lines());
    let back: LineStringArray<i32> =
        ToGeoArrowLineStringArray::to_line_string_array(&a.process_geom()).unwrap();
    let valid: Vec<Option<Vec<Coord>>> = lines().into_iter().filter(|l| l.is_some()).collect();
    assert!(back.same_geometries(&line_string_array(&valid)));
    assert!(!back.same_geometries(&a));
    let all_valid = line_string_array(&valid);
    let back: LineStringArray<i64> =
        ToGeoArrowLineStringArray::to_line_string_array(&all_valid.process_geom()).unwrap();
    assert!(back.same_geometries(&all_valid));
    let p = polygon_array(&polygons());
    let back: PolygonArray<i64> =
        ToGeoArrowPolygonArray::to_line_string_array(&p.process_geom()).unwrap();
    let valid: Vec<Option<Vec<Vec<Coord>>>> =
        polygons().into_iter().filter(|p| p.is_some()).collect();
    assert!(back.same_geometries(&polygon_array(&valid)));
    let builder: MutablePolygonArray<i32> =
        ToGeoArrowPolygonArray::to_mutable_line_string_array(&p.process_geom()).unwrap();
    assert_eq!(builder.len(), 3);
    assert!(builder.balanced());
}

#[test]
fn events_decoded_and_encoded_again_come_back_unchanged() {
    use_events(polygons().into_iter().flatten().collect());
    use_events(vec![]);
    use_events(vec![vec![], vec![vec![]]]);
}

/// Encodes a collection of polygons as events, decodes them and encodes the array again.
fn use_events(polygons: Vec<Vec<Vec<Coord>>>) {
    let slots: Vec<Option<Vec<Vec<Coord>>>> = polygons.iter().cloned().map(Some).collect();
    let events = PolygonArray::<i32>::from_rings(&slots).unwrap().process_geom();
    let decoded: PolygonArray<i64> =
        ToGeoArrowPolygonArray::to_line_string_array(&events).unwrap();
    assert_eq!(decoded.len(), polygons.len());
    for (i, p) in polygons.iter().enumerate() {
        assert_eq!(decoded.get(i).map(|g| g.to_vec()).as_ref(), Some(p));
    }
    assert_eq!(decoded.process_geom(), events);
}
