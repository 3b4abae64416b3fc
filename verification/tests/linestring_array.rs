use arrow_buffer::NullBuffer;
use geoarrow::array::linestring::{LineStringArray, ListParts};
use geoarrow::array::multipoint::MultiPointArray;
use geoarrow::builder::linestring::MutableLineStringArray;
use geoarrow::coord::{Coord, CoordBuffer};
use geoarrow::datatypes::{CoordType, GeoDataType};
use geoarrow::error::GeoArrowError;
use geoarrow::io::geozero::event::GeomEvent;
use geoarrow::io::geozero::linestring::ToGeoArrowLineStringArray;
use geoarrow::offsets::Offsets;
use geoarrow::trait_::{GeoArrayAccessor, GeometryArrayTrait};

fn c(x: f64, y: f64) -> Coord {
    Coord { x: x.to_bits(), y: y.to_bits() }
}

fn ls0() -> Vec<Coord> {
    vec![c(0., 1.), c(1., 2.)]
}

fn ls1() -> Vec<Coord> {
    vec![c(3., 4.), c(5., 6.)]
}

fn from_lines<O: geoarrow::offsets::OffsetSize>(
    lines: Vec<Option<Vec<Coord>>>,
) -> LineStringArray<O> {
    LineStringArray::from_lines(&lines).unwrap()
}

fn lines_of<O: geoarrow::offsets::OffsetSize>(a: &LineStringArray<O>) -> Vec<Option<Vec<Coord>>> {
    a.iter_geo()
}

#[test]
fn geo_roundtrip_accurate() {
    let arr: LineStringArray<i64> = from_lines(vec![Some(ls0()), Some(ls1())]);
    assert_eq!(arr.value(0).to_vec(), ls0());
    assert_eq!(arr.value(1).to_vec(), ls1());
}

#[test]
fn geo_roundtrip_accurate_option_vec() {
    let arr: LineStringArray<i64> = from_lines(vec![Some(ls0()), Some(ls1()), None]);
    assert_eq!(arr.get(0).map(|g| g.to_vec()), Some(ls0()));
    assert_eq!(arr.get(1).map(|g| g.to_vec()), Some(ls1()));
    assert_eq!(arr.get(2).map(|g| g.to_vec()), None);
}

#[test]
fn slice() {
    let arr: LineStringArray<i64> = from_lines(vec![Some(ls0()), Some(ls1())]);
    let sliced = arr.slice(1, 1);
    assert_eq!(sliced.len(), 1);
    assert_eq!(sliced.get(0).map(|g| g.to_vec()), Some(ls1()));
}

#[test]
fn owned_slice() {
    let arr: LineStringArray<i64> = from_lines(vec![Some(ls0()), Some(ls1())]);
    let sliced = arr.owned_slice(1, 1);
    assert_eq!(arr.len(), 2);
    assert_eq!(sliced.len(), 1);
    assert_eq!(sliced.get(0).map(|g| g.to_vec()), Some(ls1()));
}

#[test]
fn a_slice_keeps_the_buffers_and_an_owned_slice_compacts_them() {
    let arr: LineStringArray<i32> =
        from_lines(vec![Some(ls0()), None, Some(ls1()), Some(vec![c(9., 9.)])]);
    let shared = arr.slice(1, 2);
    assert_eq!(shared.coords().len(), 5);
    assert_eq!(shared.geom_offsets().to_vec(), vec![2, 2, 4]);
    assert_eq!(lines_of(&shared), vec![None, Some(ls1())]);
    let owned = arr.owned_slice(1, 2);
    assert_eq!(owned.coords().len(), 2);
    assert_eq!(owned.coords().to_vec(0, 2), ls1());
    assert_eq!(owned.geom_offsets().to_vec(), vec![0, 0, 2]);
    assert_eq!(lines_of(&owned), vec![None, Some(ls1())]);
    assert!(owned.is_null(0));
    drop(arr);
    drop(shared);
    assert_eq!(owned.value(1).to_vec(), ls1());
    let nothing = owned.owned_slice(2, 0);
    assert_eq!(nothing.len(), 0);
    assert_eq!(nothing.coords().len(), 0);
    assert_eq!(nothing.geom_offsets().to_vec(), vec![0]);
}

#[test]
fn every_slot_of_every_slice_is_the_slot_it_was_cut_from() {
    let lines = vec![Some(ls0()), None, Some(ls1()), Some(vec![]), Some(vec![c(9., 9.)])];
    let arr: LineStringArray<i32> = from_lines(lines.clone());
    for offset in 0..=lines.len() {
        for length in 0..=(lines.len() - offset) {
            let shared = arr.slice(offset, length);
            let owned = arr.owned_slice(offset, length);
            assert_eq!(shared.len(), length);
            assert_eq!(owned.len(), length);
            for i in 0..length {
                assert_eq!(shared.value(i).to_vec(), arr.value(offset + i).to_vec());
                assert_eq!(owned.value(i).to_vec(), arr.value(offset + i).to_vec());
                assert_eq!(shared.is_null(i), arr.is_null(offset + i));
                assert_eq!(owned.is_null(i), arr.is_null(offset + i));
            }
            assert_eq!(lines_of(&shared), lines[offset..offset + length].to_vec());
            assert_eq!(lines_of(&owned), lines[offset..offset + length].to_vec());
        }
    }
}

#[test]
fn two_lines_from_events() {
    let events = vec![
        GeomEvent::LineStringBegin { tagged: true, size: 2, idx: 0 },
        GeomEvent::Xy { x: 0f64.to_bits(), y: 0f64.to_bits(), idx: 0 },
        GeomEvent::Xy { x: 1f64.to_bits(), y: 1f64.to_bits(), idx: 1 },
        GeomEvent::LineStringEnd { tagged: true, idx: 0 },
        GeomEvent::LineStringBegin { tagged: true, size: 3, idx: 1 },
        GeomEvent::Xy { x: 2f64.to_bits(), y: 2f64.to_bits(), idx: 0 },
        GeomEvent::Xy { x: 3f64.to_bits(), y: 3f64.to_bits(), idx: 1 },
        GeomEvent::Xy { x: 4f64.to_bits(), y: 4f64.to_bits(), idx: 2 },
        GeomEvent::LineStringEnd { tagged: true, idx: 1 },
    ];
    let array: LineStringArray<i32> = events.to_line_string_array().unwrap();
    assert_eq!(array.len(), 2);
    assert_eq!(array.value(0).num_coords(), 2);
    assert_eq!(array.value(0).to_vec(), vec![c(0., 0.), c(1., 1.)]);
    assert_eq!(array.value(1).num_coords(), 3);
    assert_eq!(array.value(1).coord(2), Some(c(4., 4.)));
    assert_eq!(array.value(1).coord(3), None);
    assert_eq!(array.slice(1, 1).value(0).to_vec(), array.value(1).to_vec());
    assert_eq!(array.geom_offsets().to_vec(), vec![0, 2, 5]);
    assert!(array.validity().is_none());
}

#[test]
fn a_null_between_two_lines() {
    let a = vec![c(0., 0.), c(1., 1.)];
    let b = vec![c(2., 2.), c(3., 3.), c(4., 4.)];
    let array: LineStringArray<i64> = from_lines(vec![Some(a.clone()), None, Some(b.clone())]);
    assert_eq!(array.len(), 3);
    assert!(array.is_null(1));
    assert!(!array.is_valid(1));
    assert!(array.get(1).is_none());
    assert_eq!(array.get(0).map(|g| g.to_vec()), Some(a));
    assert_eq!(array.get(2).map(|g| g.to_vec()), Some(b));
    assert_eq!(array.geom_offsets().to_vec(), vec![0, 2, 2, 5]);
    assert_eq!(array.validity().map(|v| v.len()), Some(3));
}

#[test]
fn the_mask_alone_decides_whether_a_slot_is_null() {
    let coords = CoordBuffer::from_coords(&vec![c(0., 0.), c(1., 1.), c(2., 2.)], CoordType::Interleaved);
    let offsets = Offsets::<i32>::try_new(vec![0, 2, 3]).unwrap();
    let mask = NullBuffer::from(vec![false, true]);
    let array = LineStringArray::try_new(coords, offsets, Some(mask)).unwrap();
    for i in 0..array.len() {
        assert_eq!(array.is_null(i), array.get(i).is_none());
    }
    assert!(array.is_null(0));
    assert_eq!(array.value(0).to_vec(), vec![c(0., 0.), c(1., 1.)]);
    assert_eq!(array.iter_geo_values(), vec![vec![c(0., 0.), c(1., 1.)], vec![c(2., 2.)]]);
    assert_eq!(array.iter_geo(), vec![None, Some(vec![c(2., 2.)])]);
}

#[test]
fn parts_that_do_not_fit_are_refused() {
    let coords = || CoordBuffer::from_coords(&vec![c(0., 0.), c(1., 1.), c(2., 2.)], CoordType::Separated);
    let offsets = |v: Vec<i32>| Offsets::<i32>::try_new(v).unwrap();
    // two slots, one bit
    let short = NullBuffer::from(vec![true]);
    assert_eq!(
        LineStringArray::try_new(coords(), offsets(vec![0, 2, 3]), Some(short)).err(),
        Some(GeoArrowError::ValidityLength)
    );
    // last offset below and above the number of coordinates
    assert_eq!(
        LineStringArray::try_new(coords(), offsets(vec![0, 2]), None).err(),
        Some(GeoArrowError::OffsetMismatch { level: 0 })
    );
    assert_eq!(
        LineStringArray::try_new(coords(), offsets(vec![0, 2, 4]), None).err(),
        Some(GeoArrowError::OffsetMismatch { level: 0 })
    );
    // the mask is looked at first
    let short = NullBuffer::from(vec![true]);
    assert_eq!(
        LineStringArray::try_new(coords(), offsets(vec![0, 2, 4]), Some(short)).err(),
        Some(GeoArrowError::ValidityLength)
    );
    let fits = NullBuffer::from(vec![true, false]);
    let ok = LineStringArray::try_new(coords(), offsets(vec![0, 2, 3]), Some(fits)).unwrap();
    assert_eq!(ok.len(), 2);
    assert_eq!(ok.coord_type(), CoordType::Separated);
    let made = LineStringArray::new(coords(), offsets(vec![0, 1, 3]), None);
    assert_eq!(made.value(1).to_vec(), vec![c(1., 1.), c(2., 2.)]);
}

#[test]
fn layouts_and_widths_change_without_changing_the_lines() {
    let lines = vec![Some(ls0()), None, Some(ls1())];
    let arr: LineStringArray<i32> = from_lines(lines.clone());
    assert_eq!(arr.coord_type(), CoordType::Interleaved);
    assert_eq!(GeometryArrayTrait::data_type(&arr), GeoDataType::LineString(CoordType::Interleaved));
    let separated = arr.clone().into_coord_type(CoordType::Separated);
    assert_eq!(separated.coord_type(), CoordType::Separated);
    assert_eq!(lines_of(&separated), lines);
    assert!(separated.equals(&arr));
    assert!(separated == arr);
    let wide: LineStringArray<i64> = arr.clone().convert().unwrap();
    assert_eq!(
        GeometryArrayTrait::data_type(&wide),
        GeoDataType::LargeLineString(CoordType::Interleaved)
    );
    assert_eq!(wide.geom_offsets().to_vec(), vec![0i64, 2, 2, 4]);
    assert_eq!(lines_of(&wide), lines);
    let back: LineStringArray<i32> = wide.convert().unwrap();
    assert!(back.equals(&arr));
    assert_eq!(back.geom_offsets().to_vec(), arr.geom_offsets().to_vec());
    let replaced = arr.clone().with_coords(CoordBuffer::from_coords(
        &vec![c(9., 9.), c(8., 8.), c(7., 7.), c(6., 6.)],
        CoordType::Separated,
    ));
    assert_eq!(replaced.value(2).to_vec(), vec![c(7., 7.), c(6., 6.)]);
    assert!(!replaced.equals(&arr));
}

#[test]
fn equal_arrays_have_the_same_mask_offsets_and_coordinates() {
    let arr: LineStringArray<i32> = from_lines(vec![Some(ls0()), Some(ls1())]);
    let same: LineStringArray<i32> = from_lines(vec![Some(ls0()), Some(ls1())]);
    let other: LineStringArray<i32> = from_lines(vec![Some(ls0()), Some(ls0())]);
    let swapped: LineStringArray<i32> = from_lines(vec![Some(ls1()), Some(ls0())]);
    let nulled: LineStringArray<i32> = from_lines(vec![Some(ls0()), None]);
    assert!(arr.equals(&same));
    assert!(same.equals(&arr));
    assert!(arr.equals(&arr.clone()));
    assert!(arr == arr.clone());
    assert!(!arr.equals(&other));
    assert!(!arr.equals(&swapped));
    assert!(!swapped.equals(&arr));
    assert!(!arr.equals(&nulled));
    assert!(!arr.equals(&arr.slice(0, 1)));
    assert!(arr.owned_slice(1, 1).equals(&from_lines(vec![Some(ls1())])));
    // a slice keeps its offsets and all the coordinates: its compacted copy is another array
    assert!(!arr.slice(1, 1).equals(&arr.owned_slice(1, 1)));
    assert!(arr.slice(1, 1).same_geometries(&arr.owned_slice(1, 1)));
}

#[test]
fn groups_of_equal_lengths_do_not_make_arrays_equal() {
    let coords = || {
        CoordBuffer::from_coords(&vec![c(0., 0.), c(1., 1.), c(2., 2.)], CoordType::Interleaved)
    };
    let first =
        LineStringArray::try_new(coords(), Offsets::<i32>::try_new(vec![0, 2, 3]).unwrap(), None)
            .unwrap();
    let second =
        LineStringArray::try_new(coords(), Offsets::<i32>::try_new(vec![0, 1, 3]).unwrap(), None)
            .unwrap();
    // one line string each, both two coordinates long, over the same coordinates
    let a = first.slice(0, 1);
    let b = second.slice(1, 1);
    assert_eq!(a.geom_offsets().to_vec(), vec![0, 2]);
    assert_eq!(b.geom_offsets().to_vec(), vec![1, 3]);
    assert!(a.geom_offsets().eq_lengths(b.geom_offsets()));
    assert!(!a.geom_offsets().equals(b.geom_offsets()));
    assert_eq!(a.value(0).to_vec(), vec![c(0., 0.), c(1., 1.)]);
    assert_eq!(b.value(0).to_vec(), vec![c(1., 1.), c(2., 2.)]);
    assert!(!a.equals(&b));
    assert!(!b.equals(&a));
    assert!(a != b);
    assert!(!a.same_geometries(&b));
    // equal arrays hold equal values in every slot
    let again = first.slice(0, 1);
    assert!(a.equals(&again));
    assert_eq!(a.len(), again.len());
    assert_eq!(a.value(0).to_vec(), again.value(0).to_vec());
}

#[test]
fn an_array_from_lines_holds_them_and_nothing_else() {
    let lines = vec![Some(ls0()), None, Some(vec![]), Some(ls1()), None];
    let arr = LineStringArray::<i32>::from_lines(&lines).unwrap();
    assert_eq!(arr.len(), 5);
    assert_eq!(lines_of(&arr), lines);
    assert_eq!(arr.geom_offsets().to_vec(), vec![0, 2, 2, 2, 4, 4]);
    assert_eq!(arr.coords().len(), 4);
    assert_eq!(arr.coords().to_vec(0, 4), [ls0(), ls1()].concat());
    assert_eq!(arr.coord_type(), CoordType::Interleaved);
    assert_eq!(arr.validity().map(|v| v.iter().collect::<Vec<bool>>()), Some(vec![true, false, true, true, false]));
    let mut b = MutableLineStringArray::<i32>::new();
    for l in &lines {
        b.push_line_string(l.as_ref()).unwrap();
    }
    assert!(b.finish().unwrap().equals(&arr));
    let wide = LineStringArray::<i64>::from_lines(&lines).unwrap();
    assert!(wide.same_geometries(&arr));
    let empty = LineStringArray::<i32>::from_lines(&vec![]).unwrap();
    assert!(empty.equals(&LineStringArray::default()));
    let valid = LineStringArray::<i32>::from_lines(&vec![Some(ls1())]).unwrap();
    assert!(valid.validity().is_none());
}

#[test]
fn the_default_array_is_empty() {
    let arr = LineStringArray::<i64>::default();
    assert_eq!(arr.len(), 0);
    assert!(arr.is_empty());
    assert!(arr.validity().is_none());
    assert_eq!(arr.geom_offsets().to_vec(), vec![0i64]);
    let built = MutableLineStringArray::<i64>::new().finish().unwrap();
    assert!(built.equals(&arr));
    assert!(built.validity().is_none());
}

#[test]
fn a_list_column_becomes_an_array_of_either_width() {
    let coords = || CoordBuffer::from_coords(&vec![c(0., 0.), c(1., 1.), c(2., 2.)], CoordType::Interleaved);
    let list = || ListParts::List {
        coords: coords(),
        offsets: Offsets::<i32>::try_new(vec![0, 1, 3]).unwrap(),
        validity: None,
    };
    let large = || ListParts::LargeList {
        coords: coords(),
        offsets: Offsets::<i64>::try_new(vec![0, 1, 3]).unwrap(),
        validity: Some(NullBuffer::from(vec![true, false])),
    };
    let a = LineStringArray::<i32>::try_from_list(list()).unwrap();
    let b = LineStringArray::<i64>::try_from_list(list()).unwrap();
    let d = LineStringArray::<i32>::try_from_list(large()).unwrap();
    let e = LineStringArray::<i64>::try_from_list(large()).unwrap();
    assert_eq!(a.geom_offsets().to_vec(), vec![0, 1, 3]);
    assert_eq!(b.geom_offsets().to_vec(), vec![0i64, 1, 3]);
    assert_eq!(d.geom_offsets().to_vec(), vec![0, 1, 3]);
    assert!(d.is_null(1));
    assert_eq!(e.value(1).to_vec(), vec![c(1., 1.), c(2., 2.)]);
    assert_eq!(
        LineStringArray::<i32>::try_from_list(ListParts::Other).err(),
        Some(GeoArrowError::UnexpectedType)
    );
    let unfit = ListParts::List {
        coords: coords(),
        offsets: Offsets::<i32>::try_new(vec![0, 1]).unwrap(),
        validity: None,
    };
    assert_eq!(
        LineStringArray::<i64>::try_from_list(unfit).err(),
        Some(GeoArrowError::OffsetMismatch { level: 0 })
    );
    let (coords, offsets, validity) = e.into_inner();
    assert_eq!(coords.len(), 3);
    assert_eq!(offsets.to_vec(), vec![0i64, 1, 3]);
    assert_eq!(validity.map(|v| v.null_count()), Some(1));
}

#[test]
fn line_strings_read_as_multi_points() {
    let arr: LineStringArray<i32> = from_lines(vec![Some(ls0()), None, Some(ls1())]);
    let points = MultiPointArray::from_line_strings(arr.clone());
    assert_eq!(points.len(), 3);
    assert!(points.is_null(1));
    assert_eq!(points.value(2).to_vec(), ls1());
    assert_eq!(GeometryArrayTrait::extension_name(&points), "geoarrow.multipoint");
    assert_eq!(GeoArrayAccessor::value(&points, 0).to_vec(), ls0());
    assert!(points.slice(2, 1).into_line_strings().equals(&arr.slice(2, 1)));
    assert!(points.into_line_strings().equals(&arr));
}

#[test]
fn the_builder_owes_what_was_announced() {
    let mut b = MutableLineStringArray::<i32>::with_capacities(4, 2);
    assert!(b.balanced());
    assert_eq!(b.linestring_begin(true, 2, 0), Ok(()));
    assert!(!b.balanced());
    assert_eq!(b.xy(1, 2, 0), Ok(()));
    assert!(!b.balanced());
    assert_eq!(b.linestring_begin(true, 1, 1), Err(GeoArrowError::Unbalanced));
    assert_eq!(b.linestring_end(true, 0), Err(GeoArrowError::Unbalanced));
    assert_eq!(b.push_line_string(Some(&ls0())), Err(GeoArrowError::Unbalanced));
    assert_eq!(b.push_line_string(None), Err(GeoArrowError::Unbalanced));
    assert_eq!(b.len(), 1);
    assert_eq!(b.xy(3, 4, 1), Ok(()));
    assert!(b.balanced());
    assert_eq!(b.xy(5, 6, 0), Err(GeoArrowError::Unbalanced));
    assert_eq!(b.linestring_end(true, 0), Ok(()));
    assert_eq!(b.geometrycollection_begin(7, 0), Ok(()));
    assert_eq!(b.geometrycollection_end(0), Ok(()));
    assert_eq!(b.len(), 1);
    b.push_null();
    b.reserve(10, 10);
    assert_eq!(b.len(), 2);
    let arr = b.finish().unwrap();
    assert_eq!(lines_of(&arr), vec![Some(vec![Coord { x: 1, y: 2 }, Coord { x: 3, y: 4 }]), None]);

    let mut unfinished = MutableLineStringArray::<i32>::new();
    unfinished.linestring_begin(true, 1, 0).unwrap();
    assert_eq!(unfinished.finish().err(), Some(GeoArrowError::Unbalanced));
}

#[test]
fn the_builder_refuses_what_the_width_cannot_hold() {
    let mut b = MutableLineStringArray::<i32>::new();
    b.push_line_string(Some(&ls0())).unwrap();
    assert_eq!(b.linestring_begin(true, i32::MAX as usize - 1, 1), Err(GeoArrowError::Overflow));
    assert_eq!(b.linestring_begin(true, usize::MAX, 1), Err(GeoArrowError::Overflow));
    assert_eq!(b.len(), 1);
    assert!(b.balanced());
    assert_eq!(b.linestring_begin(true, i32::MAX as usize - 2, 1), Ok(()));
    assert_eq!(b.len(), 2);
    let mut wide = MutableLineStringArray::<i64>::new();
    assert_eq!(wide.linestring_begin(true, 1 << 40, 0), Ok(()));
    let mut wide = MutableLineStringArray::<i64>::new();
    assert_eq!(wide.linestring_begin(true, usize::MAX, 0), Err(GeoArrowError::Overflow));
    assert_eq!(wide.push_line_string(Some(&ls1())), Ok(()));
}

#[test]
fn events_of_a_line_string_array_round_trip() {
    let arr: LineStringArray<i32> = from_lines(vec![Some(ls0()), Some(vec![]), Some(ls1())]);
    let events = arr.process_geom();
    assert_eq!(events.len(), 2 + 3 * 2 + 4);
    assert_eq!(events[0], GeomEvent::GeometryCollectionBegin { size: 3, idx: 0 });
    assert_eq!(events[1], GeomEvent::LineStringBegin { tagged: true, size: 2, idx: 0 });
    assert_eq!(events[2], GeomEvent::Xy { x: 0f64.to_bits(), y: 1f64.to_bits(), idx: 0 });
    assert_eq!(events[events.len() - 1], GeomEvent::GeometryCollectionEnd { idx: 2 });
    let back: LineStringArray<i32> = events.to_line_string_array().unwrap();
    assert!(back.equals(&arr));
    let with_null: LineStringArray<i32> = from_lines(vec![None, Some(ls1()), None]);
    assert_eq!(with_null.count_valid(), 1);
    let back: LineStringArray<i64> = with_null.process_geom().to_line_string_array().unwrap();
    assert_eq!(lines_of(&back), vec![Some(ls1())]);
    let polygon = vec![GeomEvent::PolygonBegin { tagged: true, size: 0, idx: 0 }];
    let r: Result<LineStringArray<i32>, GeoArrowError> = polygon.to_line_string_array();
    assert_eq!(
        r.err(),
        Some(GeoArrowError::Unsupported { kind: geoarrow::array::geometry::GeometryType::Polygon })
    );
}
