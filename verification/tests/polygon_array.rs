use arrow_buffer::NullBuffer;
use geoarrow::array::multilinestring::MultiLineStringArray;
use geoarrow::array::polygon::PolygonArray;
use geoarrow::builder::polygon::MutablePolygonArray;
use geoarrow::coord::{Coord, CoordBuffer};
use geoarrow::datatypes::{CoordType, GeoDataType};
use geoarrow::error::GeoArrowError;
use geoarrow::offsets::{OffsetSize, Offsets};
use geoarrow::trait_::{GeoArrayAccessor, GeometryArrayTrait};

fn c(x: f64, y: f64) -> Coord {
    Coord { x: x.to_bits(), y: y.to_bits() }
}

fn p0() -> Vec<Vec<Coord>> {
    vec![vec![c(-111., 45.), c(-111., 41.), c(-104., 41.), c(-104., 45.), c(-111., 45.)]]
}

fn p1() -> Vec<Vec<Coord>> {
    vec![
        vec![c(-111., 45.), c(-111., 41.), c(-104., 41.), c(-104., 45.), c(-111., 45.)],
        vec![c(-110., 44.), c(-110., 42.), c(-105., 42.), c(-105., 44.), c(-110., 44.)],
    ]
}

fn from_polygons<O: OffsetSize>(polygons: Vec<Option<Vec<Vec<Coord>>>>) -> PolygonArray<O> {
    PolygonArray::from_rings(&polygons).unwrap()
}

fn polygons_of<O: OffsetSize>(a: &PolygonArray<O>) -> Vec<Option<Vec<Vec<Coord>>>> {
    (0..a.len()).map(|i| a.get(i).map(|p| p.to_vec())).collect()
}

#[test]
fn polygons_come_back_as_they_were_pushed() {
    let polygons = vec![Some(p0()), None, Some(p1()), Some(vec![]), Some(vec![vec![]])];
    let arr: PolygonArray<i32> = from_polygons(polygons.clone());
    assert_eq!(arr.len(), 5);
    assert_eq!(polygons_of(&arr), polygons);
    assert_eq!(arr.geom_offsets().to_vec(), vec![0, 1, 1, 3, 3, 4]);
    assert_eq!(arr.ring_offsets().to_vec(), vec![0, 5, 10, 15, 15]);
    assert_eq!(arr.coords().len(), 15);
    assert_eq!(arr.count_valid(), 4);
    let p = arr.value(2);
    assert_eq!(p.num_rings(), 2);
    assert_eq!(p.num_interiors(), 1);
    assert_eq!(p.exterior().map(|r| r.to_vec()), Some(p1()[0].clone()));
    assert_eq!(p.interior(0).map(|r| r.to_vec()), Some(p1()[1].clone()));
    assert!(p.interior(1).is_none());
    assert!(p.ring(2).is_none());
    assert!(arr.value(3).exterior().is_none());
    assert_eq!(arr.value(3).num_interiors(), 0);
    assert_eq!(arr.value(2).to_owned().rings, p1());
}

#[test]
fn an_array_from_rings_holds_them_and_nothing_else() {
    let polygons = vec![None, Some(p1()), Some(vec![]), Some(p0())];
    let arr = PolygonArray::<i64>::from_rings(&polygons).unwrap();
    assert_eq!(polygons_of(&arr), polygons);
    assert_eq!(arr.geom_offsets().to_vec(), vec![0i64, 0, 2, 2, 3]);
    assert_eq!(arr.ring_offsets().to_vec(), vec![0i64, 5, 10, 15]);
    assert_eq!(arr.coords().len(), 15);
    assert_eq!(arr.coord_type(), CoordType::Interleaved);
    let mut b = MutablePolygonArray::<i64>::new();
    for p in &polygons {
        b.push_polygon(p.as_ref()).unwrap();
    }
    assert!(b.finish().unwrap().equals(&arr));
    assert!(PolygonArray::<i32>::from_rings(&vec![]).unwrap().equals(&PolygonArray::default()));
}

#[test]
fn equal_polygon_arrays_have_the_same_offsets_at_both_levels() {
    let coords = || CoordBuffer::from_coords(&p1().concat(), CoordType::Interleaved);
    let o = |v: Vec<i32>| Offsets::<i32>::try_new(v).unwrap();
    // two rings of five coordinates, as one polygon of two rings or as two polygons of one
    let whole = PolygonArray::try_new(coords(), o(vec![0, 1, 2]), o(vec![0, 5, 10]), None).unwrap();
    let a = whole.slice(0, 1);
    let b = whole.slice(1, 1);
    assert!(a.geom_offsets().eq_lengths(b.geom_offsets()));
    assert!(!a.equals(&b));
    assert!(!b.equals(&a));
    assert!(a.equals(&whole.slice(0, 1)));
    assert!(a == a.clone());
    assert_ne!(a.value(0).to_vec(), b.value(0).to_vec());
    // the same geometry offsets over other ring offsets
    let uneven = PolygonArray::try_new(coords(), o(vec![0, 1, 2]), o(vec![0, 4, 10]), None).unwrap();
    assert!(!whole.equals(&uneven));
    assert!(whole.equals(&PolygonArray::try_new(coords(), o(vec![0, 1, 2]), o(vec![0, 5, 10]), None).unwrap()));
}

#[test]
fn polygon_parts_that_do_not_fit_are_refused_innermost_first() {
    let coords = || CoordBuffer::from_coords(&p1().concat(), CoordType::Interleaved);
    let o = |v: Vec<i32>| Offsets::<i32>::try_new(v).unwrap();
    let ok = PolygonArray::try_new(coords(), o(vec![0, 2]), o(vec![0, 5, 10]), None).unwrap();
    assert_eq!(ok.value(0).to_vec(), p1());
    assert_eq!(
        PolygonArray::try_new(coords(), o(vec![0, 2]), o(vec![0, 5, 9]), None).err(),
        Some(GeoArrowError::OffsetMismatch { level: 0 })
    );
    assert_eq!(
        PolygonArray::try_new(coords(), o(vec![0, 1]), o(vec![0, 5, 10]), None).err(),
        Some(GeoArrowError::OffsetMismatch { level: 1 })
    );
    assert_eq!(
        PolygonArray::try_new(coords(), o(vec![0, 3]), o(vec![0, 5, 9]), None).err(),
        Some(GeoArrowError::OffsetMismatch { level: 0 })
    );
    let mask = NullBuffer::from(vec![true, true]);
    assert_eq!(
        PolygonArray::try_new(coords(), o(vec![0, 3]), o(vec![0, 5, 9]), Some(mask)).err(),
        Some(GeoArrowError::ValidityLength)
    );
    let mask = NullBuffer::from(vec![false]);
    let nulled = PolygonArray::new(coords(), o(vec![0, 2]), o(vec![0, 5, 10]), Some(mask));
    assert!(nulled.is_null(0));
    assert!(nulled.get(0).is_none());
    assert_eq!(nulled.value(0).to_vec(), p1());
}

#[test]
fn polygon_slices_share_and_owned_slices_compact() {
    let polygons = vec![Some(p0()), None, Some(p1()), Some(vec![]), Some(p0())];
    let arr: PolygonArray<i64> = from_polygons(polygons.clone());
    for offset in 0..=polygons.len() {
        for length in 0..=(polygons.len() - offset) {
            let shared = arr.slice(offset, length);
            let owned = arr.owned_slice(offset, length);
            assert_eq!(polygons_of(&shared), polygons[offset..offset + length].to_vec());
            assert_eq!(polygons_of(&owned), polygons[offset..offset + length].to_vec());
            assert_eq!(shared.coords().len(), arr.coords().len());
            assert_eq!(shared.ring_offsets().to_vec(), arr.ring_offsets().to_vec());
            let rings: usize = polygons[offset..offset + length]
                .iter()
                .map(|p| p.as_ref().map_or(0, |p| p.len()))
                .sum();
            let coords: usize = polygons[offset..offset + length]
                .iter()
                .map(|p| p.as_ref().map_or(0, |p| p.iter().map(|r| r.len()).sum()))
                .sum();
            assert_eq!(owned.geom_offsets().first(), 0);
            assert_eq!(owned.geom_offsets().last(), rings);
            assert_eq!(owned.ring_offsets().len(), rings + 1);
            assert_eq!(owned.ring_offsets().first(), 0);
            assert_eq!(owned.ring_offsets().last(), coords);
            assert_eq!(owned.coords().len(), coords);
        }
    }
    let owned = arr.owned_slice(2, 1);
    drop(arr);
    assert_eq!(owned.value(0).to_vec(), p1());
}

#[test]
fn polygon_layouts_and_widths_change_without_changing_the_polygons() {
    let polygons = vec![Some(p0()), None, Some(p1())];
    let arr: PolygonArray<i32> = from_polygons(polygons.clone());
    assert_eq!(GeometryArrayTrait::data_type(&arr), GeoDataType::Polygon(CoordType::Interleaved));
    assert_eq!(GeometryArrayTrait::extension_name(&arr), "geoarrow.polygon");
    let separated = arr.clone().into_coord_type(CoordType::Separated);
    assert_eq!(separated.coord_type(), CoordType::Separated);
    assert_eq!(polygons_of(&separated), polygons);
    assert!(separated == arr);
    let wide: PolygonArray<i64> = arr.clone().convert().unwrap();
    assert_eq!(GeometryArrayTrait::data_type(&wide), GeoDataType::LargePolygon(CoordType::Interleaved));
    assert_eq!(GeometryArrayTrait::storage_type(&wide).levels, 2);
    assert!(GeometryArrayTrait::storage_type(&wide).large);
    assert_eq!(polygons_of(&wide), polygons);
    let back: PolygonArray<i32> = wide.convert().unwrap();
    assert!(back.equals(&arr));
    assert!(!arr.equals(&from_polygons(vec![Some(p0()), None, Some(p0())])));
    assert!(!arr.equals(&from_polygons(vec![Some(p0()), Some(vec![]), Some(p1())])));
    let other = arr.clone().with_coords(CoordBuffer::from_coords(
        &vec![c(0., 0.); 15],
        CoordType::Interleaved,
    ));
    assert_eq!(other.value(0).ring(0).map(|r| r.to_vec()), Some(vec![c(0., 0.); 5]));
    assert_eq!(PolygonArray::<i32>::default().len(), 0);
    assert_eq!(GeoArrayAccessor::value(&arr, 2).to_vec(), p1());
    assert!(GeoArrayAccessor::get(&arr, 1).is_none());
}

#[test]
fn the_polygon_builder_owes_rings_and_coordinates() {
    let mut b = MutablePolygonArray::<i32>::with_capacities(10, 2, 1);
    assert!(b.balanced());
    assert_eq!(b.linestring_begin(false, 1, 0), Err(GeoArrowError::Unbalanced));
    assert_eq!(b.polygon_begin(true, 2, 0), Ok(()));
    assert!(!b.rings_balanced());
    assert!(b.coords_balanced());
    assert_eq!(b.polygon_begin(true, 1, 1), Err(GeoArrowError::Unbalanced));
    assert_eq!(b.polygon_end(true, 0), Err(GeoArrowError::Unbalanced));
    assert_eq!(b.xy(1, 2, 0), Err(GeoArrowError::Unbalanced));
    assert_eq!(b.linestring_begin(false, 1, 0), Ok(()));
    assert_eq!(b.linestring_end(false, 0), Err(GeoArrowError::Unbalanced));
    assert_eq!(b.linestring_begin(false, 1, 1), Err(GeoArrowError::Unbalanced));
    assert_eq!(b.xy(1, 2, 0), Ok(()));
    assert_eq!(b.linestring_end(false, 0), Ok(()));
    assert_eq!(b.linestring_begin(false, 0, 1), Ok(()));
    assert_eq!(b.linestring_end(false, 1), Ok(()));
    assert_eq!(b.polygon_end(true, 0), Ok(()));
    assert_eq!(b.linestring_begin(false, 0, 2), Err(GeoArrowError::Unbalanced));
    assert_eq!(b.geometrycollection_begin(3, 0), Ok(()));
    assert_eq!(b.geometrycollection_end(0), Ok(()));
    b.push_null();
    assert_eq!(b.len(), 2);
    let arr = b.finish().unwrap();
    assert_eq!(polygons_of(&arr), vec![Some(vec![vec![Coord { x: 1, y: 2 }], vec![]]), None]);
}

#[test]
fn the_polygon_builder_changes_nothing_when_it_refuses() {
    let mut b = MutablePolygonArray::<i32>::new();
    b.push_polygon(Some(&p0())).unwrap();
    assert_eq!(b.polygon_begin(true, i32::MAX as usize, 1), Err(GeoArrowError::Overflow));
    assert_eq!(b.len(), 1);
    assert!(b.balanced());
    assert_eq!(b.polygon_begin(true, 2, 1), Ok(()));
    assert_eq!(b.linestring_begin(false, i32::MAX as usize - 4, 0), Err(GeoArrowError::Overflow));
    assert!(b.coords_balanced());
    assert!(!b.rings_balanced());
    assert_eq!(b.push_polygon(Some(&p1())), Err(GeoArrowError::Unbalanced));
    assert_eq!(b.push_polygon(None), Err(GeoArrowError::Unbalanced));
    assert_eq!(b.len(), 2);
    assert_eq!(b.linestring_begin(false, 1, 0), Ok(()));
    assert_eq!(b.push_polygon(Some(&p1())), Err(GeoArrowError::Unbalanced));
    assert_eq!(b.xy(7, 8, 0), Ok(()));
    assert_eq!(b.linestring_begin(false, 0, 1), Ok(()));
    assert!(b.balanced());
    assert_eq!(b.push_polygon(Some(&p1())), Ok(()));
    assert_eq!(b.len(), 3);
    let arr = b.finish().unwrap();
    assert_eq!(
        polygons_of(&arr),
        vec![Some(p0()), Some(vec![vec![Coord { x: 7, y: 8 }], vec![]]), Some(p1())]
    );
    let mut unfinished = MutablePolygonArray::<i64>::new();
    unfinished.polygon_begin(true, 1, 0).unwrap();
    assert_eq!(unfinished.finish().err(), Some(GeoArrowError::Unbalanced));
}

#[test]
fn polygons_read_as_multi_line_strings() {
    let arr: PolygonArray<i32> = from_polygons(vec![Some(p0()), None, Some(p1())]);
    let lines = MultiLineStringArray::from_polygons(arr.clone());
    assert_eq!(lines.len(), 3);
    assert!(lines.is_null(1));
    assert!(lines.is_valid(2));
    assert_eq!(lines.value(2).to_vec(), p1());
    assert_eq!(lines.get(0).map(|l| l.to_vec()), Some(p0()));
    assert_eq!(GeometryArrayTrait::extension_name(&lines), "geoarrow.multilinestring");
    assert_eq!(
        GeometryArrayTrait::data_type(&lines),
        GeoDataType::MultiLineString(CoordType::Interleaved)
    );
    assert_eq!(lines.owned_slice(2, 1).value(0).to_vec(), p1());
    assert_eq!(lines.slice(1, 2).len(), 2);
    let wide: MultiLineStringArray<i64> = lines.clone().convert().unwrap();
    assert_eq!(wide.value(2).to_vec(), p1());
    assert!(lines.equals(&MultiLineStringArray::from_polygons(arr.clone())));
    assert!(lines.into_polygons().equals(&arr));
    assert!(MultiLineStringArray::<i32>::default().is_empty());
}
