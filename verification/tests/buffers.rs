use arrow_buffer::NullBuffer;
use geoarrow::coord::{Coord, CoordBuffer, InterleavedCoordBuffer, SeparatedCoordBuffer};
use geoarrow::datatypes::CoordType;
use geoarrow::error::GeoArrowError;
use geoarrow::offsets::{OffsetSize, Offsets};
use geoarrow::validity::{
    owned_slice_validity, validity_bit, validity_eq, validity_from_bits, validity_len,
    validity_slice,
};

fn c(x: f64, y: f64) -> Coord {
    Coord { x: x.to_bits(), y: y.to_bits() }
}

#[test]
fn narrow_offsets_keep_their_values() {
    let o = Offsets::<i32>::try_new(vec![0, 2, 5, 5, 9]).unwrap();
    assert_eq!(o.len(), 5);
    assert_eq!(o.len_proxy(), 4);
    assert_eq!(o.first(), 0);
    assert_eq!(o.last(), 9);
    assert_eq!(o.get(2), 5);
    assert_eq!(o.start_end(0), (0, 2));
    assert_eq!(o.start_end(1), (2, 5));
    assert_eq!(o.start_end(2), (5, 5));
    assert_eq!(o.start_end(3), (5, 9));
    assert_eq!(o.to_vec(), vec![0, 2, 5, 5, 9]);
}

#[test]
fn wide_offsets_keep_their_values() {
    let big = 1i64 << 40;
    let o = Offsets::<i64>::try_new(vec![3, 4, big]).unwrap();
    assert_eq!(o.len(), 3);
    assert_eq!(o.len_proxy(), 2);
    assert_eq!(o.first(), 3);
    assert_eq!(o.last(), big as usize);
    assert_eq!(o.start_end(1), (4, big as usize));
    assert_eq!(o.to_vec(), vec![3, 4, big]);
}

#[test]
fn malformed_offsets_are_refused() {
    assert_eq!(Offsets::<i32>::try_new(vec![]).err(), Some(GeoArrowError::MalformedOffsets));
    assert_eq!(Offsets::<i32>::try_new(vec![-1, 2]).err(), Some(GeoArrowError::MalformedOffsets));
    assert_eq!(Offsets::<i64>::try_new(vec![0, 3, 2]).err(), Some(GeoArrowError::MalformedOffsets));
    assert!(Offsets::<i64>::try_new(vec![0]).is_ok());
    assert!(Offsets::<i32>::try_new(vec![7, 7, 7]).is_ok());
}

#[test]
fn empty_offsets_are_the_single_zero() {
    assert_eq!(Offsets::<i32>::new_empty().to_vec(), vec![0]);
    assert_eq!(Offsets::<i64>::new_empty().to_vec(), vec![0]);
    assert_eq!(Offsets::<i64>::new_empty().len_proxy(), 0);
}

#[test]
fn a_slice_of_offsets_is_not_renumbered() {
    let narrow = Offsets::<i32>::try_new(vec![0, 2, 5, 5, 9]).unwrap();
    assert_eq!(narrow.slice(1, 2).to_vec(), vec![2, 5, 5]);
    assert_eq!(narrow.slice(4, 0).to_vec(), vec![9]);
    assert_eq!(narrow.slice(0, 4).to_vec(), vec![0, 2, 5, 5, 9]);
    let wide = Offsets::<i64>::try_new(vec![0, 2, 5, 5, 9]).unwrap();
    assert_eq!(wide.slice(2, 2).to_vec(), vec![5, 5, 9]);
    assert_eq!(wide.slice(1, 1).slice(0, 1).to_vec(), vec![2, 5]);
    assert_eq!(wide.clone().to_vec(), vec![0, 2, 5, 5, 9]);
}

#[test]
fn an_owned_slice_of_offsets_starts_at_zero() {
    let o = Offsets::<i32>::try_new(vec![0, 2, 5, 5, 9]).unwrap();
    assert_eq!(o.owned_slice(1, 3).to_vec(), vec![0, 3, 3, 7]);
    assert_eq!(o.owned_slice(2, 0).to_vec(), vec![0]);
    assert_eq!(o.slice(1, 3).owned_slice(1, 2).to_vec(), vec![0, 0, 4]);
}

#[test]
fn widening_then_narrowing_is_the_identity() {
    let narrow = Offsets::<i32>::try_new(vec![0, 2, i32::MAX]).unwrap();
    let wide: Offsets<i64> = narrow.convert().unwrap();
    assert_eq!(wide.to_vec(), vec![0, 2, i32::MAX as i64]);
    let back: Offsets<i32> = wide.convert().unwrap();
    assert_eq!(back.to_vec(), narrow.to_vec());
}

#[test]
fn narrowing_fails_when_an_offset_is_too_large() {
    let wide = Offsets::<i64>::try_new(vec![0, 1, 1i64 << 31]).unwrap();
    assert_eq!(wide.convert::<i32>().err(), Some(GeoArrowError::Overflow));
    let fits = Offsets::<i64>::try_new(vec![0, 1, (1i64 << 31) - 1]).unwrap();
    assert_eq!(fits.convert::<i32>().unwrap().to_vec(), vec![0, 1, i32::MAX]);
}

#[test]
fn offsets_compare_by_group_lengths() {
    let a = Offsets::<i32>::try_new(vec![0, 2, 5]).unwrap();
    let b = Offsets::<i32>::try_new(vec![4, 6, 9]).unwrap();
    let d = Offsets::<i32>::try_new(vec![0, 2, 6]).unwrap();
    let e = Offsets::<i32>::try_new(vec![0, 2]).unwrap();
    assert!(a.eq_lengths(&b));
    assert!(!a.eq_lengths(&d));
    assert!(!a.eq_lengths(&e));
}

#[test]
fn offsets_are_equal_when_every_offset_is() {
    let a = Offsets::<i32>::try_new(vec![0, 2, 5]).unwrap();
    let same = Offsets::<i32>::try_new(vec![0, 2, 5]).unwrap();
    let shifted = Offsets::<i32>::try_new(vec![4, 6, 9]).unwrap();
    let shorter = Offsets::<i32>::try_new(vec![0, 2]).unwrap();
    let last = Offsets::<i32>::try_new(vec![0, 2, 6]).unwrap();
    assert!(a.equals(&same));
    assert!(a.equals(&a.clone()));
    assert!(!a.equals(&shifted));
    assert!(!shifted.equals(&a));
    assert!(!a.equals(&shorter));
    assert!(!a.equals(&last));
    assert!(a.slice(0, 1).equals(&shorter));
    let wide = Offsets::<i64>::try_new(vec![1 << 40, 1 << 41]).unwrap();
    assert!(wide.equals(&wide.slice(0, 1)));
    assert!(!wide.equals(&Offsets::<i64>::try_new(vec![1 << 40, (1 << 41) + 1]).unwrap()));
}

#[test]
fn offset_widths_convert_integers() {
    assert_eq!(<i32 as OffsetSize>::from_usize(5), Some(5));
    assert_eq!(<i32 as OffsetSize>::from_usize(1 << 31), None);
    assert_eq!(<i64 as OffsetSize>::from_usize(1 << 31), Some(1 << 31));
    assert_eq!(<i32 as OffsetSize>::to_usize(-1), None);
    assert_eq!(<i64 as OffsetSize>::to_usize(7), Some(7));
    assert_eq!(<i32 as OffsetSize>::from_wide(1 << 31), None);
    assert_eq!(<i32 as OffsetSize>::from_wide(-5), Some(-5));
    assert_eq!(<i32 as OffsetSize>::to_wide(-5), -5);
    assert!(!<i32 as OffsetSize>::large());
    assert!(<i64 as OffsetSize>::large());
}

#[test]
fn interleaved_coordinates_pair_up_words() {
    let b = InterleavedCoordBuffer::try_new(vec![1, 2, 3, 4, 5, 6]).unwrap();
    assert_eq!(b.len(), 3);
    assert_eq!(b.value(0), Coord { x: 1, y: 2 });
    assert_eq!(b.value(2), Coord { x: 5, y: 6 });
    let s = b.slice(1, 2);
    assert_eq!(s.len(), 2);
    assert_eq!(s.value(0), Coord { x: 3, y: 4 });
    assert_eq!(s.value(1), Coord { x: 5, y: 6 });
    assert_eq!(
        InterleavedCoordBuffer::try_new(vec![1, 2, 3]).err(),
        Some(GeoArrowError::CoordLength)
    );
}

#[test]
fn separated_coordinates_pair_up_buffers() {
    let b = SeparatedCoordBuffer::try_new(vec![1, 3, 5], vec![2, 4, 6]).unwrap();
    assert_eq!(b.len(), 3);
    assert_eq!(b.value(1), Coord { x: 3, y: 4 });
    let s = b.slice(2, 1);
    assert_eq!(s.len(), 1);
    assert_eq!(s.value(0), Coord { x: 5, y: 6 });
    assert_eq!(
        SeparatedCoordBuffer::try_new(vec![1, 3], vec![2]).err(),
        Some(GeoArrowError::CoordLength)
    );
}

#[test]
fn coordinate_layouts_hold_the_same_values() {
    let coords = vec![c(0., 1.), c(1., 2.), c(-3.5, 4.25)];
    let i = CoordBuffer::from_coords(&coords, CoordType::Interleaved);
    let s = CoordBuffer::from_coords(&coords, CoordType::Separated);
    assert_eq!(i.coord_type(), CoordType::Interleaved);
    assert_eq!(s.coord_type(), CoordType::Separated);
    assert_eq!(i.len(), 3);
    assert_eq!(s.len(), 3);
    assert_eq!(i.to_vec(0, 3), coords);
    assert_eq!(s.to_vec(0, 3), coords);
    assert_eq!(s.get_x(2), (-3.5f64).to_bits());
    assert_eq!(i.get_y(2), 4.25f64.to_bits());
    assert!(i.equals(&s));
    let back = s.clone().into_coord_type(CoordType::Interleaved);
    assert_eq!(back.coord_type(), CoordType::Interleaved);
    assert_eq!(back.to_vec(0, 3), coords);
    let other = i.clone().into_coord_type(CoordType::Separated);
    assert_eq!(other.coord_type(), CoordType::Separated);
    assert_eq!(other.to_vec(1, 2), coords[1..].to_vec());
    assert!(!i.equals(&i.slice(0, 2)));
    assert!(!i.equals(&CoordBuffer::from_coords(
        &vec![c(0., 1.), c(1., 2.), c(-3.5, 4.)],
        CoordType::Separated
    )));
}

#[test]
fn coordinate_slices_copy_or_share() {
    let coords = vec![c(0., 1.), c(1., 2.), c(3., 4.), c(5., 6.)];
    for t in [CoordType::Interleaved, CoordType::Separated] {
        let b = CoordBuffer::from_coords(&coords, t);
        let shared = b.slice(1, 2);
        let owned = b.owned_slice(1, 2);
        assert_eq!(shared.coord_type(), t);
        assert_eq!(owned.coord_type(), t);
        assert_eq!(shared.len(), 2);
        assert_eq!(owned.len(), 2);
        assert_eq!(shared.value(1), c(3., 4.));
        assert_eq!(owned.to_vec(0, 2), vec![c(1., 2.), c(3., 4.)]);
        drop(b);
        assert_eq!(owned.value(0), c(1., 2.));
        assert_eq!(shared.value(0), c(1., 2.));
    }
}

#[test]
fn validity_masks_read_slice_and_compare() {
    let mask = Some(NullBuffer::from(vec![true, false, true, true]));
    assert_eq!(validity_len(&mask), Some(4));
    assert_eq!(validity_len(&None), None);
    assert!(validity_bit(&mask, 0));
    assert!(!validity_bit(&mask, 1));
    assert!(validity_bit(&None, 17));
    let shared = validity_slice(&mask, 1, 2);
    let owned = owned_slice_validity(&mask, 1, 2);
    for m in [&shared, &owned] {
        assert_eq!(validity_len(m), Some(2));
        assert!(!validity_bit(m, 0));
        assert!(validity_bit(m, 1));
    }
    assert!(validity_eq(&shared, &owned));
    assert!(!validity_eq(&shared, &mask));
    assert!(!validity_eq(&None, &mask));
    assert!(validity_eq(&None, &None));
    assert!(validity_slice(&None, 1, 2).is_none());
    assert!(owned_slice_validity(&None, 1, 2).is_none());
}

#[test]
fn a_mask_without_nulls_is_left_out() {
    assert!(validity_from_bits(vec![true, true, true]).is_none());
    assert!(validity_from_bits(vec![]).is_none());
    let m = validity_from_bits(vec![true, false]);
    assert_eq!(validity_len(&m), Some(2));
    assert!(validity_bit(&m, 0));
    assert!(!validity_bit(&m, 1));
}
