use crate::array::geometry::{generic_view, GenericView};
use crate::array::linestring::LineStringArray;
use crate::array::multilinestring::MultiLineStringArray;
use crate::array::multipoint::MultiPointArray;
use crate::array::multipolygon::MultiPolygonArray;
use crate::array::point::PointArray;
use crate::array::polygon::PolygonArray;
use crate::coord::Coord;
use crate::datatypes::{CoordType, ExtensionField, GeoDataType, StorageType};
use crate::offsets::OffsetSize;
use crate::validity::{bit_at, mask_bits, mask_fits};
use arrow_buffer::NullBuffer;
use crate::scalar::linestring::LineString;
use crate::scalar::multipolygon::MultiPolygon;
use crate::scalar::owned::{Geometry, OwnedMultiLineString, OwnedMultiPoint};
use crate::scalar::polygon::Polygon;
use vstd::prelude::*;

verus! {

/// What every geometry array offers, whatever its kind.
///
/// The validity bit of a slot is the sole authority on whether the slot holds a geometry.
pub trait GeometryArrayTrait: Sized {
    /// The number of slots.
    spec fn slots(&self) -> int;

    /// Whether slot `i` is valid.
    spec fn slot_valid(&self, i: int) -> bool;

    /// What the buffers spell in slot `i`, whatever the kind of the array and whatever the
    /// mask says.
    spec fn generic_at(&self, i: int) -> GenericView;

    /// The kind of the array with its physical choices.
    spec fn spec_data_type(&self) -> GeoDataType;

    /// The kind of the array with its physical choices.
    fn data_type(&self) -> (r: GeoDataType)
        ensures
            r == self.spec_data_type(),
    ;

    /// The shape of the columns that store the array.
    fn storage_type(&self) -> (r: StorageType)
        ensures
            self.spec_data_type().spec_coord_type() is Some,
            r.levels == self.spec_data_type().spec_levels(),
            r.large == self.spec_data_type().spec_is_large(),
            Some(r.coord_type) == self.spec_data_type().spec_coord_type(),
    ;

    /// The name that tells a consumer of generic columns the geometry kind.
    fn extension_name(&self) -> (r: &'static str)
        ensures
            r@ == self.spec_data_type().spec_extension_name(),
    ;

    /// The field that presents the array to a consumer of generic columns: nullable, over
    /// the storage of the array, and named after its kind.
    fn extension_field(&self) -> (r: ExtensionField)
        ensures
            r.nullable,
            r.extension_name@ == self.spec_data_type().spec_extension_name(),
            r.storage_type.levels == self.spec_data_type().spec_levels(),
            r.storage_type.large == self.spec_data_type().spec_is_large(),
            Some(r.storage_type.coord_type) == self.spec_data_type().spec_coord_type(),
    ;

    /// The layout of the coordinates.
    fn coord_type(&self) -> (r: CoordType)
        ensures
            Some(r) == self.spec_data_type().spec_coord_type(),
    ;

    /// The number of slots.
    fn len(&self) -> (n: usize)
        ensures
            n == self.slots(),
    ;

    /// Whether the array has no slots.
    fn is_empty(&self) -> (r: bool)
        ensures
            r == (self.slots() == 0),
    ;

    /// Whether slot `i` is valid.
    fn is_valid(&self, i: usize) -> (r: bool)
        requires
            i < self.slots(),
        ensures
            r == self.slot_valid(i as int),
    ;

    /// Whether slot `i` is null.
    fn is_null(&self, i: usize) -> (r: bool)
        requires
            i < self.slots(),
        ensures
            r == !self.slot_valid(i as int),
    ;

    /// Slots `offset .. offset + length`, sharing every buffer with `self`.
    fn slice(&self, offset: usize, length: usize) -> (r: Self)
        requires
            offset + length <= self.slots(),
        ensures
            r.slots() == length,
            r.spec_data_type() == self.spec_data_type(),
            forall|i: int| 0 <= i < length ==> r.slot_valid(i) == self.slot_valid(offset + i),
            forall|i: int| 0 <= i < length ==> r.generic_at(i) == self.generic_at(offset + i),
    ;

    /// Slots `offset .. offset + length`, copied into buffers of their own.
    fn owned_slice(&self, offset: usize, length: usize) -> (r: Self)
        requires
            offset + length <= self.slots(),
        ensures
            r.slots() == length,
            r.spec_data_type() == self.spec_data_type(),
            forall|i: int| 0 <= i < length ==> r.slot_valid(i) == self.slot_valid(offset + i),
            forall|i: int| 0 <= i < length ==> r.generic_at(i) == self.generic_at(offset + i),
    ;

    /// The bits of the validity mask, if there is one.
    spec fn slot_mask(&self) -> Option<Seq<bool>>;

    /// The validity mask, if there is one: one bit per slot, set where the slot is valid.
    fn validity(&self) -> (r: Option<&NullBuffer>)
        ensures
            r is Some <==> self.slot_mask() is Some,
            r is Some ==> mask_bits(Some(*r->Some_0)) == self.slot_mask(),
            forall|i: int| 0 <= i < self.slots() ==> self.slot_valid(i) == bit_at(self.slot_mask(), i),
            mask_fits(self.slot_mask(), self.slots()),
    ;

    /// The same array with its coordinates laid out as `coord_type` says.
    fn into_coord_type(self, coord_type: CoordType) -> (r: Self)
        ensures
            r.spec_data_type().spec_coord_type() == Some(coord_type),
            r.spec_data_type().spec_levels() == self.spec_data_type().spec_levels(),
            r.spec_data_type().spec_is_large() == self.spec_data_type().spec_is_large(),
            r.slots() == self.slots(),
            r.slot_mask() == self.slot_mask(),
            forall|i: int| 0 <= i < self.slots() ==> r.slot_valid(i) == self.slot_valid(i),
            forall|i: int| 0 <= i < self.slots() ==> r.generic_at(i) == self.generic_at(i),
    ;
}

/// Access to the geometries of an array, one slot at a time.
pub trait GeoArrayAccessor<'a>: GeometryArrayTrait {
    /// The scalar that a slot hands out.
    type Item;

    /// Whether `item` is the geometry that the buffers spell in slot `i`.
    spec fn is_item(&self, i: int, item: Self::Item) -> bool;

    /// The geometry that the buffers spell in slot `i`, whatever the mask says.
    fn value(&'a self, i: usize) -> (r: Self::Item)
        requires
            i < self.slots(),
        ensures
            self.is_item(i as int, r),
    ;

    /// The geometry in slot `i`, or `None` where the slot is null.
    fn get(&'a self, i: usize) -> (r: Option<Self::Item>)
        requires
            i < self.slots(),
        ensures
            r is None <==> !self.slot_valid(i as int),
            r is Some ==> self.is_item(i as int, r->Some_0),
    ;

    /// The geometry in slot `i` as a value of its own, whatever the kind of the array;
    /// `None` where the slot is null.
    fn as_generic_geometry(&'a self, i: usize) -> (r: Option<Geometry>)
        requires
            i < self.slots(),
        ensures
            r is None <==> !self.slot_valid(i as int),
            r is Some ==> generic_view(r->Some_0) == Some(self.generic_at(i as int)),
    ;
}

impl GeometryArrayTrait for PointArray {
    open spec fn slots(&self) -> int {
        self.spec_len()
    }

    open spec fn slot_valid(&self, i: int) -> bool {
        self.spec_is_valid(i)
    }

    open spec fn generic_at(&self, i: int) -> GenericView {
        GenericView::Point(self.spec_value(i))
    }

    open spec fn spec_data_type(&self) -> GeoDataType {
        GeoDataType::Point(self.spec_coord_type())
    }

    fn data_type(&self) -> (r: GeoDataType) {
        GeoDataType::Point(PointArray::coord_type(self))
    }

    fn storage_type(&self) -> (r: StorageType) {
        self.data_type().storage_type().unwrap()
    }

    fn extension_name(&self) -> (r: &'static str) {
        self.data_type().extension_name()
    }

    fn extension_field(&self) -> (r: ExtensionField) {
        ExtensionField {
            storage_type: self.storage_type(),
            nullable: true,
            extension_name: self.extension_name(),
        }
    }

    fn coord_type(&self) -> (r: CoordType) {
        PointArray::coord_type(self)
    }

    fn len(&self) -> (n: usize) {
        PointArray::len(self)
    }

    fn is_empty(&self) -> (r: bool) {
        PointArray::is_empty(self)
    }

    fn is_valid(&self, i: usize) -> (r: bool) {
        PointArray::is_valid(self, i)
    }

    fn is_null(&self, i: usize) -> (r: bool) {
        PointArray::is_null(self, i)
    }

    fn slice(&self, offset: usize, length: usize) -> (r: Self) {
        PointArray::slice(self, offset, length)
    }

    fn owned_slice(&self, offset: usize, length: usize) -> (r: Self) {
        PointArray::owned_slice(self, offset, length)
    }

    open spec fn slot_mask(&self) -> Option<Seq<bool>> {
        self.spec_mask()
    }

    fn validity(&self) -> (r: Option<&NullBuffer>) {
        proof {
            use_type_invariant(self);
        }
        PointArray::validity(self)
    }

    fn into_coord_type(self, coord_type: CoordType) -> (r: Self) {
        proof {
            use_type_invariant(&self);
        }
        let r = PointArray::into_coord_type(self, coord_type);
        proof {
            assert forall|i: int| 0 <= i < self.slots() implies r.slot_valid(i) == self.slot_valid(
                i,
            ) && r.generic_at(i) == self.generic_at(i) by {
                assert(r.generic_at(i) == self.generic_at(i));
            }
        }
        r
    }
}

impl<'a> GeoArrayAccessor<'a> for PointArray {
    type Item = Coord;

    open spec fn is_item(&self, i: int, item: Coord) -> bool {
        item == self.spec_value(i)
    }

    fn value(&'a self, i: usize) -> (r: Coord) {
        PointArray::value(self, i)
    }

    fn get(&'a self, i: usize) -> (r: Option<Coord>) {
        PointArray::get(self, i)
    }

    fn as_generic_geometry(&'a self, i: usize) -> (r: Option<Geometry>) {
        match PointArray::get(self, i) {
            Some(c) => Some(Geometry::Point(c)),
            None => None,
        }
    }
}

impl<O: OffsetSize> GeometryArrayTrait for LineStringArray<O> {
    open spec fn slots(&self) -> int {
        self.spec_len()
    }

    open spec fn slot_valid(&self, i: int) -> bool {
        self.spec_is_valid(i)
    }

    open spec fn generic_at(&self, i: int) -> GenericView {
        GenericView::LineString(self.spec_value(i))
    }

    open spec fn spec_data_type(&self) -> GeoDataType {
        if O::is_large() {
            GeoDataType::LargeLineString(self.spec_coord_type())
        } else {
            GeoDataType::LineString(self.spec_coord_type())
        }
    }

    fn data_type(&self) -> (r: GeoDataType) {
        if O::large() {
            GeoDataType::LargeLineString(LineStringArray::coord_type(self))
        } else {
            GeoDataType::LineString(LineStringArray::coord_type(self))
        }
    }

    fn storage_type(&self) -> (r: StorageType) {
        self.data_type().storage_type().unwrap()
    }

    fn extension_name(&self) -> (r: &'static str) {
        self.data_type().extension_name()
    }

    fn extension_field(&self) -> (r: ExtensionField) {
        ExtensionField {
            storage_type: self.storage_type(),
            nullable: true,
            extension_name: self.extension_name(),
        }
    }

    fn coord_type(&self) -> (r: CoordType) {
        LineStringArray::coord_type(self)
    }

    fn len(&self) -> (n: usize) {
        LineStringArray::len(self)
    }

    fn is_empty(&self) -> (r: bool) {
        LineStringArray::is_empty(self)
    }

    fn is_valid(&self, i: usize) -> (r: bool) {
        LineStringArray::is_valid(self, i)
    }

    fn is_null(&self, i: usize) -> (r: bool) {
        LineStringArray::is_null(self, i)
    }

    fn slice(&self, offset: usize, length: usize) -> (r: Self) {
        LineStringArray::slice(self, offset, length)
    }

    fn owned_slice(&self, offset: usize, length: usize) -> (r: Self) {
        LineStringArray::owned_slice(self, offset, length)
    }

    open spec fn slot_mask(&self) -> Option<Seq<bool>> {
        self.spec_mask()
    }

    fn validity(&self) -> (r: Option<&NullBuffer>) {
        proof {
            use_type_invariant(self);
        }
        LineStringArray::validity(self)
    }

    fn into_coord_type(self, coord_type: CoordType) -> (r: Self) {
        proof {
            use_type_invariant(&self);
        }
        let r = LineStringArray::into_coord_type(self, coord_type);
        proof {
            assert forall|i: int| 0 <= i < self.slots() implies r.slot_valid(i) == self.slot_valid(
                i,
            ) && r.generic_at(i) == self.generic_at(i) by {
                assert(r.generic_at(i) == self.generic_at(i));
            }
        }
        r
    }
}

impl<'a, O: OffsetSize + 'a> GeoArrayAccessor<'a> for LineStringArray<O> {
    type Item = LineString<'a, O>;

    open spec fn is_item(&self, i: int, item: LineString<'a, O>) -> bool {
        item@ == self.spec_value(i)
    }

    fn value(&'a self, i: usize) -> (r: LineString<'a, O>) {
        LineStringArray::value(self, i)
    }

    fn get(&'a self, i: usize) -> (r: Option<LineString<'a, O>>) {
        LineStringArray::get(self, i)
    }

    fn as_generic_geometry(&'a self, i: usize) -> (r: Option<Geometry>) {
        match LineStringArray::get(self, i) {
            Some(l) => Some(Geometry::LineString(l.to_owned())),
            None => None,
        }
    }
}

impl<O: OffsetSize> GeometryArrayTrait for PolygonArray<O> {
    open spec fn slots(&self) -> int {
        self.spec_len()
    }

    open spec fn slot_valid(&self, i: int) -> bool {
        self.spec_is_valid(i)
    }

    open spec fn generic_at(&self, i: int) -> GenericView {
        GenericView::Polygon(self.spec_value(i))
    }

    open spec fn spec_data_type(&self) -> GeoDataType {
        if O::is_large() {
            GeoDataType::LargePolygon(self.spec_coord_type())
        } else {
            GeoDataType::Polygon(self.spec_coord_type())
        }
    }

    fn data_type(&self) -> (r: GeoDataType) {
        if O::large() {
            GeoDataType::LargePolygon(PolygonArray::coord_type(self))
        } else {
            GeoDataType::Polygon(PolygonArray::coord_type(self))
        }
    }

    fn storage_type(&self) -> (r: StorageType) {
        self.data_type().storage_type().unwrap()
    }

    fn extension_name(&self) -> (r: &'static str) {
        self.data_type().extension_name()
    }

    fn extension_field(&self) -> (r: ExtensionField) {
        ExtensionField {
            storage_type: self.storage_type(),
            nullable: true,
            extension_name: self.extension_name(),
        }
    }

    fn coord_type(&self) -> (r: CoordType) {
        PolygonArray::coord_type(self)
    }

    fn len(&self) -> (n: usize) {
        PolygonArray::len(self)
    }

    fn is_empty(&self) -> (r: bool) {
        PolygonArray::is_empty(self)
    }

    fn is_valid(&self, i: usize) -> (r: bool) {
        PolygonArray::is_valid(self, i)
    }

    fn is_null(&self, i: usize) -> (r: bool) {
        PolygonArray::is_null(self, i)
    }

    fn slice(&self, offset: usize, length: usize) -> (r: Self) {
        PolygonArray::slice(self, offset, length)
    }

    fn owned_slice(&self, offset: usize, length: usize) -> (r: Self) {
        PolygonArray::owned_slice(self, offset, length)
    }

    open spec fn slot_mask(&self) -> Option<Seq<bool>> {
        self.spec_mask()
    }

    fn validity(&self) -> (r: Option<&NullBuffer>) {
        proof {
            use_type_invariant(self);
        }
        PolygonArray::validity(self)
    }

    fn into_coord_type(self, coord_type: CoordType) -> (r: Self) {
        proof {
            use_type_invariant(&self);
        }
        let r = PolygonArray::into_coord_type(self, coord_type);
        proof {
            assert forall|i: int| 0 <= i < self.slots() implies r.slot_valid(i) == self.slot_valid(
                i,
            ) && r.generic_at(i) == self.generic_at(i) by {
                assert(r.generic_at(i) == self.generic_at(i));
            }
        }
        r
    }
}

impl<'a, O: OffsetSize + 'a> GeoArrayAccessor<'a> for PolygonArray<O> {
    type Item = Polygon<'a, O>;

    open spec fn is_item(&self, i: int, item: Polygon<'a, O>) -> bool {
        item@ == self.spec_value(i)
    }

    fn value(&'a self, i: usize) -> (r: Polygon<'a, O>) {
        PolygonArray::value(self, i)
    }

    fn get(&'a self, i: usize) -> (r: Option<Polygon<'a, O>>) {
        PolygonArray::get(self, i)
    }

    fn as_generic_geometry(&'a self, i: usize) -> (r: Option<Geometry>) {
        match PolygonArray::get(self, i) {
            Some(p) => Some(Geometry::Polygon(p.to_owned())),
            None => None,
        }
    }
}

impl<O: OffsetSize> GeometryArrayTrait for MultiPointArray<O> {
    open spec fn slots(&self) -> int {
        self.spec_len()
    }

    open spec fn slot_valid(&self, i: int) -> bool {
        self.spec_is_valid(i)
    }

    open spec fn generic_at(&self, i: int) -> GenericView {
        GenericView::MultiPoint(self.spec_value(i))
    }

    open spec fn spec_data_type(&self) -> GeoDataType {
        if O::is_large() {
            GeoDataType::LargeMultiPoint(self.spec_layout().spec_coord_type())
        } else {
            GeoDataType::MultiPoint(self.spec_layout().spec_coord_type())
        }
    }

    fn data_type(&self) -> (r: GeoDataType) {
        if O::large() {
            GeoDataType::LargeMultiPoint(MultiPointArray::coord_type(self))
        } else {
            GeoDataType::MultiPoint(MultiPointArray::coord_type(self))
        }
    }

    fn storage_type(&self) -> (r: StorageType) {
        self.data_type().storage_type().unwrap()
    }

    fn extension_name(&self) -> (r: &'static str) {
        self.data_type().extension_name()
    }

    fn extension_field(&self) -> (r: ExtensionField) {
        ExtensionField {
            storage_type: self.storage_type(),
            nullable: true,
            extension_name: self.extension_name(),
        }
    }

    fn coord_type(&self) -> (r: CoordType) {
        MultiPointArray::coord_type(self)
    }

    fn len(&self) -> (n: usize) {
        MultiPointArray::len(self)
    }

    fn is_empty(&self) -> (r: bool) {
        MultiPointArray::is_empty(self)
    }

    fn is_valid(&self, i: usize) -> (r: bool) {
        MultiPointArray::is_valid(self, i)
    }

    fn is_null(&self, i: usize) -> (r: bool) {
        MultiPointArray::is_null(self, i)
    }

    fn slice(&self, offset: usize, length: usize) -> (r: Self) {
        MultiPointArray::slice(self, offset, length)
    }

    fn owned_slice(&self, offset: usize, length: usize) -> (r: Self) {
        MultiPointArray::owned_slice(self, offset, length)
    }

    open spec fn slot_mask(&self) -> Option<Seq<bool>> {
        self.spec_layout().spec_mask()
    }

    fn validity(&self) -> (r: Option<&NullBuffer>) {
        proof {
            use_type_invariant(self);
        }
        MultiPointArray::validity(self)
    }

    fn into_coord_type(self, coord_type: CoordType) -> (r: Self) {
        proof {
            use_type_invariant(&self);
        }
        let r = MultiPointArray::into_coord_type(self, coord_type);
        proof {
            assert forall|i: int| 0 <= i < self.slots() implies r.slot_valid(i) == self.slot_valid(
                i,
            ) && r.generic_at(i) == self.generic_at(i) by {
                assert(r.generic_at(i) == self.generic_at(i));
            }
        }
        r
    }
}

impl<'a, O: OffsetSize + 'a> GeoArrayAccessor<'a> for MultiPointArray<O> {
    type Item = LineString<'a, O>;

    open spec fn is_item(&self, i: int, item: LineString<'a, O>) -> bool {
        item@ == self.spec_value(i)
    }

    fn value(&'a self, i: usize) -> (r: LineString<'a, O>) {
        MultiPointArray::value(self, i)
    }

    fn get(&'a self, i: usize) -> (r: Option<LineString<'a, O>>) {
        MultiPointArray::get(self, i)
    }

    fn as_generic_geometry(&'a self, i: usize) -> (r: Option<Geometry>) {
        match MultiPointArray::get(self, i) {
            Some(l) => Some(Geometry::MultiPoint(OwnedMultiPoint { points: l.to_vec() })),
            None => None,
        }
    }
}

impl<O: OffsetSize> GeometryArrayTrait for MultiLineStringArray<O> {
    open spec fn slots(&self) -> int {
        self.spec_len()
    }

    open spec fn slot_valid(&self, i: int) -> bool {
        self.spec_is_valid(i)
    }

    open spec fn generic_at(&self, i: int) -> GenericView {
        GenericView::MultiLineString(self.spec_value(i))
    }

    open spec fn spec_data_type(&self) -> GeoDataType {
        if O::is_large() {
            GeoDataType::LargeMultiLineString(self.spec_layout().spec_coord_type())
        } else {
            GeoDataType::MultiLineString(self.spec_layout().spec_coord_type())
        }
    }

    fn data_type(&self) -> (r: GeoDataType) {
        if O::large() {
            GeoDataType::LargeMultiLineString(MultiLineStringArray::coord_type(self))
        } else {
            GeoDataType::MultiLineString(MultiLineStringArray::coord_type(self))
        }
    }

    fn storage_type(&self) -> (r: StorageType) {
        self.data_type().storage_type().unwrap()
    }

    fn extension_name(&self) -> (r: &'static str) {
        self.data_type().extension_name()
    }

    fn extension_field(&self) -> (r: ExtensionField) {
        ExtensionField {
            storage_type: self.storage_type(),
            nullable: true,
            extension_name: self.extension_name(),
        }
    }

    fn coord_type(&self) -> (r: CoordType) {
        MultiLineStringArray::coord_type(self)
    }

    fn len(&self) -> (n: usize) {
        MultiLineStringArray::len(self)
    }

    fn is_empty(&self) -> (r: bool) {
        MultiLineStringArray::is_empty(self)
    }

    fn is_valid(&self, i: usize) -> (r: bool) {
        MultiLineStringArray::is_valid(self, i)
    }

    fn is_null(&self, i: usize) -> (r: bool) {
        MultiLineStringArray::is_null(self, i)
    }

    fn slice(&self, offset: usize, length: usize) -> (r: Self) {
        MultiLineStringArray::slice(self, offset, length)
    }

    fn owned_slice(&self, offset: usize, length: usize) -> (r: Self) {
        MultiLineStringArray::owned_slice(self, offset, length)
    }

    open spec fn slot_mask(&self) -> Option<Seq<bool>> {
        self.spec_layout().spec_mask()
    }

    fn validity(&self) -> (r: Option<&NullBuffer>) {
        proof {
            use_type_invariant(self);
        }
        MultiLineStringArray::validity(self)
    }

    fn into_coord_type(self, coord_type: CoordType) -> (r: Self) {
        proof {
            use_type_invariant(&self);
        }
        let r = MultiLineStringArray::into_coord_type(self, coord_type);
        proof {
            assert forall|i: int| 0 <= i < self.slots() implies r.slot_valid(i) == self.slot_valid(
                i,
            ) && r.generic_at(i) == self.generic_at(i) by {
                assert(r.generic_at(i) == self.generic_at(i));
            }
        }
        r
    }
}

impl<'a, O: OffsetSize + 'a> GeoArrayAccessor<'a> for MultiLineStringArray<O> {
    type Item = Polygon<'a, O>;

    open spec fn is_item(&self, i: int, item: Polygon<'a, O>) -> bool {
        item@ == self.spec_value(i)
    }

    fn value(&'a self, i: usize) -> (r: Polygon<'a, O>) {
        MultiLineStringArray::value(self, i)
    }

    fn get(&'a self, i: usize) -> (r: Option<Polygon<'a, O>>) {
        MultiLineStringArray::get(self, i)
    }

    fn as_generic_geometry(&'a self, i: usize) -> (r: Option<Geometry>) {
        match MultiLineStringArray::get(self, i) {
            Some(p) => Some(
                Geometry::MultiLineString(OwnedMultiLineString { lines: p.to_vec() }),
            ),
            None => None,
        }
    }
}

impl<O: OffsetSize> GeometryArrayTrait for MultiPolygonArray<O> {
    open spec fn slots(&self) -> int {
        self.spec_len()
    }

    open spec fn slot_valid(&self, i: int) -> bool {
        self.spec_is_valid(i)
    }

    open spec fn generic_at(&self, i: int) -> GenericView {
        GenericView::MultiPolygon(self.spec_value(i))
    }

    open spec fn spec_data_type(&self) -> GeoDataType {
        if O::is_large() {
            GeoDataType::LargeMultiPolygon(self.spec_polygons().spec_coord_type())
        } else {
            GeoDataType::MultiPolygon(self.spec_polygons().spec_coord_type())
        }
    }

    fn data_type(&self) -> (r: GeoDataType) {
        if O::large() {
            GeoDataType::LargeMultiPolygon(MultiPolygonArray::coord_type(self))
        } else {
            GeoDataType::MultiPolygon(MultiPolygonArray::coord_type(self))
        }
    }

    fn storage_type(&self) -> (r: StorageType) {
        self.data_type().storage_type().unwrap()
    }

    fn extension_name(&self) -> (r: &'static str) {
        self.data_type().extension_name()
    }

    fn extension_field(&self) -> (r: ExtensionField) {
        ExtensionField {
            storage_type: self.storage_type(),
            nullable: true,
            extension_name: self.extension_name(),
        }
    }

    fn coord_type(&self) -> (r: CoordType) {
        MultiPolygonArray::coord_type(self)
    }

    fn len(&self) -> (n: usize) {
        MultiPolygonArray::len(self)
    }

    fn is_empty(&self) -> (r: bool) {
        MultiPolygonArray::is_empty(self)
    }

    fn is_valid(&self, i: usize) -> (r: bool) {
        MultiPolygonArray::is_valid(self, i)
    }

    fn is_null(&self, i: usize) -> (r: bool) {
        MultiPolygonArray::is_null(self, i)
    }

    fn slice(&self, offset: usize, length: usize) -> (r: Self) {
        MultiPolygonArray::slice(self, offset, length)
    }

    fn owned_slice(&self, offset: usize, length: usize) -> (r: Self) {
        MultiPolygonArray::owned_slice(self, offset, length)
    }

    open spec fn slot_mask(&self) -> Option<Seq<bool>> {
        self.spec_mask()
    }

    fn validity(&self) -> (r: Option<&NullBuffer>) {
        proof {
            use_type_invariant(self);
        }
        MultiPolygonArray::validity(self)
    }

    fn into_coord_type(self, coord_type: CoordType) -> (r: Self) {
        proof {
            use_type_invariant(&self);
        }
        let r = MultiPolygonArray::into_coord_type(self, coord_type);
        proof {
            assert forall|i: int| 0 <= i < self.slots() implies r.slot_valid(i) == self.slot_valid(
                i,
            ) && r.generic_at(i) == self.generic_at(i) by {
                assert(r.generic_at(i) == self.generic_at(i));
            }
        }
        r
    }
}

impl<'a, O: OffsetSize + 'a> GeoArrayAccessor<'a> for MultiPolygonArray<O> {
    type Item = MultiPolygon<'a, O>;

    open spec fn is_item(&self, i: int, item: MultiPolygon<'a, O>) -> bool {
        item@ == self.spec_value(i)
    }

    fn value(&'a self, i: usize) -> (r: MultiPolygon<'a, O>) {
        MultiPolygonArray::value(self, i)
    }

    fn get(&'a self, i: usize) -> (r: Option<MultiPolygon<'a, O>>) {
        MultiPolygonArray::get(self, i)
    }

    fn as_generic_geometry(&'a self, i: usize) -> (r: Option<Geometry>) {
        match MultiPolygonArray::get(self, i) {
            Some(p) => Some(Geometry::MultiPolygon(p.to_owned())),
            None => None,
        }
    }
}

} // verus!
