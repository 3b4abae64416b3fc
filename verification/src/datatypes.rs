use vstd::prelude::*;

verus! {

/// How a coordinate buffer lays out its values.
#[derive(Debug, Clone, Copy, PartialEq, Eq, Structural)]
pub enum CoordType {
    /// One buffer, `[x0, y0, x1, y1, ..]`.
    Interleaved,
    /// Two buffers, `[x0, x1, ..]` and `[y0, y1, ..]`.
    Separated,
}

/// The kind of a geometry array together with its physical choices: the layout of its
/// coordinates and, for the nested kinds, the width of its offsets.
#[derive(Debug, Clone, Copy, PartialEq, Eq, Structural)]
pub enum GeoDataType {
    Point(CoordType),
    LineString(CoordType),
    LargeLineString(CoordType),
    Polygon(CoordType),
    LargePolygon(CoordType),
    MultiPoint(CoordType),
    LargeMultiPoint(CoordType),
    MultiLineString(CoordType),
    LargeMultiLineString(CoordType),
    MultiPolygon(CoordType),
    LargeMultiPolygon(CoordType),
    Rect,
}

/// The generic columnar shape beneath a geometry array: `levels` lists nested around the
/// coordinates, every list with offsets of the wide width where `large` holds.
#[derive(Debug, Clone, Copy, PartialEq, Eq, Structural)]
pub struct StorageType {
    pub levels: u8,
    pub large: bool,
    pub coord_type: CoordType,
}

/// The field that presents a geometry array to a consumer of generic columns: its storage
/// and, as metadata under `EXTENSION_NAME_KEY`, the name that tells the geometry kind.
#[derive(Debug, Clone, Copy)]
pub struct ExtensionField {
    pub storage_type: StorageType,
    pub nullable: bool,
    pub extension_name: &'static str,
}

/// The metadata key under which the extension name of a field is stored.
pub const EXTENSION_NAME_KEY: &'static str = "ARROW:extension:name";

impl GeoDataType {
    /// The layout of the coordinates; rectangles have none of the two.
    pub open spec fn spec_coord_type(self) -> Option<CoordType> {
        match self {
            GeoDataType::Point(ct) => Some(ct),
            GeoDataType::LineString(ct) => Some(ct),
            GeoDataType::LargeLineString(ct) => Some(ct),
            GeoDataType::Polygon(ct) => Some(ct),
            GeoDataType::LargePolygon(ct) => Some(ct),
            GeoDataType::MultiPoint(ct) => Some(ct),
            GeoDataType::LargeMultiPoint(ct) => Some(ct),
            GeoDataType::MultiLineString(ct) => Some(ct),
            GeoDataType::LargeMultiLineString(ct) => Some(ct),
            GeoDataType::MultiPolygon(ct) => Some(ct),
            GeoDataType::LargeMultiPolygon(ct) => Some(ct),
            GeoDataType::Rect => None,
        }
    }

    /// The number of offset levels above the coordinates.
    pub open spec fn spec_levels(self) -> int {
        match self {
            GeoDataType::Point(_) => 0,
            GeoDataType::LineString(_) => 1,
            GeoDataType::LargeLineString(_) => 1,
            GeoDataType::Polygon(_) => 2,
            GeoDataType::LargePolygon(_) => 2,
            GeoDataType::MultiPoint(_) => 1,
            GeoDataType::LargeMultiPoint(_) => 1,
            GeoDataType::MultiLineString(_) => 2,
            GeoDataType::LargeMultiLineString(_) => 2,
            GeoDataType::MultiPolygon(_) => 3,
            GeoDataType::LargeMultiPolygon(_) => 3,
            GeoDataType::Rect => 0,
        }
    }

    /// Whether the offsets are of the wide width.
    pub open spec fn spec_is_large(self) -> bool {
        match self {
            GeoDataType::LargeLineString(_) => true,
            GeoDataType::LargePolygon(_) => true,
            GeoDataType::LargeMultiPoint(_) => true,
            GeoDataType::LargeMultiLineString(_) => true,
            GeoDataType::LargeMultiPolygon(_) => true,
            _ => false,
        }
    }

    /// The shape of the columns that store an array of this type; rectangles have no nested
    /// shape.
    pub fn storage_type(self) -> (r: Option<StorageType>)
        ensures
            r is Some <==> self.spec_coord_type() is Some,
            r is Some ==> r->Some_0.levels == self.spec_levels() && r->Some_0.large
                == self.spec_is_large() && Some(r->Some_0.coord_type) == self.spec_coord_type(),
    {
        match self {
            GeoDataType::Point(ct) => Some(StorageType { levels: 0, large: false, coord_type: ct }),
            GeoDataType::LineString(ct) => Some(
                StorageType { levels: 1, large: false, coord_type: ct },
            ),
            GeoDataType::LargeLineString(ct) => Some(
                StorageType { levels: 1, large: true, coord_type: ct },
            ),
            GeoDataType::Polygon(ct) => Some(
                StorageType { levels: 2, large: false, coord_type: ct },
            ),
            GeoDataType::LargePolygon(ct) => Some(
                StorageType { levels: 2, large: true, coord_type: ct },
            ),
            GeoDataType::MultiPoint(ct) => Some(
                StorageType { levels: 1, large: false, coord_type: ct },
            ),
            GeoDataType::LargeMultiPoint(ct) => Some(
                StorageType { levels: 1, large: true, coord_type: ct },
            ),
            GeoDataType::MultiLineString(ct) => Some(
                StorageType { levels: 2, large: false, coord_type: ct },
            ),
            GeoDataType::LargeMultiLineString(ct) => Some(
                StorageType { levels: 2, large: true, coord_type: ct },
            ),
            GeoDataType::MultiPolygon(ct) => Some(
                StorageType { levels: 3, large: false, coord_type: ct },
            ),
            GeoDataType::LargeMultiPolygon(ct) => Some(
                StorageType { levels: 3, large: true, coord_type: ct },
            ),
            GeoDataType::Rect => None,
        }
    }

    /// The name that tells a consumer of generic columns which geometry kind they hold.
    pub fn extension_name(self) -> (r: &'static str)
        ensures
            r@ == self.spec_extension_name(),
    {
        match self {
            GeoDataType::Point(_) => "geoarrow.point",
            GeoDataType::LineString(_) => "geoarrow.linestring",
            GeoDataType::LargeLineString(_) => "geoarrow.linestring",
            GeoDataType::Polygon(_) => "geoarrow.polygon",
            GeoDataType::LargePolygon(_) => "geoarrow.polygon",
            GeoDataType::MultiPoint(_) => "geoarrow.multipoint",
            GeoDataType::LargeMultiPoint(_) => "geoarrow.multipoint",
            GeoDataType::MultiLineString(_) => "geoarrow.multilinestring",
            GeoDataType::LargeMultiLineString(_) => "geoarrow.multilinestring",
            GeoDataType::MultiPolygon(_) => "geoarrow.multipolygon",
            GeoDataType::LargeMultiPolygon(_) => "geoarrow.multipolygon",
            GeoDataType::Rect => "geoarrow.box",
        }
    }

    /// The extension name of each kind; the offset width does not show in it.
    pub open spec fn spec_extension_name(self) -> Seq<char> {
        match self {
            GeoDataType::Point(_) => "geoarrow.point"@,
            GeoDataType::LineString(_) => "geoarrow.linestring"@,
            GeoDataType::LargeLineString(_) => "geoarrow.linestring"@,
            GeoDataType::Polygon(_) => "geoarrow.polygon"@,
            GeoDataType::LargePolygon(_) => "geoarrow.polygon"@,
            GeoDataType::MultiPoint(_) => "geoarrow.multipoint"@,
            GeoDataType::LargeMultiPoint(_) => "geoarrow.multipoint"@,
            GeoDataType::MultiLineString(_) => "geoarrow.multilinestring"@,
            GeoDataType::LargeMultiLineString(_) => "geoarrow.multilinestring"@,
            GeoDataType::MultiPolygon(_) => "geoarrow.multipolygon"@,
            GeoDataType::LargeMultiPolygon(_) => "geoarrow.multipolygon"@,
            GeoDataType::Rect => "geoarrow.box"@,
        }
    }
}

} // verus!
