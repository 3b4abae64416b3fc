use geo::{Geometry, GeometryCollection, LineString, Polygon};
use geoarrow::array::polygon::PolygonArray;
use geoarrow::builder::polygon::MutablePolygonArray;
use geoarrow::coord::Coord;
use geoarrow::error::GeoArrowError;
use geoarrow::io::geozero::event::GeomEvent;
use geoarrow::io::geozero::polygon::ToGeoArrowPolygonArray;
use geozero::{GeomProcessor, GeozeroGeometry, ToWkt};

fn p0() -> Polygon {
    Polygon::new(
        LineString::from(vec![(-111., 45.), (-111., 41.), (-104., 41.), (-104., 45.)]),
        vec![],
    )
}

fn p1() -> Polygon {
    Polygon::new(
        LineString::from(vec![(-111., 45.), (-111., 41.), (-104., 41.), (-104., 45.)]),
        vec![LineString::from(vec![(-110., 44.), (-110., 42.), (-105., 42.), (-105., 44.)])],
    )
}

fn rings_of(p: &Polygon) -> Vec<Vec<Coord>> {
    let mut rings = vec![p.exterior().clone()];
    rings.extend(p.interiors().iter().cloned());
    rings
        .iter()
        .map(|r| r.coords().map(|c| Coord { x: c.x.to_bits(), y: c.y.to_bits() }).collect())
        .collect()
}

fn polygon_of(rings: &[Vec<Coord>]) -> Polygon {
    let mut lines: Vec<LineString> = rings
        .iter()
        .map(|r| {
            LineString::from(
                r.iter().map(|c| (f64::from_bits(c.x), f64::from_bits(c.y))).collect::<Vec<_>>(),
            )
        })
        .collect();
    let exterior = lines.remove(0);
    Polygon::new(exterior, lines)
}

fn array_of(polygons: Vec<Option<Polygon>>) -> PolygonArray<i64> {
    let mut b = MutablePolygonArray::<i64>::new();
    for p in &polygons {
        let rings = p.as_ref().map(rings_of);
        b.push_polygon(rings.as_ref()).unwrap();
    }
    b.finish().unwrap()
}

/// The events of an array, handed to any processor of geozero.
struct Stream(Vec<GeomEvent>);

impl GeozeroGeometry for Stream {
    fn process_geom<P: GeomProcessor>(&self, processor: &mut P) -> geozero::error::Result<()> {
        for e in &self.0 {
            match *e {
                GeomEvent::GeometryCollectionBegin { size, idx } => {
                    processor.geometrycollection_begin(size, idx)?
                }
                GeomEvent::GeometryCollectionEnd { idx } => processor.geometrycollection_end(idx)?,
                GeomEvent::PolygonBegin { tagged, size, idx } => {
                    processor.polygon_begin(tagged, size, idx)?
                }
                GeomEvent::PolygonEnd { tagged, idx } => processor.polygon_end(tagged, idx)?,
                GeomEvent::LineStringBegin { tagged, size, idx } => {
                    processor.linestring_begin(tagged, size, idx)?
                }
                GeomEvent::LineStringEnd { tagged, idx } => processor.linestring_end(tagged, idx)?,
                GeomEvent::Xy { x, y, idx } => {
                    processor.xy(f64::from_bits(x), f64::from_bits(y), idx)?
                }
            }
        }
        Ok(())
    }
}

/// A processor of geozero that writes down the events it is handed.
struct Recorder(Vec<GeomEvent>);

impl GeomProcessor for Recorder {
    fn geometrycollection_begin(&mut self, size: usize, idx: usize) -> geozero::error::Result<()> {
        self.0.push(GeomEvent::GeometryCollectionBegin { size, idx });
        Ok(())
    }

    fn geometrycollection_end(&mut self, idx: usize) -> geozero::error::Result<()> {
        self.0.push(GeomEvent::GeometryCollectionEnd { idx });
        Ok(())
    }

    fn xy(&mut self, x: f64, y: f64, idx: usize) -> geozero::error::Result<()> {
        self.0.push(GeomEvent::Xy { x: x.to_bits(), y: y.to_bits(), idx });
        Ok(())
    }

    fn polygon_begin(&mut self, tagged: bool, size: usize, idx: usize) -> geozero::error::Result<()> {
        self.0.push(GeomEvent::PolygonBegin { tagged, size, idx });
        Ok(())
    }

    fn polygon_end(&mut self, tagged: bool, idx: usize) -> geozero::error::Result<()> {
        self.0.push(GeomEvent::PolygonEnd { tagged, idx });
        Ok(())
    }

    fn linestring_begin(
        &mut self,
        tagged: bool,
        size: usize,
        idx: usize,
    ) -> geozero::error::Result<()> {
        self.0.push(GeomEvent::LineStringBegin { tagged, size, idx });
        Ok(())
    }

    fn linestring_end(&mut self, tagged: bool, idx: usize) -> geozero::error::Result<()> {
        self.0.push(GeomEvent::LineStringEnd { tagged, idx });
        Ok(())
    }
}

#[test]
fn geozero_process_geom() {
    let arr = array_of(vec![Some(p0()), Some(p1())]);
    let wkt = Stream(arr.process_geom()).to_wkt().unwrap();
    let expected = "GEOMETRYCOLLECTION(POLYGON((-111 45,-111 41,-104 41,-104 45,-111 45)),POLYGON((-111 45,-111 41,-104 41,-104 45,-111 45),(-110 44,-110 42,-105 42,-105 44,-110 44)))";
    assert_eq!(wkt, expected);
}

#[test]
fn from_geozero() {
    let geo = Geometry::GeometryCollection(GeometryCollection(
        vec![p0(), p1()].into_iter().map(Geometry::Polygon).collect(),
    ));
    let mut recorder = Recorder(Vec::new());
    geo.process_geom(&mut recorder).unwrap();
    let multi_point_array: PolygonArray<i32> = recorder.0.to_line_string_array().unwrap();
    assert_eq!(polygon_of(&multi_point_array.value(0).to_vec()), p0());
    assert_eq!(polygon_of(&multi_point_array.value(1).to_vec()), p1());
}

#[test]
fn process_geom_skips_null_slots() {
    let arr = array_of(vec![None, Some(p0()), None, Some(p1()), None]);
    assert_eq!(arr.len(), 5);
    assert_eq!(arr.count_valid(), 2);
    let wkt = Stream(arr.process_geom()).to_wkt().unwrap();
    let expected = "GEOMETRYCOLLECTION(POLYGON((-111 45,-111 41,-104 41,-104 45,-111 45)),POLYGON((-111 45,-111 41,-104 41,-104 45,-111 45),(-110 44,-110 42,-105 42,-105 44,-110 44)))";
    assert_eq!(wkt, expected);
}

#[test]
fn process_geom_of_empty_array() {
    let arr = array_of(vec![]);
    assert_eq!(
        arr.process_geom(),
        vec![
            GeomEvent::GeometryCollectionBegin { size: 0, idx: 0 },
            GeomEvent::GeometryCollectionEnd { idx: 0 },
        ]
    );
}

#[test]
fn events_round_trip() {
    let arr = array_of(vec![Some(p0()), Some(p1())]);
    let back: PolygonArray<i64> = arr.process_geom().to_line_string_array().unwrap();
    assert!(arr.equals(&back));
    assert_eq!(back.value(1).to_vec(), rings_of(&p1()));
}

#[test]
fn events_out_of_order_are_refused() {
    let stray = vec![GeomEvent::Xy { x: 0, y: 0, idx: 0 }];
    let r: Result<PolygonArray<i32>, GeoArrowError> = stray.to_line_string_array();
    assert_eq!(r.err(), Some(GeoArrowError::Unbalanced));

    let no_polygon = vec![GeomEvent::LineStringBegin { tagged: false, size: 0, idx: 0 }];
    let r: Result<PolygonArray<i32>, GeoArrowError> = no_polygon.to_line_string_array();
    assert_eq!(r.err(), Some(GeoArrowError::Unbalanced));

    let unfinished = vec![GeomEvent::PolygonBegin { tagged: true, size: 1, idx: 0 }];
    let r: Result<PolygonArray<i32>, GeoArrowError> = unfinished.to_line_string_array();
    assert_eq!(r.err(), Some(GeoArrowError::Unbalanced));
}

#[test]
fn announced_size_beyond_the_width_overflows() {
    let huge = vec![GeomEvent::PolygonBegin { tagged: true, size: 1usize << 31, idx: 0 }];
    let r: Result<PolygonArray<i32>, GeoArrowError> = huge.to_line_string_array();
    assert_eq!(r.err(), Some(GeoArrowError::Overflow));
}
