use crate::coord::Coord;
use vstd::prelude::*;

verus! {

/// One event of the stream. `size` announces how many children follow, and `idx` is the
/// position of the item among its siblings.
#[derive(Debug, Clone, Copy, PartialEq, Eq, Structural)]
pub enum GeomEvent {
    GeometryCollectionBegin { size: usize, idx: usize },
    GeometryCollectionEnd { idx: usize },
    PolygonBegin { tagged: bool, size: usize, idx: usize },
    PolygonEnd { tagged: bool, idx: usize },
    LineStringBegin { tagged: bool, size: usize, idx: usize },
    LineStringEnd { tagged: bool, idx: usize },
    Xy { x: u64, y: u64, idx: usize },
}

/// The coordinate events of a line, each with its position in the line.
pub open spec fn coord_events(line: Seq<Coord>) -> Seq<GeomEvent> {
    Seq::new(line.len(), |k: int| GeomEvent::Xy { x: line[k].x, y: line[k].y, idx: k as usize })
}

/// The events of one line: its begin with the number of coordinates, the coordinates, its end.
pub open spec fn line_events(line: Seq<Coord>, tagged: bool, idx: int) -> Seq<GeomEvent> {
    seq![GeomEvent::LineStringBegin { tagged, size: line.len() as usize, idx: idx as usize }]
        + coord_events(line) + seq![GeomEvent::LineStringEnd { tagged, idx: idx as usize }]
}

/// The events of the first `n` rings of a polygon, untagged, one after the other.
pub open spec fn rings_events(rings: Seq<Seq<Coord>>, n: int) -> Seq<GeomEvent>
    decreases n,
{
    if n <= 0 {
        Seq::empty()
    } else {
        rings_events(rings, n - 1) + line_events(rings[n - 1], false, n - 1)
    }
}

/// The events of one polygon: its begin with the number of rings, the rings, its end.
pub open spec fn polygon_events(rings: Seq<Seq<Coord>>, idx: int) -> Seq<GeomEvent> {
    seq![GeomEvent::PolygonBegin { tagged: true, size: rings.len() as usize, idx: idx as usize }]
        + rings_events(rings, rings.len() as int) + seq![
        GeomEvent::PolygonEnd { tagged: true, idx: idx as usize },
    ]
}

/// The events of the first `n` polygons, one after the other.
pub open spec fn polygons_events(polygons: Seq<Seq<Seq<Coord>>>, n: int) -> Seq<GeomEvent>
    decreases n,
{
    if n <= 0 {
        Seq::empty()
    } else {
        polygons_events(polygons, n - 1) + polygon_events(polygons[n - 1], n - 1)
    }
}

/// The position that the end of a collection of `n` items reports: that of its last item.
pub open spec fn collection_end_idx(n: int) -> int {
    if n == 0 {
        0
    } else {
        n - 1
    }
}

/// The events of a collection of polygons.
pub open spec fn polygon_collection_events(polygons: Seq<Seq<Seq<Coord>>>) -> Seq<GeomEvent> {
    seq![GeomEvent::GeometryCollectionBegin { size: polygons.len() as usize, idx: 0 }]
        + polygons_events(polygons, polygons.len() as int) + seq![
        GeomEvent::GeometryCollectionEnd {
            idx: collection_end_idx(polygons.len() as int) as usize,
        },
    ]
}

/// The events of the first `n` lines, tagged, one after the other.
pub open spec fn lines_events(lines: Seq<Seq<Coord>>, n: int) -> Seq<GeomEvent>
    decreases n,
{
    if n <= 0 {
        Seq::empty()
    } else {
        lines_events(lines, n - 1) + line_events(lines[n - 1], true, n - 1)
    }
}

/// The events of a collection of line strings.
pub open spec fn line_collection_events(lines: Seq<Seq<Coord>>) -> Seq<GeomEvent> {
    seq![GeomEvent::GeometryCollectionBegin { size: lines.len() as usize, idx: 0 }] + lines_events(
        lines,
        lines.len() as int,
    ) + seq![
        GeomEvent::GeometryCollectionEnd { idx: collection_end_idx(lines.len() as int) as usize },
    ]
}

/// The valid slots among the first `n` of an array, in order.
pub open spec fn present<T>(slots: Seq<Option<T>>, n: int) -> Seq<T>
    decreases n,
{
    if n <= 0 {
        Seq::empty()
    } else if slots[n - 1] is Some {
        present(slots, n - 1).push(slots[n - 1]->Some_0)
    } else {
        present(slots, n - 1)
    }
}

/// There are no more valid slots than slots.
pub proof fn lemma_present_len<T>(slots: Seq<Option<T>>, n: int)
    requires
        0 <= n <= slots.len(),
    ensures
        present(slots, n).len() <= n,
    decreases n,
{
    if n > 0 {
        lemma_present_len(slots, n - 1);
    }
}

} // verus!
