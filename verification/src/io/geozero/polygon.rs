use crate::array::polygon::PolygonArray;
use crate::builder::polygon::{MutablePolygonArray, PolygonStage};
use crate::coord::Coord;
use crate::error::GeoArrowError;
use crate::io::geozero::event::{
    coord_events, line_events, polygon_collection_events, polygon_events, polygons_events, present,
    rings_events, GeomEvent,
};
use crate::offsets::OffsetSize;
use crate::scalar::linestring::LineString;
use crate::scalar::polygon::Polygon;
use vstd::prelude::*;

verus! {

/// The events of the first `n` rings depend on those rings alone.
pub proof fn lemma_rings_events_prefix(p: Seq<Seq<Coord>>, q: Seq<Seq<Coord>>, n: int)
    requires
        n <= p.len(),
        n <= q.len(),
        forall|i: int| 0 <= i < n ==> p[i] == q[i],
    ensures
        rings_events(p, n) == rings_events(q, n),
    decreases n,
{
    if n > 0 {
        lemma_rings_events_prefix(p, q, n - 1);
    }
}

/// The events of the first `n` polygons depend on those polygons alone.
pub proof fn lemma_polygons_events_prefix(
    p: Seq<Seq<Seq<Coord>>>,
    q: Seq<Seq<Seq<Coord>>>,
    n: int,
)
    requires
        n <= p.len(),
        n <= q.len(),
        forall|i: int| 0 <= i < n ==> p[i] == q[i],
    ensures
        polygons_events(p, n) == polygons_events(q, n),
    decreases n,
{
    if n > 0 {
        lemma_polygons_events_prefix(p, q, n - 1);
    }
}

/// Appends the events of one line.
pub fn push_line_events<O: OffsetSize>(
    events: &mut Vec<GeomEvent>,
    line: &LineString<'_, O>,
    tagged: bool,
    idx: usize,
)
    ensures
        final(events)@ == old(events)@ + line_events(line@, tagged, idx as int),
{
    let ghost start = events@;
    let n = line.num_coords();
    events.push(GeomEvent::LineStringBegin { tagged, size: n, idx });
    let ghost begun = events@;
    let mut k: usize = 0;
    while k < n
        invariant
            n == line@.len(),
            k <= n,
            events@ == begun + coord_events(line@).subrange(0, k as int),
        decreases n - k,
    {
        let c = line.coord(k).unwrap();
        events.push(GeomEvent::Xy { x: c.x, y: c.y, idx: k });
        assert(events@ =~= begun + coord_events(line@).subrange(0, k + 1));
        k += 1;
    }
    events.push(GeomEvent::LineStringEnd { tagged, idx });
    assert(coord_events(line@).subrange(0, n as int) =~= coord_events(line@));
    assert(events@ =~= start + line_events(line@, tagged, idx as int));
}

/// Appends the events of one polygon.
pub fn push_polygon_events<O: OffsetSize>(
    events: &mut Vec<GeomEvent>,
    polygon: &Polygon<'_, O>,
    idx: usize,
)
    ensures
        final(events)@ == old(events)@ + polygon_events(polygon@, idx as int),
{
    let ghost start = events@;
    let n = polygon.num_rings();
    events.push(GeomEvent::PolygonBegin { tagged: true, size: n, idx });
    let ghost begun = events@;
    let mut r: usize = 0;
    while r < n
        invariant
            n == polygon@.len(),
            r <= n,
            events@ == begun + rings_events(polygon@, r as int),
        decreases n - r,
    {
        let ring = polygon.ring(r).unwrap();
        push_line_events(events, &ring, false, r);
        assert(events@ =~= begun + rings_events(polygon@, r + 1));
        r += 1;
    }
    events.push(GeomEvent::PolygonEnd { tagged: true, idx });
    assert(events@ =~= start + polygon_events(polygon@, idx as int));
}

impl<O: OffsetSize> PolygonArray<O> {
    /// The number of valid slots.
    pub fn count_valid(&self) -> (n: usize)
        ensures
            n == present(self@, self.spec_len()).len(),
    {
        let len = self.len();
        let mut n: usize = 0;
        let mut i: usize = 0;
        while i < len
            invariant
                len == self.spec_len(),
                i <= len,
                n <= i,
                n == present(self@, i as int).len(),
            decreases len - i,
        {
            if self.is_valid(i) {
                n += 1;
            }
            i += 1;
        }
        n
    }

    /// The array as a stream of events: a collection of its valid polygons, in order.
    ///
    /// Null slots are skipped. Every count comes from a difference of offsets.
    pub fn process_geom(&self) -> (events: Vec<GeomEvent>)
        ensures
            events@ == polygon_collection_events(present(self@, self.spec_len())),
    {
        let len = self.len();
        let count = self.count_valid();
        let ghost all = present(self@, len as int);
        let mut events: Vec<GeomEvent> = Vec::new();
        events.push(GeomEvent::GeometryCollectionBegin { size: count, idx: 0 });
        let ghost begun = events@;
        let mut emitted: usize = 0;
        let mut i: usize = 0;
        while i < len
            invariant
                len == self.spec_len(),
                i <= len,
                emitted <= i,
                emitted == present(self@, i as int).len(),
                events@ == begun + polygons_events(present(self@, i as int), emitted as int),
            decreases len - i,
        {
            if self.is_valid(i) {
                let polygon = self.value(i);
                push_polygon_events(&mut events, &polygon, emitted);
                proof {
                    let p = present(self@, i as int);
                    let q = present(self@, i + 1);
                    assert(q == p.push(self@[i as int]->Some_0));
                    lemma_polygons_events_prefix(p, q, emitted as int);
                    assert(events@ =~= begun + polygons_events(q, emitted + 1));
                }
                emitted += 1;
            }
            i += 1;
        }
        let last = if count == 0 {
            0
        } else {
            count - 1
        };
        events.push(GeomEvent::GeometryCollectionEnd { idx: last });
        assert(events@ =~= polygon_collection_events(all));
        events
    }
}

/// What replaying all of `events` into an empty builder of offset width `O` gives.
pub open spec fn replay_all<O: OffsetSize>(events: Seq<GeomEvent>) -> Result<
    PolygonStage,
    GeoArrowError,
> {
    PolygonStage::empty().replay(events, events.len() as int, O::max_value())
}

/// Once an event is refused, the replay of any longer prefix reports the same refusal.
pub proof fn lemma_replay_stays_err(s: PolygonStage, events: Seq<GeomEvent>, i: int, n: int, max: int)
    requires
        0 <= i <= n,
        s.replay(events, i, max) is Err,
    ensures
        s.replay(events, n, max) == s.replay(events, i, max),
    decreases n - i,
{
    if i < n {
        lemma_replay_stays_err(s, events, i, n - 1, max);
    }
}

/// Conversion of a stream of events into a polygon array.
pub trait ToGeoArrowPolygonArray<O: OffsetSize> {
    /// The events of the stream.
    spec fn spec_events(&self) -> Seq<GeomEvent>;

    /// The array that the events spell, or the first refusal of the builder. A stream that
    /// stops while rings or coordinates are owed is refused with `Unbalanced`.
    fn to_line_string_array(&self) -> (r: Result<PolygonArray<O>, GeoArrowError>)
        ensures
            match replay_all::<O>(self.spec_events()) {
                Ok(s) => if s.is_balanced() {
                    r is Ok && r->Ok_0@ == s.polygons()
                } else {
                    r is Err && r->Err_0 == GeoArrowError::Unbalanced
                },
                Err(e) => r is Err && r->Err_0 == e,
            },
    ;

    /// The builder after it took every event, or its first refusal.
    fn to_mutable_line_string_array(&self) -> (r: Result<MutablePolygonArray<O>, GeoArrowError>)
        ensures
            match replay_all::<O>(self.spec_events()) {
                Ok(s) => r is Ok && r->Ok_0.wf() && r->Ok_0@ == s,
                Err(e) => r is Err && r->Err_0 == e,
            },
    ;
}

impl<O: OffsetSize> ToGeoArrowPolygonArray<O> for Vec<GeomEvent> {
    open spec fn spec_events(&self) -> Seq<GeomEvent> {
        self@
    }

    fn to_line_string_array(&self) -> (r: Result<PolygonArray<O>, GeoArrowError>) {
        let built: Result<MutablePolygonArray<O>, GeoArrowError> =
            self.to_mutable_line_string_array();
        match built {
            Ok(b) => b.finish(),
            Err(e) => Err(e),
        }
    }

    fn to_mutable_line_string_array(&self) -> (r: Result<MutablePolygonArray<O>, GeoArrowError>) {
        let mut builder = MutablePolygonArray::<O>::new();
        let n = self.len();
        let mut i: usize = 0;
        while i < n
            invariant
                n == self@.len(),
                i <= n,
                builder.wf(),
                PolygonStage::empty().replay(self@, i as int, O::max_value()) == Ok::<
                    PolygonStage,
                    GeoArrowError,
                >(builder@),
            decreases n - i,
        {
            match builder.process(self[i]) {
                Ok(_) => {},
                Err(e) => {
                    proof {
                        lemma_replay_stays_err(
                            PolygonStage::empty(),
                            self@,
                            i + 1,
                            n as int,
                            O::max_value(),
                        );
                    }
                    return Err(e);
                },
            }
            i += 1;
        }
        Ok(builder)
    }
}

} // verus!
