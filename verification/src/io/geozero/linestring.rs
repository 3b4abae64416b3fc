use crate::array::linestring::LineStringArray;
use crate::builder::linestring::{LineStage, MutableLineStringArray};
use crate::coord::Coord;
use crate::error::GeoArrowError;
use crate::io::geozero::event::{line_collection_events, lines_events, present, GeomEvent};
use crate::io::geozero::polygon::push_line_events;
use crate::offsets::OffsetSize;
use vstd::prelude::*;

verus! {

/// The events of the first `n` lines depend on those lines alone.
pub proof fn lemma_lines_events_prefix(p: Seq<Seq<Coord>>, q: Seq<Seq<Coord>>, n: int)
    requires
        n <= p.len(),
        n <= q.len(),
        forall|i: int| 0 <= i < n ==> p[i] == q[i],
    ensures
        lines_events(p, n) == lines_events(q, n),
    decreases n,
{
    if n > 0 {
        lemma_lines_events_prefix(p, q, n - 1);
    }
}

impl<O: OffsetSize> LineStringArray<O> {
    /// The number of valid slots.
    pub fn count_valid(&self) -> (n: usize)
        ensures
            n == present(self@, self.spec_len()).len(),
    {
        let len = self.len();
        let mut n: usize = 0;
        let mut i: usize = 0;
        while i < len
            invariant
                len == self.spec_len(),
                i <= len,
                n <= i,
                n == present(self@, i as int).len(),
            decreases len - i,
        {
            if self.is_valid(i) {
                n += 1;
            }
            i += 1;
        }
        n
    }

    /// The array as a stream of events: a collection of its valid line strings, in order.
    ///
    /// Null slots are skipped. Every count comes from a difference of offsets.
    pub fn process_geom(&self) -> (events: Vec<GeomEvent>)
        ensures
            events@ == line_collection_events(present(self@, self.spec_len())),
    {
        let len = self.len();
        let count = self.count_valid();
        let ghost all = present(self@, len as int);
        let mut events: Vec<GeomEvent> = Vec::new();
        events.push(GeomEvent::GeometryCollectionBegin { size: count, idx: 0 });
        let ghost begun = events@;
        let mut emitted: usize = 0;
        let mut i: usize = 0;
        while i < len
            invariant
                len == self.spec_len(),
                i <= len,
                emitted <= i,
                emitted == present(self@, i as int).len(),
                events@ == begun + lines_events(present(self@, i as int), emitted as int),
            decreases len - i,
        {
            if self.is_valid(i) {
                let line = self.value(i);
                push_line_events(&mut events, &line, true, emitted);
                proof {
                    let p = present(self@, i as int);
                    let q = present(self@, i + 1);
                    assert(q == p.push(self@[i as int]->Some_0));
                    lemma_lines_events_prefix(p, q, emitted as int);
                    assert(events@ =~= begun + lines_events(q, emitted + 1));
                }
                emitted += 1;
            }
            i += 1;
        }
        let last = if count == 0 {
            0
        } else {
            count - 1
        };
        events.push(GeomEvent::GeometryCollectionEnd { idx: last });
        assert(events@ =~= line_collection_events(all));
        events
    }
}

/// What replaying all of `events` into an empty builder of offset width `O` gives.
pub open spec fn replay_all<O: OffsetSize>(events: Seq<GeomEvent>) -> Result<
    LineStage,
    GeoArrowError,
> {
    LineStage::empty().replay(events, events.len() as int, O::max_value())
}

/// Once an event is refused, the replay of any longer prefix reports the same refusal.
pub proof fn lemma_replay_stays_err(s: LineStage, events: Seq<GeomEvent>, i: int, n: int, max: int)
    requires
        0 <= i <= n,
        s.replay(events, i, max) is Err,
    ensures
        s.replay(events, n, max) == s.replay(events, i, max),
    decreases n - i,
{
    if i < n {
        lemma_replay_stays_err(s, events, i, n - 1, max);
    }
}

/// Conversion of a stream of events into a line string array.
pub trait ToGeoArrowLineStringArray<O: OffsetSize> {
    /// The events of the stream.
    spec fn spec_events(&self) -> Seq<GeomEvent>;

    /// The array that the events spell, or the first refusal of the builder. A stream that
    /// stops while coordinates are owed is refused with `Unbalanced`.
    fn to_line_string_array(&self) -> (r: Result<LineStringArray<O>, GeoArrowError>)
        ensures
            match replay_all::<O>(self.spec_events()) {
                Ok(s) => if s.is_balanced() {
                    r is Ok && r->Ok_0@ == s.lines()
                } else {
                    r is Err && r->Err_0 == GeoArrowError::Unbalanced
                },
                Err(e) => r is Err && r->Err_0 == e,
            },
    ;

    /// The builder after it took every event, or its first refusal.
    fn to_mutable_line_string_array(&self) -> (r: Result<MutableLineStringArray<O>, GeoArrowError>)
        ensures
            match replay_all::<O>(self.spec_events()) {
                Ok(s) => r is Ok && r->Ok_0.wf() && r->Ok_0@ == s,
                Err(e) => r is Err && r->Err_0 == e,
            },
    ;
}

impl<O: OffsetSize> ToGeoArrowLineStringArray<O> for Vec<GeomEvent> {
    open spec fn spec_events(&self) -> Seq<GeomEvent> {
        self@
    }

    fn to_line_string_array(&self) -> (r: Result<LineStringArray<O>, GeoArrowError>) {
        let built: Result<MutableLineStringArray<O>, GeoArrowError> =
            self.to_mutable_line_string_array();
        match built {
            Ok(b) => b.finish(),
            Err(e) => Err(e),
        }
    }

    fn to_mutable_line_string_array(&self) -> (r: Result<MutableLineStringArray<O>, GeoArrowError>) {
        let mut builder = MutableLineStringArray::<O>::new();
        let n = self.len();
        let mut i: usize = 0;
        while i < n
            invariant
                n == self@.len(),
                i <= n,
                builder.wf(),
                LineStage::empty().replay(self@, i as int, O::max_value()) == Ok::<
                    LineStage,
                    GeoArrowError,
                >(builder@),
            decreases n - i,
        {
            match builder.process(self[i]) {
                Ok(_) => {},
                Err(e) => {
                    proof {
                        lemma_replay_stays_err(
                            LineStage::empty(),
                            self@,
                            i + 1,
                            n as int,
                            O::max_value(),
                        );
                    }
                    return Err(e);
                },
            }
            i += 1;
        }
        Ok(builder)
    }
}

} // verus!
