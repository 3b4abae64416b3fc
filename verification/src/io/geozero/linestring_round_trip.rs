//! Encoding a line string array as events and decoding the events gives the array back.

use crate::array::linestring::LineStringArray;
use crate::builder::linestring::LineStage;
use crate::coord::Coord;
use crate::error::GeoArrowError;
use crate::io::geozero::event::{
    coord_events, line_collection_events, line_events, lines_events, present, GeomEvent,
};
use crate::io::geozero::linestring::replay_all;
use crate::offsets::{lemma_offsets_ordered, OffsetSize};
use vstd::prelude::*;

verus! {

/// Every element of `p`, as a valid slot.
pub open spec fn all_valid<T>(p: Seq<T>) -> Seq<Option<T>> {
    Seq::new(p.len(), |i: int| Some(p[i]))
}

/// The stage after the first `n` of `lines` were pushed onto an empty one.
pub open spec fn stage_of(lines: Seq<Seq<Coord>>, n: int) -> LineStage
    decreases n,
{
    if n <= 0 {
        LineStage::empty()
    } else {
        stage_of(lines, n - 1).with_line(lines[n - 1])
    }
}

/// The stage of `n` lines holds exactly those lines, all valid, and owes nothing.
pub proof fn lemma_stage_of(lines: Seq<Seq<Coord>>, n: int)
    requires
        0 <= n <= lines.len(),
    ensures
        stage_of(lines, n).wf(),
        stage_of(lines, n).is_balanced(),
        stage_of(lines, n).lines() == all_valid(lines.subrange(0, n)),
    decreases n,
{
    if n > 0 {
        lemma_stage_of(lines, n - 1);
        stage_of(lines, n - 1).lemma_with_line(lines[n - 1]);
        assert(all_valid(lines.subrange(0, n - 1)).push(Some(lines[n - 1])) =~= all_valid(
            lines.subrange(0, n),
        ));
    } else {
        assert(stage_of(lines, n).lines() =~= all_valid(lines.subrange(0, n)));
    }
}

/// The stage of the first `n` lines depends on those lines alone.
pub proof fn lemma_stage_of_prefix(p: Seq<Seq<Coord>>, q: Seq<Seq<Coord>>, n: int)
    requires
        n <= p.len(),
        n <= q.len(),
        forall|i: int| 0 <= i < n ==> p[i] == q[i],
    ensures
        stage_of(p, n) == stage_of(q, n),
    decreases n,
{
    if n > 0 {
        lemma_stage_of_prefix(p, q, n - 1);
    }
}

/// The last offset of a stage grows with the number of lines pushed.
pub proof fn lemma_stage_of_grows(lines: Seq<Seq<Coord>>, j: int, n: int)
    requires
        0 <= j <= n,
    ensures
        stage_of(lines, j).geom_offsets.last() <= stage_of(lines, n).geom_offsets.last(),
    decreases n - j,
{
    if j < n {
        lemma_stage_of_grows(lines, j, n - 1);
    }
}

/// Replaying `a` and then `b` is replaying `a + b`.
pub proof fn lemma_replay_concat(s: LineStage, a: Seq<GeomEvent>, b: Seq<GeomEvent>, j: int, max: int)
    requires
        0 <= j <= b.len(),
    ensures
        s.replay(a + b, a.len() + j, max) == match s.replay(a, a.len() as int, max) {
            Ok(t) => t.replay(b, j, max),
            Err(e) => Err(e),
        },
    decreases j,
{
    if j > 0 {
        lemma_replay_concat(s, a, b, j - 1, max);
        assert((a + b)[a.len() + j - 1] == b[j - 1]);
    } else {
        lemma_replay_prefix(s, a + b, a, a.len() as int, max);
    }
}

/// The replay of the first `n` events depends on those events alone.
pub proof fn lemma_replay_prefix(s: LineStage, p: Seq<GeomEvent>, q: Seq<GeomEvent>, n: int, max: int)
    requires
        n <= p.len(),
        n <= q.len(),
        forall|i: int| 0 <= i < n ==> p[i] == q[i],
    ensures
        s.replay(p, n, max) == s.replay(q, n, max),
    decreases n,
{
    if n > 0 {
        lemma_replay_prefix(s, p, q, n - 1, max);
    }
}

/// The events of one line, replayed onto a balanced stage with room for it, push the line.
pub proof fn lemma_replay_line(s: LineStage, line: Seq<Coord>, tagged: bool, idx: int, max: int)
    requires
        s.wf(),
        s.is_balanced(),
        line.len() <= usize::MAX,
        s.geom_offsets.last() + line.len() <= max,
    ensures
        s.replay(
            line_events(line, tagged, idx),
            line_events(line, tagged, idx).len() as int,
            max,
        ) == Ok::<LineStage, GeoArrowError>(s.with_line(line)),
{
    let events = line_events(line, tagged, idx);
    let n = line.len() as int;
    let u = s.announce_line(n);
    assert(events.len() == n + 2);
    assert(events[0] == GeomEvent::LineStringBegin {
        tagged,
        size: line.len() as usize,
        idx: idx as usize,
    });
    assert(s.replay(events, 0, max) == Ok::<LineStage, GeoArrowError>(s));
    assert(s.replay(events, 1, max) == Ok::<LineStage, GeoArrowError>(u));
    lemma_replay_coords(s, line, tagged, idx, max, n);
    let full = LineStage { coords: u.coords + line.subrange(0, n), ..u };
    assert(line.subrange(0, n) =~= line);
    assert(full =~= s.with_line(line));
    assert(events[n + 1] == GeomEvent::LineStringEnd { tagged, idx: idx as usize });
    assert(s.replay(events, n + 2, max) == full.step(events[n + 1], max));
}

/// After its begin and its first `k` coordinates, a line is announced and has `k`
/// coordinates in place.
pub proof fn lemma_replay_coords(
    s: LineStage,
    line: Seq<Coord>,
    tagged: bool,
    idx: int,
    max: int,
    k: int,
)
    requires
        s.wf(),
        s.is_balanced(),
        line.len() <= usize::MAX,
        s.geom_offsets.last() + line.len() <= max,
        0 <= k <= line.len(),
    ensures
        s.replay(line_events(line, tagged, idx), 1 + k, max) == Ok::<LineStage, GeoArrowError>(
            LineStage {
                coords: s.announce_line(line.len() as int).coords + line.subrange(0, k),
                ..s.announce_line(line.len() as int)
            },
        ),
    decreases k,
{
    let events = line_events(line, tagged, idx);
    let u = s.announce_line(line.len() as int);
    if k > 0 {
        lemma_replay_coords(s, line, tagged, idx, max, k - 1);
        let before = LineStage { coords: u.coords + line.subrange(0, k - 1), ..u };
        assert(events[k] == coord_events(line)[k - 1]);
        assert(before.owed_coords() == line.len() - (k - 1));
        assert(before.add_xy(line[k - 1]).coords =~= u.coords + line.subrange(0, k));
    } else {
        assert(events[0] == GeomEvent::LineStringBegin {
            tagged,
            size: line.len() as usize,
            idx: idx as usize,
        });
        assert(s.replay(events, 0, max) == Ok::<LineStage, GeoArrowError>(s));
        assert(u.coords + line.subrange(0, 0) =~= u.coords);
    }
}

/// The events of `n` lines, replayed onto an empty stage with room for them, push the lines.
pub proof fn lemma_replay_lines(lines: Seq<Seq<Coord>>, n: int, max: int)
    requires
        0 <= n <= lines.len(),
        stage_of(lines, n).geom_offsets.last() <= max,
        stage_of(lines, n).geom_offsets.last() <= usize::MAX,
    ensures
        LineStage::empty().replay(lines_events(lines, n), lines_events(lines, n).len() as int, max)
            == Ok::<LineStage, GeoArrowError>(stage_of(lines, n)),
    decreases n,
{
    if n > 0 {
        let before = stage_of(lines, n - 1);
        lemma_stage_of(lines, n - 1);
        crate::builder::staging::lemma_staged_last(before.geom_offsets);
        lemma_replay_lines(lines, n - 1, max);
        lemma_replay_line(before, lines[n - 1], true, n - 1, max);
        let a = lines_events(lines, n - 1);
        let b = line_events(lines[n - 1], true, n - 1);
        lemma_replay_concat(LineStage::empty(), a, b, b.len() as int, max);
    }
}

/// The events of a collection of lines, replayed onto an empty stage with room for them,
/// give the stage of those lines.
pub proof fn lemma_replay_collection(lines: Seq<Seq<Coord>>, max: int)
    requires
        stage_of(lines, lines.len() as int).geom_offsets.last() <= max,
        stage_of(lines, lines.len() as int).geom_offsets.last() <= usize::MAX,
    ensures
        LineStage::empty().replay(
            line_collection_events(lines),
            line_collection_events(lines).len() as int,
            max,
        ) == Ok::<LineStage, GeoArrowError>(stage_of(lines, lines.len() as int)),
{
    let n = lines.len() as int;
    let begin = seq![GeomEvent::GeometryCollectionBegin { size: lines.len() as usize, idx: 0 }];
    let body = lines_events(lines, n);
    let end = seq![
        GeomEvent::GeometryCollectionEnd {
            idx: crate::io::geozero::event::collection_end_idx(n) as usize,
        },
    ];
    let empty = LineStage::empty();
    lemma_replay_lines(lines, n, max);
    assert(empty.replay(begin, 0, max) == Ok::<LineStage, GeoArrowError>(empty));
    assert(empty.replay(begin, 1, max) == Ok::<LineStage, GeoArrowError>(empty));
    lemma_replay_concat(empty, begin, body, body.len() as int, max);
    let s = stage_of(lines, n);
    assert(s.replay(end, 0, max) == Ok::<LineStage, GeoArrowError>(s));
    assert(s.replay(end, 1, max) == Ok::<LineStage, GeoArrowError>(s));
    lemma_replay_concat(empty, begin + body, end, 1, max);
    assert(line_collection_events(lines) =~= begin + body + end);
}

/// The valid line strings among the first `k` slots of an array hold no more coordinates
/// than the offsets of those slots span.
pub proof fn lemma_present_fits<O: OffsetSize>(a: LineStringArray<O>, k: int)
    requires
        a.wf(),
        0 <= k <= a.spec_len(),
    ensures
        stage_of(present(a@, k), present(a@, k).len() as int).geom_offsets.last()
            <= a.spec_offsets()[k] - a.spec_offsets()[0],
    decreases k,
{
    if k > 0 {
        lemma_present_fits(a, k - 1);
        lemma_offsets_ordered(a.spec_offsets(), k - 1, k);
        lemma_offsets_ordered(a.spec_offsets(), k, a.spec_len());
        let p = present(a@, k - 1);
        let q = present(a@, k);
        if a@[k - 1] is Some {
            lemma_stage_of_prefix(p, q, p.len() as int);
            assert(a@[k - 1]->Some_0 == a.spec_value(k - 1));
        }
    }
}

/// Encoding an array as events and decoding them gives back its valid line strings, in
/// order and all valid; an array without null slots comes back as it was.
pub proof fn lemma_events_round_trip<O: OffsetSize>(a: LineStringArray<O>)
    requires
        a.wf(),
    ensures
        ({
            let sent = present(a@, a.spec_len());
            let back = replay_all::<O>(line_collection_events(sent));
            &&& back is Ok
            &&& back->Ok_0.is_balanced()
            &&& back->Ok_0.lines() == all_valid(sent)
            &&& (forall|i: int| 0 <= i < a.spec_len() ==> a.spec_is_valid(i)) ==> back->Ok_0.lines()
                == a@
        }),
{
    let n = a.spec_len();
    let sent = present(a@, n);
    lemma_present_fits(a, n);
    lemma_offsets_ordered(a.spec_offsets(), 0, n);
    lemma_replay_collection(sent, O::max_value());
    lemma_stage_of(sent, sent.len() as int);
    assert(sent.subrange(0, sent.len() as int) =~= sent);
    if forall|i: int| 0 <= i < n ==> a.spec_is_valid(i) {
        lemma_present_all(a@, n);
        assert(a@.subrange(0, n) =~= a@);
    }
}

/// Where the first `n` slots are all valid, they are all present.
pub proof fn lemma_present_all<T>(slots: Seq<Option<T>>, n: int)
    requires
        0 <= n <= slots.len(),
        forall|i: int| 0 <= i < n ==> slots[i] is Some,
    ensures
        all_valid(present(slots, n)) == slots.subrange(0, n),
    decreases n,
{
    if n > 0 {
        lemma_present_all(slots, n - 1);
        assert(all_valid(present(slots, n - 1)).push(slots[n - 1]) =~= slots.subrange(0, n));
        assert(all_valid(present(slots, n)) =~= all_valid(present(slots, n - 1)).push(
            slots[n - 1],
        ));
    } else {
        assert(all_valid(present(slots, n)) =~= slots.subrange(0, n));
    }
}

/// The valid slots of slots that are all valid are the slots themselves.
pub proof fn lemma_present_of_all_valid<T>(p: Seq<T>, n: int)
    requires
        0 <= n <= p.len(),
    ensures
        present(all_valid(p), n) == p.subrange(0, n),
    decreases n,
{
    if n > 0 {
        lemma_present_of_all_valid(p, n - 1);
        assert(p.subrange(0, n - 1).push(p[n - 1]) =~= p.subrange(0, n));
    } else {
        assert(present(all_valid(p), n) =~= p.subrange(0, n));
    }
}

/// The events of a collection of line strings, decoded into an array and encoded again,
/// come back unchanged: the same line strings in the same order, each with the same
/// coordinates. It holds of every collection that fits the offset width and the machine.
pub proof fn lemma_events_come_back<O: OffsetSize>(lines: Seq<Seq<Coord>>, a: LineStringArray<O>)
    requires
        stage_of(lines, lines.len() as int).geom_offsets.last() <= O::max_value(),
        stage_of(lines, lines.len() as int).geom_offsets.last() <= usize::MAX,
        a@ == replay_all::<O>(line_collection_events(lines))->Ok_0.lines(),
    ensures
        replay_all::<O>(line_collection_events(lines)) is Ok,
        replay_all::<O>(line_collection_events(lines))->Ok_0.is_balanced(),
        a@ == all_valid(lines),
        present(a@, a@.len() as int) == lines,
        line_collection_events(present(a@, a@.len() as int)) == line_collection_events(lines),
{
    let n = lines.len() as int;
    lemma_replay_collection(lines, O::max_value());
    lemma_stage_of(lines, n);
    assert(lines.subrange(0, n) =~= lines);
    lemma_present_of_all_valid(lines, n);
}

} // verus!
