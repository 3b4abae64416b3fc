//! Encoding a polygon array as events and decoding the events gives the array back.

use crate::array::polygon::PolygonArray;
use crate::builder::polygon::{flat, PolygonStage};
use crate::builder::staging::lemma_staged_last;
use crate::coord::Coord;
use crate::error::GeoArrowError;
use crate::io::geozero::event::{
    collection_end_idx, coord_events, line_events, polygon_collection_events, polygon_events,
    polygons_events, present, rings_events, GeomEvent,
};
use crate::io::geozero::linestring_round_trip::{
    all_valid, lemma_present_all, lemma_present_of_all_valid,
};
use crate::io::geozero::polygon::replay_all;
use crate::offsets::{lemma_offsets_ordered, OffsetSize};
use vstd::prelude::*;

verus! {

/// The stage after the first `n` of `polygons` were pushed onto an empty one.
pub open spec fn stage_of(polygons: Seq<Seq<Seq<Coord>>>, n: int) -> PolygonStage
    decreases n,
{
    if n <= 0 {
        PolygonStage::empty()
    } else {
        stage_of(polygons, n - 1).with_polygon(polygons[n - 1])
    }
}

/// The stage of `n` polygons holds exactly those polygons, all valid, and owes nothing.
pub proof fn lemma_stage_of(polygons: Seq<Seq<Seq<Coord>>>, n: int)
    requires
        0 <= n <= polygons.len(),
    ensures
        stage_of(polygons, n).wf(),
        stage_of(polygons, n).is_balanced(),
        stage_of(polygons, n).polygons() == all_valid(polygons.subrange(0, n)),
    decreases n,
{
    if n > 0 {
        lemma_stage_of(polygons, n - 1);
        stage_of(polygons, n - 1).lemma_with_polygon(polygons[n - 1]);
        assert(all_valid(polygons.subrange(0, n - 1)).push(Some(polygons[n - 1])) =~= all_valid(
            polygons.subrange(0, n),
        ));
    } else {
        assert(stage_of(polygons, n).polygons() =~= all_valid(polygons.subrange(0, n)));
    }
}

/// The stage of the first `n` polygons depends on those polygons alone.
pub proof fn lemma_stage_of_prefix(p: Seq<Seq<Seq<Coord>>>, q: Seq<Seq<Seq<Coord>>>, n: int)
    requires
        n <= p.len(),
        n <= q.len(),
        forall|i: int| 0 <= i < n ==> p[i] == q[i],
    ensures
        stage_of(p, n) == stage_of(q, n),
    decreases n,
{
    if n > 0 {
        lemma_stage_of_prefix(p, q, n - 1);
    }
}

/// The last offsets of a stage grow with the number of polygons pushed.
pub proof fn lemma_stage_of_grows(polygons: Seq<Seq<Seq<Coord>>>, j: int, n: int)
    requires
        0 <= j <= n <= polygons.len(),
    ensures
        stage_of(polygons, j).geom_offsets.last() <= stage_of(polygons, n).geom_offsets.last(),
        stage_of(polygons, j).ring_offsets.last() <= stage_of(polygons, n).ring_offsets.last(),
    decreases n - j,
{
    if j < n {
        lemma_stage_of_grows(polygons, j, n - 1);
        lemma_stage_of(polygons, n - 1);
        stage_of(polygons, n - 1).lemma_with_polygon(polygons[n - 1]);
    }
}

/// The replay of the first `n` events depends on those events alone.
pub proof fn lemma_replay_prefix(
    s: PolygonStage,
    p: Seq<GeomEvent>,
    q: Seq<GeomEvent>,
    n: int,
    max: int,
)
    requires
        n <= p.len(),
        n <= q.len(),
        forall|i: int| 0 <= i < n ==> p[i] == q[i],
    ensures
        s.replay(p, n, max) == s.replay(q, n, max),
    decreases n,
{
    if n > 0 {
        lemma_replay_prefix(s, p, q, n - 1, max);
    }
}

/// Replaying `a` and then `b` is replaying `a + b`.
pub proof fn lemma_replay_concat(
    s: PolygonStage,
    a: Seq<GeomEvent>,
    b: Seq<GeomEvent>,
    j: int,
    max: int,
)
    requires
        0 <= j <= b.len(),
    ensures
        s.replay(a + b, a.len() + j, max) == match s.replay(a, a.len() as int, max) {
            Ok(t) => t.replay(b, j, max),
            Err(e) => Err(e),
        },
    decreases j,
{
    if j > 0 {
        lemma_replay_concat(s, a, b, j - 1, max);
        assert((a + b)[a.len() + j - 1] == b[j - 1]);
    } else {
        lemma_replay_prefix(s, a + b, a, a.len() as int, max);
    }
}

/// After its begin and its first `k` coordinates, a ring is announced and has `k`
/// coordinates in place.
pub proof fn lemma_replay_coords(
    s: PolygonStage,
    line: Seq<Coord>,
    tagged: bool,
    idx: int,
    max: int,
    k: int,
)
    requires
        s.wf(),
        s.owed_coords() == 0,
        s.owed_rings() > 0,
        line.len() <= usize::MAX,
        s.ring_offsets.last() + line.len() <= max,
        0 <= k <= line.len(),
    ensures
        s.replay(line_events(line, tagged, idx), 1 + k, max) == Ok::<PolygonStage, GeoArrowError>(
            PolygonStage {
                coords: s.coords + line.subrange(0, k),
                ..s.announce_ring(line.len() as int)
            },
        ),
    decreases k,
{
    let events = line_events(line, tagged, idx);
    let u = s.announce_ring(line.len() as int);
    if k > 0 {
        lemma_replay_coords(s, line, tagged, idx, max, k - 1);
        let before = PolygonStage { coords: s.coords + line.subrange(0, k - 1), ..u };
        assert(events[k] == coord_events(line)[k - 1]);
        assert(before.owed_coords() == line.len() - (k - 1));
        assert(before.add_xy(line[k - 1]).coords =~= s.coords + line.subrange(0, k));
    } else {
        assert(events[0] == GeomEvent::LineStringBegin {
            tagged,
            size: line.len() as usize,
            idx: idx as usize,
        });
        assert(s.replay(events, 0, max) == Ok::<PolygonStage, GeoArrowError>(s));
        assert(s.coords + line.subrange(0, 0) =~= s.coords);
    }
}

/// The events of one ring, replayed onto a stage that owes a ring and has room for it,
/// push the ring.
pub proof fn lemma_replay_ring(s: PolygonStage, line: Seq<Coord>, tagged: bool, idx: int, max: int)
    requires
        s.wf(),
        s.owed_coords() == 0,
        s.owed_rings() > 0,
        line.len() <= usize::MAX,
        s.ring_offsets.last() + line.len() <= max,
    ensures
        s.replay(
            line_events(line, tagged, idx),
            line_events(line, tagged, idx).len() as int,
            max,
        ) == Ok::<PolygonStage, GeoArrowError>(s.with_ring(line)),
{
    let events = line_events(line, tagged, idx);
    let n = line.len() as int;
    let u = s.announce_ring(n);
    assert(events.len() == n + 2);
    lemma_replay_coords(s, line, tagged, idx, max, n);
    let full = PolygonStage { coords: s.coords + line.subrange(0, n), ..u };
    assert(line.subrange(0, n) =~= line);
    assert(full =~= s.with_ring(line));
    assert(events[n + 1] == GeomEvent::LineStringEnd { tagged, idx: idx as usize });
    assert(s.replay(events, n + 2, max) == full.step(events[n + 1], max));
}

/// The events of `k` rings, replayed onto a stage that owes as many and has room for them,
/// push the rings.
pub proof fn lemma_replay_rings(u: PolygonStage, rings: Seq<Seq<Coord>>, k: int, max: int)
    requires
        u.wf(),
        u.owed_coords() == 0,
        0 <= k <= u.owed_rings(),
        k <= rings.len(),
        u.ring_offsets.last() + flat(rings, k).len() <= max,
        u.ring_offsets.last() + flat(rings, k).len() <= usize::MAX,
    ensures
        u.replay(rings_events(rings, k), rings_events(rings, k).len() as int, max) == Ok::<
            PolygonStage,
            GeoArrowError,
        >(u.with_rings(rings, k)),
    decreases k,
{
    if k > 0 {
        let before = u.with_rings(rings, k - 1);
        u.lemma_with_rings(rings, k - 1);
        lemma_staged_last(u.ring_offsets);
        lemma_replay_rings(u, rings, k - 1, max);
        assert(before.ring_offsets[u.ring_offsets.len() - 1 + (k - 1)] == u.ring_offsets.last()
            + flat(rings, k - 1).len());
        lemma_replay_ring(before, rings[k - 1], false, k - 1, max);
        let a = rings_events(rings, k - 1);
        let b = line_events(rings[k - 1], false, k - 1);
        lemma_replay_concat(u, a, b, b.len() as int, max);
    }
}

/// The events of one polygon, replayed onto a balanced stage with room for it, push the
/// polygon.
pub proof fn lemma_replay_polygon(s: PolygonStage, rings: Seq<Seq<Coord>>, idx: int, max: int)
    requires
        s.wf(),
        s.is_balanced(),
        s.geom_offsets.last() + rings.len() <= max,
        rings.len() <= usize::MAX,
        s.ring_offsets.last() + flat(rings, rings.len() as int).len() <= max,
        s.ring_offsets.last() + flat(rings, rings.len() as int).len() <= usize::MAX,
    ensures
        s.replay(polygon_events(rings, idx), polygon_events(rings, idx).len() as int, max) == Ok::<
            PolygonStage,
            GeoArrowError,
        >(s.with_polygon(rings)),
{
    let n = rings.len() as int;
    let begin = seq![
        GeomEvent::PolygonBegin { tagged: true, size: rings.len() as usize, idx: idx as usize },
    ];
    let body = rings_events(rings, n);
    let end = seq![GeomEvent::PolygonEnd { tagged: true, idx: idx as usize }];
    let u = s.announce_polygon(n);
    let t = s.with_polygon(rings);
    lemma_staged_last(s.geom_offsets);
    lemma_staged_last(s.ring_offsets);
    crate::builder::staging::lemma_staged_push(s.geom_offsets, s.geom_offsets.last() + n);
    s.lemma_with_polygon(rings);
    assert(s.replay(begin, 0, max) == Ok::<PolygonStage, GeoArrowError>(s));
    assert(s.replay(begin, 1, max) == Ok::<PolygonStage, GeoArrowError>(u));
    lemma_replay_rings(u, rings, n, max);
    lemma_replay_concat(s, begin, body, body.len() as int, max);
    assert(t.replay(end, 0, max) == Ok::<PolygonStage, GeoArrowError>(t));
    assert(t.replay(end, 1, max) == Ok::<PolygonStage, GeoArrowError>(t));
    lemma_replay_concat(s, begin + body, end, 1, max);
    assert(polygon_events(rings, idx) =~= begin + body + end);
}

/// The events of `n` polygons, replayed onto an empty stage with room for them, push the
/// polygons.
pub proof fn lemma_replay_polygons(polygons: Seq<Seq<Seq<Coord>>>, n: int, max: int)
    requires
        0 <= n <= polygons.len(),
        stage_of(polygons, n).geom_offsets.last() <= max,
        stage_of(polygons, n).geom_offsets.last() <= usize::MAX,
        stage_of(polygons, n).ring_offsets.last() <= max,
        stage_of(polygons, n).ring_offsets.last() <= usize::MAX,
    ensures
        PolygonStage::empty().replay(
            polygons_events(polygons, n),
            polygons_events(polygons, n).len() as int,
            max,
        ) == Ok::<PolygonStage, GeoArrowError>(stage_of(polygons, n)),
    decreases n,
{
    if n > 0 {
        let before = stage_of(polygons, n - 1);
        lemma_stage_of(polygons, n - 1);
        lemma_stage_of_grows(polygons, n - 1, n);
        before.lemma_with_polygon(polygons[n - 1]);
        lemma_staged_last(before.geom_offsets);
        lemma_staged_last(before.ring_offsets);
        lemma_replay_polygons(polygons, n - 1, max);
        lemma_replay_polygon(before, polygons[n - 1], n - 1, max);
        let a = polygons_events(polygons, n - 1);
        let b = polygon_events(polygons[n - 1], n - 1);
        lemma_replay_concat(PolygonStage::empty(), a, b, b.len() as int, max);
    }
}

/// The events of a collection of polygons, replayed onto an empty stage with room for them,
/// give the stage of those polygons.
pub proof fn lemma_replay_collection(polygons: Seq<Seq<Seq<Coord>>>, max: int)
    requires
        stage_of(polygons, polygons.len() as int).geom_offsets.last() <= max,
        stage_of(polygons, polygons.len() as int).geom_offsets.last() <= usize::MAX,
        stage_of(polygons, polygons.len() as int).ring_offsets.last() <= max,
        stage_of(polygons, polygons.len() as int).ring_offsets.last() <= usize::MAX,
    ensures
        PolygonStage::empty().replay(
            polygon_collection_events(polygons),
            polygon_collection_events(polygons).len() as int,
            max,
        ) == Ok::<PolygonStage, GeoArrowError>(stage_of(polygons, polygons.len() as int)),
{
    let n = polygons.len() as int;
    let begin = seq![GeomEvent::GeometryCollectionBegin { size: polygons.len() as usize, idx: 0 }];
    let body = polygons_events(polygons, n);
    let end = seq![GeomEvent::GeometryCollectionEnd { idx: collection_end_idx(n) as usize }];
    let empty = PolygonStage::empty();
    lemma_replay_polygons(polygons, n, max);
    assert(empty.replay(begin, 0, max) == Ok::<PolygonStage, GeoArrowError>(empty));
    assert(empty.replay(begin, 1, max) == Ok::<PolygonStage, GeoArrowError>(empty));
    lemma_replay_concat(empty, begin, body, body.len() as int, max);
    let s = stage_of(polygons, n);
    assert(s.replay(end, 0, max) == Ok::<PolygonStage, GeoArrowError>(s));
    assert(s.replay(end, 1, max) == Ok::<PolygonStage, GeoArrowError>(s));
    lemma_replay_concat(empty, begin + body, end, 1, max);
    assert(polygon_collection_events(polygons) =~= begin + body + end);
}

/// The first `r` rings of a slot hold as many coordinates as the ring offsets span.
pub proof fn lemma_slot_coords<O: OffsetSize>(a: PolygonArray<O>, i: int, r: int)
    requires
        a.wf(),
        0 <= i < a.spec_len(),
        0 <= r <= a.spec_value(i).len(),
    ensures
        a.spec_value(i).len() == a.spec_geom_offsets()[i + 1] - a.spec_geom_offsets()[i],
        flat(a.spec_value(i), r).len() == a.spec_ring_offsets()[a.spec_geom_offsets()[i] + r]
            - a.spec_ring_offsets()[a.spec_geom_offsets()[i]],
    decreases r,
{
    let g = a.spec_geom_offsets();
    let ro = a.spec_ring_offsets();
    lemma_offsets_ordered(g, i, i + 1);
    lemma_offsets_ordered(g, i + 1, a.spec_len());
    if r > 0 {
        lemma_slot_coords(a, i, r - 1);
        let ring = g[i] + r - 1;
        lemma_offsets_ordered(ro, ring, ring + 1);
        lemma_offsets_ordered(ro, ring + 1, ro.len() - 1);
    }
}

/// The valid polygons among the first `k` slots of an array hold no more rings and no more
/// coordinates than the offsets of those slots span.
pub proof fn lemma_present_fits<O: OffsetSize>(a: PolygonArray<O>, k: int)
    requires
        a.wf(),
        0 <= k <= a.spec_len(),
    ensures
        stage_of(present(a@, k), present(a@, k).len() as int).geom_offsets.last()
            <= a.spec_geom_offsets()[k] - a.spec_geom_offsets()[0],
        stage_of(present(a@, k), present(a@, k).len() as int).ring_offsets.last()
            <= a.spec_ring_offsets()[a.spec_geom_offsets()[k]]
            - a.spec_ring_offsets()[a.spec_geom_offsets()[0]],
    decreases k,
{
    let g = a.spec_geom_offsets();
    let ro = a.spec_ring_offsets();
    if k > 0 {
        lemma_present_fits(a, k - 1);
        lemma_offsets_ordered(g, k - 1, k);
        lemma_offsets_ordered(g, k, a.spec_len());
        lemma_offsets_ordered(ro, g[k - 1], g[k]);
        let p = present(a@, k - 1);
        let q = present(a@, k);
        crate::io::geozero::event::lemma_present_len(a@, k - 1);
        if a@[k - 1] is Some {
            lemma_stage_of_prefix(p, q, p.len() as int);
            let polygon = a.spec_value(k - 1);
            assert(a@[k - 1]->Some_0 == polygon);
            lemma_slot_coords(a, k - 1, polygon.len() as int);
            lemma_stage_of(q, p.len() as int);
            stage_of(q, p.len() as int).lemma_with_polygon(polygon);
        }
    }
}

/// Encoding an array as events and decoding them gives back its valid polygons, in order
/// and all valid; an array without null slots comes back as it was.
pub proof fn lemma_events_round_trip<O: OffsetSize>(a: PolygonArray<O>)
    requires
        a.wf(),
    ensures
        ({
            let sent = present(a@, a.spec_len());
            let back = replay_all::<O>(polygon_collection_events(sent));
            &&& back is Ok
            &&& back->Ok_0.is_balanced()
            &&& back->Ok_0.polygons() == all_valid(sent)
            &&& (forall|i: int| 0 <= i < a.spec_len() ==> a.spec_is_valid(i))
                ==> back->Ok_0.polygons() == a@
        }),
{
    let n = a.spec_len();
    let g = a.spec_geom_offsets();
    let ro = a.spec_ring_offsets();
    let sent = present(a@, n);
    lemma_present_fits(a, n);
    lemma_offsets_ordered(g, 0, n);
    lemma_offsets_ordered(ro, g[0], g[n]);
    lemma_offsets_ordered(ro, g[n], ro.len() - 1);
    lemma_replay_collection(sent, O::max_value());
    lemma_stage_of(sent, sent.len() as int);
    assert(sent.subrange(0, sent.len() as int) =~= sent);
    if forall|i: int| 0 <= i < n ==> a.spec_is_valid(i) {
        lemma_present_all(a@, n);
        assert(a@.subrange(0, n) =~= a@);
    }
}

/// The events of a collection of polygons, decoded into an array and encoded again, come
/// back unchanged: the same polygons in the same order, each with the same rings and every
/// ring with the same coordinates. It holds of every collection that fits the offset width
/// and the machine.
pub proof fn lemma_events_come_back<O: OffsetSize>(
    polygons: Seq<Seq<Seq<Coord>>>,
    a: PolygonArray<O>,
)
    requires
        stage_of(polygons, polygons.len() as int).geom_offsets.last() <= O::max_value(),
        stage_of(polygons, polygons.len() as int).geom_offsets.last() <= usize::MAX,
        stage_of(polygons, polygons.len() as int).ring_offsets.last() <= O::max_value(),
        stage_of(polygons, polygons.len() as int).ring_offsets.last() <= usize::MAX,
        a@ == replay_all::<O>(polygon_collection_events(polygons))->Ok_0.polygons(),
    ensures
        replay_all::<O>(polygon_collection_events(polygons)) is Ok,
        replay_all::<O>(polygon_collection_events(polygons))->Ok_0.is_balanced(),
        a@ == all_valid(polygons),
        present(a@, a@.len() as int) == polygons,
        polygon_collection_events(present(a@, a@.len() as int)) == polygon_collection_events(
            polygons,
        ),
{
    let n = polygons.len() as int;
    lemma_replay_collection(polygons, O::max_value());
    lemma_stage_of(polygons, n);
    assert(polygons.subrange(0, n) =~= polygons);
    lemma_present_of_all_valid(polygons, n);
}

} // verus!
