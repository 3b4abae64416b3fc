use crate::array::polygon::PolygonArray;
use crate::builder::staging::{
    is_staged, last_is, lemma_staged_last, lemma_staged_push, push_empty, push_length, staged_new,
};
use crate::coord::{interleaved_coords, Coord, CoordBuffer, InterleavedCoordBuffer};
use crate::datatypes::CoordType;
use crate::error::GeoArrowError;
use crate::io::geozero::event::GeomEvent;
use crate::offsets::{lemma_monotone_from_steps, offset_ints, OffsetSize, Offsets};
use crate::scalar::polygon::{polygon_at, rings_view};
use crate::validity::{all_set, validity_from_bits};
use vstd::prelude::*;

verus! {

/// The staged buffers of a polygon builder, as mathematical values.
pub struct PolygonStage {
    pub coords: Seq<Coord>,
    pub geom_offsets: Seq<int>,
    pub ring_offsets: Seq<int>,
    pub bits: Seq<bool>,
}

impl PolygonStage {
    /// The stage of an empty builder.
    pub open spec fn empty() -> PolygonStage {
        PolygonStage {
            coords: Seq::empty(),
            geom_offsets: seq![0int],
            ring_offsets: seq![0int],
            bits: Seq::empty(),
        }
    }

    /// What holds between any two operations: both levels of offsets start at zero and never
    /// decrease, there is one bit per slot, and neither rings nor coordinates outnumber what
    /// the level above them announced.
    pub open spec fn wf(self) -> bool {
        &&& is_staged(self.geom_offsets)
        &&& is_staged(self.ring_offsets)
        &&& self.bits.len() == self.geom_offsets.len() - 1
        &&& self.ring_offsets.len() - 1 <= self.geom_offsets.last()
        &&& self.coords.len() <= self.ring_offsets.last()
    }

    /// The number of rings that were announced and not begun yet.
    pub open spec fn owed_rings(self) -> int {
        self.geom_offsets.last() - (self.ring_offsets.len() - 1)
    }

    /// The number of coordinates that were announced and not pushed yet.
    pub open spec fn owed_coords(self) -> int {
        self.ring_offsets.last() - self.coords.len()
    }

    /// Whether nothing is owed.
    pub open spec fn is_balanced(self) -> bool {
        self.owed_rings() == 0 && self.owed_coords() == 0
    }

    /// The polygons that the stage spells, slot by slot.
    pub open spec fn polygons(self) -> Seq<Option<Seq<Seq<Coord>>>> {
        Seq::new(
            self.bits.len(),
            |i: int|
                if self.bits[i] {
                    Some(polygon_at(self.coords, self.ring_offsets, self.geom_offsets, i))
                } else {
                    None
                },
        )
    }

    /// The stage after a valid slot of `n` rings was announced.
    pub open spec fn announce_polygon(self, n: int) -> PolygonStage {
        PolygonStage {
            geom_offsets: self.geom_offsets.push(self.geom_offsets.last() + n),
            bits: self.bits.push(true),
            ..self
        }
    }

    /// The stage after a ring of `n` coordinates was announced.
    pub open spec fn announce_ring(self, n: int) -> PolygonStage {
        PolygonStage { ring_offsets: self.ring_offsets.push(self.ring_offsets.last() + n), ..self }
    }

    /// The stage after one coordinate was pushed.
    pub open spec fn add_xy(self, c: Coord) -> PolygonStage {
        PolygonStage { coords: self.coords.push(c), ..self }
    }

    /// The stage after a null slot was pushed.
    pub open spec fn add_null(self) -> PolygonStage {
        PolygonStage {
            geom_offsets: self.geom_offsets.push(self.geom_offsets.last()),
            bits: self.bits.push(false),
            ..self
        }
    }

    /// The stage after a whole ring was pushed: its announcement and its coordinates.
    pub open spec fn with_ring(self, ring: Seq<Coord>) -> PolygonStage {
        PolygonStage {
            coords: self.coords + ring,
            ring_offsets: self.ring_offsets.push(self.ring_offsets.last() + ring.len()),
            ..self
        }
    }

    /// The stage after the first `n` of `rings` were pushed.
    pub open spec fn with_rings(self, rings: Seq<Seq<Coord>>, n: int) -> PolygonStage
        decreases n,
    {
        if n <= 0 {
            self
        } else {
            self.with_rings(rings, n - 1).with_ring(rings[n - 1])
        }
    }

    /// The stage after a whole valid polygon was pushed.
    pub open spec fn with_polygon(self, rings: Seq<Seq<Coord>>) -> PolygonStage {
        self.announce_polygon(rings.len() as int).with_rings(rings, rings.len() as int)
    }

    /// What one event does to the stage, where offsets may go up to `max`.
    ///
    /// An event that arrives out of order is refused with `Unbalanced`, and an announcement
    /// that would take an offset above `max` with `Overflow`.
    pub open spec fn step(self, e: GeomEvent, max: int) -> Result<PolygonStage, GeoArrowError> {
        match e {
            GeomEvent::GeometryCollectionBegin { .. } => Ok(self),
            GeomEvent::GeometryCollectionEnd { .. } => Ok(self),
            GeomEvent::PolygonBegin { size, .. } => if !self.is_balanced() {
                Err(GeoArrowError::Unbalanced)
            } else if self.geom_offsets.last() + size > max {
                Err(GeoArrowError::Overflow)
            } else {
                Ok(self.announce_polygon(size as int))
            },
            GeomEvent::PolygonEnd { .. } => if !self.is_balanced() {
                Err(GeoArrowError::Unbalanced)
            } else {
                Ok(self)
            },
            GeomEvent::LineStringBegin { size, .. } => if self.owed_rings() == 0
                || self.owed_coords() != 0 {
                Err(GeoArrowError::Unbalanced)
            } else if self.ring_offsets.last() + size > max {
                Err(GeoArrowError::Overflow)
            } else {
                Ok(self.announce_ring(size as int))
            },
            GeomEvent::LineStringEnd { .. } => if self.owed_coords() != 0 {
                Err(GeoArrowError::Unbalanced)
            } else {
                Ok(self)
            },
            GeomEvent::Xy { x, y, .. } => if self.owed_coords() == 0 {
                Err(GeoArrowError::Unbalanced)
            } else {
                Ok(self.add_xy(Coord { x, y }))
            },
        }
    }

    /// What the first `n` of `events` do to the stage, one after the other; the first
    /// refusal ends the replay.
    pub open spec fn replay(self, events: Seq<GeomEvent>, n: int, max: int) -> Result<
        PolygonStage,
        GeoArrowError,
    >
        decreases n,
    {
        if n <= 0 {
            Ok(self)
        } else {
            match self.replay(events, n - 1, max) {
                Ok(s) => s.step(events[n - 1], max),
                Err(e) => Err(e),
            }
        }
    }

    /// Every step keeps the invariant.
    pub proof fn lemma_step_wf(self, e: GeomEvent, max: int)
        requires
            self.wf(),
        ensures
            self.step(e, max) is Ok ==> self.step(e, max)->Ok_0.wf(),
    {
        lemma_staged_last(self.geom_offsets);
        lemma_staged_last(self.ring_offsets);
        match e {
            GeomEvent::PolygonBegin { size, .. } => {
                lemma_staged_push(self.geom_offsets, self.geom_offsets.last() + size);
            },
            GeomEvent::LineStringBegin { size, .. } => {
                lemma_staged_push(self.ring_offsets, self.ring_offsets.last() + size);
            },
            _ => {},
        }
    }
}

/// A growing array of polygons.
///
/// Two families of operations append to it. `push_polygon` and `push_null` append a whole
/// slot. The others append a slot piece by piece, as a stream of events delivers it: the
/// geometry offset that announces a number of rings, then for each ring the offset that
/// announces a number of coordinates, then the coordinates. In between the builder owes
/// rings or coordinates and is not balanced. The operations that take events check the order
/// of what they are handed; beneath them lie three that do not, `try_push_geom_offset`,
/// `try_push_ring_offset` and `push_xy`, which only this crate can call and whose contracts
/// say what the caller owes.
pub struct MutablePolygonArray<O: OffsetSize> {
    coords: Vec<u64>,
    geom_offsets: Vec<O>,
    ring_offsets: Vec<O>,
    validity: Vec<bool>,
}

impl<O: OffsetSize> View for MutablePolygonArray<O> {
    type V = PolygonStage;

    closed spec fn view(&self) -> PolygonStage {
        PolygonStage {
            coords: interleaved_coords(self.coords@),
            geom_offsets: offset_ints(self.geom_offsets@),
            ring_offsets: offset_ints(self.ring_offsets@),
            bits: self.validity@,
        }
    }
}

impl<O: OffsetSize> MutablePolygonArray<O> {
    /// What holds of a builder between any two operations.
    pub closed spec fn wf(&self) -> bool {
        &&& self.coords@.len() % 2 == 0
        &&& self@.wf()
    }

    /// A well-formed builder has a well-formed stage.
    pub proof fn lemma_wf(&self)
        requires
            self.wf(),
        ensures
            self@.wf(),
    {
    }

    /// An empty builder.
    pub fn new() -> (r: Self)
        ensures
            r.wf(),
            r@ == PolygonStage::empty(),
    {
        Self::with_capacities(0, 0, 0)
    }

    /// An empty builder with room for the given numbers of coordinates, rings and slots.
    pub fn with_capacities(coord_capacity: usize, ring_capacity: usize, geom_capacity: usize) -> (r:
        Self)
        ensures
            r.wf(),
            r@ == PolygonStage::empty(),
    {
        let mut r = MutablePolygonArray {
            coords: Vec::new(),
            geom_offsets: staged_new(geom_capacity),
            ring_offsets: staged_new(ring_capacity),
            validity: Vec::new(),
        };
        assert(interleaved_coords(r.coords@) =~= Seq::<Coord>::empty());
        r.reserve(coord_capacity, ring_capacity, geom_capacity);
        r
    }

    /// Makes room for more coordinates, rings and slots. A hint: the contents stay as they
    /// are.
    pub fn reserve(&mut self, coord_additional: usize, ring_additional: usize, geom_additional: usize)
        ensures
            final(self).wf() == old(self).wf(),
            final(self)@ == old(self)@,
    {
        if coord_additional <= usize::MAX / 2 {
            let _ = self.coords.try_reserve(2 * coord_additional);
        }
        let _ = self.ring_offsets.try_reserve(ring_additional);
        let _ = self.geom_offsets.try_reserve(geom_additional);
        let _ = self.validity.try_reserve(geom_additional);
    }

    /// The number of slots pushed so far.
    pub fn len(&self) -> (n: usize)
        requires
            self.wf(),
        ensures
            n == self@.bits.len(),
    {
        self.validity.len()
    }

    /// Whether no coordinates are owed.
    pub fn coords_balanced(&self) -> (r: bool)
        requires
            self.wf(),
        ensures
            r == (self@.owed_coords() == 0),
    {
        last_is(&self.ring_offsets, self.coords.len() / 2)
    }

    /// Whether no rings are owed.
    pub fn rings_balanced(&self) -> (r: bool)
        requires
            self.wf(),
        ensures
            r == (self@.owed_rings() == 0),
    {
        last_is(&self.geom_offsets, self.ring_offsets.len() - 1)
    }

    /// Whether nothing is owed.
    pub fn balanced(&self) -> (r: bool)
        requires
            self.wf(),
        ensures
            r == self@.is_balanced(),
    {
        self.rings_balanced() && self.coords_balanced()
    }

    /// The number of coordinates in `rings`, or `None` where it is above the largest wide
    /// offset.
    pub fn coord_count(rings: &Vec<Vec<Coord>>) -> (r: Option<u64>)
        ensures
            r is Some <==> flat(rings_view(rings@), rings@.len() as int).len() <= i64::MAX,
            r is Some ==> r->Some_0 == flat(rings_view(rings@), rings@.len() as int).len(),
    {
        let ghost rv = rings_view(rings@);
        let n = rings.len();
        let mut total: u64 = 0;
        let mut i: usize = 0;
        while i < n
            invariant
                n == rings@.len(),
                i <= n,
                rv == rings_view(rings@),
                total == flat(rv, i as int).len(),
                total <= i64::MAX,
            decreases n - i,
        {
            let len = rings[i].len() as u64;
            if len > 0x7fff_ffff_ffff_ffff - total {
                proof {
                    lemma_flat_monotone(rv, i + 1, n as int);
                }
                return None;
            }
            total = total + len;
            i += 1;
        }
        Some(total)
    }

    /// Whether `rings` more rings and `coords` more coordinates fit the offset width.
    pub fn fits(&self, rings: u64, coords: u64) -> (r: bool)
        requires
            self.wf(),
            self@.is_balanced(),
        ensures
            r == (self@.geom_offsets.last() + rings <= O::max_value() && self@.ring_offsets.last()
                + coords <= O::max_value()),
    {
        proof {
            O::lemma_bounds();
        }
        let have_rings = (self.ring_offsets.len() - 1) as u64;
        let have_coords = (self.coords.len() / 2) as u64;
        if rings > 0x7fff_ffff_ffff_ffff || have_rings > 0x7fff_ffff_ffff_ffff - rings {
            return false;
        }
        if coords > 0x7fff_ffff_ffff_ffff || have_coords > 0x7fff_ffff_ffff_ffff - coords {
            return false;
        }
        O::from_wide((have_rings + rings) as i64).is_some() && O::from_wide(
            (have_coords + coords) as i64,
        ).is_some()
    }

    /// Announces a valid slot of `size` rings, to be pushed with `try_push_ring_offset`.
    ///
    /// Fails with `Overflow`, and changes nothing, where the new offset does not fit the width.
    pub(crate) fn try_push_geom_offset(&mut self, size: usize) -> (r: Result<(), GeoArrowError>)
        requires
            old(self).wf(),
        ensures
            final(self).wf(),
            r is Ok <==> old(self)@.geom_offsets.last() + size <= O::max_value(),
            r is Ok ==> final(self)@ == old(self)@.announce_polygon(size as int),
            r is Err ==> r->Err_0 == GeoArrowError::Overflow && *final(self) == *old(self),
    {
        let ghost s = self@;
        match push_length(&mut self.geom_offsets, size) {
            Ok(_) => {
                self.validity.push(true);
                proof {
                    lemma_staged_last(s.geom_offsets);
                    lemma_staged_push(s.geom_offsets, s.geom_offsets.last() + size);
                }
                Ok(())
            },
            Err(e) => Err(e),
        }
    }

    /// Announces a ring of `size` coordinates, to be pushed with `push_xy`. A ring must be
    /// owed.
    ///
    /// Fails with `Overflow`, and changes nothing, where the new offset does not fit the width.
    pub(crate) fn try_push_ring_offset(&mut self, size: usize) -> (r: Result<(), GeoArrowError>)
        requires
            old(self).wf(),
            old(self)@.owed_rings() > 0,
        ensures
            final(self).wf(),
            r is Ok <==> old(self)@.ring_offsets.last() + size <= O::max_value(),
            r is Ok ==> final(self)@ == old(self)@.announce_ring(size as int),
            r is Err ==> r->Err_0 == GeoArrowError::Overflow && *final(self) == *old(self),
    {
        let ghost s = self@;
        match push_length(&mut self.ring_offsets, size) {
            Ok(_) => {
                proof {
                    lemma_staged_last(s.ring_offsets);
                    lemma_staged_push(s.ring_offsets, s.ring_offsets.last() + size);
                }
                Ok(())
            },
            Err(e) => Err(e),
        }
    }

    /// Pushes one coordinate of the ring announced last. A coordinate must be owed.
    pub(crate) fn push_xy(&mut self, x: u64, y: u64)
        requires
            old(self).wf(),
            old(self)@.owed_coords() > 0,
        ensures
            final(self).wf(),
            final(self)@ == old(self)@.add_xy(Coord { x, y }),
    {
        let ghost before = self.coords@;
        self.coords.push(x);
        self.coords.push(y);
        assert(interleaved_coords(self.coords@) =~= interleaved_coords(before).push(
            Coord { x, y },
        ));
    }

    /// Appends a null slot: no rings, and a cleared validity bit.
    pub fn push_null(&mut self)
        requires
            old(self).wf(),
        ensures
            final(self).wf(),
            final(self)@ == old(self)@.add_null(),
    {
        let ghost s = self@;
        push_empty(&mut self.geom_offsets);
        self.validity.push(false);
        proof {
            lemma_staged_push(s.geom_offsets, s.geom_offsets.last());
        }
    }

    /// Takes one event of a stream.
    ///
    /// Fails, and changes nothing, where the event arrives out of order or an offset does not
    /// fit the width.
    pub fn process(&mut self, event: GeomEvent) -> (r: Result<(), GeoArrowError>)
        requires
            old(self).wf(),
        ensures
            final(self).wf(),
            match old(self)@.step(event, O::max_value()) {
                Ok(s) => r is Ok && final(self)@ == s,
                Err(e) => r == Err::<(), GeoArrowError>(e) && final(self)@ == old(self)@,
            },
    {
        match event {
            GeomEvent::GeometryCollectionBegin { size, idx } => self.geometrycollection_begin(
                size,
                idx,
            ),
            GeomEvent::GeometryCollectionEnd { idx } => self.geometrycollection_end(idx),
            GeomEvent::PolygonBegin { tagged, size, idx } => self.polygon_begin(tagged, size, idx),
            GeomEvent::PolygonEnd { tagged, idx } => self.polygon_end(tagged, idx),
            GeomEvent::LineStringBegin { tagged, size, idx } => self.linestring_begin(
                tagged,
                size,
                idx,
            ),
            GeomEvent::LineStringEnd { tagged, idx } => self.linestring_end(tagged, idx),
            GeomEvent::Xy { x, y, idx } => self.xy(x, y, idx),
        }
    }

    /// A collection of `size` polygons begins: room is made for as many slots.
    pub fn geometrycollection_begin(&mut self, size: usize, idx: usize) -> (r: Result<
        (),
        GeoArrowError,
    >)
        requires
            old(self).wf(),
        ensures
            final(self).wf(),
            r is Ok,
            final(self)@ == old(self)@,
    {
        self.reserve(0, 0, size);
        Ok(())
    }

    /// A collection ends.
    pub fn geometrycollection_end(&mut self, idx: usize) -> (r: Result<(), GeoArrowError>)
        requires
            old(self).wf(),
        ensures
            final(self).wf(),
            r is Ok,
            final(self)@ == old(self)@,
    {
        Ok(())
    }

    /// A polygon of `size` rings begins.
    pub fn polygon_begin(&mut self, tagged: bool, size: usize, idx: usize) -> (r: Result<
        (),
        GeoArrowError,
    >)
        requires
            old(self).wf(),
        ensures
            final(self).wf(),
            match old(self)@.step(GeomEvent::PolygonBegin { tagged, size, idx }, O::max_value()) {
                Ok(s) => r is Ok && final(self)@ == s,
                Err(e) => r == Err::<(), GeoArrowError>(e) && final(self)@ == old(self)@,
            },
    {
        if !self.balanced() {
            return Err(GeoArrowError::Unbalanced);
        }
        self.reserve(0, size, 0);
        self.try_push_geom_offset(size)
    }

    /// A polygon ends.
    pub fn polygon_end(&mut self, tagged: bool, idx: usize) -> (r: Result<(), GeoArrowError>)
        requires
            old(self).wf(),
        ensures
            final(self).wf(),
            match old(self)@.step(GeomEvent::PolygonEnd { tagged, idx }, O::max_value()) {
                Ok(s) => r is Ok && final(self)@ == s,
                Err(e) => r == Err::<(), GeoArrowError>(e) && final(self)@ == old(self)@,
            },
    {
        if !self.balanced() {
            return Err(GeoArrowError::Unbalanced);
        }
        Ok(())
    }

    /// A ring of `size` coordinates begins.
    pub fn linestring_begin(&mut self, tagged: bool, size: usize, idx: usize) -> (r: Result<
        (),
        GeoArrowError,
    >)
        requires
            old(self).wf(),
        ensures
            final(self).wf(),
            match old(self)@.step(GeomEvent::LineStringBegin { tagged, size, idx }, O::max_value()) {
                Ok(s) => r is Ok && final(self)@ == s,
                Err(e) => r == Err::<(), GeoArrowError>(e) && final(self)@ == old(self)@,
            },
    {
        if self.rings_balanced() || !self.coords_balanced() {
            return Err(GeoArrowError::Unbalanced);
        }
        self.reserve(size, 0, 0);
        self.try_push_ring_offset(size)
    }

    /// A ring ends.
    pub fn linestring_end(&mut self, tagged: bool, idx: usize) -> (r: Result<(), GeoArrowError>)
        requires
            old(self).wf(),
        ensures
            final(self).wf(),
            match old(self)@.step(GeomEvent::LineStringEnd { tagged, idx }, O::max_value()) {
                Ok(s) => r is Ok && final(self)@ == s,
                Err(e) => r == Err::<(), GeoArrowError>(e) && final(self)@ == old(self)@,
            },
    {
        if !self.coords_balanced() {
            return Err(GeoArrowError::Unbalanced);
        }
        Ok(())
    }

    /// One coordinate of the ring begun last.
    pub fn xy(&mut self, x: u64, y: u64, idx: usize) -> (r: Result<(), GeoArrowError>)
        requires
            old(self).wf(),
        ensures
            final(self).wf(),
            match old(self)@.step(GeomEvent::Xy { x, y, idx }, O::max_value()) {
                Ok(s) => r is Ok && final(self)@ == s,
                Err(e) => r == Err::<(), GeoArrowError>(e) && final(self)@ == old(self)@,
            },
    {
        if self.coords_balanced() {
            return Err(GeoArrowError::Unbalanced);
        }
        proof {
            lemma_staged_last(self@.ring_offsets);
        }
        self.push_xy(x, y);
        Ok(())
    }

    /// The finished array: the staged buffers, frozen.
    ///
    /// Fails with `Unbalanced` where announced rings or coordinates are still owed. The mask
    /// is left out where every slot is valid.
    pub fn finish(self) -> (r: Result<PolygonArray<O>, GeoArrowError>)
        requires
            self.wf(),
        ensures
            r is Ok <==> self@.is_balanced(),
            r is Ok ==> r->Ok_0.is_frozen(self@),
            r is Ok ==> r->Ok_0@ == self@.polygons(),
            r is Err ==> r->Err_0 == GeoArrowError::Unbalanced,
    {
        if !self.balanced() {
            return Err(GeoArrowError::Unbalanced);
        }
        Ok(self.into_array())
    }

    /// The finished array of a builder that owes nothing.
    pub fn into_array(self) -> (r: PolygonArray<O>)
        requires
            self.wf(),
            self@.is_balanced(),
        ensures
            r.is_frozen(self@),
            r@ == self@.polygons(),
    {
        let ghost me = self@;
        let _words = self.coords.len();
        let _rings = self.ring_offsets.len();
        let coords = CoordBuffer::Interleaved(InterleavedCoordBuffer::new(self.coords));
        let geom_offsets = Offsets::new(self.geom_offsets);
        let ring_offsets = Offsets::new(self.ring_offsets);
        let validity = validity_from_bits(self.validity);
        let r = PolygonArray::new(coords, geom_offsets, ring_offsets, validity);
        proof {
            assert(r@ =~= me.polygons());
        }
        r
    }
}

impl<O: OffsetSize> PolygonArray<O> {
    /// Whether the array holds exactly the buffers of the stage `s`, interleaved, with the
    /// mask left out where every slot is valid.
    pub open spec fn is_frozen(&self, s: PolygonStage) -> bool {
        &&& self.spec_coords() == s.coords
        &&& self.spec_coord_type() == CoordType::Interleaved
        &&& self.spec_geom_offsets() == s.geom_offsets
        &&& self.spec_ring_offsets() == s.ring_offsets
        &&& self.spec_mask() == if all_set(s.bits) {
            None
        } else {
            Some(s.bits)
        }
    }
}

/// The first `n` of `rings`, one after the other.
pub open spec fn flat(rings: Seq<Seq<Coord>>, n: int) -> Seq<Coord>
    decreases n,
{
    if n <= 0 {
        Seq::empty()
    } else {
        flat(rings, n - 1) + rings[n - 1]
    }
}

/// The concatenation grows with the number of rings taken.
pub proof fn lemma_flat_monotone(rings: Seq<Seq<Coord>>, j: int, k: int)
    requires
        0 <= j <= k,
    ensures
        flat(rings, j).len() <= flat(rings, k).len(),
    decreases k - j,
{
    if j < k {
        lemma_flat_monotone(rings, j, k - 1);
    }
}

/// Ring `r` lies in the concatenation where the rings before it end.
pub proof fn lemma_flat_ring(rings: Seq<Seq<Coord>>, n: int, r: int)
    requires
        0 <= r < n,
    ensures
        flat(rings, r).len() + rings[r].len() == flat(rings, r + 1).len(),
        flat(rings, r + 1).len() <= flat(rings, n).len(),
        flat(rings, n).subrange(flat(rings, r).len() as int, flat(rings, r + 1).len() as int)
            == rings[r],
    decreases n - r,
{
    lemma_flat_monotone(rings, r + 1, n);
    if r + 1 < n {
        lemma_flat_ring(rings, n - 1, r);
        lemma_flat_monotone(rings, r + 1, n - 1);
        assert(flat(rings, n).subrange(
            flat(rings, r).len() as int,
            flat(rings, r + 1).len() as int,
        ) =~= flat(rings, n - 1).subrange(
            flat(rings, r).len() as int,
            flat(rings, r + 1).len() as int,
        ));
    } else {
        assert(flat(rings, n).subrange(
            flat(rings, r).len() as int,
            flat(rings, r + 1).len() as int,
        ) =~= rings[r]);
    }
}

impl PolygonStage {
    /// Pushing whole rings keeps the invariant, owes no coordinates, pays one owed ring
    /// each, and leaves what was staged before in place.
    pub proof fn lemma_with_rings(self, rings: Seq<Seq<Coord>>, k: int)
        requires
            self.wf(),
            self.owed_coords() == 0,
            0 <= k <= self.owed_rings(),
        ensures
            ({
                let t = self.with_rings(rings, k);
                &&& t.wf()
                &&& t.owed_coords() == 0
                &&& t.owed_rings() == self.owed_rings() - k
                &&& t.geom_offsets == self.geom_offsets
                &&& t.bits == self.bits
                &&& t.coords == self.coords + flat(rings, k)
                &&& t.ring_offsets.len() == self.ring_offsets.len() + k
                &&& forall|j: int|
                    0 <= j < self.ring_offsets.len() ==> t.ring_offsets[j] == self.ring_offsets[j]
                &&& forall|j: int|
                    0 <= j <= k ==> #[trigger] t.ring_offsets[self.ring_offsets.len() - 1 + j]
                        == self.ring_offsets.last() + flat(rings, j).len()
            }),
        decreases k,
    {
        if k > 0 {
            self.lemma_with_rings(rings, k - 1);
            let u = self.with_rings(rings, k - 1);
            let t = u.with_ring(rings[k - 1]);
            lemma_staged_last(u.ring_offsets);
            lemma_staged_push(u.ring_offsets, u.ring_offsets.last() + rings[k - 1].len());
            assert(t.coords =~= self.coords + flat(rings, k));
            assert(u.ring_offsets[self.ring_offsets.len() - 1 + (k - 1)] == u.ring_offsets.last());
            assert forall|j: int| 0 <= j <= k implies #[trigger] t.ring_offsets[self.ring_offsets.len()
                - 1 + j] == self.ring_offsets.last() + flat(rings, j).len() by {
                if j < k {
                    assert(u.ring_offsets[self.ring_offsets.len() - 1 + j]
                        == self.ring_offsets.last() + flat(rings, j).len());
                }
            }
        } else {
            assert(self.coords + flat(rings, 0) =~= self.coords);
        }
    }

    /// Pushing a whole polygon onto a balanced stage leaves it balanced and appends exactly
    /// that polygon to the slots.
    pub proof fn lemma_with_polygon(self, rings: Seq<Seq<Coord>>)
        requires
            self.wf(),
            self.is_balanced(),
        ensures
            ({
                let t = self.with_polygon(rings);
                &&& t.wf()
                &&& t.is_balanced()
                &&& t.polygons() == self.polygons().push(Some(rings))
                &&& t.geom_offsets.last() == self.geom_offsets.last() + rings.len()
                &&& t.ring_offsets.last() == self.ring_offsets.last() + flat(
                    rings,
                    rings.len() as int,
                ).len()
            }),
    {
        let n = rings.len() as int;
        let u = self.announce_polygon(n);
        let t = self.with_polygon(rings);
        lemma_staged_last(self.geom_offsets);
        lemma_staged_last(self.ring_offsets);
        lemma_staged_push(self.geom_offsets, self.geom_offsets.last() + n);
        u.lemma_with_rings(rings, n);
        let slots = self.bits.len() as int;
        let base = self.ring_offsets.len() - 1;
        assert(t.ring_offsets[base + n] == self.ring_offsets.last() + flat(rings, n).len());
        assert forall|i: int| 0 <= i < slots implies t.polygons()[i] == self.polygons()[i] by {
            lemma_monotone_from_steps(self.geom_offsets, 0, i);
            lemma_monotone_from_steps(self.geom_offsets, i, i + 1);
            lemma_monotone_from_steps(self.geom_offsets, i + 1, slots);
            let a = polygon_at(t.coords, t.ring_offsets, t.geom_offsets, i);
            let b = polygon_at(self.coords, self.ring_offsets, self.geom_offsets, i);
            assert(a.len() == b.len());
            assert forall|r: int| 0 <= r < a.len() implies a[r] == b[r] by {
                let ring = self.geom_offsets[i] + r;
                lemma_monotone_from_steps(self.ring_offsets, 0, ring);
                lemma_monotone_from_steps(self.ring_offsets, ring, ring + 1);
                lemma_monotone_from_steps(self.ring_offsets, ring + 1, base);
                assert(a[r] =~= b[r]);
            }
            assert(a =~= b);
        }
        let a = polygon_at(t.coords, t.ring_offsets, t.geom_offsets, slots);
        assert(a.len() == n);
        assert forall|r: int| 0 <= r < n implies a[r] == rings[r] by {
            lemma_flat_ring(rings, n, r);
            assert(t.ring_offsets[base + r] == self.ring_offsets.last() + flat(rings, r).len());
            assert(t.ring_offsets[base + (r + 1)] == self.ring_offsets.last() + flat(
                rings,
                r + 1,
            ).len());
            assert(a[r] =~= flat(rings, n).subrange(
                flat(rings, r).len() as int,
                flat(rings, r + 1).len() as int,
            ));
        }
        assert(a =~= rings);
        assert(t.polygons() =~= self.polygons().push(Some(rings)));
    }
}

impl<O: OffsetSize> MutablePolygonArray<O> {
    /// Appends one slot: the polygon made of the rings in `value`, or a null slot where there
    /// is none.
    ///
    /// Always safe to call. Fails, and changes nothing, with `Unbalanced` where announced
    /// rings or coordinates are still owed, and with `Overflow` where the number of rings or
    /// of coordinates takes an offset beyond the width.
    pub fn push_polygon(&mut self, value: Option<&Vec<Vec<Coord>>>) -> (r: Result<
        (),
        GeoArrowError,
    >)
        requires
            old(self).wf(),
        ensures
            final(self).wf(),
            r is Ok <==> old(self)@.is_balanced() && (value is Some ==> {
                &&& old(self)@.geom_offsets.last() + value->Some_0@.len() <= O::max_value()
                &&& old(self)@.ring_offsets.last() + flat(
                    rings_view(value->Some_0@),
                    value->Some_0@.len() as int,
                ).len() <= O::max_value()
            }),
            r is Ok ==> final(self)@.is_balanced() && final(self)@ == (match value {
                Some(rings) => old(self)@.with_polygon(rings_view(rings@)),
                None => old(self)@.add_null(),
            }) && final(self)@.polygons() == old(self)@.polygons().push(
                match value {
                    Some(rings) => Some(rings_view(rings@)),
                    None => None,
                },
            ),
            r is Err ==> final(self)@ == old(self)@ && r->Err_0 == if old(self)@.is_balanced() {
                GeoArrowError::Overflow
            } else {
                GeoArrowError::Unbalanced
            },
    {
        if !self.balanced() {
            return Err(GeoArrowError::Unbalanced);
        }
        let ghost s = self@;
        let rings = match value {
            None => {
                self.push_null();
                proof {
                    lemma_null_keeps_polygons(s);
                }
                return Ok(());
            },
            Some(rings) => rings,
        };
        let ghost rv = rings_view(rings@);
        let n = rings.len();
        proof {
            lemma_staged_last(s.geom_offsets);
            lemma_staged_last(s.ring_offsets);
            O::lemma_bounds();
        }
        // All or nothing: count the coordinates before anything is pushed.
        let total = match Self::coord_count(rings) {
            Some(total) => total,
            None => {
                return Err(GeoArrowError::Overflow);
            },
        };
        let present = (self.coords.len() / 2) as u64;
        if present > 0x7fff_ffff_ffff_ffff - total || O::from_wide((present + total) as i64).is_none() {
            return Err(GeoArrowError::Overflow);
        }
        match self.try_push_geom_offset(n) {
            Err(e) => {
                return Err(e);
            },
            Ok(_) => {},
        }
        let ghost u = self@;
        proof {
            s.lemma_with_polygon(rv);
        }
        let mut k: usize = 0;
        while k < n
            invariant
                n == rings@.len(),
                k <= n,
                rv == rings_view(rings@),
                self.wf(),
                u == s.announce_polygon(n as int),
                u.wf(),
                u.owed_coords() == 0,
                u.owed_rings() == n,
                self@ == u.with_rings(rv, k as int),
                u.ring_offsets.last() + flat(rv, n as int).len() <= O::max_value(),
            decreases n - k,
        {
            let ring = &rings[k];
            let m = ring.len();
            proof {
                u.lemma_with_rings(rv, k as int);
                lemma_flat_monotone(rv, k + 1, n as int);
                assert(self@.ring_offsets[u.ring_offsets.len() - 1 + k] == u.ring_offsets.last()
                    + flat(rv, k as int).len());
            }
            let ghost before = self@;
            let pushed = self.try_push_ring_offset(m);
            assert(pushed is Ok);
            let mut j: usize = 0;
            while j < m
                invariant
                    m == ring@.len(),
                    j <= m,
                    self.wf(),
                    self@.geom_offsets == before.geom_offsets,
                    self@.bits == before.bits,
                    self@.ring_offsets == before.announce_ring(m as int).ring_offsets,
                    self@.coords == before.coords + ring@.subrange(0, j as int),
                    before.coords.len() == before.ring_offsets.last(),
                decreases m - j,
            {
                let c = ring[j];
                self.push_xy(c.x, c.y);
                assert(self@.coords =~= before.coords + ring@.subrange(0, j + 1));
                j += 1;
            }
            proof {
                assert(ring@.subrange(0, m as int) =~= ring@);
                assert(rv[k as int] == ring@);
                assert(self@ =~= before.with_ring(ring@));
            }
            k += 1;
        }
        Ok(())
    }
}

/// A null slot leaves the slots before it as they were.
pub proof fn lemma_null_keeps_polygons(s: PolygonStage)
    requires
        s.wf(),
    ensures
        s.add_null().polygons() == s.polygons().push(None),
        s.is_balanced() ==> s.add_null().is_balanced(),
{
    let t = s.add_null();
    assert forall|i: int| 0 <= i < s.bits.len() implies t.polygons()[i] == s.polygons()[i] by {
        assert(polygon_at(t.coords, t.ring_offsets, t.geom_offsets, i) =~= polygon_at(
            s.coords,
            s.ring_offsets,
            s.geom_offsets,
            i,
        ));
    }
    assert(t.polygons() =~= s.polygons().push(None));
}

/// The optional polygons that a vector of optional vectors of rings holds.
pub open spec fn polygons_slots_view(polygons: Seq<Option<Vec<Vec<Coord>>>>) -> Seq<
    Option<Seq<Seq<Coord>>>,
> {
    Seq::new(
        polygons.len(),
        |i: int|
            match polygons[i] {
                Some(rings) => Some(rings_view(rings@)),
                None => None,
            },
    )
}

/// The number of rings in the first `n` slots; a null slot has none.
pub open spec fn ring_count(slots: Seq<Option<Seq<Seq<Coord>>>>, n: int) -> int
    decreases n,
{
    if n <= 0 {
        0
    } else {
        ring_count(slots, n - 1) + match slots[n - 1] {
            Some(rings) => rings.len() as int,
            None => 0,
        }
    }
}

/// The number of coordinates in the first `n` slots; a null slot has none.
pub open spec fn ring_coord_count(slots: Seq<Option<Seq<Seq<Coord>>>>, n: int) -> int
    decreases n,
{
    if n <= 0 {
        0
    } else {
        ring_coord_count(slots, n - 1) + match slots[n - 1] {
            Some(rings) => flat(rings, rings.len() as int).len() as int,
            None => 0,
        }
    }
}

/// Both counts grow with the number of slots taken.
pub proof fn lemma_counts_grow(slots: Seq<Option<Seq<Seq<Coord>>>>, j: int, n: int)
    requires
        0 <= j <= n,
    ensures
        0 <= ring_count(slots, j) <= ring_count(slots, n),
        0 <= ring_coord_count(slots, j) <= ring_coord_count(slots, n),
    decreases n,
{
    if n > 0 {
        if j < n {
            lemma_counts_grow(slots, j, n - 1);
        } else {
            lemma_counts_grow(slots, j - 1, n - 1);
        }
    }
}

impl<O: OffsetSize> PolygonArray<O> {
    /// The array that holds `polygons`, slot by slot, in buffers that hold nothing else.
    ///
    /// Fails with `Overflow` exactly where the rings or the coordinates are more than the
    /// offset width can count.
    pub fn from_rings(polygons: &Vec<Option<Vec<Vec<Coord>>>>) -> (r: Result<Self, GeoArrowError>)
        ensures
            r is Ok <==> ring_count(polygons_slots_view(polygons@), polygons@.len() as int)
                <= O::max_value() && ring_coord_count(
                polygons_slots_view(polygons@),
                polygons@.len() as int,
            ) <= O::max_value(),
            r is Ok ==> {
                &&& r->Ok_0@ == polygons_slots_view(polygons@)
                &&& r->Ok_0.spec_coord_type() == CoordType::Interleaved
                &&& r->Ok_0.spec_geom_offsets()[0] == 0
                &&& r->Ok_0.spec_ring_offsets()[0] == 0
                &&& r->Ok_0.spec_geom_offsets().last() == r->Ok_0.spec_ring_offsets().len() - 1
                &&& r->Ok_0.spec_ring_offsets().last() == r->Ok_0.spec_coords().len()
            },
            r is Err ==> r->Err_0 == GeoArrowError::Overflow,
    {
        let ghost pv = polygons_slots_view(polygons@);
        let n = polygons.len();
        let mut builder = MutablePolygonArray::<O>::with_capacities(0, 0, n);
        let mut i: usize = 0;
        while i < n
            invariant
                n == polygons@.len(),
                i <= n,
                pv == polygons_slots_view(polygons@),
                builder.wf(),
                builder@.wf(),
                builder@.is_balanced(),
                builder@.geom_offsets[0] == 0,
                builder@.ring_offsets[0] == 0,
                builder@.polygons() == pv.subrange(0, i as int),
                builder@.geom_offsets.last() == ring_count(pv, i as int),
                builder@.ring_offsets.last() == ring_coord_count(pv, i as int),
            decreases n - i,
        {
            let ghost before = builder@;
            proof {
                lemma_counts_grow(pv, i as int, i as int);
                match polygons@[i as int] {
                    Some(rings) => before.lemma_with_polygon(rings_view(rings@)),
                    None => {
                        lemma_null_keeps_polygons(before);
                        lemma_staged_push(before.geom_offsets, before.geom_offsets.last());
                    },
                }
            }
            match builder.push_polygon(polygons[i].as_ref()) {
                Ok(_) => {},
                Err(e) => {
                    proof {
                        lemma_counts_grow(pv, i + 1, n as int);
                    }
                    return Err(e);
                },
            }
            assert(pv.subrange(0, i as int).push(pv[i as int]) =~= pv.subrange(0, i + 1));
            i += 1;
        }
        assert(pv.subrange(0, n as int) =~= pv);
        let r = builder.into_array();
        proof {
            use_type_invariant(&r);
        }
        Ok(r)
    }
}

} // verus!
