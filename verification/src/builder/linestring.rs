use crate::array::linestring::LineStringArray;
use crate::builder::staging::{
    is_staged, last_is, lemma_staged_last, lemma_staged_push, push_empty, push_length, staged_new,
};
use crate::coord::{interleaved_coords, Coord, CoordBuffer, InterleavedCoordBuffer};
use crate::array::geometry::GeometryType;
use crate::datatypes::CoordType;
use crate::error::GeoArrowError;
use crate::io::geozero::event::GeomEvent;
use crate::offsets::{lemma_monotone_from_steps, offset_ints, OffsetSize, Offsets};
use crate::scalar::linestring::line_at;
use crate::validity::{all_set, validity_from_bits};
use vstd::prelude::*;

verus! {

/// The staged buffers of a line string builder, as mathematical values.
pub struct LineStage {
    pub coords: Seq<Coord>,
    pub geom_offsets: Seq<int>,
    pub bits: Seq<bool>,
}

impl LineStage {
    /// The stage of an empty builder.
    pub open spec fn empty() -> LineStage {
        LineStage { coords: Seq::empty(), geom_offsets: seq![0int], bits: Seq::empty() }
    }

    /// What holds between any two operations: the offsets start at zero and never decrease,
    /// there is one bit per slot, and the coordinates do not outnumber what was announced.
    pub open spec fn wf(self) -> bool {
        &&& is_staged(self.geom_offsets)
        &&& self.bits.len() == self.geom_offsets.len() - 1
        &&& self.coords.len() <= self.geom_offsets.last()
    }

    /// The number of coordinates that were announced and not pushed yet.
    pub open spec fn owed_coords(self) -> int {
        self.geom_offsets.last() - self.coords.len()
    }

    /// Whether nothing is owed.
    pub open spec fn is_balanced(self) -> bool {
        self.owed_coords() == 0
    }

    /// The line strings that the stage spells, slot by slot.
    pub open spec fn lines(self) -> Seq<Option<Seq<Coord>>> {
        Seq::new(
            self.bits.len(),
            |i: int|
                if self.bits[i] {
                    Some(line_at(self.coords, self.geom_offsets, i))
                } else {
                    None
                },
        )
    }

    /// The stage after a valid slot of `n` coordinates was announced.
    pub open spec fn announce_line(self, n: int) -> LineStage {
        LineStage {
            geom_offsets: self.geom_offsets.push(self.geom_offsets.last() + n),
            bits: self.bits.push(true),
            ..self
        }
    }

    /// The stage after one coordinate was pushed.
    pub open spec fn add_xy(self, c: Coord) -> LineStage {
        LineStage { coords: self.coords.push(c), ..self }
    }

    /// The stage after a null slot was pushed.
    pub open spec fn add_null(self) -> LineStage {
        LineStage {
            geom_offsets: self.geom_offsets.push(self.geom_offsets.last()),
            bits: self.bits.push(false),
            ..self
        }
    }

    /// The stage after a whole valid line string was pushed.
    pub open spec fn with_line(self, line: Seq<Coord>) -> LineStage {
        LineStage {
            coords: self.coords + line,
            geom_offsets: self.geom_offsets.push(self.geom_offsets.last() + line.len()),
            bits: self.bits.push(true),
        }
    }

    /// What one event does to the stage, where offsets may go up to `max`.
    ///
    /// An event that arrives out of order is refused with `Unbalanced`, an announcement that
    /// would take an offset above `max` with `Overflow`, and an event of a polygon with
    /// `Unsupported`.
    pub open spec fn step(self, e: GeomEvent, max: int) -> Result<LineStage, GeoArrowError> {
        match e {
            GeomEvent::GeometryCollectionBegin { .. } => Ok(self),
            GeomEvent::GeometryCollectionEnd { .. } => Ok(self),
            GeomEvent::PolygonBegin { .. } => Err(
                GeoArrowError::Unsupported { kind: GeometryType::Polygon },
            ),
            GeomEvent::PolygonEnd { .. } => Err(
                GeoArrowError::Unsupported { kind: GeometryType::Polygon },
            ),
            GeomEvent::LineStringBegin { size, .. } => if self.owed_coords() != 0 {
                Err(GeoArrowError::Unbalanced)
            } else if self.geom_offsets.last() + size > max {
                Err(GeoArrowError::Overflow)
            } else {
                Ok(self.announce_line(size as int))
            },
            GeomEvent::LineStringEnd { .. } => if self.owed_coords() != 0 {
                Err(GeoArrowError::Unbalanced)
            } else {
                Ok(self)
            },
            GeomEvent::Xy { x, y, .. } => if self.owed_coords() == 0 {
                Err(GeoArrowError::Unbalanced)
            } else {
                Ok(self.add_xy(Coord { x, y }))
            },
        }
    }

    /// What the first `n` of `events` do to the stage, one after the other; the first
    /// refusal ends the replay.
    pub open spec fn replay(self, events: Seq<GeomEvent>, n: int, max: int) -> Result<
        LineStage,
        GeoArrowError,
    >
        decreases n,
    {
        if n <= 0 {
            Ok(self)
        } else {
            match self.replay(events, n - 1, max) {
                Ok(s) => s.step(events[n - 1], max),
                Err(e) => Err(e),
            }
        }
    }

    /// Every step keeps the invariant.
    pub proof fn lemma_step_wf(self, e: GeomEvent, max: int)
        requires
            self.wf(),
        ensures
            self.step(e, max) is Ok ==> self.step(e, max)->Ok_0.wf(),
    {
        lemma_staged_last(self.geom_offsets);
        match e {
            GeomEvent::LineStringBegin { size, .. } => {
                lemma_staged_push(self.geom_offsets, self.geom_offsets.last() + size);
            },
            _ => {},
        }
    }

    /// Pushing a whole line string onto a balanced stage leaves it balanced and appends
    /// exactly that line string to the slots.
    pub proof fn lemma_with_line(self, line: Seq<Coord>)
        requires
            self.wf(),
            self.is_balanced(),
        ensures
            ({
                let t = self.with_line(line);
                &&& t.wf()
                &&& t.is_balanced()
                &&& t.lines() == self.lines().push(Some(line))
            }),
    {
        let t = self.with_line(line);
        lemma_staged_last(self.geom_offsets);
        lemma_staged_push(self.geom_offsets, self.geom_offsets.last() + line.len());
        let slots = self.bits.len() as int;
        assert forall|i: int| 0 <= i < slots implies t.lines()[i] == self.lines()[i] by {
            lemma_monotone_from_steps(self.geom_offsets, 0, i);
            lemma_monotone_from_steps(self.geom_offsets, i, i + 1);
            lemma_monotone_from_steps(self.geom_offsets, i + 1, slots);
            assert(line_at(t.coords, t.geom_offsets, i) =~= line_at(
                self.coords,
                self.geom_offsets,
                i,
            ));
        }
        assert(line_at(t.coords, t.geom_offsets, slots) =~= line);
        assert(t.lines() =~= self.lines().push(Some(line)));
    }

    /// A null slot leaves the slots before it as they were.
    pub proof fn lemma_add_null(self)
        requires
            self.wf(),
        ensures
            self.add_null().wf(),
            self.add_null().lines() == self.lines().push(None),
            self.is_balanced() ==> self.add_null().is_balanced(),
    {
        let t = self.add_null();
        lemma_staged_push(self.geom_offsets, self.geom_offsets.last());
        assert forall|i: int| 0 <= i < self.bits.len() implies t.lines()[i] == self.lines()[i] by {
            assert(line_at(t.coords, t.geom_offsets, i) =~= line_at(
                self.coords,
                self.geom_offsets,
                i,
            ));
        }
        assert(t.lines() =~= self.lines().push(None));
    }
}

/// A growing array of line strings.
///
/// Two families of operations append to it. `push_line_string` and `push_null` append a whole
/// slot. The others append a slot piece by piece, as a stream of events delivers it: the
/// offset that announces a number of coordinates, then the coordinates. In between the
/// builder owes coordinates and is not balanced. The operations that take events check the
/// order of what they are handed; beneath them lie two that do not, `try_push_length` and
/// `push_xy`, which only this crate can call and whose contracts say what the caller owes.
pub struct MutableLineStringArray<O: OffsetSize> {
    coords: Vec<u64>,
    geom_offsets: Vec<O>,
    validity: Vec<bool>,
}

impl<O: OffsetSize> View for MutableLineStringArray<O> {
    type V = LineStage;

    closed spec fn view(&self) -> LineStage {
        LineStage {
            coords: interleaved_coords(self.coords@),
            geom_offsets: offset_ints(self.geom_offsets@),
            bits: self.validity@,
        }
    }
}

impl<O: OffsetSize> MutableLineStringArray<O> {
    /// What holds of a builder between any two operations.
    pub closed spec fn wf(&self) -> bool {
        &&& self.coords@.len() % 2 == 0
        &&& self@.wf()
    }

    /// An empty builder.
    pub fn new() -> (r: Self)
        ensures
            r.wf(),
            r@ == LineStage::empty(),
    {
        Self::with_capacities(0, 0)
    }

    /// An empty builder with room for `coord_capacity` coordinates and `geom_capacity` slots.
    pub fn with_capacities(coord_capacity: usize, geom_capacity: usize) -> (r: Self)
        ensures
            r.wf(),
            r@ == LineStage::empty(),
    {
        let mut r = MutableLineStringArray {
            coords: Vec::new(),
            geom_offsets: staged_new(geom_capacity),
            validity: Vec::new(),
        };
        assert(interleaved_coords(r.coords@) =~= Seq::<Coord>::empty());
        r.reserve(coord_capacity, geom_capacity);
        r
    }

    /// Makes room for `coord_additional` more coordinates and `geom_additional` more slots.
    /// A hint: the contents stay as they are.
    pub fn reserve(&mut self, coord_additional: usize, geom_additional: usize)
        ensures
            final(self).wf() == old(self).wf(),
            final(self)@ == old(self)@,
    {
        if coord_additional <= usize::MAX / 2 {
            let _ = self.coords.try_reserve(2 * coord_additional);
        }
        let _ = self.geom_offsets.try_reserve(geom_additional);
        let _ = self.validity.try_reserve(geom_additional);
    }

    /// The number of slots pushed so far.
    pub fn len(&self) -> (n: usize)
        requires
            self.wf(),
        ensures
            n == self@.bits.len(),
    {
        self.validity.len()
    }

    /// Whether every announced coordinate was pushed.
    pub fn balanced(&self) -> (r: bool)
        requires
            self.wf(),
        ensures
            r == self@.is_balanced(),
    {
        last_is(&self.geom_offsets, self.coords.len() / 2)
    }

    /// Announces a valid slot of `geom_offsets_length` coordinates, to be pushed with
    /// `push_xy`.
    ///
    /// Fails with `Overflow`, and changes nothing, where the new offset does not fit the width.
    pub(crate) fn try_push_length(&mut self, geom_offsets_length: usize) -> (r: Result<(), GeoArrowError>)
        requires
            old(self).wf(),
        ensures
            final(self).wf(),
            r is Ok <==> old(self)@.geom_offsets.last() + geom_offsets_length <= O::max_value(),
            r is Ok ==> final(self)@ == old(self)@.announce_line(geom_offsets_length as int),
            r is Err ==> r->Err_0 == GeoArrowError::Overflow && *final(self) == *old(self),
    {
        let ghost s = self@;
        match push_length(&mut self.geom_offsets, geom_offsets_length) {
            Ok(_) => {
                self.validity.push(true);
                proof {
                    lemma_staged_last(s.geom_offsets);
                    lemma_staged_push(s.geom_offsets, s.geom_offsets.last() + geom_offsets_length);
                }
                Ok(())
            },
            Err(e) => Err(e),
        }
    }

    /// Pushes one coordinate of the slot announced last. A coordinate must be owed.
    pub(crate) fn push_xy(&mut self, x: u64, y: u64)
        requires
            old(self).wf(),
            old(self)@.owed_coords() > 0,
        ensures
            final(self).wf(),
            final(self)@ == old(self)@.add_xy(Coord { x, y }),
    {
        let ghost before = self.coords@;
        self.coords.push(x);
        self.coords.push(y);
        assert(interleaved_coords(self.coords@) =~= interleaved_coords(before).push(
            Coord { x, y },
        ));
    }

    /// Appends a null slot: no coordinates, and a cleared validity bit.
    pub fn push_null(&mut self)
        requires
            old(self).wf(),
        ensures
            final(self).wf(),
            final(self)@ == old(self)@.add_null(),
            final(self)@.lines() == old(self)@.lines().push(None),
            old(self)@.is_balanced() ==> final(self)@.is_balanced(),
    {
        let ghost s = self@;
        push_empty(&mut self.geom_offsets);
        self.validity.push(false);
        proof {
            s.lemma_add_null();
        }
    }

    /// Appends one slot: the line string `value`, or a null slot where there is none.
    ///
    /// Always safe to call. Fails, and changes nothing, with `Unbalanced` where announced
    /// coordinates are still owed, and with `Overflow` where the new offset does not fit the
    /// width.
    pub fn push_line_string(&mut self, value: Option<&Vec<Coord>>) -> (r: Result<
        (),
        GeoArrowError,
    >)
        requires
            old(self).wf(),
        ensures
            final(self).wf(),
            r is Ok <==> old(self)@.is_balanced() && (value is Some ==> old(
                self,
            )@.geom_offsets.last() + value->Some_0@.len() <= O::max_value()),
            r is Ok ==> final(self)@.is_balanced() && final(self)@ == (match value {
                Some(line) => old(self)@.with_line(line@),
                None => old(self)@.add_null(),
            }) && final(self)@.lines() == old(self)@.lines().push(
                match value {
                    Some(line) => Some(line@),
                    None => None,
                },
            ),
            r is Err ==> *final(self) == *old(self) && r->Err_0 == if old(self)@.is_balanced() {
                GeoArrowError::Overflow
            } else {
                GeoArrowError::Unbalanced
            },
    {
        if !self.balanced() {
            return Err(GeoArrowError::Unbalanced);
        }
        let ghost s = self@;
        let line = match value {
            None => {
                self.push_null();
                return Ok(());
            },
            Some(line) => line,
        };
        let n = line.len();
        match self.try_push_length(n) {
            Err(e) => {
                return Err(e);
            },
            Ok(_) => {},
        }
        let mut i: usize = 0;
        while i < n
            invariant
                n == line@.len(),
                i <= n,
                self.wf(),
                self@.geom_offsets == s.announce_line(n as int).geom_offsets,
                self@.bits == s.announce_line(n as int).bits,
                self@.coords == s.coords + line@.subrange(0, i as int),
                s.coords.len() == s.geom_offsets.last(),
            decreases n - i,
        {
            let c = line[i];
            self.push_xy(c.x, c.y);
            assert(self@.coords =~= s.coords + line@.subrange(0, i + 1));
            i += 1;
        }
        proof {
            assert(line@.subrange(0, n as int) =~= line@);
            assert(self@ =~= s.with_line(line@));
            s.lemma_with_line(line@);
        }
        Ok(())
    }

    /// Takes one event of a stream.
    ///
    /// Fails, and changes nothing, where the event arrives out of order, belongs to a
    /// polygon, or announces more than the width can hold.
    pub fn process(&mut self, event: GeomEvent) -> (r: Result<(), GeoArrowError>)
        requires
            old(self).wf(),
        ensures
            final(self).wf(),
            match old(self)@.step(event, O::max_value()) {
                Ok(s) => r is Ok && final(self)@ == s,
                Err(e) => r == Err::<(), GeoArrowError>(e) && final(self)@ == old(self)@,
            },
    {
        match event {
            GeomEvent::GeometryCollectionBegin { size, idx } => self.geometrycollection_begin(
                size,
                idx,
            ),
            GeomEvent::GeometryCollectionEnd { idx } => self.geometrycollection_end(idx),
            GeomEvent::PolygonBegin { .. } => Err(
                GeoArrowError::Unsupported { kind: GeometryType::Polygon },
            ),
            GeomEvent::PolygonEnd { .. } => Err(
                GeoArrowError::Unsupported { kind: GeometryType::Polygon },
            ),
            GeomEvent::LineStringBegin { tagged, size, idx } => self.linestring_begin(
                tagged,
                size,
                idx,
            ),
            GeomEvent::LineStringEnd { tagged, idx } => self.linestring_end(tagged, idx),
            GeomEvent::Xy { x, y, idx } => self.xy(x, y, idx),
        }
    }

    /// A collection of `size` line strings begins: room is made for as many slots.
    pub fn geometrycollection_begin(&mut self, size: usize, idx: usize) -> (r: Result<
        (),
        GeoArrowError,
    >)
        requires
            old(self).wf(),
        ensures
            final(self).wf(),
            r is Ok,
            final(self)@ == old(self)@,
    {
        self.reserve(0, size);
        Ok(())
    }

    /// A collection ends.
    pub fn geometrycollection_end(&mut self, idx: usize) -> (r: Result<(), GeoArrowError>)
        requires
            old(self).wf(),
        ensures
            final(self).wf(),
            r is Ok,
            final(self)@ == old(self)@,
    {
        Ok(())
    }

    /// A line string of `size` coordinates begins.
    pub fn linestring_begin(&mut self, tagged: bool, size: usize, idx: usize) -> (r: Result<
        (),
        GeoArrowError,
    >)
        requires
            old(self).wf(),
        ensures
            final(self).wf(),
            match old(self)@.step(GeomEvent::LineStringBegin { tagged, size, idx }, O::max_value()) {
                Ok(s) => r is Ok && final(self)@ == s,
                Err(e) => r == Err::<(), GeoArrowError>(e) && final(self)@ == old(self)@,
            },
    {
        if !self.balanced() {
            return Err(GeoArrowError::Unbalanced);
        }
        self.reserve(size, 0);
        self.try_push_length(size)
    }

    /// A line string ends.
    pub fn linestring_end(&mut self, tagged: bool, idx: usize) -> (r: Result<(), GeoArrowError>)
        requires
            old(self).wf(),
        ensures
            final(self).wf(),
            match old(self)@.step(GeomEvent::LineStringEnd { tagged, idx }, O::max_value()) {
                Ok(s) => r is Ok && final(self)@ == s,
                Err(e) => r == Err::<(), GeoArrowError>(e) && final(self)@ == old(self)@,
            },
    {
        if !self.balanced() {
            return Err(GeoArrowError::Unbalanced);
        }
        Ok(())
    }

    /// One coordinate of the line string begun last.
    pub fn xy(&mut self, x: u64, y: u64, idx: usize) -> (r: Result<(), GeoArrowError>)
        requires
            old(self).wf(),
        ensures
            final(self).wf(),
            match old(self)@.step(GeomEvent::Xy { x, y, idx }, O::max_value()) {
                Ok(s) => r is Ok && final(self)@ == s,
                Err(e) => r == Err::<(), GeoArrowError>(e) && final(self)@ == old(self)@,
            },
    {
        if self.balanced() {
            return Err(GeoArrowError::Unbalanced);
        }
        proof {
            lemma_staged_last(self@.geom_offsets);
        }
        self.push_xy(x, y);
        Ok(())
    }

    /// The finished array: the staged buffers, frozen.
    ///
    /// Fails with `Unbalanced` where announced coordinates are still owed. The mask is left
    /// out where every slot is valid.
    pub fn finish(self) -> (r: Result<LineStringArray<O>, GeoArrowError>)
        requires
            self.wf(),
        ensures
            r is Ok <==> self@.is_balanced(),
            r is Ok ==> r->Ok_0.is_frozen(self@),
            r is Ok ==> r->Ok_0@ == self@.lines(),
            r is Err ==> r->Err_0 == GeoArrowError::Unbalanced,
    {
        if !self.balanced() {
            return Err(GeoArrowError::Unbalanced);
        }
        Ok(self.into_array())
    }

    /// The finished array of a builder that owes nothing.
    pub fn into_array(self) -> (r: LineStringArray<O>)
        requires
            self.wf(),
            self@.is_balanced(),
        ensures
            r.is_frozen(self@),
            r@ == self@.lines(),
    {
        let ghost me = self@;
        let _words = self.coords.len();
        let coords = CoordBuffer::Interleaved(InterleavedCoordBuffer::new(self.coords));
        let geom_offsets = Offsets::new(self.geom_offsets);
        let validity = validity_from_bits(self.validity);
        let r = LineStringArray::new(coords, geom_offsets, validity);
        proof {
            assert(r@ =~= me.lines());
        }
        r
    }
}

impl<O: OffsetSize> LineStringArray<O> {
    /// Whether the array holds exactly the buffers of the stage `s`, interleaved, with the
    /// mask left out where every slot is valid.
    pub open spec fn is_frozen(&self, s: LineStage) -> bool {
        &&& self.spec_coords() == s.coords
        &&& self.spec_coord_type() == CoordType::Interleaved
        &&& self.spec_offsets() == s.geom_offsets
        &&& self.spec_mask() == if all_set(s.bits) {
            None
        } else {
            Some(s.bits)
        }
    }
}

/// The optional line strings that a vector of optional vectors holds.
pub open spec fn lines_view(lines: Seq<Option<Vec<Coord>>>) -> Seq<Option<Seq<Coord>>> {
    Seq::new(
        lines.len(),
        |i: int|
            match lines[i] {
                Some(line) => Some(line@),
                None => None,
            },
    )
}

/// The number of coordinates in the first `n` slots; a null slot has none.
pub open spec fn coord_count(slots: Seq<Option<Seq<Coord>>>, n: int) -> int
    decreases n,
{
    if n <= 0 {
        0
    } else {
        coord_count(slots, n - 1) + match slots[n - 1] {
            Some(line) => line.len() as int,
            None => 0,
        }
    }
}

/// The number of coordinates grows with the number of slots taken.
pub proof fn lemma_coord_count_grows(slots: Seq<Option<Seq<Coord>>>, j: int, n: int)
    requires
        0 <= j <= n,
    ensures
        0 <= coord_count(slots, j) <= coord_count(slots, n),
    decreases n,
{
    if n > 0 {
        if j < n {
            lemma_coord_count_grows(slots, j, n - 1);
        } else {
            lemma_coord_count_grows(slots, j - 1, n - 1);
        }
    }
}

impl<O: OffsetSize> LineStringArray<O> {
    /// The array that holds `lines`, slot by slot, in buffers that hold nothing else.
    ///
    /// Fails with `Overflow` exactly where the coordinates are more than the offset width
    /// can count.
    pub fn from_lines(lines: &Vec<Option<Vec<Coord>>>) -> (r: Result<Self, GeoArrowError>)
        ensures
            r is Ok <==> coord_count(lines_view(lines@), lines@.len() as int) <= O::max_value(),
            r is Ok ==> {
                &&& r->Ok_0@ == lines_view(lines@)
                &&& r->Ok_0.spec_coord_type() == CoordType::Interleaved
                &&& r->Ok_0.spec_offsets()[0] == 0
                &&& r->Ok_0.spec_offsets().last() == r->Ok_0.spec_coords().len()
                &&& r->Ok_0.spec_coords().len() == coord_count(
                    lines_view(lines@),
                    lines@.len() as int,
                )
            },
            r is Err ==> r->Err_0 == GeoArrowError::Overflow,
    {
        let ghost lv = lines_view(lines@);
        let n = lines.len();
        let mut builder = MutableLineStringArray::<O>::with_capacities(0, n);
        let mut i: usize = 0;
        while i < n
            invariant
                n == lines@.len(),
                i <= n,
                lv == lines_view(lines@),
                builder.wf(),
                builder@.wf(),
                builder@.is_balanced(),
                builder@.geom_offsets[0] == 0,
                builder@.lines() == lv.subrange(0, i as int),
                builder@.geom_offsets.last() == coord_count(lv, i as int),
            decreases n - i,
        {
            let ghost before = builder@;
            proof {
                match lines@[i as int] {
                    Some(line) => before.lemma_with_line(line@),
                    None => before.lemma_add_null(),
                }
            }
            match builder.push_line_string(lines[i].as_ref()) {
                Ok(_) => {},
                Err(e) => {
                    proof {
                        lemma_coord_count_grows(lv, i + 1, n as int);
                    }
                    return Err(e);
                },
            }
            assert(lv.subrange(0, i as int).push(lv[i as int]) =~= lv.subrange(0, i + 1));
            i += 1;
        }
        assert(lv.subrange(0, n as int) =~= lv);
        let r = builder.into_array();
        proof {
            use_type_invariant(&r);
        }
        Ok(r)
    }
}

} // verus!
