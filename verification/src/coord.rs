use crate::buffer::word::{word_get, word_len, word_new, word_slice, word_values, WordBuffer};
use crate::datatypes::CoordType;
use crate::error::GeoArrowError;
use vstd::prelude::*;

verus! {

/// One vertex. Each ordinate is the bit pattern of an IEEE 754 double, so that storing,
/// copying and comparing coordinates never rounds.
#[derive(Debug, Clone, Copy, PartialEq, Eq, Structural)]
pub struct Coord {
    pub x: u64,
    pub y: u64,
}

/// The coordinates that interleaved words `[x0, y0, x1, y1, ..]` spell.
pub open spec fn interleaved_coords(words: Seq<u64>) -> Seq<Coord> {
    Seq::new(words.len() / 2, |i: int| Coord { x: words[2 * i], y: words[2 * i + 1] })
}

/// The coordinates that separated words `[x0, x1, ..]` and `[y0, y1, ..]` spell.
pub open spec fn separated_coords(x: Seq<u64>, y: Seq<u64>) -> Seq<Coord> {
    Seq::new(x.len(), |i: int| Coord { x: x[i], y: y[i] })
}

/// A coordinate buffer that stores `[x0, y0, x1, y1, ..]` in one shared buffer.
pub struct InterleavedCoordBuffer {
    coords: WordBuffer,
}

impl View for InterleavedCoordBuffer {
    type V = Seq<Coord>;

    closed spec fn view(&self) -> Seq<Coord> {
        interleaved_coords(word_values(self.coords))
    }
}

impl InterleavedCoordBuffer {
    #[verifier::type_invariant]
    closed spec fn wf(&self) -> bool {
        word_values(self.coords).len() % 2 == 0
    }

    /// A buffer over `[x0, y0, x1, y1, ..]`; the number of words must be even.
    pub fn try_new(words: Vec<u64>) -> (r: Result<Self, GeoArrowError>)
        ensures
            r is Ok <==> words@.len() % 2 == 0,
            r is Ok ==> r->Ok_0@ == interleaved_coords(words@),
            r is Err ==> r->Err_0 == GeoArrowError::CoordLength,
    {
        if words.len() % 2 != 0 {
            return Err(GeoArrowError::CoordLength);
        }
        Ok(InterleavedCoordBuffer::new(words))
    }

    /// A buffer over an even number of words.
    pub fn new(words: Vec<u64>) -> (r: Self)
        requires
            words@.len() % 2 == 0,
        ensures
            r@ == interleaved_coords(words@),
    {
        InterleavedCoordBuffer { coords: word_new(words) }
    }

    /// The number of coordinates.
    pub fn len(&self) -> (n: usize)
        ensures
            n == self@.len(),
            2 * n <= usize::MAX,
    {
        word_len(&self.coords) / 2
    }

    /// The coordinate at position `i`.
    pub fn value(&self, i: usize) -> (c: Coord)
        requires
            i < self@.len(),
        ensures
            c == self@[i as int],
    {
        proof {
            use_type_invariant(self);
        }
        let _words = word_len(&self.coords);
        Coord { x: word_get(&self.coords, 2 * i), y: word_get(&self.coords, 2 * i + 1) }
    }

    /// Coordinates `offset .. offset + length`, sharing storage with `self`.
    pub fn slice(&self, offset: usize, length: usize) -> (r: Self)
        requires
            offset + length <= self@.len(),
        ensures
            r@ == self@.subrange(offset as int, offset + length),
    {
        proof {
            use_type_invariant(self);
        }
        let _words = word_len(&self.coords);
        let r = InterleavedCoordBuffer { coords: word_slice(&self.coords, 2 * offset, 2 * length) };
        assert(r@ =~= self@.subrange(offset as int, offset + length));
        r
    }
}

/// A coordinate buffer that stores `[x0, x1, ..]` and `[y0, y1, ..]` in two shared buffers.
pub struct SeparatedCoordBuffer {
    x: WordBuffer,
    y: WordBuffer,
}

impl View for SeparatedCoordBuffer {
    type V = Seq<Coord>;

    closed spec fn view(&self) -> Seq<Coord> {
        separated_coords(word_values(self.x), word_values(self.y))
    }
}

impl SeparatedCoordBuffer {
    #[verifier::type_invariant]
    closed spec fn wf(&self) -> bool {
        &&& word_values(self.x).len() == word_values(self.y).len()
        &&& 2 * word_values(self.x).len() <= usize::MAX
    }

    /// A buffer over `[x0, x1, ..]` and `[y0, y1, ..]`, which must be equally long, and short
    /// enough for the same coordinates to fit one interleaved buffer.
    pub fn try_new(x: Vec<u64>, y: Vec<u64>) -> (r: Result<Self, GeoArrowError>)
        ensures
            r is Ok <==> x@.len() == y@.len() && 2 * x@.len() <= usize::MAX,
            r is Ok ==> r->Ok_0@ == separated_coords(x@, y@),
            r is Err ==> r->Err_0 == GeoArrowError::CoordLength,
    {
        if x.len() != y.len() || x.len() > usize::MAX / 2 {
            return Err(GeoArrowError::CoordLength);
        }
        Ok(SeparatedCoordBuffer::new(x, y))
    }

    /// A buffer over equally many x and y words.
    pub fn new(x: Vec<u64>, y: Vec<u64>) -> (r: Self)
        requires
            x@.len() == y@.len(),
            2 * x@.len() <= usize::MAX,
        ensures
            r@ == separated_coords(x@, y@),
    {
        SeparatedCoordBuffer { x: word_new(x), y: word_new(y) }
    }

    /// The number of coordinates.
    pub fn len(&self) -> (n: usize)
        ensures
            n == self@.len(),
            2 * n <= usize::MAX,
    {
        proof {
            use_type_invariant(self);
        }
        word_len(&self.x)
    }

    /// The coordinate at position `i`.
    pub fn value(&self, i: usize) -> (c: Coord)
        requires
            i < self@.len(),
        ensures
            c == self@[i as int],
    {
        proof {
            use_type_invariant(self);
        }
        Coord { x: word_get(&self.x, i), y: word_get(&self.y, i) }
    }

    /// Coordinates `offset .. offset + length`, sharing storage with `self`.
    pub fn slice(&self, offset: usize, length: usize) -> (r: Self)
        requires
            offset + length <= self@.len(),
        ensures
            r@ == self@.subrange(offset as int, offset + length),
    {
        proof {
            use_type_invariant(self);
        }
        let r = SeparatedCoordBuffer {
            x: word_slice(&self.x, offset, length),
            y: word_slice(&self.y, offset, length),
        };
        assert(r@ =~= self@.subrange(offset as int, offset + length));
        r
    }
}

/// A fixed sequence of coordinates in one of two layouts.
///
/// Index `i` denotes vertex `i` whatever the layout.
pub enum CoordBuffer {
    Interleaved(InterleavedCoordBuffer),
    Separated(SeparatedCoordBuffer),
}

impl View for CoordBuffer {
    type V = Seq<Coord>;

    open spec fn view(&self) -> Seq<Coord> {
        match self {
            CoordBuffer::Interleaved(b) => b@,
            CoordBuffer::Separated(b) => b@,
        }
    }
}

impl CoordBuffer {
    /// The layout of this buffer.
    pub open spec fn spec_coord_type(&self) -> CoordType {
        match self {
            CoordBuffer::Interleaved(_) => CoordType::Interleaved,
            CoordBuffer::Separated(_) => CoordType::Separated,
        }
    }

    /// A buffer that holds `coords` in the layout `coord_type`.
    pub fn from_coords(coords: &Vec<Coord>, coord_type: CoordType) -> (r: Self)
        requires
            2 * coords@.len() <= usize::MAX,
        ensures
            r@ == coords@,
            r.spec_coord_type() == coord_type,
    {
        let n = coords.len();
        match coord_type {
            CoordType::Interleaved => {
                let mut words: Vec<u64> = Vec::new();
                let mut i: usize = 0;
                while i < n
                    invariant
                        n == coords@.len(),
                        i <= n,
                        words@.len() == 2 * i,
                        forall|k: int|
                            0 <= k < i ==> words@[2 * k] == coords@[k].x && words@[2 * k + 1]
                                == coords@[k].y,
                    decreases n - i,
                {
                    words.push(coords[i].x);
                    words.push(coords[i].y);
                    i += 1;
                }
                assert(interleaved_coords(words@) =~= coords@);
                CoordBuffer::Interleaved(InterleavedCoordBuffer::new(words))
            },
            CoordType::Separated => {
                let mut x: Vec<u64> = Vec::new();
                let mut y: Vec<u64> = Vec::new();
                let mut i: usize = 0;
                while i < n
                    invariant
                        n == coords@.len(),
                        i <= n,
                        x@.len() == i,
                        y@.len() == i,
                        forall|k: int|
                            0 <= k < i ==> x@[k] == coords@[k].x && y@[k] == coords@[k].y,
                    decreases n - i,
                {
                    x.push(coords[i].x);
                    y.push(coords[i].y);
                    i += 1;
                }
                assert(separated_coords(x@, y@) =~= coords@);
                CoordBuffer::Separated(SeparatedCoordBuffer::new(x, y))
            },
        }
    }

    /// The layout of this buffer.
    pub fn coord_type(&self) -> (t: CoordType)
        ensures
            t == self.spec_coord_type(),
    {
        match self {
            CoordBuffer::Interleaved(_) => CoordType::Interleaved,
            CoordBuffer::Separated(_) => CoordType::Separated,
        }
    }

    /// The number of coordinates.
    pub fn len(&self) -> (n: usize)
        ensures
            n == self@.len(),
            2 * n <= usize::MAX,
    {
        match self {
            CoordBuffer::Interleaved(b) => b.len(),
            CoordBuffer::Separated(b) => b.len(),
        }
    }

    /// The coordinate at position `i`.
    pub fn value(&self, i: usize) -> (c: Coord)
        requires
            i < self@.len(),
        ensures
            c == self@[i as int],
    {
        match self {
            CoordBuffer::Interleaved(b) => b.value(i),
            CoordBuffer::Separated(b) => b.value(i),
        }
    }

    /// The x ordinate of the coordinate at position `i`.
    pub fn get_x(&self, i: usize) -> (x: u64)
        requires
            i < self@.len(),
        ensures
            x == self@[i as int].x,
    {
        self.value(i).x
    }

    /// The y ordinate of the coordinate at position `i`.
    pub fn get_y(&self, i: usize) -> (y: u64)
        requires
            i < self@.len(),
        ensures
            y == self@[i as int].y,
    {
        self.value(i).y
    }

    /// Coordinates `offset .. offset + length`, sharing storage with `self`.
    pub fn slice(&self, offset: usize, length: usize) -> (r: Self)
        requires
            offset + length <= self@.len(),
        ensures
            r@ == self@.subrange(offset as int, offset + length),
            r.spec_coord_type() == self.spec_coord_type(),
    {
        match self {
            CoordBuffer::Interleaved(b) => CoordBuffer::Interleaved(b.slice(offset, length)),
            CoordBuffer::Separated(b) => CoordBuffer::Separated(b.slice(offset, length)),
        }
    }

    /// Coordinates `offset .. offset + length` as a vector.
    pub fn to_vec(&self, offset: usize, length: usize) -> (v: Vec<Coord>)
        requires
            offset + length <= self@.len(),
        ensures
            v@ == self@.subrange(offset as int, offset + length),
    {
        let mut v: Vec<Coord> = Vec::new();
        let mut i: usize = 0;
        while i < length
            invariant
                offset + length <= self@.len(),
                i <= length,
                v@.len() == i,
                forall|k: int| 0 <= k < i ==> v@[k] == self@[offset + k],
            decreases length - i,
        {
            let _len = self.len();
            v.push(self.value(offset + i));
            i += 1;
        }
        assert(v@ =~= self@.subrange(offset as int, offset + length));
        v
    }

    /// Coordinates `offset .. offset + length`, copied into storage of their own that holds
    /// nothing else.
    pub fn owned_slice(&self, offset: usize, length: usize) -> (r: Self)
        requires
            offset + length <= self@.len(),
        ensures
            r@ == self@.subrange(offset as int, offset + length),
            r.spec_coord_type() == self.spec_coord_type(),
    {
        let _len = self.len();
        let v = self.to_vec(offset, length);
        CoordBuffer::from_coords(&v, self.coord_type())
    }

    /// The same coordinates in the layout `coord_type`.
    pub fn into_coord_type(self, coord_type: CoordType) -> (r: Self)
        ensures
            r@ == self@,
            r.spec_coord_type() == coord_type,
    {
        if self.coord_type() == coord_type {
            return self;
        }
        let n = self.len();
        let v = self.to_vec(0, n);
        assert(v@ =~= self@);
        CoordBuffer::from_coords(&v, coord_type)
    }

    /// Whether `self` and `other` hold the same coordinates, whatever their layouts.
    pub fn equals(&self, other: &Self) -> (r: bool)
        ensures
            r == (self@ == other@),
    {
        let n = self.len();
        if n != other.len() {
            return false;
        }
        let mut i: usize = 0;
        while i < n
            invariant
                n == self@.len(),
                n == other@.len(),
                i <= n,
                forall|k: int| 0 <= k < i ==> self@[k] == other@[k],
            decreases n - i,
        {
            let a = self.value(i);
            let b = other.value(i);
            if a.x != b.x || a.y != b.y {
                return false;
            }
            i += 1;
        }
        assert(self@ =~= other@);
        true
    }
}

impl Clone for CoordBuffer {
    /// A second handle on the same storage.
    fn clone(&self) -> (r: Self)
        ensures
            r@ == self@,
            r.spec_coord_type() == self.spec_coord_type(),
    {
        let n = self.len();
        let r = self.slice(0, n);
        assert(r@ =~= self@);
        r
    }
}

} // verus!
