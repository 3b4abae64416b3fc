use crate::buffer::narrow::{narrow_get, narrow_len, narrow_new, narrow_slice, narrow_values, NarrowBuffer};
use crate::buffer::wide::{wide_get, wide_len, wide_new, wide_slice, wide_values, WideBuffer};
use crate::error::GeoArrowError;
use vstd::prelude::*;

verus! {

/// Whether `s` can partition a child buffer: it is not empty, starts at or above zero,
/// never decreases, and its last value is a length this machine can address.
pub open spec fn is_offsets(s: Seq<int>) -> bool {
    &&& s.len() >= 1
    &&& s[0] >= 0
    &&& forall|i: int| 0 <= i < s.len() - 1 ==> s[i] <= #[trigger] s[i + 1]
    &&& s.last() <= usize::MAX
}

/// In a sequence of offsets, an earlier value is never above a later one.
pub proof fn lemma_offsets_monotone(s: Seq<int>, i: int, j: int)
    requires
        is_offsets(s),
        0 <= i <= j < s.len(),
    ensures
        s[i] <= s[j],
    decreases j - i,
{
    if i < j {
        lemma_offsets_monotone(s, i, j - 1);
        assert(s[j - 1] <= s[j - 1 + 1]);
    }
}

/// In a sequence of offsets, an earlier value is never above a later one, and all values
/// lie between zero and the last.
pub proof fn lemma_offsets_ordered(s: Seq<int>, i: int, j: int)
    requires
        is_offsets(s),
        0 <= i <= j < s.len(),
    ensures
        0 <= s[i] <= s[j] <= s.last() <= usize::MAX,
{
    lemma_offsets_monotone(s, 0, i);
    lemma_offsets_monotone(s, i, j);
    lemma_offsets_monotone(s, j, s.len() - 1);
}

/// The mathematical values of a sequence of stored offsets.
pub open spec fn offset_ints<O: OffsetSize>(v: Seq<O>) -> Seq<int> {
    Seq::new(v.len(), |i: int| v[i].as_int())
}

/// An integer width that offsets can be stored in.
///
/// The two widths are `i32` (narrow) and `i64` (wide). Everything above this trait is written
/// once, against the mathematical value of an offset.
pub trait OffsetSize: Copy + Sized {
    /// The shared buffer that holds offsets of this width.
    type Buffer;

    /// Whether this is the wide width.
    spec fn is_large() -> bool;

    /// The largest offset of this width.
    spec fn max_value() -> int;

    /// The smallest offset of this width.
    spec fn min_value() -> int;

    /// The mathematical value of an offset.
    spec fn as_int(self) -> int;

    /// The mathematical values that a buffer holds.
    spec fn values(b: &Self::Buffer) -> Seq<int>;

    /// Every offset lies within its width.
    proof fn lemma_range(self)
        ensures
            Self::min_value() <= self.as_int() <= Self::max_value(),
    ;

    /// Either width holds zero and is no wider than 64 bits.
    proof fn lemma_bounds()
        ensures
            i64::MIN <= Self::min_value() < 0 < Self::max_value() <= i64::MAX,
    ;

    /// Whether this is the wide width.
    fn large() -> (r: bool)
        ensures
            r == Self::is_large(),
    ;

    /// The offset with value `n`, or `None` where this width cannot hold it.
    fn from_usize(n: usize) -> (r: Option<Self>)
        ensures
            r is Some <==> n <= Self::max_value(),
            r is Some ==> r.unwrap().as_int() == n,
    ;

    /// The value of an offset as a length, or `None` where it is negative or not addressable.
    fn to_usize(self) -> (r: Option<usize>)
        ensures
            r is Some <==> 0 <= self.as_int() <= usize::MAX,
            r is Some ==> r.unwrap() == self.as_int(),
    ;

    /// The offset as a wide one.
    fn to_wide(self) -> (r: i64)
        ensures
            r == self.as_int(),
    ;

    /// The offset with the value of `v`, or `None` where this width cannot hold it.
    fn from_wide(v: i64) -> (r: Option<Self>)
        ensures
            r is Some <==> Self::min_value() <= v <= Self::max_value(),
            r is Some ==> r.unwrap().as_int() == v,
    ;

    /// A shared buffer that holds `values`.
    fn buffer_new(values: Vec<Self>) -> (b: Self::Buffer)
        requires
            is_offsets(Seq::new(values@.len(), |i: int| values@[i].as_int())),
        ensures
            Self::values(&b) == Seq::new(values@.len(), |i: int| values@[i].as_int()),
    ;

    /// The number of offsets in `b`.
    fn buffer_len(b: &Self::Buffer) -> (n: usize)
        ensures
            n == Self::values(b).len(),
    ;

    /// The offset at position `i` of `b`.
    fn buffer_get(b: &Self::Buffer, i: usize) -> (v: Self)
        requires
            i < Self::values(b).len(),
        ensures
            v.as_int() == Self::values(b)[i as int],
    ;

    /// The offsets of `b` at positions `offset ..= offset + len`, sharing its storage.
    fn buffer_slice(b: &Self::Buffer, offset: usize, len: usize) -> (r: Self::Buffer)
        requires
            offset + len + 1 <= Self::values(b).len(),
        ensures
            Self::values(&r) == Self::values(b).subrange(offset as int, offset + len + 1),
    ;
}

impl OffsetSize for i32 {
    type Buffer = NarrowBuffer;

    open spec fn is_large() -> bool {
        false
    }

    open spec fn max_value() -> int {
        i32::MAX as int
    }

    open spec fn min_value() -> int {
        i32::MIN as int
    }

    open spec fn as_int(self) -> int {
        self as int
    }

    open spec fn values(b: &NarrowBuffer) -> Seq<int> {
        Seq::new(narrow_values(*b).len(), |i: int| narrow_values(*b)[i] as int)
    }

    proof fn lemma_range(self) {
    }

    proof fn lemma_bounds() {
    }

    fn large() -> (r: bool) {
        false
    }

    fn from_usize(n: usize) -> (r: Option<i32>) {
        if n <= 0x7fff_ffff {
            Some(n as i32)
        } else {
            None
        }
    }

    fn to_usize(self) -> (r: Option<usize>) {
        if self >= 0 {
            Some(self as usize)
        } else {
            None
        }
    }

    fn to_wide(self) -> (r: i64) {
        self as i64
    }

    fn from_wide(v: i64) -> (r: Option<i32>) {
        if v <= 0x7fff_ffff && v >= -0x8000_0000 {
            Some(v as i32)
        } else {
            None
        }
    }

    fn buffer_new(values: Vec<i32>) -> (b: NarrowBuffer) {
        let ghost s = Seq::new(values@.len(), |i: int| values@[i].as_int());
        assert forall|i: int| 0 <= i < values@.len() - 1 implies values@[i] <= #[trigger] values@[i
            + 1] by {
            assert(s[i] <= s[i + 1]);
        }
        assert(s[0] == values@[0]);
        let b = narrow_new(values);
        assert(Self::values(&b) =~= s);
        b
    }

    fn buffer_len(b: &NarrowBuffer) -> (n: usize) {
        narrow_len(b)
    }

    fn buffer_get(b: &NarrowBuffer, i: usize) -> (v: i32) {
        narrow_get(b, i)
    }

    fn buffer_slice(b: &NarrowBuffer, offset: usize, len: usize) -> (r: NarrowBuffer) {
        let r = narrow_slice(b, offset, len);
        assert(Self::values(&r) =~= Self::values(b).subrange(offset as int, offset + len + 1));
        r
    }
}

impl OffsetSize for i64 {
    type Buffer = WideBuffer;

    open spec fn is_large() -> bool {
        true
    }

    open spec fn max_value() -> int {
        i64::MAX as int
    }

    open spec fn min_value() -> int {
        i64::MIN as int
    }

    open spec fn as_int(self) -> int {
        self as int
    }

    open spec fn values(b: &WideBuffer) -> Seq<int> {
        Seq::new(wide_values(*b).len(), |i: int| wide_values(*b)[i] as int)
    }

    proof fn lemma_range(self) {
    }

    proof fn lemma_bounds() {
    }

    fn large() -> (r: bool) {
        true
    }

    fn from_usize(n: usize) -> (r: Option<i64>) {
        if n as u64 <= 0x7fff_ffff_ffff_ffff {
            Some(n as i64)
        } else {
            None
        }
    }

    fn to_usize(self) -> (r: Option<usize>) {
        if self >= 0 && self as u64 <= usize::MAX as u64 {
            Some(self as usize)
        } else {
            None
        }
    }

    fn to_wide(self) -> (r: i64) {
        self
    }

    fn from_wide(v: i64) -> (r: Option<i64>) {
        Some(v)
    }

    fn buffer_new(values: Vec<i64>) -> (b: WideBuffer) {
        let ghost s = Seq::new(values@.len(), |i: int| values@[i].as_int());
        assert forall|i: int| 0 <= i < values@.len() - 1 implies values@[i] <= #[trigger] values@[i
            + 1] by {
            assert(s[i] <= s[i + 1]);
        }
        assert(s[0] == values@[0]);
        let b = wide_new(values);
        assert(Self::values(&b) =~= s);
        b
    }

    fn buffer_len(b: &WideBuffer) -> (n: usize) {
        wide_len(b)
    }

    fn buffer_get(b: &WideBuffer, i: usize) -> (v: i64) {
        wide_get(b, i)
    }

    fn buffer_slice(b: &WideBuffer, offset: usize, len: usize) -> (r: WideBuffer) {
        let r = wide_slice(b, offset, len);
        assert(Self::values(&r) =~= Self::values(b).subrange(offset as int, offset + len + 1));
        r
    }
}

/// A non-decreasing sequence of offsets that partitions a child buffer into groups.
///
/// Group `g` occupies the range `[self@[g], self@[g + 1])` of the child. The values are
/// absolute: a slice keeps the numbers of the buffer it was cut from, and so indexes the same
/// child.
pub struct Offsets<O: OffsetSize> {
    buf: O::Buffer,
}

impl<O: OffsetSize> View for Offsets<O> {
    type V = Seq<int>;

    closed spec fn view(&self) -> Seq<int> {
        O::values(&self.buf)
    }
}

impl<O: OffsetSize> Offsets<O> {
    /// What holds of every offset buffer.
    #[verifier::type_invariant]
    pub open spec fn wf(&self) -> bool {
        &&& is_offsets(self@)
        &&& self@.last() <= O::max_value()
    }

    /// The number of groups.
    pub open spec fn spec_len_proxy(&self) -> int {
        self@.len() - 1
    }

    /// The number of child elements in group `i`.
    pub open spec fn group_len(&self, i: int) -> int {
        self@[i + 1] - self@[i]
    }

    /// Offsets from their values, which must form a valid sequence.
    pub fn try_new(values: Vec<O>) -> (r: Result<Self, GeoArrowError>)
        ensures
            r is Ok <==> is_offsets(offset_ints(values@)),
            r is Ok ==> r->Ok_0@ == offset_ints(values@),
            r is Err ==> r->Err_0 == GeoArrowError::MalformedOffsets,
    {
        let ghost s = offset_ints(values@);
        let n = values.len();
        if n == 0 {
            return Err(GeoArrowError::MalformedOffsets);
        }
        if values[0].to_wide() < 0 {
            return Err(GeoArrowError::MalformedOffsets);
        }
        let mut i: usize = 0;
        while i < n - 1
            invariant
                n == values@.len(),
                n >= 1,
                i <= n - 1,
                s == offset_ints(values@),
                forall|k: int| 0 <= k < i ==> s[k] <= #[trigger] s[k + 1],
            decreases n - i,
        {
            if values[i].to_wide() > values[i + 1].to_wide() {
                assert(s[i as int] > s[i as int + 1]);
                return Err(GeoArrowError::MalformedOffsets);
            }
            i += 1;
        }
        if values[n - 1].to_usize().is_none() {
            assert(s[0] >= 0);
            assert(s.last() == values@[n - 1].as_int());
            assert(s.last() > usize::MAX) by {
                lemma_monotone_from_steps(s, 0, n - 1);
            }
            return Err(GeoArrowError::MalformedOffsets);
        }
        proof {
            values@[n - 1].lemma_range();
        }
        Ok(Offsets { buf: O::buffer_new(values) })
    }

    /// Offsets from values that are known to form a valid sequence.
    pub fn new(values: Vec<O>) -> (r: Self)
        requires
            is_offsets(offset_ints(values@)),
        ensures
            r@ == offset_ints(values@),
    {
        proof {
            values@[values@.len() - 1].lemma_range();
        }
        Offsets { buf: O::buffer_new(values) }
    }

    /// The offsets of an array without slots: the single value zero.
    pub fn new_empty() -> (r: Self)
        ensures
            r@ == seq![0int],
    {
        let mut values: Vec<O> = Vec::new();
        proof {
            O::lemma_bounds();
        }
        let zero = O::from_usize(0);
        values.push(zero.unwrap());
        assert(offset_ints(values@) =~= seq![0int]);
        Offsets { buf: O::buffer_new(values) }
    }

    /// The number of offsets, one more than the number of groups.
    pub fn len(&self) -> (n: usize)
        ensures
            n == self@.len(),
            n >= 1,
    {
        proof {
            use_type_invariant(self);
        }
        O::buffer_len(&self.buf)
    }

    /// The number of groups.
    pub fn len_proxy(&self) -> (n: usize)
        ensures
            n == self.spec_len_proxy(),
    {
        proof {
            use_type_invariant(self);
        }
        O::buffer_len(&self.buf) - 1
    }

    /// The offset at position `i`.
    pub fn get(&self, i: usize) -> (v: usize)
        requires
            i < self@.len(),
        ensures
            v == self@[i as int],
    {
        proof {
            use_type_invariant(self);
            lemma_offsets_ordered(self@, i as int, i as int);
        }
        O::buffer_get(&self.buf, i).to_usize().unwrap()
    }

    /// The first offset: where the first group starts in the child.
    pub fn first(&self) -> (v: usize)
        ensures
            v == self@[0],
    {
        proof {
            use_type_invariant(self);
        }
        self.get(0)
    }

    /// The last offset: where the last group ends in the child.
    pub fn last(&self) -> (v: usize)
        ensures
            v == self@.last(),
    {
        let n = self.len();
        self.get(n - 1)
    }

    /// The range of the child that group `i` occupies.
    pub fn start_end(&self, i: usize) -> (r: (usize, usize))
        requires
            i < self.spec_len_proxy(),
        ensures
            r.0 == self@[i as int],
            r.1 == self@[i + 1],
            r.0 <= r.1,
    {
        proof {
            use_type_invariant(self);
            lemma_offsets_ordered(self@, i as int, i + 1);
        }
        let n = self.len();
        assert(i + 1 < n);
        (self.get(i), self.get(i + 1))
    }

    /// The offsets of groups `offset .. offset + length`, sharing storage with `self`.
    ///
    /// The values are not renumbered: they still index the child that `self` indexes.
    pub fn slice(&self, offset: usize, length: usize) -> (r: Self)
        requires
            offset + length <= self.spec_len_proxy(),
        ensures
            r@ == self@.subrange(offset as int, offset + length + 1),
    {
        proof {
            use_type_invariant(self);
            lemma_subrange_is_offsets(self@, offset as int, offset + length + 1);
            lemma_offsets_ordered(self@, offset + length, offset + length);
        }
        Offsets { buf: O::buffer_slice(&self.buf, offset, length) }
    }

    /// The values as a vector.
    pub fn to_vec(&self) -> (v: Vec<O>)
        ensures
            offset_ints(v@) == self@,
    {
        let n = self.len();
        let mut v: Vec<O> = Vec::new();
        let mut i: usize = 0;
        while i < n
            invariant
                n == self@.len(),
                i <= n,
                v@.len() == i,
                forall|k: int| 0 <= k < i ==> (#[trigger] v@[k]).as_int() == self@[k],
            decreases n - i,
        {
            v.push(O::buffer_get(&self.buf, i));
            i += 1;
        }
        assert(offset_ints(v@) =~= self@);
        v
    }
}

/// Steps that never go down add up: an earlier value is never above a later one.
pub proof fn lemma_monotone_from_steps(s: Seq<int>, i: int, j: int)
    requires
        0 <= i <= j < s.len(),
        forall|k: int| i <= k < j ==> s[k] <= #[trigger] s[k + 1],
    ensures
        s[i] <= s[j],
    decreases j - i,
{
    if i < j {
        lemma_monotone_from_steps(s, i, j - 1);
        assert(s[j - 1] <= s[j - 1 + 1]);
    }
}

/// A run of consecutive offsets is itself a sequence of offsets.
pub proof fn lemma_subrange_is_offsets(s: Seq<int>, lo: int, hi: int)
    requires
        is_offsets(s),
        0 <= lo < hi <= s.len(),
    ensures
        is_offsets(s.subrange(lo, hi)),
{
    let t = s.subrange(lo, hi);
    lemma_offsets_ordered(s, lo, hi - 1);
    assert forall|i: int| 0 <= i < t.len() - 1 implies t[i] <= #[trigger] t[i + 1] by {
        assert(s[lo + i] <= s[lo + i + 1]);
    }
}

/// The offsets of groups `offset .. offset + length` of `s`, renumbered to start at zero.
pub open spec fn rebased(s: Seq<int>, offset: int, length: int) -> Seq<int> {
    Seq::new((length + 1) as nat, |k: int| s[offset + k] - s[offset])
}

/// Whether two offset sequences cut their children into groups of the same lengths.
pub open spec fn same_group_lens(a: Seq<int>, b: Seq<int>) -> bool {
    &&& a.len() == b.len()
    &&& forall|k: int| 0 <= k < a.len() - 1 ==> a[k + 1] - a[k] == #[trigger] b[k + 1] - b[k]
}

/// What converting offsets to a width whose largest value is `max` gives: the same offsets
/// where the last one fits, and `Overflow` where it does not.
pub open spec fn convert_spec(s: Seq<int>, max: int) -> Result<Seq<int>, GeoArrowError> {
    if s.last() <= max {
        Ok(s)
    } else {
        Err(GeoArrowError::Overflow)
    }
}

/// Offsets that fit the narrow width come back unchanged from widening and narrowing again.
pub proof fn lemma_widen_narrow_identity(s: Seq<int>)
    requires
        is_offsets(s),
        s.last() <= i32::MAX as int,
    ensures
        convert_spec(s, i64::MAX as int) == Ok::<Seq<int>, GeoArrowError>(s),
        convert_spec(convert_spec(s, i64::MAX as int)->Ok_0, i32::MAX as int) == Ok::<
            Seq<int>,
            GeoArrowError,
        >(s),
{
}

/// Narrowing fails, with `Overflow`, exactly when some offset is above the narrow maximum.
pub proof fn lemma_narrow_overflow(s: Seq<int>)
    requires
        is_offsets(s),
    ensures
        convert_spec(s, i32::MAX as int) is Err <==> exists|i: int|
            0 <= i < s.len() && s[i] > i32::MAX as int,
        convert_spec(s, i32::MAX as int) is Err ==> convert_spec(s, i32::MAX as int)->Err_0
            == GeoArrowError::Overflow,
{
    if convert_spec(s, i32::MAX as int) is Err {
        assert(s[s.len() - 1] > i32::MAX as int);
    } else {
        assert forall|i: int| 0 <= i < s.len() implies s[i] <= i32::MAX as int by {
            lemma_offsets_ordered(s, i, i);
        }
    }
}

/// Renumbered offsets are offsets again, and end at the length of the span they cover.
pub proof fn lemma_rebased_is_offsets(s: Seq<int>, offset: int, length: int)
    requires
        is_offsets(s),
        0 <= offset,
        0 <= length,
        offset + length < s.len(),
    ensures
        is_offsets(rebased(s, offset, length)),
        rebased(s, offset, length)[0] == 0,
        rebased(s, offset, length).last() == s[offset + length] - s[offset],
        same_group_lens(rebased(s, offset, length), s.subrange(offset, offset + length + 1)),
{
    let t = rebased(s, offset, length);
    lemma_offsets_ordered(s, offset, offset + length);
    assert forall|i: int| 0 <= i < t.len() - 1 implies t[i] <= #[trigger] t[i + 1] by {
        assert(s[offset + i] <= s[offset + i + 1]);
    }
}

impl<O: OffsetSize> Offsets<O> {
    /// The offsets of groups `offset .. offset + length`, copied and renumbered to start at
    /// zero: they index a child that holds the span of those groups and nothing else.
    pub fn owned_slice(&self, offset: usize, length: usize) -> (r: Self)
        requires
            offset + length <= self.spec_len_proxy(),
        ensures
            r@ == rebased(self@, offset as int, length as int),
    {
        proof {
            use_type_invariant(self);
            lemma_rebased_is_offsets(self@, offset as int, length as int);
            lemma_offsets_ordered(self@, offset as int, offset + length);
        }
        let n = self.len();
        let base = self.get(offset);
        let ghost target = rebased(self@, offset as int, length as int);
        let mut values: Vec<O> = Vec::new();
        let mut k: usize = 0;
        while k <= length
            invariant
                self.wf(),
                n == self@.len(),
                offset + length < n,
                base == self@[offset as int],
                k <= length + 1,
                values@.len() == k,
                target == rebased(self@, offset as int, length as int),
                forall|j: int| 0 <= j < k ==> (#[trigger] values@[j]).as_int() == target[j],
            decreases length + 1 - k,
        {
            proof {
                lemma_offsets_ordered(self@, offset as int, offset + k);
            }
            let v = self.get(offset + k) - base;
            let o = O::from_usize(v);
            values.push(o.unwrap());
            k += 1;
        }
        assert(offset_ints(values@) =~= target);
        Offsets { buf: O::buffer_new(values) }
    }

    /// The same offsets in another width.
    ///
    /// Widening always succeeds. Narrowing fails with `Overflow` exactly when some offset,
    /// and so the last one, is above what the narrower width can hold.
    pub fn convert<P: OffsetSize>(&self) -> (r: Result<Offsets<P>, GeoArrowError>)
        ensures
            r is Ok <==> self@.last() <= P::max_value(),
            r is Ok ==> r->Ok_0@ == self@,
            r is Err ==> r->Err_0 == GeoArrowError::Overflow,
            match convert_spec(self@, P::max_value()) {
                Ok(s) => r is Ok && r->Ok_0@ == s,
                Err(e) => r is Err && r->Err_0 == e,
            },
    {
        proof {
            use_type_invariant(self);
            P::lemma_bounds();
        }
        let n = self.len();
        if P::from_usize(self.last()).is_none() {
            return Err(GeoArrowError::Overflow);
        }
        let mut values: Vec<P> = Vec::new();
        let mut k: usize = 0;
        while k < n
            invariant
                self.wf(),
                n == self@.len(),
                self@.last() <= P::max_value(),
                k <= n,
                values@.len() == k,
                forall|j: int| 0 <= j < k ==> (#[trigger] values@[j]).as_int() == self@[j],
            decreases n - k,
        {
            proof {
                lemma_offsets_ordered(self@, k as int, k as int);
            }
            let o = P::from_usize(self.get(k));
            values.push(o.unwrap());
            k += 1;
        }
        assert(offset_ints(values@) =~= self@);
        Ok(Offsets { buf: P::buffer_new(values) })
    }

    /// Whether `self` and `other` hold the same offsets, one by one.
    pub fn equals(&self, other: &Self) -> (r: bool)
        ensures
            r == (self@ == other@),
    {
        proof {
            use_type_invariant(self);
            use_type_invariant(other);
        }
        let n = self.len();
        if n != other.len() {
            return false;
        }
        let mut k: usize = 0;
        while k < n
            invariant
                n == self@.len(),
                n == other@.len(),
                k <= n,
                forall|j: int| 0 <= j < k ==> self@[j] == other@[j],
            decreases n - k,
        {
            if self.get(k) != other.get(k) {
                assert(self@[k as int] != other@[k as int]);
                return false;
            }
            k += 1;
        }
        assert(self@ =~= other@);
        true
    }

    /// Whether `self` and `other` have as many groups, each as long as its counterpart.
    ///
    /// Where the offsets start does not count: a slice has the group lengths of its
    /// renumbered copy.
    pub fn eq_lengths(&self, other: &Self) -> (r: bool)
        ensures
            r == same_group_lens(self@, other@),
    {
        proof {
            use_type_invariant(self);
            use_type_invariant(other);
        }
        let n = self.len();
        if n != other.len() {
            return false;
        }
        let mut k: usize = 0;
        while k < n - 1
            invariant
                self.wf(),
                other.wf(),
                n == self@.len(),
                n == other@.len(),
                n >= 1,
                k <= n - 1,
                forall|j: int|
                    0 <= j < k ==> self@[j + 1] - self@[j] == #[trigger] other@[j + 1] - other@[j],
            decreases n - k,
        {
            let (a0, a1) = self.start_end(k);
            let (b0, b1) = other.start_end(k);
            if a1 - a0 != b1 - b0 {
                return false;
            }
            k += 1;
        }
        true
    }
}

impl<O: OffsetSize> Clone for Offsets<O> {
    /// A second handle on the same storage.
    fn clone(&self) -> (r: Self)
        ensures
            r@ == self@,
    {
        let n = self.len_proxy();
        let r = self.slice(0, n);
        assert(r@ =~= self@);
        r
    }
}

} // verus!
