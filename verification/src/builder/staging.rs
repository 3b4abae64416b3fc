use crate::error::GeoArrowError;
use crate::offsets::{offset_ints, OffsetSize};
use vstd::prelude::*;

verus! {

/// Whether `s` can grow into a sequence of offsets: it starts at zero and never decreases.
pub open spec fn is_staged(s: Seq<int>) -> bool {
    &&& s.len() >= 1
    &&& s[0] == 0
    &&& forall|i: int| 0 <= i < s.len() - 1 ==> s[i] <= #[trigger] s[i + 1]
}

/// Staged offsets never go below zero.
pub proof fn lemma_staged_last(s: Seq<int>)
    requires
        is_staged(s),
    ensures
        0 <= s.last(),
{
    crate::offsets::lemma_monotone_from_steps(s, 0, s.len() - 1);
}

/// Staged offsets with one more value, not below the last, are staged offsets.
pub proof fn lemma_staged_push(s: Seq<int>, v: int)
    requires
        is_staged(s),
        s.last() <= v,
    ensures
        is_staged(s.push(v)),
        s.push(v).last() == v,
{
    let t = s.push(v);
    assert forall|i: int| 0 <= i < t.len() - 1 implies t[i] <= #[trigger] t[i + 1] by {
        if i < s.len() - 1 {
            assert(s[i] <= s[i + 1]);
        }
    }
}

/// The staged offsets of an empty builder: the single value zero.
pub fn staged_new<O: OffsetSize>(capacity: usize) -> (v: Vec<O>)
    ensures
        offset_ints(v@) == seq![0int],
{
    let mut v: Vec<O> = Vec::new();
    let _ = v.try_reserve(capacity);
    proof {
        O::lemma_bounds();
    }
    v.push(O::from_usize(0).unwrap());
    assert(offset_ints(v@) =~= seq![0int]);
    v
}

/// Appends the offset that lies `n` above the last one: a group of `n` children.
///
/// Fails with `Overflow`, and changes nothing, where that offset does not fit the width.
pub fn push_length<O: OffsetSize>(offsets: &mut Vec<O>, n: usize) -> (r: Result<
    (),
    GeoArrowError,
>)
    requires
        is_staged(offset_ints(old(offsets)@)),
    ensures
        r is Ok <==> offset_ints(old(offsets)@).last() + n <= O::max_value(),
        r is Ok ==> offset_ints(final(offsets)@) == offset_ints(old(offsets)@).push(
            offset_ints(old(offsets)@).last() + n,
        ),
        r is Err ==> r->Err_0 == GeoArrowError::Overflow && *final(offsets) == *old(offsets),
{
    let ghost s = offset_ints(offsets@);
    proof {
        lemma_staged_last(s);
        O::lemma_bounds();
    }
    let len = offsets.len();
    let last = offsets[len - 1].to_wide();
    assert(last == s.last());
    if n as u64 > 0x7fff_ffff_ffff_ffff {
        return Err(GeoArrowError::Overflow);
    }
    let delta = n as i64;
    if delta > 0x7fff_ffff_ffff_ffff - last {
        return Err(GeoArrowError::Overflow);
    }
    match O::from_wide(last + delta) {
        Some(v) => {
            offsets.push(v);
            assert(offset_ints(offsets@) =~= s.push(s.last() + n));
            Ok(())
        },
        None => Err(GeoArrowError::Overflow),
    }
}

/// Appends the last offset once more: a group without children.
pub fn push_empty<O: OffsetSize>(offsets: &mut Vec<O>)
    requires
        is_staged(offset_ints(old(offsets)@)),
    ensures
        offset_ints(final(offsets)@) == offset_ints(old(offsets)@).push(
            offset_ints(old(offsets)@).last(),
        ),
{
    let ghost s = offset_ints(offsets@);
    let len = offsets.len();
    let last = offsets[len - 1];
    offsets.push(last);
    assert(offset_ints(offsets@) =~= s.push(s.last()));
}

/// Whether the last staged offset is `n`.
pub fn last_is<O: OffsetSize>(offsets: &Vec<O>, n: usize) -> (r: bool)
    requires
        is_staged(offset_ints(offsets@)),
    ensures
        r == (offset_ints(offsets@).last() == n),
{
    proof {
        lemma_staged_last(offset_ints(offsets@));
    }
    let len = offsets.len();
    match offsets[len - 1].to_usize() {
        Some(v) => v == n,
        None => false,
    }
}

} // verus!
