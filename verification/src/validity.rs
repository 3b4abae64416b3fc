use crate::buffer::null::{null_bits, null_is_valid, null_len, null_new, null_slice};
use arrow_buffer::NullBuffer;
use vstd::prelude::*;

verus! {

/// The bits of an optional validity mask.
pub open spec fn mask_bits(validity: Option<NullBuffer>) -> Option<Seq<bool>> {
    match validity {
        Some(b) => Some(null_bits(b)),
        None => None,
    }
}

/// Whether slot `i` is valid under `mask`. Without a mask every slot is.
pub open spec fn bit_at(mask: Option<Seq<bool>>, i: int) -> bool {
    match mask {
        Some(m) => m[i],
        None => true,
    }
}

/// The mask of slots `offset .. offset + length`.
pub open spec fn mask_range(mask: Option<Seq<bool>>, offset: int, length: int) -> Option<
    Seq<bool>,
> {
    match mask {
        Some(m) => Some(m.subrange(offset, offset + length)),
        None => None,
    }
}

/// Whether `mask`, if there is one, has one bit for each of `len` slots.
pub open spec fn mask_fits(mask: Option<Seq<bool>>, len: int) -> bool {
    mask is Some ==> mask->Some_0.len() == len
}

/// Whether every bit of `bits` is set.
pub open spec fn all_set(bits: Seq<bool>) -> bool {
    forall|i: int| 0 <= i < bits.len() ==> bits[i]
}

/// The number of bits in the mask, if there is one.
pub fn validity_len(validity: &Option<NullBuffer>) -> (r: Option<usize>)
    ensures
        r is Some <==> validity is Some,
        r is Some ==> r->Some_0 == mask_bits(*validity)->Some_0.len(),
{
    match validity {
        Some(b) => Some(null_len(b)),
        None => None,
    }
}

/// Whether slot `i` is valid.
pub fn validity_bit(validity: &Option<NullBuffer>, i: usize) -> (r: bool)
    requires
        mask_bits(*validity) is Some ==> i < mask_bits(*validity)->Some_0.len(),
    ensures
        r == bit_at(mask_bits(*validity), i as int),
{
    match validity {
        Some(b) => null_is_valid(b, i),
        None => true,
    }
}

/// The mask of slots `offset .. offset + length`, sharing storage with `validity`.
pub fn validity_slice(validity: &Option<NullBuffer>, offset: usize, length: usize) -> (r: Option<
    NullBuffer,
>)
    requires
        mask_bits(*validity) is Some ==> offset + length <= mask_bits(*validity)->Some_0.len(),
    ensures
        mask_bits(r) == mask_range(mask_bits(*validity), offset as int, length as int),
{
    match validity {
        Some(b) => Some(null_slice(b, offset, length)),
        None => None,
    }
}

/// The mask of slots `offset .. offset + length`, copied into storage of its own.
pub fn owned_slice_validity(validity: &Option<NullBuffer>, offset: usize, length: usize) -> (r:
    Option<NullBuffer>)
    requires
        mask_bits(*validity) is Some ==> offset + length <= mask_bits(*validity)->Some_0.len(),
    ensures
        mask_bits(r) == mask_range(mask_bits(*validity), offset as int, length as int),
{
    match validity {
        Some(b) => {
            let mut bits: Vec<bool> = Vec::new();
            let mut i: usize = 0;
            while i < length
                invariant
                    offset + length <= null_bits(*b).len(),
                    i <= length,
                    bits@.len() == i,
                    forall|k: int| 0 <= k < i ==> bits@[k] == null_bits(*b)[offset + k],
                decreases length - i,
            {
                let _len = null_len(b);
                bits.push(null_is_valid(b, offset + i));
                i += 1;
            }
            assert(bits@ =~= null_bits(*b).subrange(offset as int, offset + length));
            Some(null_new(bits))
        },
        None => None,
    }
}

/// The mask that records `bits`: none at all where every slot is valid.
pub fn validity_from_bits(bits: Vec<bool>) -> (r: Option<NullBuffer>)
    ensures
        r is None <==> all_set(bits@),
        r is Some ==> mask_bits(r) == Some(bits@),
{
    let n = bits.len();
    let mut i: usize = 0;
    while i < n
        invariant
            n == bits@.len(),
            i <= n,
            forall|k: int| 0 <= k < i ==> bits@[k],
        decreases n - i,
    {
        if !bits[i] {
            return Some(null_new(bits));
        }
        i += 1;
    }
    None
}

/// Whether two masks hold the same bits.
pub fn null_buffer_eq(x: &NullBuffer, y: &NullBuffer) -> (r: bool)
    ensures
        r == (null_bits(*x) == null_bits(*y)),
{
    let n = null_len(x);
    if n != null_len(y) {
        return false;
    }
    let mut i: usize = 0;
    while i < n
        invariant
            n == null_bits(*x).len(),
            n == null_bits(*y).len(),
            i <= n,
            forall|k: int| 0 <= k < i ==> null_bits(*x)[k] == null_bits(*y)[k],
        decreases n - i,
    {
        if null_is_valid(x, i) != null_is_valid(y, i) {
            assert(null_bits(*x)[i as int] != null_bits(*y)[i as int]);
            return false;
        }
        i += 1;
    }
    assert(null_bits(*x) =~= null_bits(*y));
    true
}

/// Whether two optional masks are the same: both absent, or both present with equal bits.
pub fn validity_eq(a: &Option<NullBuffer>, b: &Option<NullBuffer>) -> (r: bool)
    ensures
        r == (mask_bits(*a) == mask_bits(*b)),
{
    match a {
        None => b.is_none(),
        Some(x) => match b {
            None => false,
            Some(y) => null_buffer_eq(x, y),
        },
    }
}

} // verus!
