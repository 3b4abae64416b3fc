use vstd::prelude::*;

verus! {

/// A buffer of 32-bit offsets, kept in an `arrow_buffer::OffsetBuffer<i32>`.
///
/// The buffer is shared and immutable: slicing it costs no copy.
#[verifier::external_body]
pub struct NarrowBuffer {
    inner: arrow_buffer::OffsetBuffer<i32>,
}

/// The offsets that a narrow buffer holds, in order.
pub uninterp spec fn narrow_values(b: NarrowBuffer) -> Seq<i32>;

/// `arrow_buffer::OffsetBuffer::<i32>::new` on a `ScalarBuffer` made from `values`.
///
/// Trusted: the buffer holds exactly `values`. The outside constructor panics on an empty
/// sequence, on a negative first offset and on a decreasing pair, which `requires` rules out.
#[verifier::external_body]
pub(crate) fn narrow_new(values: Vec<i32>) -> (b: NarrowBuffer)
    requires
        values@.len() >= 1,
        values@[0] >= 0,
        forall|i: int| 0 <= i < values@.len() - 1 ==> values@[i] <= #[trigger] values@[i + 1],
    ensures
        narrow_values(b) == values@,
{
    NarrowBuffer { inner: arrow_buffer::OffsetBuffer::new(arrow_buffer::ScalarBuffer::from(values)) }
}

/// `len` of the slice that an `arrow_buffer::OffsetBuffer<i32>` dereferences to.
///
/// Trusted: the result is the number of offsets held.
#[verifier::external_body]
pub(crate) fn narrow_len(b: &NarrowBuffer) -> (n: usize)
    ensures
        n == narrow_values(*b).len(),
{
    b.inner.len()
}

/// Indexing of the slice that an `arrow_buffer::OffsetBuffer<i32>` dereferences to.
///
/// Trusted: the result is the offset at position `i`. Indexing panics out of bounds, which
/// `requires` rules out.
#[verifier::external_body]
pub(crate) fn narrow_get(b: &NarrowBuffer, i: usize) -> (v: i32)
    requires
        i < narrow_values(*b).len(),
    ensures
        v == narrow_values(*b)[i as int],
{
    b.inner[i]
}

/// `arrow_buffer::OffsetBuffer::<i32>::slice`.
///
/// Trusted: the result shares storage with `b` and holds its offsets at positions
/// `offset ..= offset + len`, unchanged. The outside function panics when that range leaves
/// the buffer, which `requires` rules out.
#[verifier::external_body]
pub(crate) fn narrow_slice(b: &NarrowBuffer, offset: usize, len: usize) -> (r: NarrowBuffer)
    requires
        offset + len + 1 <= narrow_values(*b).len(),
    ensures
        narrow_values(r) == narrow_values(*b).subrange(offset as int, offset + len + 1),
{
    NarrowBuffer { inner: b.inner.slice(offset, len) }
}

} // verus!
