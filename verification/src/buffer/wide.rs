use vstd::prelude::*;

verus! {

/// A buffer of 64-bit offsets, kept in an `arrow_buffer::OffsetBuffer<i64>`.
///
/// The buffer is shared and immutable: slicing it costs no copy.
#[verifier::external_body]
pub struct WideBuffer {
    inner: arrow_buffer::OffsetBuffer<i64>,
}

/// The offsets that a wide buffer holds, in order.
pub uninterp spec fn wide_values(b: WideBuffer) -> Seq<i64>;

/// `arrow_buffer::OffsetBuffer::<i64>::new` on a `ScalarBuffer` made from `values`.
///
/// Trusted: the buffer holds exactly `values`. The outside constructor panics on an empty
/// sequence, on a negative first offset and on a decreasing pair, which `requires` rules out.
#[verifier::external_body]
pub(crate) fn wide_new(values: Vec<i64>) -> (b: WideBuffer)
    requires
        values@.len() >= 1,
        values@[0] >= 0,
        forall|i: int| 0 <= i < values@.len() - 1 ==> values@[i] <= #[trigger] values@[i + 1],
    ensures
        wide_values(b) == values@,
{
    WideBuffer { inner: arrow_buffer::OffsetBuffer::new(arrow_buffer::ScalarBuffer::from(values)) }
}

/// `len` of the slice that an `arrow_buffer::OffsetBuffer<i64>` dereferences to.
///
/// Trusted: the result is the number of offsets held.
#[verifier::external_body]
pub(crate) fn wide_len(b: &WideBuffer) -> (n: usize)
    ensures
        n == wide_values(*b).len(),
{
    b.inner.len()
}

/// Indexing of the slice that an `arrow_buffer::OffsetBuffer<i64>` dereferences to.
///
/// Trusted: the result is the offset at position `i`. Indexing panics out of bounds, which
/// `requires` rules out.
#[verifier::external_body]
pub(crate) fn wide_get(b: &WideBuffer, i: usize) -> (v: i64)
    requires
        i < wide_values(*b).len(),
    ensures
        v == wide_values(*b)[i as int],
{
    b.inner[i]
}

/// `arrow_buffer::OffsetBuffer::<i64>::slice`.
///
/// Trusted: the result shares storage with `b` and holds its offsets at positions
/// `offset ..= offset + len`, unchanged. The outside function panics when that range leaves
/// the buffer, which `requires` rules out.
#[verifier::external_body]
pub(crate) fn wide_slice(b: &WideBuffer, offset: usize, len: usize) -> (r: WideBuffer)
    requires
        offset + len + 1 <= wide_values(*b).len(),
    ensures
        wide_values(r) == wide_values(*b).subrange(offset as int, offset + len + 1),
{
    WideBuffer { inner: b.inner.slice(offset, len) }
}

} // verus!
