use vstd::prelude::*;

verus! {

/// A buffer of 64-bit words, kept in an `arrow_buffer::ScalarBuffer<u64>`.
///
/// The buffer is shared and immutable: slicing it costs no copy.
#[verifier::external_body]
pub struct WordBuffer {
    inner: arrow_buffer::ScalarBuffer<u64>,
}

/// The words that a word buffer holds, in order.
pub uninterp spec fn word_values(b: WordBuffer) -> Seq<u64>;

/// `arrow_buffer::ScalarBuffer::<u64>::from` on a `Vec<u64>`.
///
/// Trusted: the buffer holds exactly `values`.
#[verifier::external_body]
pub(crate) fn word_new(values: Vec<u64>) -> (b: WordBuffer)
    ensures
        word_values(b) == values@,
{
    WordBuffer { inner: arrow_buffer::ScalarBuffer::from(values) }
}

/// `arrow_buffer::ScalarBuffer::<u64>::len`.
///
/// Trusted: the result is the number of words held.
#[verifier::external_body]
pub(crate) fn word_len(b: &WordBuffer) -> (n: usize)
    ensures
        n == word_values(*b).len(),
{
    b.inner.len()
}

/// Indexing of the slice that an `arrow_buffer::ScalarBuffer<u64>` dereferences to.
///
/// Trusted: the result is the word at position `i`. Indexing panics out of bounds, which
/// `requires` rules out.
#[verifier::external_body]
pub(crate) fn word_get(b: &WordBuffer, i: usize) -> (v: u64)
    requires
        i < word_values(*b).len(),
    ensures
        v == word_values(*b)[i as int],
{
    b.inner[i]
}

/// `arrow_buffer::ScalarBuffer::<u64>::slice`.
///
/// Trusted: the result shares storage with `b` and holds its words at positions
/// `offset .. offset + len`. The outside function panics when that range leaves the buffer,
/// which `requires` rules out.
#[verifier::external_body]
pub(crate) fn word_slice(b: &WordBuffer, offset: usize, len: usize) -> (r: WordBuffer)
    requires
        offset + len <= word_values(*b).len(),
    ensures
        word_values(r) == word_values(*b).subrange(offset as int, offset + len),
{
    WordBuffer { inner: b.inner.slice(offset, len) }
}

} // verus!
