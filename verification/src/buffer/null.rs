use vstd::prelude::*;

verus! {

/// `arrow_buffer::NullBuffer`, a shared and immutable validity mask, as an opaque type:
/// nothing is claimed of what a value holds beyond what the functions below state.
#[verifier::external_type_specification]
#[verifier::external_body]
pub struct ExNullBuffer(arrow_buffer::NullBuffer);

/// The bits that a null buffer holds, in order: `true` where the slot is valid.
pub uninterp spec fn null_bits(b: arrow_buffer::NullBuffer) -> Seq<bool>;

/// `arrow_buffer::NullBuffer::from` on a `Vec<bool>`.
///
/// Trusted: the buffer holds one bit per element of `bits`, set where the element is `true`.
#[verifier::external_body]
pub(crate) fn null_new(bits: Vec<bool>) -> (b: arrow_buffer::NullBuffer)
    ensures
        null_bits(b) == bits@,
{
    arrow_buffer::NullBuffer::from(bits)
}

/// `arrow_buffer::NullBuffer::len`.
///
/// Trusted: the result is the number of bits held.
#[verifier::external_body]
pub(crate) fn null_len(b: &arrow_buffer::NullBuffer) -> (n: usize)
    ensures
        n == null_bits(*b).len(),
{
    b.len()
}

/// `arrow_buffer::NullBuffer::is_valid`.
///
/// Trusted: the result is the bit at position `i`. The outside function panics out of bounds,
/// which `requires` rules out.
#[verifier::external_body]
pub(crate) fn null_is_valid(b: &arrow_buffer::NullBuffer, i: usize) -> (v: bool)
    requires
        i < null_bits(*b).len(),
    ensures
        v == null_bits(*b)[i as int],
{
    b.is_valid(i)
}

/// `arrow_buffer::NullBuffer::slice`.
///
/// Trusted: the result shares storage with `b` and holds its bits at positions
/// `offset .. offset + len`. The outside function panics when that range leaves the buffer,
/// which `requires` rules out.
#[verifier::external_body]
pub(crate) fn null_slice(b: &arrow_buffer::NullBuffer, offset: usize, len: usize) -> (r:
    arrow_buffer::NullBuffer)
    requires
        offset + len <= null_bits(*b).len(),
    ensures
        null_bits(r) == null_bits(*b).subrange(offset as int, offset + len),
{
    b.slice(offset, len)
}

} // verus!
