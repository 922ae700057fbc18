//! The byte buffer that frames are read from and written into.
use bytes::BufMut;
use bytes::BytesMut;
use vstd::prelude::*;

verus! {

/// `bytes::BytesMut`, the growable byte buffer of the `bytes` crate.
#[verifier::external_type_specification]
#[verifier::external_body]
pub struct ExBytesMut(BytesMut);

/// The bytes that a `BytesMut` holds, first to last.
pub uninterp spec fn buffer_contents(b: BytesMut) -> Seq<u8>;

/// The largest size that a buffer may reach (an allocation is at most `isize::MAX` bytes).
pub open spec fn max_buffer_len() -> nat {
    isize::MAX as nat
}

/// `BytesMut::with_capacity`: a buffer that holds no bytes (the capacity is not stated; it
/// panics above `isize::MAX`, which `requires` rules out).
#[verifier::external_body]
pub(crate) fn buffer_with_capacity(capacity: usize) -> (b: BytesMut)
    requires
        capacity <= max_buffer_len(),
    ensures
        buffer_contents(b) == Seq::<u8>::empty(),
{
    BytesMut::with_capacity(capacity)
}

/// `BytesMut::len`: the number of bytes held.
#[verifier::external_body]
pub(crate) fn buffer_len(b: &BytesMut) -> (n: usize)
    ensures
        n == buffer_contents(*b).len(),
{
    b.len()
}

/// `BytesMut::as_ref`: the bytes held, as a slice.
#[verifier::external_body]
pub(crate) fn buffer_bytes(b: &BytesMut) -> (s: &[u8])
    ensures
        s@ == buffer_contents(*b),
{
    b.as_ref()
}

/// `BytesMut::split_to`: removes the first `at` bytes and returns them in a buffer of their own
/// (it panics when `at` exceeds the length, which `requires` rules out).
#[verifier::external_body]
pub(crate) fn buffer_split_to(b: &mut BytesMut, at: usize) -> (front: BytesMut)
    requires
        at <= buffer_contents(*old(b)).len(),
    ensures
        buffer_contents(front) == buffer_contents(*old(b)).take(at as int),
        buffer_contents(*final(b)) == buffer_contents(*old(b)).skip(at as int),
{
    b.split_to(at)
}

/// `BufMut::remaining_mut` of a `BytesMut`: how many more bytes it can grow by,
/// which the source computes as `isize::MAX - len`.
#[verifier::external_body]
pub(crate) fn buffer_remaining_mut(b: &BytesMut) -> (n: usize)
    ensures
        n == max_buffer_len() - buffer_contents(*b).len(),
{
    b.remaining_mut()
}

/// `BytesMut::reserve`: makes room for `additional` more bytes; the contents stay as they are
/// (it panics only when the new capacity overflows, which `requires` rules out).
#[verifier::external_body]
pub(crate) fn buffer_reserve(b: &mut BytesMut, additional: usize)
    requires
        buffer_contents(*old(b)).len() + additional <= max_buffer_len(),
    ensures
        buffer_contents(*final(b)) == buffer_contents(*old(b)),
{
    b.reserve(additional)
}

/// `BufMut::put` of a byte slice into a `BytesMut`: appends the bytes.
#[verifier::external_body]
pub(crate) fn buffer_put(b: &mut BytesMut, data: &[u8])
    requires
        buffer_contents(*old(b)).len() + data@.len() <= max_buffer_len(),
    ensures
        buffer_contents(*final(b)) == buffer_contents(*old(b)) + data@,
{
    b.put(data)
}

/// A buffer that holds no bytes, for the codecs to write into or read from.
pub fn new_buffer() -> (b: BytesMut)
    ensures
        buffer_contents(b) == Seq::<u8>::empty(),
{
    buffer_with_capacity(0)
}

} // verus!
