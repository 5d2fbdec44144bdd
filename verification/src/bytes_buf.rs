//! Trusted boundary to the `bytes` crate. The transport-owned byte buffer is
//! a `bytes::BytesMut`; the library sees it only through these wrappers,
//! whose contracts speak of `buf_bytes`, the sequence of bytes the buffer
//! currently holds, oldest first.
use vstd::prelude::*;

verus! {

#[verifier::external_type_specification]
#[verifier::external_body]
pub struct ExBytesMut(bytes::BytesMut);

/// The bytes a buffer currently holds, in order, oldest first.
pub uninterp spec fn buf_bytes(b: bytes::BytesMut) -> Seq<u8>;

/// Relies on `bytes::BytesMut::len`: the number of bytes the buffer holds.
#[verifier::external_body]
pub(crate) fn buf_len(b: &bytes::BytesMut) -> (n: usize)
    ensures
        n == buf_bytes(*b).len(),
{
    b.len()
}

/// Relies on the slice view of `bytes::BytesMut` (its `Deref` to `[u8]`):
/// the byte at one position, nothing consumed.
#[verifier::external_body]
pub(crate) fn buf_byte(b: &bytes::BytesMut, i: usize) -> (r: u8)
    requires
        i < buf_bytes(*b).len(),
    ensures
        r == buf_bytes(*b)[i as int],
{
    b[i]
}

/// Relies on `bytes::BytesMut::split_to`: removes the first `n` bytes from
/// the head of the buffer and hands them out; the rest stays.
#[verifier::external_body]
pub(crate) fn buf_take(b: &mut bytes::BytesMut, n: usize) -> (r: Vec<u8>)
    requires
        n <= buf_bytes(*old(b)).len(),
    ensures
        r@ == buf_bytes(*old(b)).take(n as int),
        buf_bytes(*final(b)) == buf_bytes(*old(b)).skip(n as int),
{
    b.split_to(n).to_vec()
}

/// Relies on `bytes::BytesMut::extend_from_slice`: appends the bytes at the
/// tail of the buffer.
#[verifier::external_body]
pub(crate) fn buf_push_slice(b: &mut bytes::BytesMut, data: &[u8])
    ensures
        buf_bytes(*final(b)) == buf_bytes(*old(b)) + data@,
{
    b.extend_from_slice(data)
}

} // verus!
