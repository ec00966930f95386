//! The decoder's input buffer: a `bytes::BytesMut` holding the bytes
//! read from the transport that no frame has consumed yet.

use vstd::prelude::*;

use bytes::BytesMut;

verus! {

#[verifier::external_type_specification]
#[verifier::external_body]
pub struct ExBytesMut(BytesMut);

/// The bytes a `BytesMut` buffer holds, front to back.
pub uninterp spec fn byte_buf(b: BytesMut) -> Seq<u8>;

/// Relies on `BytesMut::new`: creates a buffer holding no bytes.
#[verifier::external_body]
pub(crate) fn buf_new() -> (r: BytesMut)
    ensures
        byte_buf(r) == Seq::<u8>::empty(),
{
    BytesMut::new()
}

/// Relies on `BytesMut::len`: the number of bytes the buffer holds.
#[verifier::external_body]
pub(crate) fn buf_len(b: &BytesMut) -> (r: usize)
    ensures
        r == byte_buf(*b).len(),
{
    b.len()
}

/// Relies on `BytesMut::extend_from_slice`: appends the bytes of `s`
/// after the bytes already held.
#[verifier::external_body]
pub(crate) fn buf_extend(b: &mut BytesMut, s: &[u8])
    ensures
        byte_buf(*final(b)) == byte_buf(*old(b)) + s@,
{
    b.extend_from_slice(s);
}

/// Relies on `BytesMut::split_to`: splits off and returns the first `n`
/// bytes, leaving the rest in the buffer.
#[verifier::external_body]
pub(crate) fn buf_split_to_vec(b: &mut BytesMut, n: usize) -> (r: Vec<u8>)
    requires
        n <= byte_buf(*old(b)).len(),
    ensures
        r@ == byte_buf(*old(b)).take(n as int),
        byte_buf(*final(b)) == byte_buf(*old(b)).skip(n as int),
{
    b.split_to(n).to_vec()
}

} // verus!
