//! The growable receive buffer: `bytes::BytesMut` as a sequence of bytes.

use bytes::{Buf, BytesMut};
use vstd::prelude::*;

verus! {

/// `bytes::BytesMut`, a growable byte buffer that gives up bytes at its front cheaply.
#[verifier::external_type_specification]
#[verifier::external_body]
pub struct ExBytesMut(bytes::BytesMut);

/// The bytes that a buffer holds, front first.
pub uninterp spec fn buffered(b: BytesMut) -> Seq<u8>;

/// Calls `BytesMut::new`: the buffer is empty.
#[verifier::external_body]
pub(crate) fn new_buffer() -> (b: BytesMut)
    ensures
        buffered(b) == Seq::<u8>::empty(),
{
    BytesMut::new()
}

/// Calls `BytesMut::extend_from_slice`: `data` is appended. It panics when the length
/// passes what one allocation can hold, which the precondition leaves out.
#[verifier::external_body]
pub(crate) fn extend_buffer(b: &mut BytesMut, data: &[u8])
    requires
        buffered(*old(b)).len() + data@.len() <= isize::MAX,
    ensures
        buffered(*final(b)) == buffered(*old(b)) + data@,
{
    b.extend_from_slice(data);
}

/// Calls `BytesMut::deref`: the held bytes as a slice.
#[verifier::external_body]
pub(crate) fn buffer_slice(b: &BytesMut) -> (s: &[u8])
    ensures
        s@ == buffered(*b),
{
    &b[..]
}

/// Calls `Buf::advance` on the buffer: the first `n` bytes are dropped. It panics when
/// fewer are held, which the precondition leaves out.
#[verifier::external_body]
pub(crate) fn advance_buffer(b: &mut BytesMut, n: usize)
    requires
        n <= buffered(*old(b)).len(),
    ensures
        buffered(*final(b)) == buffered(*old(b)).skip(n as int),
{
    b.advance(n);
}

/// Calls `BytesMut::split_to`: the first `n` bytes leave the buffer and are returned. It
/// panics when fewer are held, which the precondition leaves out.
#[verifier::external_body]
pub(crate) fn split_buffer(b: &mut BytesMut, n: usize) -> (front: Vec<u8>)
    requires
        n <= buffered(*old(b)).len(),
    ensures
        front@ == buffered(*old(b)).take(n as int),
        buffered(*final(b)) == buffered(*old(b)).skip(n as int),
{
    b.split_to(n).to_vec()
}

/// The number of bytes held.
pub fn buffer_len(b: &BytesMut) -> (n: usize)
    ensures
        n == buffered(*b).len(),
{
    buffer_slice(b).len()
}

} // verus!
