//! The byte buffers of the `bytes` crate. The contracts here are believed, not proved.

use bytes::{Buf, BufMut, Bytes, BytesMut};
use vstd::prelude::*;

verus! {

#[verifier::external_type_specification]
#[verifier::external_body]
pub struct ExBytes(bytes::Bytes);

#[verifier::external_type_specification]
#[verifier::external_body]
pub struct ExBytesMut(bytes::BytesMut);

/// The bytes that a `Bytes` holds.
pub uninterp spec fn contents(bytes: Bytes) -> Seq<u8>;

/// The bytes that a `BytesMut` holds and that have not been taken from it.
pub uninterp spec fn pending(buffer: BytesMut) -> Seq<u8>;

/// Calls `Bytes::copy_from_slice`, which makes a buffer of the same bytes.
#[verifier::external_body]
pub(crate) fn bytes_copied(data: &[u8]) -> (bytes: Bytes)
    ensures
        contents(bytes) == data@,
{
    Bytes::copy_from_slice(data)
}

/// Calls `Bytes::clone`, which makes another handle on the same bytes.
#[verifier::external_body]
pub(crate) fn bytes_shared(bytes: &Bytes) -> (other: Bytes)
    ensures
        contents(other) == contents(*bytes),
{
    bytes.clone()
}

/// Calls `Bytes::as_ref`, which lends the bytes.
#[verifier::external_body]
pub(crate) fn bytes_slice(bytes: &Bytes) -> (data: &[u8])
    ensures
        data@ == contents(*bytes),
{
    bytes.as_ref()
}

/// Calls `BytesMut::with_capacity`, which makes an empty buffer.
#[verifier::external_body]
pub(crate) fn buffer_with_capacity(capacity: usize) -> (buffer: BytesMut)
    requires
        capacity <= isize::MAX,
    ensures
        pending(buffer) == Seq::<u8>::empty(),
{
    BytesMut::with_capacity(capacity)
}

/// Calls `BytesMut::as_ref`, which lends the bytes that are left.
#[verifier::external_body]
pub(crate) fn buffer_slice(buffer: &BytesMut) -> (data: &[u8])
    ensures
        data@ == pending(*buffer),
{
    buffer.as_ref()
}

/// Calls `Buf::advance`, which drops bytes from the front. It panics where there are fewer.
#[verifier::external_body]
pub(crate) fn buffer_advance(buffer: &mut BytesMut, count: usize)
    requires
        count <= pending(*old(buffer)).len(),
    ensures
        pending(*final(buffer)) == pending(*old(buffer)).skip(count as int),
{
    buffer.advance(count)
}

/// Calls `BufMut::put`, which appends bytes. It panics where no buffer can be that long.
#[verifier::external_body]
pub(crate) fn buffer_put(buffer: &mut BytesMut, chunk: Bytes)
    requires
        pending(*old(buffer)).len() + contents(chunk).len() <= isize::MAX,
    ensures
        pending(*final(buffer)) == pending(*old(buffer)) + contents(chunk),
{
    buffer.put(chunk)
}

/// Calls `BytesMut::split`, which takes all bytes out and leaves none.
#[verifier::external_body]
pub(crate) fn buffer_split(buffer: &mut BytesMut) -> (taken: BytesMut)
    ensures
        pending(taken) == pending(*old(buffer)),
        pending(*final(buffer)) == Seq::<u8>::empty(),
{
    buffer.split()
}

/// Calls `BytesMut::freeze`, which keeps the bytes as they are.
#[verifier::external_body]
pub(crate) fn buffer_freeze(buffer: BytesMut) -> (bytes: Bytes)
    ensures
        contents(bytes) == pending(buffer),
{
    buffer.freeze()
}

} // verus!
