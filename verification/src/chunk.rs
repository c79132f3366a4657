//! The byte buffers of the `bytes` crate.
//!
//! What a buffer holds is named, and what the crate's functions do to it is taken on trust; each
//! contract says what.
use bytes::{Bytes, BytesMut};
use vstd::prelude::*;

verus! {

/// A frozen buffer.
#[verifier::external_type_specification]
#[verifier::external_body]
pub struct ExBytes(bytes::Bytes);

/// A buffer that can be written to.
#[verifier::external_type_specification]
#[verifier::external_body]
pub struct ExBytesMut(bytes::BytesMut);

/// The bytes that a frozen buffer holds.
pub uninterp spec fn bytes_contents(buf: bytes::Bytes) -> Seq<u8>;

/// The bytes that a writable buffer holds.
pub uninterp spec fn bytes_mut_contents(buf: bytes::BytesMut) -> Seq<u8>;

/// `Bytes::copy_from_slice`. Trusted: the buffer holds a copy of the data.
#[verifier::external_body]
pub(crate) fn bytes_from_slice(data: &[u8]) -> (buf: Bytes)
    ensures
        bytes_contents(buf) == data@,
{
    Bytes::copy_from_slice(data)
}

/// `Bytes::as_ref`. Trusted: the slice is what the buffer holds.
#[verifier::external_body]
pub(crate) fn bytes_as_slice(buf: &Bytes) -> (data: &[u8])
    ensures
        data@ == bytes_contents(*buf),
{
    buf.as_ref()
}

/// `BytesMut::from` of a slice. Trusted: the buffer holds a copy of the data.
#[verifier::external_body]
pub(crate) fn bytes_mut_from_slice(data: &[u8]) -> (buf: BytesMut)
    ensures
        bytes_mut_contents(buf) == data@,
{
    BytesMut::from(data)
}

/// `BytesMut::as_mut`. Trusted: the slice is what the buffer holds, and what is written to the
/// slice the buffer holds afterwards.
#[verifier::external_body]
pub(crate) fn bytes_mut_as_slice(buf: &mut BytesMut) -> (data: &mut [u8])
    ensures
        data@ == bytes_mut_contents(*old(buf)),
        bytes_mut_contents(*final(buf)) == final(data)@,
{
    buf.as_mut()
}

/// `BytesMut::freeze`. Trusted: the frozen buffer holds the same bytes.
#[verifier::external_body]
pub(crate) fn bytes_freeze(buf: BytesMut) -> (frozen: Bytes)
    ensures
        bytes_contents(frozen) == bytes_mut_contents(buf),
{
    buf.freeze()
}

} // verus!
