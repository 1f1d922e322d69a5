//! Contracts for the byte containers of the `bytes` crate.
//!
//! Nothing here is proved: each item states what the `bytes` crate documents.
use bytes::Buf;
use bytes::Bytes;
use bytes::BytesMut;
use vstd::prelude::*;

verus! {

/// `bytes::Bytes`, a shared run of bytes that cannot change. What it holds is
/// [`bytes_view`].
#[verifier::external_type_specification]
#[verifier::external_body]
pub struct ExBytes(bytes::Bytes);

/// `bytes::BytesMut`, a run of bytes that can grow at its end and shrink at
/// its front. What it holds is [`bytes_mut_view`].
#[verifier::external_type_specification]
#[verifier::external_body]
pub struct ExBytesMut(bytes::BytesMut);

/// The bytes that a `Bytes` holds, first to last.
pub uninterp spec fn bytes_view(b: Bytes) -> Seq<u8>;

/// The bytes that a `BytesMut` holds, first to last.
pub uninterp spec fn bytes_mut_view(b: BytesMut) -> Seq<u8>;

/// `Bytes::copy_from_slice` returns a `Bytes` that holds a copy of `data`.
pub assume_specification[ bytes::Bytes::copy_from_slice ](data: &[u8]) -> (b: Bytes)
    ensures
        bytes_view(b) == data@,
;

/// `Bytes::clone` returns a handle to the same bytes.
pub assume_specification[ <bytes::Bytes as Clone>::clone ](b: &Bytes) -> (r: Bytes)
    ensures
        bytes_view(r) == bytes_view(*b),
;

/// `Bytes::as_ref` lends the bytes held as a slice.
#[verifier::external_body]
pub(crate) fn bytes_as_slice(b: &Bytes) -> (slice: &[u8])
    ensures
        slice@ == bytes_view(*b),
{
    b.as_ref()
}

/// `BytesMut::with_capacity` returns a buffer that holds no bytes.
pub assume_specification[ bytes::BytesMut::with_capacity ](capacity: usize) -> (b: BytesMut)
    ensures
        bytes_mut_view(b) == Seq::<u8>::empty(),
;

/// `BytesMut::extend_from_slice` appends a copy of `extend` to the bytes held.
pub assume_specification[ bytes::BytesMut::extend_from_slice ](buf: &mut BytesMut, extend: &[u8])
    ensures
        bytes_mut_view(*final(buf)) == bytes_mut_view(*old(buf)) + extend@,
;

/// `BytesMut::as_ref` lends the bytes held as a slice.
#[verifier::external_body]
pub(crate) fn bytes_mut_as_slice(b: &BytesMut) -> (slice: &[u8])
    ensures
        slice@ == bytes_mut_view(*b),
{
    b.as_ref()
}

/// `Buf::advance` on a `BytesMut` drops the first `cnt` bytes held. It panics
/// when `cnt` exceeds the number of bytes held, which `requires` rules out.
#[verifier::external_body]
pub(crate) fn bytes_mut_advance(buf: &mut BytesMut, cnt: usize)
    requires
        cnt <= bytes_mut_view(*old(buf)).len(),
    ensures
        bytes_mut_view(*final(buf)) == bytes_mut_view(*old(buf)).skip(cnt as int),
{
    buf.advance(cnt)
}

} // verus!
