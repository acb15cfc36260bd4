//! Byte buffers of the `bytes` crate.

use vstd::prelude::*;

verus! {

/// `bytes::Bytes`, an immutable byte buffer.
#[verifier::external_type_specification]
#[verifier::external_body]
pub struct ExBytes(bytes::Bytes);

/// `bytes::BytesMut`, a byte buffer that grows at its end.
#[verifier::external_type_specification]
#[verifier::external_body]
pub struct ExBytesMut(bytes::BytesMut);

/// The bytes that a `Bytes` holds.
pub uninterp spec fn bytes_contents(buffer: bytes::Bytes) -> Seq<u8>;

/// The bytes that a `BytesMut` holds.
pub uninterp spec fn buffer_contents(buffer: bytes::BytesMut) -> Seq<u8>;

/// `Bytes::copy_from_slice`: a buffer with the bytes of the slice.
#[verifier::external_body]
pub(crate) fn copy_bytes(data: &[u8]) -> (buffer: bytes::Bytes)
    ensures
        bytes_contents(buffer) == data@,
{
    bytes::Bytes::copy_from_slice(data)
}

/// `Bytes::from` for a vector: a buffer with the bytes of the vector.
#[verifier::external_body]
pub(crate) fn into_bytes(data: Vec<u8>) -> (buffer: bytes::Bytes)
    ensures
        bytes_contents(buffer) == data@,
{
    bytes::Bytes::from(data)
}

/// `Bytes` as a slice of the bytes it holds.
#[verifier::external_body]
pub(crate) fn bytes_slice(buffer: &bytes::Bytes) -> (data: &[u8])
    ensures
        data@ == bytes_contents(*buffer),
{
    buffer.as_ref()
}

/// `BytesMut::new`: an empty buffer.
#[verifier::external_body]
pub(crate) fn new_buffer() -> (buffer: bytes::BytesMut)
    ensures
        buffer_contents(buffer) == Seq::<u8>::empty(),
{
    bytes::BytesMut::new()
}

/// `BufMut::put_u8`: the byte is added at the end.
#[verifier::external_body]
pub(crate) fn put_u8(buffer: &mut bytes::BytesMut, value: u8)
    ensures
        buffer_contents(*final(buffer)) == buffer_contents(*old(buffer)).push(value),
{
    bytes::BufMut::put_u8(buffer, value)
}

/// `BufMut::put_u16`: the two bytes of the number are added at the end, most significant first.
#[verifier::external_body]
pub(crate) fn put_u16(buffer: &mut bytes::BytesMut, value: u16)
    ensures
        buffer_contents(*final(buffer)) == buffer_contents(*old(buffer)) + seq![
            (value / 256) as u8,
            (value % 256) as u8,
        ],
{
    bytes::BufMut::put_u16(buffer, value)
}

/// `BufMut::put_slice`: the bytes of the slice are added at the end.
#[verifier::external_body]
pub(crate) fn put_slice(buffer: &mut bytes::BytesMut, data: &[u8])
    ensures
        buffer_contents(*final(buffer)) == buffer_contents(*old(buffer)) + data@,
{
    bytes::BufMut::put_slice(buffer, data)
}

/// `BytesMut::freeze`: the same bytes, immutable.
#[verifier::external_body]
pub(crate) fn freeze(buffer: bytes::BytesMut) -> (frozen: bytes::Bytes)
    ensures
        bytes_contents(frozen) == buffer_contents(buffer),
{
    buffer.freeze()
}

} // verus!
