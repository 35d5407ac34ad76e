//! The byte buffers of the `bytes` crate.

use vstd::prelude::*;

use crate::volume::PROGRAMMER_MAX_SIZE;

verus! {

/// `bytes::BytesMut`, a buffer that grows.
#[verifier::external_type_specification]
#[verifier::external_body]
pub struct ExBytesMut(bytes::BytesMut);

/// `bytes::Bytes`, a buffer that does not change any more.
#[verifier::external_type_specification]
#[verifier::external_body]
pub struct ExBytes(bytes::Bytes);

/// The bytes that a buffer holds.
pub uninterp spec fn buffered(b: bytes::BytesMut) -> Seq<u8>;

/// The bytes that a frozen buffer holds.
pub uninterp spec fn frozen(b: bytes::Bytes) -> Seq<u8>;

/// A buffer that grows, and how much memory was asked for when it was made.
#[derive(Debug)]
pub struct Buffer {
    data: bytes::BytesMut,
    reserved: usize,
}

/// What a [`Buffer`] stands for.
#[verifier::ext_equal]
pub struct BufferModel {
    pub bytes: Seq<u8>,
    pub reserved: nat,
}

impl View for Buffer {
    type V = BufferModel;

    closed spec fn view(&self) -> BufferModel {
        BufferModel { bytes: buffered(self.data), reserved: self.reserved as nat }
    }
}

/// Calls `BytesMut::with_capacity`: a buffer that holds nothing yet, for which
/// `capacity` bytes of memory were asked for. How much the allocator gave is left
/// unsaid.
#[verifier::external_body]
pub(crate) fn with_capacity(capacity: usize) -> (r: Buffer)
    requires
        capacity <= PROGRAMMER_MAX_SIZE,
    ensures
        r@ == (BufferModel { bytes: Seq::empty(), reserved: capacity as nat }),
{
    Buffer { data: bytes::BytesMut::with_capacity(capacity), reserved: capacity }
}

/// Calls `BytesMut::len`: the number of bytes that the buffer holds.
#[verifier::external_body]
fn buffered_len(b: &bytes::BytesMut) -> (r: usize)
    ensures
        r == buffered(*b).len(),
{
    b.len()
}

/// Calls `BytesMut::extend_from_slice`: `data` is put behind the bytes that the
/// buffer holds. The bound keeps it far from where its capacity cannot be
/// computed any more.
#[verifier::external_body]
fn extend(b: &mut bytes::BytesMut, data: &[u8])
    requires
        buffered(*old(b)).len() + data@.len() <= PROGRAMMER_MAX_SIZE,
    ensures
        buffered(*final(b)) == buffered(*old(b)) + data@,
{
    b.extend_from_slice(data);
}

/// Calls `BytesMut::split`: the bytes that the buffer holds move to a buffer of
/// their own, and nothing is left behind.
#[verifier::external_body]
fn split(b: &mut bytes::BytesMut) -> (r: bytes::BytesMut)
    ensures
        buffered(r) == buffered(*old(b)),
        buffered(*final(b)) == Seq::<u8>::empty(),
{
    b.split()
}

/// Calls `<bytes::Bytes as From<BytesMut>>::from`: the same bytes, frozen.
#[verifier::external_body]
fn freeze(b: bytes::BytesMut) -> (r: bytes::Bytes)
    ensures
        frozen(r) == buffered(b),
{
    b.into()
}

/// Calls `to_vec` on the slice that a `bytes::Bytes` stands for: the same bytes.
#[verifier::external_body]
pub(crate) fn frozen_to_vec(b: &bytes::Bytes) -> (r: Vec<u8>)
    ensures
        r@ == frozen(*b),
{
    b.to_vec()
}

impl Buffer {
    /// The number of bytes that the buffer holds.
    pub(crate) fn len(&self) -> (r: usize)
        ensures
            r == self@.bytes.len(),
    {
        buffered_len(&self.data)
    }

    /// Puts `data` behind the bytes that the buffer holds.
    pub(crate) fn push_slice(&mut self, data: &[u8])
        requires
            old(self)@.bytes.len() + data@.len() <= PROGRAMMER_MAX_SIZE,
        ensures
            final(self)@ == (BufferModel { bytes: old(self)@.bytes + data@, ..old(self)@ }),
    {
        extend(&mut self.data, data);
    }

    /// Takes out the bytes that the buffer holds.
    pub(crate) fn take(&mut self) -> (r: bytes::Bytes)
        ensures
            frozen(r) == old(self)@.bytes,
            final(self)@ == (BufferModel { bytes: Seq::empty(), ..old(self)@ }),
    {
        freeze(split(&mut self.data))
    }
}

} // verus!
