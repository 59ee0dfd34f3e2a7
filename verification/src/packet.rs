//! Byte buffers of the `bytes` crate, and the packets of a TUN device.
use vstd::prelude::*;
use bytes::{Bytes, BytesMut};

verus! {

#[verifier::external_type_specification]
#[verifier::external_body]
pub struct ExBytesMut(BytesMut);

#[verifier::external_type_specification]
#[verifier::external_body]
pub struct ExBytes(Bytes);

/// The bytes that a `BytesMut` holds.
pub uninterp spec fn bytes_mut_view(b: BytesMut) -> Seq<u8>;

/// The bytes that a `Bytes` holds.
pub uninterp spec fn bytes_view(b: Bytes) -> Seq<u8>;

/// `BytesMut::new`: an empty buffer.
#[verifier::external_body]
pub(crate) fn bytes_mut_new() -> (r: BytesMut)
    ensures
        bytes_mut_view(r) == Seq::<u8>::empty(),
{
    BytesMut::new()
}

/// `<BytesMut as Deref>::deref`: the held bytes as a slice.
#[verifier::external_body]
pub(crate) fn bytes_mut_as_slice(b: &BytesMut) -> (r: &[u8])
    ensures
        r@ == bytes_mut_view(*b),
{
    &b[..]
}

/// `<BytesMut as DerefMut>::deref_mut`: the held bytes as a mutable slice;
/// what is written through the slice is what the buffer holds afterwards.
#[verifier::external_body]
pub(crate) fn bytes_mut_as_mut_slice(b: &mut BytesMut) -> (r: &mut [u8])
    ensures
        r@ == bytes_mut_view(*old(b)),
        bytes_mut_view(*final(b)) == final(r)@,
{
    &mut b[..]
}

/// `BytesMut::reserve`: makes room for `additional` more bytes and leaves
/// the held bytes alone. The crate panics when the new capacity overflows,
/// which `requires` rules out.
#[verifier::external_body]
pub(crate) fn bytes_mut_reserve(b: &mut BytesMut, additional: usize)
    requires
        bytes_mut_view(*old(b)).len() + additional <= isize::MAX,
    ensures
        bytes_mut_view(*final(b)) == bytes_mut_view(*old(b)),
{
    b.reserve(additional)
}

/// `BytesMut::extend_from_slice`: appends the bytes of `s`.
#[verifier::external_body]
pub(crate) fn bytes_mut_extend_from_slice(b: &mut BytesMut, s: &[u8])
    requires
        bytes_mut_view(*old(b)).len() + s@.len() <= isize::MAX,
    ensures
        bytes_mut_view(*final(b)) == bytes_mut_view(*old(b)) + s@,
{
    b.extend_from_slice(s)
}

/// `<Bytes as From<BytesMut>>::from` (`BytesMut::freeze`): the same bytes,
/// made immutable.
#[verifier::external_body]
pub(crate) fn bytes_mut_freeze(b: BytesMut) -> (r: Bytes)
    ensures
        bytes_view(r) == bytes_mut_view(b),
{
    Bytes::from(b)
}

/// `<Bytes as Deref>::deref`: the held bytes as a slice.
#[verifier::external_body]
pub(crate) fn bytes_as_slice(b: &Bytes) -> (r: &[u8])
    ensures
        r@ == bytes_view(*b),
{
    &b[..]
}

/// A packet read from or written to a TUN device.
pub struct TunPacket(Bytes);

impl View for TunPacket {
    type V = Seq<u8>;

    closed spec fn view(&self) -> Seq<u8> {
        bytes_view(self.0)
    }
}

impl TunPacket {
    /// A packet holding `bytes`.
    pub fn from_bytes(bytes: Bytes) -> (r: TunPacket)
        ensures
            r@ == bytes_view(bytes),
    {
        TunPacket(bytes)
    }

    /// The bytes of the packet.
    pub fn get_bytes(&self) -> (r: &[u8])
        ensures
            r@ == self@,
    {
        bytes_as_slice(&self.0)
    }
}

/// The bytes of each packet of a sequence.
pub open spec fn packets_view(ps: Seq<TunPacket>) -> Seq<Seq<u8>> {
    ps.map_values(|p: TunPacket| p@)
}

} // verus!
