//! The shared byte containers of the bytes crate, which carry packet
//! payloads and stream buffers, declared for the verifier together with
//! the few operations the framing layer needs.

use vstd::prelude::*;

verus! {

#[verifier::external_type_specification]
#[verifier::external_body]
pub struct ExBytes(bytes::Bytes);

#[verifier::external_type_specification]
#[verifier::external_body]
pub struct ExBytesMut(bytes::BytesMut);

/// The bytes a shared payload buffer holds.
pub uninterp spec fn bytes_view(b: bytes::Bytes) -> Seq<u8>;

/// The bytes a mutable stream buffer holds.
pub uninterp spec fn bytes_mut_view(b: bytes::BytesMut) -> Seq<u8>;

/// Relies on Bytes::from for Vec<u8>: the buffer holds exactly the
/// vector's bytes.
#[verifier::external_body]
pub fn bytes_from_vec(v: Vec<u8>) -> (r: bytes::Bytes)
    ensures
        bytes_view(r) == v@,
{
    bytes::Bytes::from(v)
}

/// Relies on Bytes::new: a fresh buffer holds no bytes.
#[verifier::external_body]
pub fn bytes_new() -> (r: bytes::Bytes)
    ensures
        bytes_view(r) == Seq::<u8>::empty(),
{
    bytes::Bytes::new()
}

/// Relies on the Deref of Bytes to a byte slice holding exactly the
/// buffer's bytes.
#[verifier::external_body]
pub fn bytes_as_slice(b: &bytes::Bytes) -> (r: &[u8])
    ensures
        r@ == bytes_view(*b),
{
    b.as_ref()
}

/// Relies on the Clone of Bytes: a cheap handle to the same bytes.
#[verifier::external_body]
pub fn bytes_clone(b: &bytes::Bytes) -> (r: bytes::Bytes)
    ensures
        bytes_view(r) == bytes_view(*b),
{
    b.clone()
}

/// Relies on BytesMut::new: a fresh buffer holds no bytes.
#[verifier::external_body]
pub fn bytes_mut_new() -> (r: bytes::BytesMut)
    ensures
        bytes_mut_view(r) == Seq::<u8>::empty(),
{
    bytes::BytesMut::new()
}

/// Relies on the Deref of BytesMut to a byte slice holding exactly the
/// buffer's bytes.
#[verifier::external_body]
pub fn bytes_mut_as_slice(b: &bytes::BytesMut) -> (r: &[u8])
    ensures
        r@ == bytes_mut_view(*b),
{
    b.as_ref()
}

/// Relies on Buf::advance for BytesMut: drops the first `n` bytes; the
/// call panics when `n` exceeds what the buffer holds, so that is
/// excluded here.
#[verifier::external_body]
pub fn bytes_mut_advance(b: &mut bytes::BytesMut, n: usize)
    requires
        n <= bytes_mut_view(*old(b)).len(),
    ensures
        bytes_mut_view(*final(b)) == bytes_mut_view(*old(b)).skip(n as int),
{
    bytes::Buf::advance(b, n);
}

/// Relies on BytesMut::split_to: takes the first `n` bytes out of the
/// buffer, leaving the rest; the call panics when `n` exceeds what the
/// buffer holds, so that is excluded here.
#[verifier::external_body]
pub fn bytes_mut_split_to(b: &mut bytes::BytesMut, n: usize) -> (r: bytes::BytesMut)
    requires
        n <= bytes_mut_view(*old(b)).len(),
    ensures
        bytes_mut_view(r) == bytes_mut_view(*old(b)).take(n as int),
        bytes_mut_view(*final(b)) == bytes_mut_view(*old(b)).skip(n as int),
{
    b.split_to(n)
}

/// Relies on BytesMut::freeze: the same bytes, as a shared buffer.
#[verifier::external_body]
pub fn bytes_mut_freeze(b: bytes::BytesMut) -> (r: bytes::Bytes)
    ensures
        bytes_view(r) == bytes_mut_view(b),
{
    b.freeze()
}

/// Relies on BytesMut::extend_from_slice: appends the slice's bytes.
#[verifier::external_body]
pub fn bytes_mut_extend(b: &mut bytes::BytesMut, s: &[u8])
    ensures
        bytes_mut_view(*final(b)) == bytes_mut_view(*old(b)) + s@,
{
    b.extend_from_slice(s);
}

} // verus!
