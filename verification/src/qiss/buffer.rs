//! The byte buffers of the `bytes` crate, as the format uses them.
//!
//! A `BytesMut` or `Bytes` is opaque to the verifier; what it holds is named
//! by [`bytes_mut_view`] and [`bytes_view`], and each operation the format
//! calls says what it does to those contents.

use vstd::prelude::*;
use bytes::{Bytes, BytesMut};

verus! {

/// `bytes::BytesMut`, a growable byte buffer.
#[verifier::external_type_specification]
#[verifier::external_body]
pub struct ExBytesMut(BytesMut);

/// `bytes::Bytes`, an immutable byte buffer.
#[verifier::external_type_specification]
#[verifier::external_body]
pub struct ExBytes(Bytes);

/// The bytes a `BytesMut` holds, in order.
pub uninterp spec fn bytes_mut_view(b: BytesMut) -> Seq<u8>;

/// The bytes a `Bytes` holds, in order.
pub uninterp spec fn bytes_view(b: Bytes) -> Seq<u8>;

/// `Bytes::clone` gives a handle to the same bytes (the crate's `Clone`
/// impl shares the buffer through its vtable).
pub assume_specification[ <bytes::Bytes as Clone>::clone ](b: &bytes::Bytes) -> (r: bytes::Bytes)
    ensures
        bytes_view(r) == bytes_view(*b),
;

/// Calls `BytesMut::with_capacity`, which makes an empty buffer; the
/// capacity is not stated. `Vec::with_capacity`, underneath, panics above
/// `isize::MAX` bytes.
#[verifier::external_body]
pub(crate) fn bytes_mut_with_capacity(capacity: usize) -> (b: BytesMut)
    requires
        capacity <= isize::MAX,
    ensures
        bytes_mut_view(b) == Seq::<u8>::empty(),
{
    BytesMut::with_capacity(capacity)
}

/// Calls `BytesMut::len`, the number of bytes held.
#[verifier::external_body]
pub(crate) fn bytes_mut_len(b: &BytesMut) -> (n: usize)
    ensures
        n == bytes_mut_view(*b).len(),
{
    b.len()
}

/// Calls `BytesMut::clear`, which removes every byte.
#[verifier::external_body]
pub(crate) fn bytes_mut_clear(b: &mut BytesMut)
    ensures
        bytes_mut_view(*final(b)) == Seq::<u8>::empty(),
{
    b.clear()
}

/// Calls `BufMut::put_slice` on a `BytesMut`, which appends the bytes of
/// `s`; it panics only when the new capacity would overflow, which the
/// bound excludes.
#[verifier::external_body]
pub(crate) fn bytes_mut_put_slice(b: &mut BytesMut, s: &[u8])
    requires
        bytes_mut_view(*old(b)).len() + s@.len() <= isize::MAX,
    ensures
        bytes_mut_view(*final(b)) == bytes_mut_view(*old(b)) + s@,
{
    bytes::BufMut::put_slice(b, s)
}

/// Calls `BytesMut::reserve`, which grows the capacity and leaves the
/// bytes held unchanged; it panics only when the capacity would overflow,
/// which the bound excludes.
#[verifier::external_body]
pub(crate) fn bytes_mut_reserve(b: &mut BytesMut, additional: usize)
    requires
        bytes_mut_view(*old(b)).len() + additional <= isize::MAX,
    ensures
        bytes_mut_view(*final(b)) == bytes_mut_view(*old(b)),
{
    b.reserve(additional)
}

/// Dereferences a `BytesMut` to the slice of the bytes it holds.
#[verifier::external_body]
pub(crate) fn bytes_mut_as_slice(b: &BytesMut) -> (s: &[u8])
    ensures
        s@ == bytes_mut_view(*b),
{
    &b[..]
}

/// Overwrites the first `src.len()` bytes of the buffer through its
/// mutable slice (`copy_from_slice` on the prefix); the rest is unchanged.
#[verifier::external_body]
pub(crate) fn bytes_mut_overwrite_prefix(b: &mut BytesMut, src: &[u8])
    requires
        src@.len() <= bytes_mut_view(*old(b)).len(),
    ensures
        bytes_mut_view(*final(b)) == src@ + bytes_mut_view(*old(b)).skip(src@.len() as int),
{
    b[0..src.len()].copy_from_slice(src)
}

/// Calls `BytesMut::split`, which hands out every byte held and leaves the
/// buffer empty.
#[verifier::external_body]
pub(crate) fn bytes_mut_split(b: &mut BytesMut) -> (taken: BytesMut)
    ensures
        bytes_mut_view(taken) == bytes_mut_view(*old(b)),
        bytes_mut_view(*final(b)) == Seq::<u8>::empty(),
{
    b.split()
}

/// Calls `BytesMut::freeze`, which turns the buffer into a `Bytes` holding
/// the same bytes.
#[verifier::external_body]
pub(crate) fn bytes_mut_freeze(b: BytesMut) -> (frozen: Bytes)
    ensures
        bytes_view(frozen) == bytes_mut_view(b),
{
    b.freeze()
}

/// Calls `Bytes::from::<Vec<u8>>`, which holds the vector's bytes.
#[verifier::external_body]
pub(crate) fn bytes_from_vec(v: Vec<u8>) -> (b: Bytes)
    ensures
        bytes_view(b) == v@,
{
    Bytes::from(v)
}

/// Dereferences a `Bytes` to the slice of the bytes it holds.
#[verifier::external_body]
pub(crate) fn bytes_as_slice(b: &Bytes) -> (s: &[u8])
    ensures
        s@ == bytes_view(*b),
{
    &b[..]
}

} // verus!
