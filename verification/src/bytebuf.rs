//! Trusted interface to the `bytes` crate's buffer types.
//!
//! `Bytes` (an immutable, reference-counted byte view — the frame type of
//! this protocol) and `BytesMut` (a growable output buffer) are opaque to
//! the verifier.  Each is given a view as a mathematical byte sequence, and
//! every method the codec relies on is wrapped with a contract over those
//! views, taken from the method's documented behaviour.

use vstd::prelude::*;
use bytes::{Buf, BufMut, Bytes, BytesMut};

verus! {

#[verifier::external_type_specification]
#[verifier::external_body]
pub struct ExBytes(Bytes);

#[verifier::external_type_specification]
#[verifier::external_body]
pub struct ExBytesMut(BytesMut);

/// The byte sequence a `Bytes` handle currently views.
pub uninterp spec fn bytes_view(b: Bytes) -> Seq<u8>;

/// The byte sequence a `BytesMut` buffer currently holds.
pub uninterp spec fn bmut_view(b: BytesMut) -> Seq<u8>;

/// Relies on `Bytes::len`: the number of bytes the handle views.
#[verifier::external_body]
pub(crate) fn bytes_len(b: &Bytes) -> (r: usize)
    ensures
        r == bytes_view(*b).len(),
{
    b.len()
}

/// Relies on `Buf::get_u8` on `Bytes`: returns the first byte and advances
/// past it; panics when empty, so that case is excluded.
#[verifier::external_body]
pub(crate) fn bytes_get_u8(b: &mut Bytes) -> (r: u8)
    requires
        bytes_view(*old(b)).len() >= 1,
    ensures
        r == bytes_view(*old(b))[0],
        bytes_view(*final(b)) == bytes_view(*old(b)).skip(1),
{
    b.get_u8()
}

/// Relies on `Bytes::split_to`: afterwards `self` views `[at, len)` and the
/// returned handle views `[0, at)`; panics when `at > len`, so that case is
/// excluded.
#[verifier::external_body]
pub(crate) fn bytes_split_to(b: &mut Bytes, at: usize) -> (r: Bytes)
    requires
        at <= bytes_view(*old(b)).len(),
    ensures
        bytes_view(r) == bytes_view(*old(b)).take(at as int),
        bytes_view(*final(b)) == bytes_view(*old(b)).skip(at as int),
{
    b.split_to(at)
}

/// Relies on `Bytes::clone`: a new reference-counted handle on the same bytes.
#[verifier::external_body]
pub(crate) fn bytes_clone(b: &Bytes) -> (r: Bytes)
    ensures
        bytes_view(r) == bytes_view(*b),
{
    b.clone()
}

/// Relies on `<Bytes as AsRef<[u8]>>::as_ref`: a slice of all viewed bytes.
#[verifier::external_body]
pub(crate) fn bytes_as_slice(b: &Bytes) -> (r: &[u8])
    ensures
        r@ == bytes_view(*b),
{
    b.as_ref()
}

/// Relies on `BytesMut::new`: an empty buffer.
#[verifier::external_body]
pub(crate) fn bmut_new() -> (r: BytesMut)
    ensures
        bmut_view(r) == Seq::<u8>::empty(),
{
    BytesMut::new()
}

/// Relies on `BytesMut::with_capacity`: an empty buffer (the capacity is not
/// modelled).
#[verifier::external_body]
pub(crate) fn bmut_with_capacity(capacity: usize) -> (r: BytesMut)
    ensures
        bmut_view(r) == Seq::<u8>::empty(),
{
    BytesMut::with_capacity(capacity)
}

/// Relies on `BytesMut::len`: the number of bytes the buffer holds.
#[verifier::external_body]
pub(crate) fn bmut_len(b: &BytesMut) -> (r: usize)
    ensures
        r == bmut_view(*b).len(),
{
    b.len()
}

/// Relies on `BufMut::put_u8` on `BytesMut`: appends one byte, growing the
/// buffer as needed.
#[verifier::external_body]
pub(crate) fn bmut_put_u8(b: &mut BytesMut, v: u8)
    ensures
        bmut_view(*final(b)) == bmut_view(*old(b)).push(v),
{
    b.put_u8(v);
}

/// Relies on `BufMut::put_slice` on `BytesMut`: appends the slice's bytes,
/// growing the buffer as needed.
#[verifier::external_body]
pub(crate) fn bmut_put_slice(b: &mut BytesMut, s: &[u8])
    ensures
        bmut_view(*final(b)) == bmut_view(*old(b)) + s@,
{
    b.put_slice(s);
}

/// Relies on `BufMut::put` on `BytesMut`: appends all of `src`'s bytes.
#[verifier::external_body]
pub(crate) fn bmut_append(b: &mut BytesMut, src: BytesMut)
    ensures
        bmut_view(*final(b)) == bmut_view(*old(b)) + bmut_view(src),
{
    b.put(src);
}

/// Relies on `BytesMut::reserve`: affects only capacity, not the contents.
#[verifier::external_body]
pub(crate) fn bmut_reserve(b: &mut BytesMut, additional: usize)
    ensures
        bmut_view(*final(b)) == bmut_view(*old(b)),
{
    b.reserve(additional);
}

/// Relies on `BytesMut::clear`: removes all bytes.
#[verifier::external_body]
pub(crate) fn bmut_clear(b: &mut BytesMut)
    ensures
        bmut_view(*final(b)) == Seq::<u8>::empty(),
{
    b.clear();
}

/// Relies on `BytesMut::split_to`: afterwards `self` holds `[at, len)` and
/// the returned buffer holds `[0, at)`; panics when `at > len`, so that case
/// is excluded.
#[verifier::external_body]
pub(crate) fn bmut_split_to(b: &mut BytesMut, at: usize) -> (r: BytesMut)
    requires
        at <= bmut_view(*old(b)).len(),
    ensures
        bmut_view(r) == bmut_view(*old(b)).take(at as int),
        bmut_view(*final(b)) == bmut_view(*old(b)).skip(at as int),
{
    b.split_to(at)
}

/// Relies on `BytesMut::freeze`: converts the buffer into an immutable
/// `Bytes` holding the same bytes.
#[verifier::external_body]
pub(crate) fn bmut_freeze(b: BytesMut) -> (r: Bytes)
    ensures
        bytes_view(r) == bmut_view(b),
{
    b.freeze()
}

/// Relies on `String::from_utf8`: succeeds exactly on valid UTF-8, returning
/// the string those bytes spell.
#[verifier::external_body]
pub(crate) fn string_from_utf8(v: Vec<u8>) -> (r: Option<String>)
    ensures
        match r {
            Some(s) => vstd::utf8::valid_utf8(v@) && s@ == vstd::utf8::decode_utf8(v@),
            None => !vstd::utf8::valid_utf8(v@),
        },
{
    String::from_utf8(v).ok()
}

} // verus!
