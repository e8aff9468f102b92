//! Trusted boundary to the `bytes` crate's growable byte buffer.
//!
//! The codec consumes its input from, and appends its output to, a
//! `bytes::BytesMut`. Verus sees that type as opaque, so this module gives
//! its contents a name, `bytes_view`, and wraps each method the codec
//! calls in a function whose contract states, over that name, what the
//! method does.

use vstd::prelude::*;
use bytes::BytesMut;

verus! {

#[verifier::external_type_specification]
#[verifier::external_body]
pub struct ExBytesMut(BytesMut);

/// The bytes a `BytesMut` holds, front to back.
pub uninterp spec fn bytes_view(b: BytesMut) -> Seq<u8>;

/// Relies on `BytesMut::len`: the number of bytes the buffer holds.
#[verifier::external_body]
pub fn buf_len(b: &BytesMut) -> (r: usize)
    ensures
        r == bytes_view(*b).len(),
{
    b.len()
}

/// Relies on `BytesMut`'s deref to `[u8]`: reads the byte at `i` without
/// consuming it.
#[verifier::external_body]
pub fn buf_byte_at(b: &BytesMut, i: usize) -> (r: u8)
    requires
        i < bytes_view(*b).len(),
    ensures
        r == bytes_view(*b)[i as int],
{
    b[i]
}

/// Relies on `BytesMut::split_to`: removes the first `at` bytes and
/// returns them; the buffer keeps the rest.
#[verifier::external_body]
pub fn buf_split_to(b: &mut BytesMut, at: usize) -> (r: BytesMut)
    requires
        at <= bytes_view(*old(b)).len(),
    ensures
        bytes_view(r) == bytes_view(*old(b)).take(at as int),
        bytes_view(*final(b)) == bytes_view(*old(b)).skip(at as int),
{
    b.split_to(at)
}

/// Relies on `BytesMut::reserve`: grows the capacity, leaving the
/// contents as they were. `reserve` panics when the new capacity would
/// overflow `usize`, so that case is excluded here.
#[verifier::external_body]
pub fn buf_reserve(b: &mut BytesMut, additional: usize)
    requires
        bytes_view(*old(b)).len() + additional <= usize::MAX,
    ensures
        bytes_view(*final(b)) == bytes_view(*old(b)),
{
    b.reserve(additional)
}

/// Relies on `BytesMut::extend_from_slice`: appends one byte at the end.
#[verifier::external_body]
pub fn buf_push(b: &mut BytesMut, v: u8)
    requires
        bytes_view(*old(b)).len() < usize::MAX,
    ensures
        bytes_view(*final(b)) == bytes_view(*old(b)).push(v),
{
    b.extend_from_slice(&[v])
}

/// Relies on `BytesMut::extend_from_slice`: appends a copy of `other`
/// at the end.
#[verifier::external_body]
pub fn buf_extend(b: &mut BytesMut, other: &BytesMut)
    requires
        bytes_view(*old(b)).len() + bytes_view(*other).len() <= usize::MAX,
    ensures
        bytes_view(*final(b)) == bytes_view(*old(b)) + bytes_view(*other),
{
    b.extend_from_slice(other)
}

} // verus!
