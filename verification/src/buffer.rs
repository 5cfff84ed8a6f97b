//! Byte buffers: what the library relies on of `bytes::Bytes` and
//! `bytes::BytesMut`.
//!
//! Nothing here speaks of memory: an allocation that the machine cannot make
//! ends the process, in these functions as anywhere else.
use bytes::{Buf, BufMut, Bytes, BytesMut};
use vstd::prelude::*;

use crate::frame::be_bytes;

verus! {

/// `bytes::Bytes`, an immutable, reference-counted run of bytes.
#[verifier::external_type_specification]
#[verifier::external_body]
pub struct ExBytes(bytes::Bytes);

/// `bytes::BytesMut`, a growable buffer of bytes.
#[verifier::external_type_specification]
#[verifier::external_body]
pub struct ExBytesMut(bytes::BytesMut);

/// The bytes that a `Bytes` holds, in order.
pub uninterp spec fn bytes_view(b: Bytes) -> Seq<u8>;

/// The bytes that a `BytesMut` holds, in order.
pub uninterp spec fn buffer_view(b: BytesMut) -> Seq<u8>;

/// `Bytes::new`: the result holds nothing.
pub assume_specification[ Bytes::new ]() -> (b: Bytes)
    ensures
        bytes_view(b) == Seq::<u8>::empty(),
;

/// `Bytes::copy_from_slice`: the result holds a copy of the slice.
pub assume_specification[ Bytes::copy_from_slice ](data: &[u8]) -> (b: Bytes)
    ensures
        bytes_view(b) == data@,
;

/// `Bytes::split_to`: the first `at` bytes are handed out, the rest stays. It
/// panics where there are fewer than `at`.
pub assume_specification[ Bytes::split_to ](b: &mut Bytes, at: usize) -> (head: Bytes)
    requires
        at <= bytes_view(*old(b)).len(),
    ensures
        bytes_view(head) == bytes_view(*old(b)).take(at as int),
        bytes_view(*final(b)) == bytes_view(*old(b)).skip(at as int),
;

/// `Bytes::clone`: another handle to the same bytes.
pub assume_specification[ <Bytes as Clone>::clone ](b: &Bytes) -> (copy: Bytes)
    ensures
        bytes_view(copy) == bytes_view(*b),
;

/// `Bytes::as_ref`: the bytes held, as a slice.
#[verifier::external_body]
pub(crate) fn bytes_slice(b: &Bytes) -> (s: &[u8])
    ensures
        s@ == bytes_view(*b),
{
    b.as_ref()
}

/// `BytesMut::new`: the result holds nothing.
pub assume_specification[ BytesMut::new ]() -> (b: BytesMut)
    ensures
        buffer_view(b) == Seq::<u8>::empty(),
;

/// `BytesMut::with_capacity`: the result holds nothing. It panics where the
/// capacity exceeds what one allocation may have.
pub assume_specification[ BytesMut::with_capacity ](capacity: usize) -> (b: BytesMut)
    requires
        capacity <= isize::MAX,
    ensures
        buffer_view(b) == Seq::<u8>::empty(),
;

/// `BytesMut::reserve`: makes room and leaves the bytes as they are. It panics
/// where the bytes and the room exceed what one allocation may have.
pub assume_specification[ BytesMut::reserve ](b: &mut BytesMut, additional: usize)
    requires
        buffer_view(*old(b)).len() + additional <= isize::MAX,
    ensures
        buffer_view(*final(b)) == buffer_view(*old(b)),
;

/// `BytesMut::extend_from_slice`: appends the slice. It makes room as
/// `reserve` does, and panics as `reserve` does.
pub assume_specification[ BytesMut::extend_from_slice ](b: &mut BytesMut, extend: &[u8])
    requires
        buffer_view(*old(b)).len() + extend@.len() <= isize::MAX,
    ensures
        buffer_view(*final(b)) == buffer_view(*old(b)) + extend@,
;

/// `BytesMut::split_to`: the first `at` bytes are handed out, the rest stays.
/// It panics where there are fewer than `at`.
pub assume_specification[ BytesMut::split_to ](b: &mut BytesMut, at: usize) -> (head: BytesMut)
    requires
        at <= buffer_view(*old(b)).len(),
    ensures
        buffer_view(head) == buffer_view(*old(b)).take(at as int),
        buffer_view(*final(b)) == buffer_view(*old(b)).skip(at as int),
;

/// `BytesMut::freeze`: the same bytes, no longer writable.
pub assume_specification[ BytesMut::freeze ](b: BytesMut) -> (frozen: Bytes)
    ensures
        bytes_view(frozen) == buffer_view(b),
;

/// `BytesMut::as_ref`: the bytes held, as a slice.
#[verifier::external_body]
pub(crate) fn buffer_slice(b: &BytesMut) -> (s: &[u8])
    ensures
        s@ == buffer_view(*b),
{
    b.as_ref()
}

/// `Buf::advance` of a `BytesMut`: the first `count` bytes go. It panics where
/// there are fewer.
#[verifier::external_body]
pub(crate) fn advance(b: &mut BytesMut, count: usize)
    requires
        count <= buffer_view(*old(b)).len(),
    ensures
        buffer_view(*final(b)) == buffer_view(*old(b)).skip(count as int),
{
    b.advance(count)
}

/// `BufMut::put_u8` of a `BytesMut`: appends one byte. It makes room and
/// panics as `BytesMut::reserve` does.
#[verifier::external_body]
pub(crate) fn put_u8(b: &mut BytesMut, n: u8)
    requires
        buffer_view(*old(b)).len() + 1 <= isize::MAX,
    ensures
        buffer_view(*final(b)) == buffer_view(*old(b)).push(n),
{
    b.put_u8(n)
}

/// `BufMut::put_u32` of a `BytesMut`: appends a number as four bytes, the most
/// significant first. It makes room and panics as `BytesMut::reserve` does.
#[verifier::external_body]
pub(crate) fn put_u32(b: &mut BytesMut, n: u32)
    requires
        buffer_view(*old(b)).len() + 4 <= isize::MAX,
    ensures
        buffer_view(*final(b)) == buffer_view(*old(b)) + be_bytes(n),
{
    b.put_u32(n)
}

} // verus!
