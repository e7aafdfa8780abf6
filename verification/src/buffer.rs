//! The growable byte buffer of the `bytes` crate, seen as the sequence of its unread bytes.
//!
//! What this file states of `BytesMut` is taken from the crate and not proved here. A buffer
//! holds at most `isize::MAX` bytes; writing past that panics, so the writers ask for room.

use crate::wire::{be_bytes, be_value};
use bytes::{Buf, BufMut, BytesMut};
use vstd::prelude::*;
use vstd::slice::{slice_subrange, slice_to_vec};

verus! {

#[verifier::external_type_specification]
#[verifier::external_body]
pub struct ExBytesMut(BytesMut);

/// The unread bytes of a buffer, next one first.
pub uninterp spec fn contents(buf: BytesMut) -> Seq<u8>;

/// Whether `n` more bytes can be written behind `held` bytes.
pub open spec fn has_room(held: nat, n: nat) -> bool {
    held + n <= isize::MAX
}

/// `BytesMut::new`: a buffer without bytes.
#[verifier::external_body]
pub(crate) fn new_buffer() -> (buf: BytesMut)
    ensures
        contents(buf) == Seq::<u8>::empty(),
{
    BytesMut::new()
}

/// `BytesMut::from` on a slice: a buffer with a copy of the slice's bytes.
#[verifier::external_body]
pub(crate) fn buffer_from(bytes: &[u8]) -> (buf: BytesMut)
    ensures
        contents(buf) == bytes@,
{
    BytesMut::from(bytes)
}

/// `BytesMut::len`: how many bytes are unread. There are never more than `isize::MAX`.
#[verifier::external_body]
pub(crate) fn buffer_len(buf: &BytesMut) -> (n: usize)
    ensures
        n == contents(*buf).len(),
        n <= isize::MAX,
{
    buf.len()
}

/// `BytesMut::as_ref`: the unread bytes as a slice.
#[verifier::external_body]
pub(crate) fn buffer_bytes(buf: &BytesMut) -> (bytes: &[u8])
    ensures
        bytes@ == contents(*buf),
{
    buf.as_ref()
}

/// `BytesMut::extend_from_slice`: appends the slice's bytes.
#[verifier::external_body]
pub(crate) fn put_bytes(buf: &mut BytesMut, bytes: &[u8])
    requires
        has_room(contents(*old(buf)).len(), bytes@.len()),
    ensures
        contents(*final(buf)) == contents(*old(buf)) + bytes@,
{
    buf.extend_from_slice(bytes)
}

/// `BufMut::put_u8`: appends one byte.
#[verifier::external_body]
pub(crate) fn put_u8(buf: &mut BytesMut, n: u8)
    requires
        has_room(contents(*old(buf)).len(), 1),
    ensures
        contents(*final(buf)) == contents(*old(buf)).push(n),
{
    buf.put_u8(n)
}

/// `BufMut::put_u16`: appends the two bytes of the number, most significant first.
#[verifier::external_body]
pub(crate) fn put_u16(buf: &mut BytesMut, n: u16)
    requires
        has_room(contents(*old(buf)).len(), 2),
    ensures
        contents(*final(buf)) == contents(*old(buf)) + be_bytes(n as nat, 2),
{
    buf.put_u16(n)
}

/// `BufMut::put_u32`: appends the four bytes of the number, most significant first.
#[verifier::external_body]
pub(crate) fn put_u32(buf: &mut BytesMut, n: u32)
    requires
        has_room(contents(*old(buf)).len(), 4),
    ensures
        contents(*final(buf)) == contents(*old(buf)) + be_bytes(n as nat, 4),
{
    buf.put_u32(n)
}

/// `BufMut::put_u64`: appends the eight bytes of the number, most significant first.
#[verifier::external_body]
pub(crate) fn put_u64(buf: &mut BytesMut, n: u64)
    requires
        has_room(contents(*old(buf)).len(), 8),
    ensures
        contents(*final(buf)) == contents(*old(buf)) + be_bytes(n as nat, 8),
{
    buf.put_u64(n)
}

/// `Buf::advance`: drops the next `n` bytes. It panics where there are fewer.
#[verifier::external_body]
pub(crate) fn advance(buf: &mut BytesMut, n: usize)
    requires
        n <= contents(*old(buf)).len(),
    ensures
        contents(*final(buf)) == contents(*old(buf)).skip(n as int),
{
    buf.advance(n)
}

/// `BytesMut::split_to`: takes the next `n` bytes out. It panics where there are fewer.
#[verifier::external_body]
pub(crate) fn split_to(buf: &mut BytesMut, n: usize) -> (head: BytesMut)
    requires
        n <= contents(*old(buf)).len(),
    ensures
        contents(head) == contents(*old(buf)).take(n as int),
        contents(*final(buf)) == contents(*old(buf)).skip(n as int),
{
    buf.split_to(n)
}

/// `Buf::get_u8`: takes the next byte. It panics on an empty buffer.
#[verifier::external_body]
pub(crate) fn get_u8(buf: &mut BytesMut) -> (n: u8)
    requires
        contents(*old(buf)).len() >= 1,
    ensures
        n == contents(*old(buf))[0],
        contents(*final(buf)) == contents(*old(buf)).skip(1),
{
    buf.get_u8()
}

/// `Buf::get_u16`: takes the next two bytes as a number, most significant first. It panics
/// where there are fewer.
#[verifier::external_body]
pub(crate) fn get_u16(buf: &mut BytesMut) -> (n: u16)
    requires
        contents(*old(buf)).len() >= 2,
    ensures
        n == be_value(contents(*old(buf)).take(2)),
        contents(*final(buf)) == contents(*old(buf)).skip(2),
{
    buf.get_u16()
}

/// `Buf::get_u32`: takes the next four bytes as a number, most significant first. It panics
/// where there are fewer.
#[verifier::external_body]
pub(crate) fn get_u32(buf: &mut BytesMut) -> (n: u32)
    requires
        contents(*old(buf)).len() >= 4,
    ensures
        n == be_value(contents(*old(buf)).take(4)),
        contents(*final(buf)) == contents(*old(buf)).skip(4),
{
    buf.get_u32()
}

/// `Buf::get_u64`: takes the next eight bytes as a number, most significant first. It panics
/// where there are fewer.
#[verifier::external_body]
pub(crate) fn get_u64(buf: &mut BytesMut) -> (n: u64)
    requires
        contents(*old(buf)).len() >= 8,
    ensures
        n == be_value(contents(*old(buf)).take(8)),
        contents(*final(buf)) == contents(*old(buf)).skip(8),
{
    buf.get_u64()
}

/// A copy of the next `n` bytes, which stay unread.
pub(crate) fn peek_bytes(buf: &BytesMut, n: usize) -> (head: Vec<u8>)
    requires
        n <= contents(*buf).len(),
    ensures
        head@ == contents(*buf).take(n as int),
{
    let head = slice_to_vec(slice_subrange(buffer_bytes(buf), 0, n));
    assert(head@ =~= contents(*buf).take(n as int));
    head
}

} // verus!
