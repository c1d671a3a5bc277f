//! The byte buffer the codec works on.
//!
//! The buffer is `bytes::BytesMut`. No proof looks inside it: what it holds
//! is named by [`contents`], and every operation the codec needs is a small
//! wrapper whose contract is stated over that name and is taken on trust.

use bytes::{Buf, BufMut, BytesMut};
use vstd::prelude::*;

verus! {

/// `bytes::BytesMut`, taken as it is: nothing inside it is visible to a
/// proof.
#[verifier::external_type_specification]
#[verifier::external_body]
pub struct ExBytesMut(BytesMut);

/// The bytes a buffer holds, front first.
pub uninterp spec fn contents(buf: BytesMut) -> Seq<u8>;

/// `AsRef::as_ref` of a `BytesMut`: the slice is the buffer's contents.
#[verifier::external_body]
pub(crate) fn as_slice(buf: &BytesMut) -> (bytes: &[u8])
    ensures
        bytes@ == contents(*buf),
{
    buf.as_ref()
}

/// `Buf::advance` on a `BytesMut`: drops the first `cnt` bytes and keeps the
/// rest in order. The call panics when `cnt` exceeds the length, which
/// `requires` rules out.
#[verifier::external_body]
pub(crate) fn advance(buf: &mut BytesMut, cnt: usize)
    requires
        cnt <= contents(*old(buf)).len(),
    ensures
        contents(*final(buf)) == contents(*old(buf)).skip(cnt as int),
{
    buf.advance(cnt);
}

/// `BytesMut::split_to`: the result holds the first `at` bytes, the buffer
/// keeps the bytes from `at` on. The call panics when `at` exceeds the
/// length, which `requires` rules out.
#[verifier::external_body]
pub(crate) fn split_to(buf: &mut BytesMut, at: usize) -> (head: BytesMut)
    requires
        at <= contents(*old(buf)).len(),
    ensures
        contents(head) == contents(*old(buf)).take(at as int),
        contents(*final(buf)) == contents(*old(buf)).skip(at as int),
{
    buf.split_to(at)
}

/// `BytesMut::reserve`: makes room for `additional` more bytes and leaves
/// the contents alone. `BytesMut` takes the largest allocation to be
/// `isize::MAX` bytes and panics beyond it, which `requires` rules out.
#[verifier::external_body]
pub(crate) fn reserve(buf: &mut BytesMut, additional: usize)
    requires
        contents(*old(buf)).len() + additional <= isize::MAX,
    ensures
        contents(*final(buf)) == contents(*old(buf)),
{
    buf.reserve(additional);
}

/// `BufMut::put` with a byte slice as its source: appends the slice. Room is
/// bounded as for `reserve`.
#[verifier::external_body]
pub(crate) fn put(buf: &mut BytesMut, src: &[u8])
    requires
        contents(*old(buf)).len() + src@.len() <= isize::MAX,
    ensures
        contents(*final(buf)) == contents(*old(buf)) + src@,
{
    buf.put(src);
}

/// `BufMut::put_u8`: appends one byte. Room is bounded as for `reserve`.
#[verifier::external_body]
pub(crate) fn put_u8(buf: &mut BytesMut, n: u8)
    requires
        contents(*old(buf)).len() + 1 <= isize::MAX,
    ensures
        contents(*final(buf)) == contents(*old(buf)).push(n),
{
    buf.put_u8(n);
}

} // verus!
