//! Byte strings held by the `bytes` crate: `Bytes` handles and `BytesMut` buffers.
//!
//! Both types are opaque here. What they hold is named by `contents` and `buffered`,
//! and the operations of the crate that the library calls are given contracts over
//! those names; the contracts are taken on trust.

use bytes::{Buf, Bytes, BytesMut};
use vstd::prelude::*;

verus! {

/// `bytes::Bytes`: a handle to a byte string that does not change.
#[verifier::external_type_specification]
#[verifier::external_body]
pub struct ExBytes(bytes::Bytes);

/// The byte string that a `Bytes` handle refers to.
pub uninterp spec fn contents(b: Bytes) -> Seq<u8>;

/// `Bytes::copy_from_slice` makes a handle to a fresh copy of `data`.
pub assume_specification[ Bytes::copy_from_slice ](data: &[u8]) -> (b: Bytes)
    ensures
        contents(b) == data@,
;

/// Cloning a `Bytes` gives a second handle to the same byte string.
pub assume_specification[ <Bytes as Clone>::clone ](b: &Bytes) -> (c: Bytes)
    ensures
        contents(c) == contents(*b),
;

/// `Bytes::as_ref` lends the byte string as a slice.
pub assume_specification<'a>[ <Bytes as AsRef<[u8]>>::as_ref ](b: &'a Bytes) -> (s: &'a [u8])
    ensures
        s@ == contents(*b),
;

/// `bytes::BytesMut`: a buffer of bytes that grows at its end and is read from its
/// front.
#[verifier::external_type_specification]
#[verifier::external_body]
pub struct ExBytesMut(bytes::BytesMut);

/// The bytes that a `BytesMut` buffer holds, the next to be read first.
pub uninterp spec fn buffered(b: BytesMut) -> Seq<u8>;

/// `BytesMut::with_capacity` makes a buffer that holds nothing.
pub assume_specification[ BytesMut::with_capacity ](capacity: usize) -> (b: BytesMut)
    ensures
        buffered(b) == Seq::<u8>::empty(),
;

/// `BytesMut::is_empty` tells whether the buffer holds no byte.
pub assume_specification[ BytesMut::is_empty ](b: &BytesMut) -> (r: bool)
    ensures
        r == (buffered(*b).len() == 0),
;

/// `BytesMut::as_ref` lends the bytes of the buffer as a slice.
pub assume_specification<'a>[ <BytesMut as AsRef<[u8]>>::as_ref ](b: &'a BytesMut) -> (s: &'a [u8])
    ensures
        s@ == buffered(*b),
;

/// `BytesMut::extend_from_slice` appends a copy of `extend` to the buffer. It needs
/// room for the longer buffer, which no allocation above `isize::MAX` bytes has.
pub assume_specification[ BytesMut::extend_from_slice ](b: &mut BytesMut, extend: &[u8])
    requires
        buffered(*old(b)).len() + extend@.len() <= isize::MAX,
    ensures
        buffered(*final(b)) == buffered(*old(b)) + extend@,
;

/// `Buf::advance` on a `BytesMut` drops the first `cnt` bytes of the buffer, which has
/// to hold that many.
pub assume_specification[ <BytesMut as Buf>::advance ](b: &mut BytesMut, cnt: usize)
    requires
        cnt <= buffered(*old(b)).len(),
    ensures
        buffered(*final(b)) == buffered(*old(b)).skip(cnt as int),
;

/// The byte strings behind a sequence of handles.
pub open spec fn contents_of(items: Seq<Bytes>) -> Seq<Seq<u8>> {
    Seq::new(items.len(), |i: int| contents(items[i]))
}

} // verus!
