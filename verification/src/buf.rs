//! Byte buffers of the `bytes` crate, as this library sees them.
//!
//! A `Bytes` or a `BytesMut` is opaque to the verifier. What one holds is
//! named here, and each operation that the library calls is given a contract
//! over those names. The contracts are taken on trust: they restate what the
//! crate's source does and are not proved against it.

use bytes::{Buf, Bytes, BytesMut};
use vstd::prelude::*;

verus! {

/// `bytes::Bytes`: an immutable, cheaply cloneable run of bytes.
#[verifier::external_type_specification]
#[verifier::external_body]
pub struct ExBytes(bytes::Bytes);

/// `bytes::BytesMut`: a growable run of bytes.
#[verifier::external_type_specification]
#[verifier::external_body]
pub struct ExBytesMut(bytes::BytesMut);

/// The bytes that a `Bytes` holds, in order.
pub uninterp spec fn bytes_view(b: Bytes) -> Seq<u8>;

/// The bytes that a `BytesMut` holds, in order.
pub uninterp spec fn buffer_view(b: BytesMut) -> Seq<u8>;

/// `Bytes::copy_from_slice` copies the slice: the result holds the bytes of
/// `data`.
pub assume_specification[ Bytes::copy_from_slice ](data: &[u8]) -> (b: Bytes)
    ensures
        bytes_view(b) == data@,
;

/// Borrowing a `Bytes` as a slice (`Deref::deref`) gives the bytes it holds.
pub assume_specification<'a>[ <Bytes as core::ops::Deref>::deref ](b: &'a Bytes) -> (s: &'a [u8])
    ensures
        s@ == bytes_view(*b),
;

/// `Bytes::clone` gives a second handle on the same bytes.
pub assume_specification[ <Bytes as Clone>::clone ](b: &Bytes) -> (c: Bytes)
    ensures
        bytes_view(c) == bytes_view(*b),
;

/// `Bytes::from` on a `String` takes the string's buffer over: the result
/// holds the UTF-8 encoding of the text.
pub assume_specification[ <Bytes as From<String>>::from ](s: String) -> (b: Bytes)
    ensures
        bytes_view(b) == vstd::utf8::encode_utf8(s@),
;

/// `BytesMut::with_capacity` gives a buffer that holds no bytes. A capacity
/// that no allocation can have is left out.
pub assume_specification[ BytesMut::with_capacity ](capacity: usize) -> (b: BytesMut)
    requires
        capacity <= isize::MAX,
    ensures
        buffer_view(b) == Seq::<u8>::empty(),
;

/// `BytesMut::extend_from_slice` appends the bytes of `extend` behind those
/// that the buffer holds. It grows the buffer where it has to, and panics
/// where the bytes would no longer fit in one allocation; that case is left
/// out.
pub assume_specification[ BytesMut::extend_from_slice ](b: &mut BytesMut, extend: &[u8])
    requires
        buffer_view(*old(b)).len() + extend@.len() <= isize::MAX,
    ensures
        buffer_view(*final(b)) == buffer_view(*old(b)) + extend@,
;

/// `Buf::advance` on a `BytesMut` drops the first `cnt` bytes. It panics
/// where the buffer holds fewer; that case is left out.
pub assume_specification[ <BytesMut as Buf>::advance ](b: &mut BytesMut, cnt: usize)
    requires
        cnt <= buffer_view(*old(b)).len(),
    ensures
        buffer_view(*final(b)) == buffer_view(*old(b)).skip(cnt as int),
;

/// Borrowing a `BytesMut` as a slice (`Deref::deref`) gives the bytes it
/// holds.
pub assume_specification<'a>[ <BytesMut as core::ops::Deref>::deref ](b: &'a BytesMut) -> (s:
    &'a [u8])
    ensures
        s@ == buffer_view(*b),
;

} // verus!
