//! The byte buffers of the `bytes` crate, and the conversions of byte strings
//! to text.

use bytes::{Buf, BufMut, Bytes, BytesMut};
use vstd::prelude::*;
use vstd::utf8::{decode_utf8, valid_utf8};

verus! {

/// `bytes::BytesMut`, a growable buffer.
#[verifier::external_type_specification]
#[verifier::external_body]
pub struct ExBytesMut(BytesMut);

/// `bytes::Bytes`, a buffer that is read from its front.
#[verifier::external_type_specification]
#[verifier::external_body]
pub struct ExBytes(Bytes);

/// The bytes that a `BytesMut` holds.
pub uninterp spec fn written(b: BytesMut) -> Seq<u8>;

/// The bytes that a `Bytes` still holds.
pub uninterp spec fn unread(b: Bytes) -> Seq<u8>;

/// `BytesMut::with_capacity` makes a buffer that holds nothing.
#[verifier::external_body]
pub(crate) fn buf_with_capacity(capacity: usize) -> (res: BytesMut)
    requires
        capacity <= isize::MAX,
    ensures
        written(res) == Seq::<u8>::empty(),
{
    BytesMut::with_capacity(capacity)
}

/// `BufMut::put_u8` on a `BytesMut` appends the byte.
#[verifier::external_body]
pub(crate) fn buf_put_u8(b: &mut BytesMut, n: u8)
    requires
        written(*old(b)).len() < isize::MAX,
    ensures
        written(*final(b)) == written(*old(b)).push(n),
{
    b.put_u8(n)
}

/// `BufMut::put_u16` on a `BytesMut` appends the number's two bytes, the high
/// one first.
#[verifier::external_body]
pub(crate) fn buf_put_u16(b: &mut BytesMut, n: u16)
    requires
        written(*old(b)).len() + 2 <= isize::MAX,
    ensures
        written(*final(b)) == written(*old(b)).push((n / 256) as u8).push((n % 256) as u8),
{
    b.put_u16(n)
}

/// `BufMut::put_slice` on a `BytesMut` appends the bytes.
#[verifier::external_body]
pub(crate) fn buf_put_slice(b: &mut BytesMut, src: &[u8])
    requires
        written(*old(b)).len() + src@.len() <= isize::MAX,
    ensures
        written(*final(b)) == written(*old(b)) + src@,
{
    b.put_slice(src)
}

/// `BytesMut` dereferences to the bytes it holds.
#[verifier::external_body]
pub(crate) fn buf_as_slice(b: &BytesMut) -> (res: &[u8])
    ensures
        res@ == written(*b),
{
    b
}

/// `Bytes::new` makes a buffer that holds nothing.
#[verifier::external_body]
pub(crate) fn bytes_new() -> (res: Bytes)
    ensures
        unread(res) == Seq::<u8>::empty(),
{
    Bytes::new()
}

/// `Bytes::from` on a vector holds the vector's bytes.
#[verifier::external_body]
pub(crate) fn bytes_from(data: Vec<u8>) -> (res: Bytes)
    ensures
        unread(res) == data@,
{
    Bytes::from(data)
}

/// `Bytes` dereferences to the bytes it holds.
#[verifier::external_body]
pub(crate) fn bytes_as_slice(b: &Bytes) -> (res: &[u8])
    ensures
        res@ == unread(*b),
{
    b
}

/// `Buf::advance` on a `Bytes` drops bytes from the front.  It panics where
/// there are fewer.
#[verifier::external_body]
pub(crate) fn bytes_advance(b: &mut Bytes, cnt: usize)
    requires
        cnt <= unread(*old(b)).len(),
    ensures
        unread(*final(b)) == unread(*old(b)).skip(cnt as int),
{
    b.advance(cnt)
}

/// The text of the error with which `String::from_utf8` refuses bytes.
pub uninterp spec fn utf8_error_text(bytes: Seq<u8>) -> Seq<char>;

/// `String::from_utf8` decodes the bytes where they are valid UTF-8, and else
/// returns an error, here as its text.
#[verifier::external_body]
pub(crate) fn string_from_utf8(bytes: Vec<u8>) -> (res: Result<String, String>)
    ensures
        res is Ok <==> valid_utf8(bytes@),
        res matches Ok(s) ==> s@ == decode_utf8(bytes@),
        res matches Err(e) ==> e@ == utf8_error_text(bytes@),
{
    String::from_utf8(bytes).map_err(|e| e.to_string())
}

/// The text that `String::from_utf8_lossy` makes of bytes that are not valid
/// UTF-8.
pub uninterp spec fn utf8_lossy(bytes: Seq<u8>) -> Seq<char>;

/// `String::from_utf8_lossy` decodes the bytes, and puts the replacement
/// character where they are not valid UTF-8.  Where they are, nothing is
/// replaced.
#[verifier::external_body]
pub(crate) fn string_from_utf8_lossy(bytes: &[u8]) -> (res: String)
    ensures
        valid_utf8(bytes@) ==> res@ == decode_utf8(bytes@),
        !valid_utf8(bytes@) ==> res@ == utf8_lossy(bytes@),
{
    String::from_utf8_lossy(bytes).into_owned()
}

} // verus!
