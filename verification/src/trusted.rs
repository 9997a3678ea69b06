//! The boundary to code that is not verified here. Every contract in this
//! module is believed, not proved.

use crate::ports::wildcard_matches;
use crate::string_decoder::is_valid_up_to;
use tokio_util::bytes::{Bytes, BytesMut};
use vstd::prelude::*;
use vstd::utf8::*;
use wildmatch::WildMatch;

verus! {

/// `std::str::from_utf8`, with the error reduced to what its `valid_up_to`
/// returns.
///
/// Believed: the call succeeds exactly on well-formed UTF-8 and then returns
/// the text that the bytes encode; otherwise `valid_up_to` of the error is
/// the greatest length of a prefix on which the call would succeed.
#[verifier::external_body]
pub(crate) fn str_from_utf8(bytes: &[u8]) -> (r: Result<&str, usize>)
    ensures
        match r {
            Ok(s) => valid_utf8(bytes@) && s@ == decode_utf8(bytes@),
            Err(n) => !valid_utf8(bytes@) && is_valid_up_to(bytes@, n as int),
        },
{
    match std::str::from_utf8(bytes) {
        Ok(s) => Ok(s),
        Err(e) => Err(e.valid_up_to()),
    }
}

/// A growable byte buffer of the `bytes` crate.
#[verifier::external_type_specification]
#[verifier::external_body]
pub struct ExBytesMut(tokio_util::bytes::BytesMut);

/// The bytes that a buffer currently holds, in order.
pub uninterp spec fn buffered(buf: BytesMut) -> Seq<u8>;

/// `BytesMut::is_empty`.
///
/// Believed: true exactly when the buffer holds no byte.
#[verifier::external_body]
pub(crate) fn buffer_is_empty(buf: &BytesMut) -> (r: bool)
    ensures
        r == (buffered(*buf).len() == 0),
{
    buf.is_empty()
}

/// `BytesMut::split`.
///
/// Believed: the returned buffer holds what `buf` held, and `buf` is left
/// empty.
#[verifier::external_body]
pub(crate) fn buffer_split(buf: &mut BytesMut) -> (taken: BytesMut)
    ensures
        buffered(taken) == buffered(*old(buf)),
        buffered(*final(buf)).len() == 0,
{
    buf.split()
}

/// `Deref` of `BytesMut` to a byte slice.
///
/// Believed: the slice is exactly what the buffer holds.
#[verifier::external_body]
pub(crate) fn buffer_as_slice(buf: &BytesMut) -> (s: &[u8])
    ensures
        s@ == buffered(*buf),
{
    &buf[..]
}

/// `String::push`.
///
/// Believed: the character is added at the end, and nothing else changes.
#[verifier::external_body]
pub(crate) fn string_push(s: &mut String, c: char)
    ensures
        final(s)@ == old(s)@.push(c),
{
    s.push(c)
}

/// An immutable chunk of bytes of the `bytes` crate.
#[verifier::external_type_specification]
#[verifier::external_body]
pub struct ExBytes(tokio_util::bytes::Bytes);

/// The bytes that a chunk holds, in order.
pub uninterp spec fn payload(chunk: Bytes) -> Seq<u8>;

/// `Bytes::copy_from_slice`.
///
/// Believed: the chunk holds a copy of the slice.
#[verifier::external_body]
pub(crate) fn bytes_from_slice(data: &[u8]) -> (chunk: Bytes)
    ensures
        payload(chunk) == data@,
{
    Bytes::copy_from_slice(data)
}

/// `WildMatch::new` and `WildMatch::matches` of the `wildmatch` crate.
///
/// Believed: the result tells whether the pattern matches the whole text,
/// where `?` stands for exactly one character and `*` for any number of
/// characters, none included, and every other character for itself.
#[verifier::external_body]
pub(crate) fn wild_match(pattern: &str, text: &str) -> (r: bool)
    ensures
        r == wildcard_matches(pattern@, text@),
{
    WildMatch::new(pattern).matches(text)
}

} // verus!
