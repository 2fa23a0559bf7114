//! Decoding of bytes into text.

use vstd::prelude::*;
use vstd::utf8::*;
use vstd::string::*;
use crate::error::Error;

verus! {

/// The error of `core::str::from_utf8`, carried through unread.
#[verifier::external_type_specification]
#[verifier::external_body]
pub struct ExUtf8Error(core::str::Utf8Error);

/// `core::str::from_utf8` succeeds exactly on well-formed UTF-8, and the
/// string slice it returns is made of the very bytes it was given.
pub assume_specification<'a>[ core::str::from_utf8 ](v: &'a [u8]) -> (r: Result<
    &'a str,
    core::str::Utf8Error,
>)
    ensures
        r is Ok <==> valid_utf8(v@),
        r is Ok ==> r->Ok_0.spec_bytes() == v@,
;

/// What `String::from_utf8_lossy` makes of a byte sequence: its text where
/// the bytes are well-formed UTF-8, and otherwise that text with each
/// ill-formed part replaced by U+FFFD.
pub uninterp spec fn lossy_text(bytes: Seq<u8>) -> Seq<char>;

/// `String::from_utf8_lossy`, as an owned string. On well-formed UTF-8 the
/// result is the decoded text; on any other input it is only named.
#[verifier::external_body]
fn from_utf8_lossy(bytes: &[u8]) -> (s: String)
    ensures
        s@ == lossy_text(bytes@),
        valid_utf8(bytes@) ==> s@ == decode_utf8(bytes@),
{
    String::from_utf8_lossy(bytes).into_owned()
}

/// The text that a byte sequence encodes, where it encodes any.
pub open spec fn text_of(bytes: Seq<u8>) -> Option<Seq<char>> {
    if valid_utf8(bytes) {
        Some(decode_utf8(bytes))
    } else {
        None
    }
}

/// Decodes bytes as UTF-8 text, refusing anything that is not well formed.
pub fn decode_text(bytes: &[u8]) -> (r: Result<String, Error>)
    ensures
        match text_of(bytes@) {
            Some(text) => r is Ok && r->Ok_0@ == text,
            None => r == Err::<String, Error>(Error::InvalidEncoding),
        },
{
    match core::str::from_utf8(bytes) {
        Ok(s) => {
            proof {
                encode_utf8_decode_utf8(s@);
            }
            Ok(s.to_owned())
        },
        Err(_) => Err(Error::InvalidEncoding),
    }
}

/// Decodes bytes as text, replacing what is not well-formed UTF-8 instead
/// of failing.
pub fn decode_text_lossy(bytes: &[u8]) -> (s: String)
    ensures
        s@ == lossy_text(bytes@),
        text_of(bytes@) is Some ==> s@ == text_of(bytes@)->0,
{
    from_utf8_lossy(bytes)
}

} // verus!
