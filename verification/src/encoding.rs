//! Bytes as text: UTF-8 decoding.
use vstd::prelude::*;
use vstd::utf8;

verus! {

/// The text of the error that [`String::from_utf8`] gives on bytes that are not
/// UTF-8: where the bytes go wrong.
pub uninterp spec fn invalid_utf8_text(bytes: Seq<u8>) -> Seq<char>;

/// The text that some bytes encode, or where they are not UTF-8.
pub open spec fn decoded(bytes: Seq<u8>) -> Result<Seq<char>, Seq<char>> {
    if utf8::valid_utf8(bytes) {
        Ok(utf8::decode_utf8(bytes))
    } else {
        Err(invalid_utf8_text(bytes))
    }
}

/// A decoded text, or why there is none.
pub open spec fn decoding(r: Result<String, String>) -> Result<Seq<char>, Seq<char>> {
    match r {
        Ok(s) => Ok(s@),
        Err(e) => Err(e@),
    }
}

/// Decodes UTF-8. The contract restates the documentation of
/// [`String::from_utf8`]: it succeeds exactly on valid UTF-8, and the string
/// then has these bytes. The text of its error is named; what it says is left
/// open.
#[verifier::external_body]
pub(crate) fn from_utf8(bytes: Vec<u8>) -> (r: Result<String, String>)
    ensures
        match r {
            Ok(s) => utf8::valid_utf8(bytes@) && s@ == utf8::decode_utf8(bytes@),
            Err(e) => !utf8::valid_utf8(bytes@) && e@ == invalid_utf8_text(bytes@),
        },
{
    match String::from_utf8(bytes) {
        Ok(s) => Ok(s),
        Err(e) => Err(e.to_string()),
    }
}

/// What [`String::from_utf8_lossy`] makes of some bytes.
pub uninterp spec fn lossy_text(bytes: Seq<u8>) -> Seq<char>;

/// Decodes UTF-8 and replaces what is not valid. The contract names the result
/// of [`String::from_utf8_lossy`] and restates of its documentation that valid
/// UTF-8 is decoded as it stands.
#[verifier::external_body]
pub(crate) fn from_utf8_lossy(bytes: &[u8]) -> (s: String)
    ensures
        s@ == lossy_text(bytes@),
        utf8::valid_utf8(bytes@) ==> s@ == utf8::decode_utf8(bytes@),
{
    String::from_utf8_lossy(bytes).into_owned()
}

} // verus!
