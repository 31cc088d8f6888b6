use vstd::prelude::*;
use vstd::utf8::encode_utf8;

use crate::names::{MAX_BASE64_TEXT_LEN, MAX_EMBEDDED_LEN};

verus! {

#[verifier::external_type_specification]
#[verifier::external_body]
pub struct ExDecodeError(base64::DecodeError);

/// The base64 text that `base64::encode` gives for some bytes.
pub uninterp spec fn b64_encoded(b: Seq<u8>) -> Seq<char>;

/// The bytes that `base64::decode` reads from a text, or `None` where it
/// refuses the text.
pub uninterp spec fn b64_decoded(s: Seq<char>) -> Option<Seq<u8>>;

/// Relies on `base64::encode`: the standard alphabet with padding and no line
/// breaks; the text depends on the bytes alone. Its output buffer size
/// overflows, and it panics, on inputs near `usize::MAX` bytes.
#[verifier::external_body]
pub(crate) fn encode(bytes: &[u8]) -> (r: String)
    requires
        bytes@.len() <= usize::MAX / 4,
    ensures
        r@ == b64_encoded(bytes@),
{
    base64::encode(bytes)
}

/// Relies on `base64::decode`: it reads the standard alphabet, fails on
/// malformed text, and gives back the bytes that `base64::encode` turned into
/// that text. Its buffer size estimate (four times the length) overflows on
/// longer texts.
#[verifier::external_body]
pub(crate) fn decode(text: &str) -> (r: Result<Vec<u8>, base64::DecodeError>)
    requires
        vstd::utf8::encode_utf8(text@).len() <= usize::MAX / 4,
    ensures
        r is Ok <==> b64_decoded(text@) is Some,
        r is Ok ==> r->Ok_0@ == b64_decoded(text@)->0,
        forall|b: Seq<u8>| #[trigger] b64_encoded(b) == text@ ==> (r is Ok && r->Ok_0@ == b),
{
    base64::decode(text)
}

/// The file name that `Path::with_extension` makes of a name and an extension.
pub uninterp spec fn path_with_extension(name: Seq<char>, ext: Seq<char>) -> Seq<char>;

/// Relies on `std::path::Path::with_extension`: the name with its extension
/// replaced by (or extended with) `ext`; the result depends on the two texts
/// alone. It panics on an extension that holds a path separator.
#[verifier::external_body]
pub(crate) fn with_extension(name: &str, ext: &str) -> (r: String)
    requires
        forall|i: int| 0 <= i < ext@.len() ==> ext@[i] != '/',
    ensures
        r@ == path_with_extension(name@, ext@),
{
    std::path::Path::new(name).with_extension(ext).to_string_lossy().into_owned()
}

/// Relies on `str::starts_with` with a `char` pattern.
#[verifier::external_body]
pub(crate) fn starts_with_char(s: &str, c: char) -> (r: bool)
    ensures
        r == (s@.len() > 0 && s@[0] == c),
{
    s.starts_with(c)
}

/// Relies on `str::ends_with` with a `&str` pattern.
#[verifier::external_body]
pub(crate) fn ends_with(s: &str, suffix: &str) -> (r: bool)
    ensures
        r == (suffix@.len() <= s@.len() && s@.subrange(s@.len() - suffix@.len(), s@.len() as int)
            == suffix@),
{
    s.ends_with(suffix)
}

/// Why a text could not be decoded.
#[derive(PartialEq, Eq, Structural, Clone, Copy, Debug)]
pub enum CodecError {
    /// The text is not valid base64.
    Malformed,
    /// The text is longer than `MAX_BASE64_TEXT_LEN` bytes.
    TooLong,
}

/// The base64 text of some bytes, at most `MAX_EMBEDDED_LEN` of them.
pub fn encode_bytes(bytes: &Vec<u8>) -> (r: String)
    requires
        bytes@.len() <= MAX_EMBEDDED_LEN,
    ensures
        r@ == b64_encoded(bytes@),
{
    encode(bytes.as_slice())
}

/// The bytes that a base64 text stands for.
pub fn decode_text(text: &String) -> (r: Result<Vec<u8>, CodecError>)
    ensures
        encode_utf8(text@).len() > MAX_BASE64_TEXT_LEN ==> r == Err::<Vec<u8>, CodecError>(CodecError::TooLong),
        encode_utf8(text@).len() <= MAX_BASE64_TEXT_LEN ==> match b64_decoded(text@) {
            Some(b) => r is Ok && r->Ok_0@ == b,
            None => r == Err::<Vec<u8>, CodecError>(CodecError::Malformed),
        },
{
    if text.as_str().as_bytes().len() > MAX_BASE64_TEXT_LEN {
        return Err(CodecError::TooLong);
    }
    match decode(text.as_str()) {
        Ok(b) => Ok(b),
        Err(_) => Err(CodecError::Malformed),
    }
}

} // verus!
