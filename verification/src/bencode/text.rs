//! Bytes to text, through the standard library's UTF-8 routines.
use vstd::prelude::*;
use vstd::string::*;
use vstd::utf8::*;

verus! {

/// The text that `String::from_utf8_lossy` makes of a byte string: its
/// decoding, with each malformed stretch replaced by U+FFFD.
pub uninterp spec fn lossy_text(bytes: Seq<u8>) -> Seq<char>;

/// Calls `String::from_utf8_lossy` and owns the result. Trusted: the result
/// is a function of the bytes alone, named [`lossy_text`], and bytes that
/// are well-formed UTF-8 come back as the text that they encode.
#[verifier::external_body]
pub(crate) fn lossy_string(bytes: &[u8]) -> (r: String)
    ensures
        r@ == lossy_text(bytes@),
        valid_utf8(bytes@) ==> r@ == decode_utf8(bytes@),
{
    String::from_utf8_lossy(bytes).into_owned()
}

/// Calls `core::str::from_utf8`. Trusted: it succeeds exactly on well-formed
/// UTF-8, and the text it returns has the given bytes as its encoding.
#[verifier::external_body]
pub(crate) fn text_of(bytes: &[u8]) -> (r: Option<&str>)
    ensures
        r is Some <==> valid_utf8(bytes@),
        r matches Some(s) ==> s.spec_bytes() == bytes@,
{
    match core::str::from_utf8(bytes) {
        Ok(s) => Some(s),
        Err(_) => None,
    }
}

/// The text `prefix` followed by the lossy reading of `fragment`.
pub(crate) fn with_fragment(prefix: &str, fragment: &[u8]) -> (r: String)
    ensures
        r@ == prefix@ + lossy_text(fragment@),
        valid_utf8(fragment@) ==> r@ == prefix@ + decode_utf8(fragment@),
{
    let mut message = String::from_str(prefix);
    let shown = lossy_string(fragment);
    message.append(shown.as_str());
    message
}

} // verus!
