//! The encodings that descriptors arrive in: percent-encoding, base64 and
//! UTF-8.

use base64::Engine;
use vstd::prelude::*;
use vstd::utf8::{decode_utf8, valid_utf8};

verus! {

/// The text that `percent_encoding` decodes from a percent-encoded text, with
/// what is no UTF-8 replaced as `decode_utf8_lossy` replaces it.
pub uninterp spec fn percent_decoded(text: Seq<char>) -> Seq<char>;

/// The bytes that the standard base64 engine decodes from a text, where it
/// accepts the text.
pub uninterp spec fn base64_decoded(text: Seq<char>) -> Option<Seq<u8>>;

/// Decodes a percent-encoded text.
///
/// Trusted: what `percent_decode_str` followed by `decode_utf8_lossy` returns
/// depends on the text alone.
#[verifier::external_body]
pub(crate) fn percent_decode(text: &str) -> (decoded: String)
    ensures
        decoded@ == percent_decoded(text@),
{
    percent_encoding::percent_decode_str(text).decode_utf8_lossy().into_owned()
}

/// Decodes base64 in the standard alphabet, with padding.
///
/// Trusted: whether `STANDARD.decode` accepts a text, and the bytes it then
/// returns, depend on the text alone.
#[verifier::external_body]
pub(crate) fn base64_decode(text: &str) -> (bytes: Option<Vec<u8>>)
    ensures
        match bytes {
            Some(b) => base64_decoded(text@) == Some(b@),
            None => base64_decoded(text@) is None,
        },
{
    base64::engine::general_purpose::STANDARD.decode(text).ok()
}

/// Reads bytes as UTF-8.
///
/// Trusted: `String::from_utf8` accepts exactly the byte sequences that are
/// valid UTF-8, and the string then holds the characters that they encode.
#[verifier::external_body]
pub(crate) fn utf8_text(bytes: Vec<u8>) -> (text: Option<String>)
    ensures
        match text {
            Some(s) => valid_utf8(bytes@) && s@ == decode_utf8(bytes@),
            None => !valid_utf8(bytes@),
        },
{
    String::from_utf8(bytes).ok()
}

} // verus!
