//! Bytes as the front end exchanges them: UTF-8 text, or Base64 of the raw
//! bytes.
use vstd::prelude::*;
use crate::model::BytesFormat;
use crate::text::{utf8_lossy, bytes_to_string_lossy};
use vstd::slice::slice_to_vec;
use vstd::string::StringSliceAdditionalSpecFns;

verus! {

broadcast use vstd::utf8::decode_utf8_encode_utf8;

/// The name of what the standard Base64 engine (with padding) writes for
/// some bytes.
pub uninterp spec fn base64_encoded(bytes: Seq<u8>) -> Seq<char>;

/// The name of what the standard Base64 engine reads from a text: the
/// decoded bytes, or `None` when the text is not valid Base64.
pub uninterp spec fn base64_decoded(text: Seq<char>) -> Option<Seq<u8>>;

/// A character of the standard Base64 alphabet, or the padding `=`.
pub open spec fn is_base64_char(c: char) -> bool {
    ('A' <= c && c <= 'Z') || ('a' <= c && c <= 'z') || ('0' <= c && c <= '9') || c == '+' || c
        == '/' || c == '='
}

/// `base64::engine::general_purpose::STANDARD.encode`. Its result is named
/// `base64_encoded`; it is written with the standard alphabet and `=`
/// padding only, and decoding it with the same engine gives the bytes back.
#[verifier::external_body]
pub(crate) fn base64_encode(bytes: &[u8]) -> (r: String)
    ensures
        r@ == base64_encoded(bytes@),
        forall|i: int| 0 <= i < r@.len() ==> is_base64_char(#[trigger] r@[i]),
        base64_decoded(r@) == Some(bytes@),
{
    base64::Engine::encode(&base64::engine::general_purpose::STANDARD, bytes)
}

/// `base64::engine::general_purpose::STANDARD.decode`, with a decoding error
/// as `None`. Its result is named `base64_decoded`.
#[verifier::external_body]
pub(crate) fn base64_decode(text: &str) -> (r: Option<Vec<u8>>)
    ensures
        match base64_decoded(text@) {
            None => r is None,
            Some(b) => r matches Some(v) && v@ == b,
        },
{
    base64::Engine::decode(&base64::engine::general_purpose::STANDARD, text).ok()
}

/// Why a text could not be read as bytes.
#[derive(Debug, Clone, Copy, PartialEq, Eq, Structural)]
pub enum BytesError {
    /// The text is not valid Base64.
    InvalidBase64,
}

/// The bytes a text stands for in a format.
pub open spec fn text_bytes(text: Seq<char>, format: BytesFormat) -> Option<Seq<u8>> {
    match format {
        BytesFormat::UTF8 => Some(vstd::utf8::encode_utf8(text)),
        BytesFormat::Base64 => base64_decoded(text),
    }
}

/// The text that shows bytes in a format: UTF-8 (ill-formed sequences
/// replaced) or Base64.
pub open spec fn bytes_text(bytes: Seq<u8>, format: BytesFormat) -> Seq<char> {
    match format {
        BytesFormat::UTF8 => utf8_lossy(bytes),
        BytesFormat::Base64 => base64_encoded(bytes),
    }
}

/// Reads a text sent by the front end as bytes.
pub fn parse_bytes(text: &str, format: BytesFormat) -> (r: Result<Vec<u8>, BytesError>)
    ensures
        match text_bytes(text@, format) {
            None => r == Err::<Vec<u8>, BytesError>(BytesError::InvalidBase64),
            Some(b) => r matches Ok(v) && v@ == b,
        },
{
    match format {
        BytesFormat::UTF8 => Ok(slice_to_vec(text.as_bytes())),
        BytesFormat::Base64 => match base64_decode(text) {
            Some(v) => Ok(v),
            None => Err(BytesError::InvalidBase64),
        },
    }
}

/// Shows bytes to the front end. Reading the text back in the same format
/// gives the bytes again, for Base64 always and for UTF-8 when the bytes
/// are well-formed UTF-8.
pub fn format_bytes(bytes: &[u8], format: BytesFormat) -> (r: String)
    ensures
        r@ == bytes_text(bytes@, format),
        format == BytesFormat::Base64 || vstd::utf8::valid_utf8(bytes@) ==> text_bytes(r@, format)
            == Some(bytes@),
{
    match format {
        BytesFormat::UTF8 => bytes_to_string_lossy(bytes),
        BytesFormat::Base64 => base64_encode(bytes),
    }
}

} // verus!
