//! Binary fields travel as standard base64 text (padded, `+` and `/`).
use vstd::prelude::*;

use crate::models::RelayError;

verus! {

/// The standard padded base64 text of `bytes`.
pub uninterp spec fn base64_text(bytes: Seq<u8>) -> Seq<char>;

/// The bytes that standard padded base64 `text` decodes to, if it is valid.
pub uninterp spec fn base64_bytes(text: Seq<char>) -> Option<Seq<u8>>;

/// Relies on `Engine::encode` of base64's `STANDARD` engine: it writes four
/// characters per started group of three bytes, and its own decoder reads
/// them back as the input. It panics only when that length overflows.
#[verifier::external_body]
fn standard_encode(bytes: &[u8]) -> (r: String)
    requires
        4 * ((bytes@.len() + 2) / 3) <= usize::MAX,
    ensures
        r@ == base64_text(bytes@),
        r@.len() == 4 * ((bytes@.len() + 2) / 3),
        base64_bytes(r@) == Some(bytes@),
{
    base64::Engine::encode(&base64::engine::general_purpose::STANDARD, bytes)
}

/// Relies on `Engine::decode` of base64's `STANDARD` engine: the decoded
/// bytes for valid text, an error otherwise.
#[verifier::external_body]
fn standard_decode(text: &str) -> (r: Option<Vec<u8>>)
    ensures
        match r {
            Some(b) => base64_bytes(text@) == Some(b@),
            None => base64_bytes(text@) is None,
        },
{
    base64::Engine::decode(&base64::engine::general_purpose::STANDARD, text).ok()
}

/// The base64 text of a binary field.
pub fn encode_bytes(bytes: &Vec<u8>) -> (r: String)
    requires
        4 * ((bytes@.len() + 2) / 3) <= usize::MAX,
    ensures
        r@ == base64_text(bytes@),
        r@.len() == 4 * ((bytes@.len() + 2) / 3),
        base64_bytes(r@) == Some(bytes@),
{
    standard_encode(bytes.as_slice())
}

/// The bytes of a base64 field; `BadEncoding` exactly when the text is not
/// valid standard base64.
pub fn decode_bytes(text: &String) -> (r: Result<Vec<u8>, RelayError>)
    ensures
        match base64_bytes(text@) {
            Some(b) => r is Ok && r->Ok_0@ == b,
            None => r == Err::<Vec<u8>, RelayError>(RelayError::BadEncoding),
        },
{
    match standard_decode(text.as_str()) {
        Some(b) => Ok(b),
        None => Err(RelayError::BadEncoding),
    }
}

} // verus!
