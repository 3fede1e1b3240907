//! Base64 (from the `base64` crate) and SHA-2 digests (from the `sha2` crate).
//!
//! Each function here makes one call into its crate; its contract is trusted.
//! Results that take more than a few lines to state are given a name: a spec
//! function without a body, equal by contract to what the call returns.

use base64::Engine as _;
use sha2::Digest as _;
use vstd::prelude::*;

verus! {

/// What `URL_SAFE_NO_PAD.encode` returns for these bytes.
pub uninterp spec fn b64url_encode_spec(bytes: Seq<u8>) -> Seq<char>;

/// What `URL_SAFE_NO_PAD.decode` returns for this text, `None` for an error.
pub uninterp spec fn b64url_decode_spec(text: Seq<char>) -> Option<Seq<u8>>;

/// What `STANDARD.encode` returns for these bytes.
pub uninterp spec fn b64std_encode_spec(bytes: Seq<u8>) -> Seq<char>;

/// What `STANDARD.decode` returns for this text, `None` for an error.
pub uninterp spec fn b64std_decode_spec(text: Seq<char>) -> Option<Seq<u8>>;

/// What `STANDARD_NO_PAD.decode` returns for this text, `None` for an error.
pub uninterp spec fn b64std_nopad_decode_spec(text: Seq<char>) -> Option<Seq<u8>>;

/// The SHA-256 digest of the bytes, as `Sha256::digest` returns it.
pub uninterp spec fn sha256_spec(bytes: Seq<u8>) -> Seq<u8>;

/// The SHA-512 digest of the bytes, as `Sha512::digest` returns it.
pub uninterp spec fn sha512_spec(bytes: Seq<u8>) -> Seq<u8>;

/// The error `base64` reports for text it cannot decode.
#[verifier::external_type_specification]
#[verifier::external_body]
pub struct ExDecodeError(base64::DecodeError);

/// A character of the URL-safe base64 alphabet (RFC 4648 section 5).
pub open spec fn is_b64url_char(c: char) -> bool {
    ||| ('A' <= c && c <= 'Z')
    ||| ('a' <= c && c <= 'z')
    ||| ('0' <= c && c <= '9')
    ||| c == '-'
    ||| c == '_'
}

/// `base64::engine::general_purpose::URL_SAFE_NO_PAD.encode`.
///
/// Trusted: the text is a function of the bytes; it holds only characters of
/// the URL-safe alphabet (no padding is written), one for each 6 bits of
/// input rounded up (`encoded_len` without padding); and decoding it with the
/// same engine gives the bytes back. The crate's encoder panics when the
/// encoded length overflows `usize`, which the bound on the input rules out.
#[verifier::external_body]
pub(crate) fn b64url_encode(bytes: &[u8]) -> (text: String)
    requires
        bytes@.len() <= usize::MAX / 2,
    ensures
        text@ == b64url_encode_spec(bytes@),
        text@.len() == (bytes@.len() * 4 + 2) / 3,
        forall|i: int| 0 <= i < text@.len() ==> is_b64url_char(#[trigger] text@[i]),
        b64url_decode_spec(text@) == Some(bytes@),
{
    base64::engine::general_purpose::URL_SAFE_NO_PAD.encode(bytes)
}

/// `base64::engine::general_purpose::URL_SAFE_NO_PAD.decode`.
///
/// Trusted: whether it succeeds, and the bytes, are a function of the text.
/// Nothing is said of the error.
#[verifier::external_body]
pub(crate) fn b64url_decode(text: &str) -> (bytes: Result<Vec<u8>, base64::DecodeError>)
    ensures
        match bytes {
            Ok(b) => b64url_decode_spec(text@) == Some(b@),
            Err(_) => b64url_decode_spec(text@) is None,
        },
{
    base64::engine::general_purpose::URL_SAFE_NO_PAD.decode(text)
}

/// The text of a `DecodeError` (its `Display`).
///
/// Trusted: nothing is said of the text.
#[verifier::external_body]
pub(crate) fn decode_error_text(error: &base64::DecodeError) -> String {
    error.to_string()
}

/// `base64::engine::general_purpose::STANDARD.encode`.
///
/// Trusted: the text is a function of the bytes.
#[verifier::external_body]
pub(crate) fn b64std_encode(bytes: &[u8]) -> (text: String)
    requires
        bytes@.len() <= usize::MAX / 2,
    ensures
        text@ == b64std_encode_spec(bytes@),
{
    base64::engine::general_purpose::STANDARD.encode(bytes)
}

/// `base64::engine::general_purpose::STANDARD.decode`, `None` on a `DecodeError`.
///
/// Trusted: the result is a function of the text.
#[verifier::external_body]
pub(crate) fn b64std_decode(text: &str) -> (bytes: Option<Vec<u8>>)
    ensures
        match bytes {
            Some(b) => b64std_decode_spec(text@) == Some(b@),
            None => b64std_decode_spec(text@) is None,
        },
{
    base64::engine::general_purpose::STANDARD.decode(text).ok()
}

/// `base64::engine::general_purpose::STANDARD_NO_PAD.decode`, `None` on a `DecodeError`.
///
/// Trusted: the result is a function of the text.
#[verifier::external_body]
pub(crate) fn b64std_nopad_decode(text: &str) -> (bytes: Option<Vec<u8>>)
    ensures
        match bytes {
            Some(b) => b64std_nopad_decode_spec(text@) == Some(b@),
            None => b64std_nopad_decode_spec(text@) is None,
        },
{
    base64::engine::general_purpose::STANDARD_NO_PAD.decode(text).ok()
}

/// `sha2::Sha256::digest`.
///
/// Trusted: the digest is a function of the bytes and is 32 bytes long.
#[verifier::external_body]
pub(crate) fn sha256(bytes: &[u8]) -> (digest: Vec<u8>)
    ensures
        digest@ == sha256_spec(bytes@),
        digest@.len() == 32,
{
    sha2::Sha256::digest(bytes).to_vec()
}

/// `sha2::Sha512::digest`.
///
/// Trusted: the digest is a function of the bytes and is 64 bytes long.
#[verifier::external_body]
pub(crate) fn sha512(bytes: &[u8]) -> (digest: Vec<u8>)
    ensures
        digest@ == sha512_spec(bytes@),
        digest@.len() == 64,
{
    sha2::Sha512::digest(bytes).to_vec()
}

} // verus!
