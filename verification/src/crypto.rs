//! Ed25519 (from `ed25519_dalek`) and ECDSA over P-256 / P-384 (from `p256`
//! and `p384`).
//!
//! Keys and signatures cross this boundary as plain bytes: Ed25519 secret
//! seeds and compressed public keys of 32 bytes; ECDSA secret scalars and
//! affine coordinates of one field element each (32 or 48 bytes); ECDSA
//! signatures as `r || s` ("raw", IEEE P1363) or ASN.1 DER. Each function here
//! makes one call into its crate and its contract is trusted. What these
//! algorithms compute is given a name, a spec function without a body.

use p256::elliptic_curve::sec1::{FromEncodedPoint as _, ToEncodedPoint as _};
use vstd::prelude::*;

verus! {

/// The compressed Ed25519 public key of a 32-byte secret seed.
pub uninterp spec fn ed25519_public_spec(secret: Seq<u8>) -> Seq<u8>;

/// Whether 32 bytes decompress to an Ed25519 point (`VerifyingKey::from_bytes` succeeds).
pub uninterp spec fn ed25519_key_valid_spec(public: Seq<u8>) -> bool;

/// The 64-byte Ed25519 signature of a message under a 32-byte secret seed.
pub uninterp spec fn ed25519_sign_spec(secret: Seq<u8>, message: Seq<u8>) -> Seq<u8>;

/// Whether `VerifyingKey::verify` accepts a 64-byte signature of a message.
pub uninterp spec fn ed25519_verify_spec(
    public: Seq<u8>,
    message: Seq<u8>,
    signature: Seq<u8>,
) -> bool;

/// A fresh random Ed25519 secret seed (`SigningKey::generate` with the OS RNG).
///
/// Trusted: the seed is 32 bytes long. Nothing else is said of it.
#[verifier::external_body]
pub(crate) fn ed25519_generate() -> (secret: Vec<u8>)
    ensures
        secret@.len() == 32,
{
    ed25519_dalek::SigningKey::generate(&mut rand_core::OsRng).to_bytes().to_vec()
}

/// `SigningKey::verifying_key` of the key with this seed.
///
/// Trusted: the public key is a function of the seed, 32 bytes long, and
/// decompresses (it is the encoding of a curve point).
#[verifier::external_body]
pub(crate) fn ed25519_public(secret: &[u8]) -> (public: Vec<u8>)
    requires
        secret@.len() == 32,
    ensures
        public@ == ed25519_public_spec(secret@),
        public@.len() == 32,
        ed25519_key_valid_spec(public@),
{
    let seed: [u8; 32] = secret.try_into().unwrap();
    ed25519_dalek::SigningKey::from_bytes(&seed).verifying_key().to_bytes().to_vec()
}

/// The error `ed25519_dalek` reports for a key or signature it refuses.
#[verifier::external_type_specification]
#[verifier::external_body]
pub struct ExSignatureError(ed25519_dalek::SignatureError);

/// `VerifyingKey::from_bytes`, keeping only whether it succeeds and its error.
///
/// Trusted: success is a function of the bytes. Nothing is said of the error.
#[verifier::external_body]
pub(crate) fn ed25519_check_key(public: &[u8]) -> (valid: Result<(), ed25519_dalek::SignatureError>)
    requires
        public@.len() == 32,
    ensures
        valid is Ok == ed25519_key_valid_spec(public@),
{
    let bytes: [u8; 32] = public.try_into().unwrap();
    match ed25519_dalek::VerifyingKey::from_bytes(&bytes) {
        Ok(_) => Ok(()),
        Err(e) => Err(e),
    }
}

/// The text of a `SignatureError` (its `Display`).
///
/// Trusted: nothing is said of the text.
#[verifier::external_body]
pub(crate) fn signature_error_text(error: &ed25519_dalek::SignatureError) -> String {
    error.to_string()
}

/// `Signer::sign` with the key of this seed.
///
/// Trusted: the signature is a function of seed and message (Ed25519 is
/// deterministic), is 64 bytes long, and the public key of the same seed
/// verifies it.
#[verifier::external_body]
pub(crate) fn ed25519_sign(secret: &[u8], message: &[u8]) -> (signature: Vec<u8>)
    requires
        secret@.len() == 32,
    ensures
        signature@ == ed25519_sign_spec(secret@, message@),
        signature@.len() == 64,
        ed25519_verify_spec(ed25519_public_spec(secret@), message@, signature@),
{
    let seed: [u8; 32] = secret.try_into().unwrap();
    let key = ed25519_dalek::SigningKey::from_bytes(&seed);
    ed25519_dalek::Signer::sign(&key, message).to_bytes().to_vec()
}

/// `Verifier::verify` of a 64-byte signature under a valid public key.
///
/// Trusted: the answer is a function of key, message and signature.
#[verifier::external_body]
pub(crate) fn ed25519_verify(public: &[u8], message: &[u8], signature: &[u8]) -> (ok: bool)
    requires
        public@.len() == 32,
        ed25519_key_valid_spec(public@),
        signature@.len() == 64,
    ensures
        ok == ed25519_verify_spec(public@, message@, signature@),
{
    let bytes: [u8; 32] = public.try_into().unwrap();
    let key = ed25519_dalek::VerifyingKey::from_bytes(&bytes).unwrap();
    let sig = ed25519_dalek::Signature::from_slice(signature).unwrap();
    ed25519_dalek::Verifier::verify(&key, message, &sig).is_ok()
}

/// Whether 32 bytes are a valid P256 secret scalar (`SigningKey::from_bytes` succeeds).
pub uninterp spec fn p256_secret_valid_spec(secret: Seq<u8>) -> bool;

/// The affine coordinates `x || y` of the P256 public key of a secret scalar.
pub uninterp spec fn p256_public_spec(secret: Seq<u8>) -> Seq<u8>;

/// Whether affine coordinates are a point of the curve
/// (`PublicKey::from_encoded_point` of the uncompressed encoding gives a key).
pub uninterp spec fn p256_point_valid_spec(x: Seq<u8>, y: Seq<u8>) -> bool;

/// The raw `r || s` ECDSA signature (RFC 6979 nonces) of a message under a secret scalar.
pub uninterp spec fn p256_sign_spec(secret: Seq<u8>, message: Seq<u8>) -> Seq<u8>;

/// The ASN.1 DER encoding of a raw ECDSA signature (`Signature::to_der`).
pub uninterp spec fn p256_der_spec(raw: Seq<u8>) -> Seq<u8>;

/// The raw form of a DER-encoded signature (`Signature::from_der`), `None` on an error.
pub uninterp spec fn p256_parse_der_spec(der: Seq<u8>) -> Option<Seq<u8>>;

/// The raw form of a raw signature (`Signature::from_slice`), `None` on an error.
pub uninterp spec fn p256_parse_raw_spec(raw: Seq<u8>) -> Option<Seq<u8>>;

/// Whether `Verifier::verify` accepts a raw signature of a message under the key at `x, y`.
pub uninterp spec fn p256_verify_spec(x: Seq<u8>, y: Seq<u8>, message: Seq<u8>, raw: Seq<u8>) -> bool;

/// A fresh random P256 secret scalar (`SigningKey::random` with the OS RNG).
///
/// Trusted: the scalar is 32 bytes long and `SigningKey::from_bytes` accepts
/// it back. Nothing else is said of it.
#[verifier::external_body]
pub(crate) fn p256_generate() -> (secret: Vec<u8>)
    ensures
        secret@.len() == 32,
        p256_secret_valid_spec(secret@),
{
    p256::ecdsa::SigningKey::random(&mut rand_core::OsRng).to_bytes().to_vec()
}

/// `SigningKey::verifying_key` of this scalar, as uncompressed affine coordinates.
///
/// Trusted: the coordinates are a function of the scalar, 64 bytes long
/// (`x` then `y`), and are a point of the curve.
#[verifier::external_body]
pub(crate) fn p256_public(secret: &[u8]) -> (xy: Vec<u8>)
    requires
        secret@.len() == 32,
        p256_secret_valid_spec(secret@),
    ensures
        xy@ == p256_public_spec(secret@),
        xy@.len() == 64,
        p256_point_valid_spec(xy@.take(32), xy@.skip(32)),
{
    let key = p256::ecdsa::SigningKey::from_bytes(p256::FieldBytes::from_slice(secret)).unwrap();
    let point = key.verifying_key().to_encoded_point(false);
    [point.x().unwrap().as_slice(), point.y().unwrap().as_slice()].concat()
}

/// `PublicKey::from_encoded_point` of the uncompressed point `x, y`, whether it is `Some`.
///
/// Trusted: the answer is a function of the coordinates.
#[verifier::external_body]
pub(crate) fn p256_check_point(x: &[u8], y: &[u8]) -> (valid: bool)
    requires
        x@.len() == 32,
        y@.len() == 32,
    ensures
        valid == p256_point_valid_spec(x@, y@),
{
    let point = p256::EncodedPoint::from_affine_coordinates(x.into(), y.into(), false);
    bool::from(p256::PublicKey::from_encoded_point(&point).is_some())
}

/// `Signer::sign` with this scalar, as the raw `r || s` bytes (`Signature::to_bytes`).
///
/// Trusted: the signature is a function of scalar and message (RFC 6979), is
/// 64 bytes long, `Signature::from_slice` accepts it unchanged, and the key
/// of the same scalar verifies it.
#[verifier::external_body]
pub(crate) fn p256_sign(secret: &[u8], message: &[u8]) -> (raw: Vec<u8>)
    requires
        secret@.len() == 32,
        p256_secret_valid_spec(secret@),
    ensures
        raw@ == p256_sign_spec(secret@, message@),
        raw@.len() == 64,
        p256_parse_raw_spec(raw@) == Some(raw@),
        p256_verify_spec(
            p256_public_spec(secret@).take(32),
            p256_public_spec(secret@).skip(32),
            message@,
            raw@,
        ),
{
    let key = p256::ecdsa::SigningKey::from_bytes(p256::FieldBytes::from_slice(secret)).unwrap();
    let sig: p256::ecdsa::Signature = p256::ecdsa::signature::Signer::sign(&key, message);
    sig.to_bytes().to_vec()
}

/// `Signature::to_der` of a raw signature.
///
/// Trusted: the encoding is a function of the signature, is an ASN.1
/// SEQUENCE (its first byte is 0x30), and `Signature::from_der` reads the
/// same signature back from it.
#[verifier::external_body]
pub(crate) fn p256_to_der(raw: &[u8]) -> (der: Vec<u8>)
    requires
        p256_parse_raw_spec(raw@) == Some(raw@),
    ensures
        der@ == p256_der_spec(raw@),
        der@.len() > 0 && der@[0] == 0x30,
        p256_parse_der_spec(der@) == Some(raw@),
{
    p256::ecdsa::Signature::from_slice(raw).unwrap().to_der().as_bytes().to_vec()
}

/// `Signature::from_der`, as raw bytes (`Signature::to_bytes`), `None` on an error.
///
/// Trusted: the result is a function of the input, and a raw signature read
/// from DER is accepted unchanged by `Signature::from_slice`.
#[verifier::external_body]
pub(crate) fn p256_parse_der(der: &[u8]) -> (raw: Option<Vec<u8>>)
    ensures
        match raw {
            Some(r) => p256_parse_der_spec(der@) == Some(r@) && p256_parse_raw_spec(r@) == Some(r@),
            None => p256_parse_der_spec(der@) is None,
        },
{
    match p256::ecdsa::Signature::from_der(der) {
        Ok(sig) => Some(sig.to_bytes().to_vec()),
        Err(_) => None,
    }
}

/// `Signature::from_slice`, as raw bytes (`Signature::to_bytes`), `None` on an error.
///
/// Trusted: the result is a function of the input, and when there is one it
/// is the input itself (the scalars are kept as they were read).
#[verifier::external_body]
pub(crate) fn p256_parse_raw(bytes: &[u8]) -> (raw: Option<Vec<u8>>)
    ensures
        match raw {
            Some(r) => p256_parse_raw_spec(bytes@) == Some(r@) && r@ == bytes@,
            None => p256_parse_raw_spec(bytes@) is None,
        },
{
    match p256::ecdsa::Signature::from_slice(bytes) {
        Ok(sig) => Some(sig.to_bytes().to_vec()),
        Err(_) => None,
    }
}

/// `Verifier::verify` of a raw signature under the key at `x, y`.
///
/// Trusted: the answer is a function of key, message and signature.
#[verifier::external_body]
pub(crate) fn p256_verify(x: &[u8], y: &[u8], message: &[u8], raw: &[u8]) -> (ok: bool)
    requires
        x@.len() == 32,
        y@.len() == 32,
        p256_point_valid_spec(x@, y@),
        p256_parse_raw_spec(raw@) == Some(raw@),
    ensures
        ok == p256_verify_spec(x@, y@, message@, raw@),
{
    let point = p256::EncodedPoint::from_affine_coordinates(x.into(), y.into(), false);
    let key: p256::PublicKey = Option::from(p256::PublicKey::from_encoded_point(&point)).unwrap();
    let sig = p256::ecdsa::Signature::from_slice(raw).unwrap();
    p256::ecdsa::signature::Verifier::verify(&p256::ecdsa::VerifyingKey::from(key), message, &sig).is_ok()
}

/// Whether 48 bytes are a valid P384 secret scalar (`SigningKey::from_bytes` succeeds).
pub uninterp spec fn p384_secret_valid_spec(secret: Seq<u8>) -> bool;

/// The affine coordinates `x || y` of the P384 public key of a secret scalar.
pub uninterp spec fn p384_public_spec(secret: Seq<u8>) -> Seq<u8>;

/// Whether affine coordinates are a point of the curve
/// (`PublicKey::from_encoded_point` of the uncompressed encoding gives a key).
pub uninterp spec fn p384_point_valid_spec(x: Seq<u8>, y: Seq<u8>) -> bool;

/// The raw `r || s` ECDSA signature (RFC 6979 nonces) of a message under a secret scalar.
pub uninterp spec fn p384_sign_spec(secret: Seq<u8>, message: Seq<u8>) -> Seq<u8>;

/// The ASN.1 DER encoding of a raw ECDSA signature (`Signature::to_der`).
pub uninterp spec fn p384_der_spec(raw: Seq<u8>) -> Seq<u8>;

/// The raw form of a DER-encoded signature (`Signature::from_der`), `None` on an error.
pub uninterp spec fn p384_parse_der_spec(der: Seq<u8>) -> Option<Seq<u8>>;

/// The raw form of a raw signature (`Signature::from_slice`), `None` on an error.
pub uninterp spec fn p384_parse_raw_spec(raw: Seq<u8>) -> Option<Seq<u8>>;

/// Whether `Verifier::verify` accepts a raw signature of a message under the key at `x, y`.
pub uninterp spec fn p384_verify_spec(x: Seq<u8>, y: Seq<u8>, message: Seq<u8>, raw: Seq<u8>) -> bool;

/// A fresh random P384 secret scalar (`SigningKey::random` with the OS RNG).
///
/// Trusted: the scalar is 48 bytes long and `SigningKey::from_bytes` accepts
/// it back. Nothing else is said of it.
#[verifier::external_body]
pub(crate) fn p384_generate() -> (secret: Vec<u8>)
    ensures
        secret@.len() == 48,
        p384_secret_valid_spec(secret@),
{
    p384::ecdsa::SigningKey::random(&mut rand_core::OsRng).to_bytes().to_vec()
}

/// `SigningKey::verifying_key` of this scalar, as uncompressed affine coordinates.
///
/// Trusted: the coordinates are a function of the scalar, 96 bytes long
/// (`x` then `y`), and are a point of the curve.
#[verifier::external_body]
pub(crate) fn p384_public(secret: &[u8]) -> (xy: Vec<u8>)
    requires
        secret@.len() == 48,
        p384_secret_valid_spec(secret@),
    ensures
        xy@ == p384_public_spec(secret@),
        xy@.len() == 96,
        p384_point_valid_spec(xy@.take(48), xy@.skip(48)),
{
    let key = p384::ecdsa::SigningKey::from_bytes(p384::FieldBytes::from_slice(secret)).unwrap();
    let point = key.verifying_key().to_encoded_point(false);
    [point.x().unwrap().as_slice(), point.y().unwrap().as_slice()].concat()
}

/// `PublicKey::from_encoded_point` of the uncompressed point `x, y`, whether it is `Some`.
///
/// Trusted: the answer is a function of the coordinates.
#[verifier::external_body]
pub(crate) fn p384_check_point(x: &[u8], y: &[u8]) -> (valid: bool)
    requires
        x@.len() == 48,
        y@.len() == 48,
    ensures
        valid == p384_point_valid_spec(x@, y@),
{
    let point = p384::EncodedPoint::from_affine_coordinates(x.into(), y.into(), false);
    bool::from(p384::PublicKey::from_encoded_point(&point).is_some())
}

/// `Signer::sign` with this scalar, as the raw `r || s` bytes (`Signature::to_bytes`).
///
/// Trusted: the signature is a function of scalar and message (RFC 6979), is
/// 96 bytes long, `Signature::from_slice` accepts it unchanged, and the key
/// of the same scalar verifies it.
#[verifier::external_body]
pub(crate) fn p384_sign(secret: &[u8], message: &[u8]) -> (raw: Vec<u8>)
    requires
        secret@.len() == 48,
        p384_secret_valid_spec(secret@),
    ensures
        raw@ == p384_sign_spec(secret@, message@),
        raw@.len() == 96,
        p384_parse_raw_spec(raw@) == Some(raw@),
        p384_verify_spec(
            p384_public_spec(secret@).take(48),
            p384_public_spec(secret@).skip(48),
            message@,
            raw@,
        ),
{
    let key = p384::ecdsa::SigningKey::from_bytes(p384::FieldBytes::from_slice(secret)).unwrap();
    let sig: p384::ecdsa::Signature = p384::ecdsa::signature::Signer::sign(&key, message);
    sig.to_bytes().to_vec()
}

/// `Signature::to_der` of a raw signature.
///
/// Trusted: the encoding is a function of the signature, is an ASN.1
/// SEQUENCE (its first byte is 0x30), and `Signature::from_der` reads the
/// same signature back from it.
#[verifier::external_body]
pub(crate) fn p384_to_der(raw: &[u8]) -> (der: Vec<u8>)
    requires
        p384_parse_raw_spec(raw@) == Some(raw@),
    ensures
        der@ == p384_der_spec(raw@),
        der@.len() > 0 && der@[0] == 0x30,
        p384_parse_der_spec(der@) == Some(raw@),
{
    p384::ecdsa::Signature::from_slice(raw).unwrap().to_der().as_bytes().to_vec()
}

/// `Signature::from_der`, as raw bytes (`Signature::to_bytes`), `None` on an error.
///
/// Trusted: the result is a function of the input, and a raw signature read
/// from DER is accepted unchanged by `Signature::from_slice`.
#[verifier::external_body]
pub(crate) fn p384_parse_der(der: &[u8]) -> (raw: Option<Vec<u8>>)
    ensures
        match raw {
            Some(r) => p384_parse_der_spec(der@) == Some(r@) && p384_parse_raw_spec(r@) == Some(r@),
            None => p384_parse_der_spec(der@) is None,
        },
{
    match p384::ecdsa::Signature::from_der(der) {
        Ok(sig) => Some(sig.to_bytes().to_vec()),
        Err(_) => None,
    }
}

/// `Signature::from_slice`, as raw bytes (`Signature::to_bytes`), `None` on an error.
///
/// Trusted: the result is a function of the input, and when there is one it
/// is the input itself (the scalars are kept as they were read).
#[verifier::external_body]
pub(crate) fn p384_parse_raw(bytes: &[u8]) -> (raw: Option<Vec<u8>>)
    ensures
        match raw {
            Some(r) => p384_parse_raw_spec(bytes@) == Some(r@) && r@ == bytes@,
            None => p384_parse_raw_spec(bytes@) is None,
        },
{
    match p384::ecdsa::Signature::from_slice(bytes) {
        Ok(sig) => Some(sig.to_bytes().to_vec()),
        Err(_) => None,
    }
}

/// `Verifier::verify` of a raw signature under the key at `x, y`.
///
/// Trusted: the answer is a function of key, message and signature.
#[verifier::external_body]
pub(crate) fn p384_verify(x: &[u8], y: &[u8], message: &[u8], raw: &[u8]) -> (ok: bool)
    requires
        x@.len() == 48,
        y@.len() == 48,
        p384_point_valid_spec(x@, y@),
        p384_parse_raw_spec(raw@) == Some(raw@),
    ensures
        ok == p384_verify_spec(x@, y@, message@, raw@),
{
    let point = p384::EncodedPoint::from_affine_coordinates(x.into(), y.into(), false);
    let key: p384::PublicKey = Option::from(p384::PublicKey::from_encoded_point(&point)).unwrap();
    let sig = p384::ecdsa::Signature::from_slice(raw).unwrap();
    p384::ecdsa::signature::Verifier::verify(&p384::ecdsa::VerifyingKey::from(key), message, &sig).is_ok()
}

} // verus!
