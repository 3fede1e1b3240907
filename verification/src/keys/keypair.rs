//! Key pairs: Ed25519 (required by AAuth), ECDSA P-256 and ECDSA P-384.
//!
//! Keys hold their material as bytes. A private key holds its secret (an
//! Ed25519 seed or an ECDSA scalar); a public key holds a compressed Ed25519
//! point, or the affine coordinates of an ECDSA point. Each key keeps, as its
//! type invariant, that the material is of the right length and accepted by
//! the curve's crate.

use crate::crypto::{
    ed25519_generate,
    ed25519_key_valid_spec,
    ed25519_public,
    ed25519_public_spec,
    ed25519_sign,
    ed25519_sign_spec,
    ed25519_verify,
    ed25519_verify_spec,
    p256_der_spec,
    p256_generate,
    p256_parse_der,
    p256_parse_der_spec,
    p256_parse_raw,
    p256_parse_raw_spec,
    p256_point_valid_spec,
    p256_public,
    p256_public_spec,
    p256_secret_valid_spec,
    p256_sign,
    p256_sign_spec,
    p256_to_der,
    p256_verify,
    p256_verify_spec,
    p384_der_spec,
    p384_generate,
    p384_parse_der,
    p384_parse_der_spec,
    p384_parse_raw,
    p384_parse_raw_spec,
    p384_point_valid_spec,
    p384_public,
    p384_public_spec,
    p384_secret_valid_spec,
    p384_sign,
    p384_sign_spec,
    p384_to_der,
    p384_verify,
    p384_verify_spec,
};
use crate::errors::AAuthError;
use vstd::prelude::*;

verus! {

/// The signature algorithm of a key.
#[derive(Debug, Clone, Copy, PartialEq, Eq, Structural)]
pub enum KeyAlgorithm {
    Ed25519,
    P256,
    P384,
}

/// Secret material that the algorithm's crate accepts.
pub open spec fn secret_valid(alg: KeyAlgorithm, secret: Seq<u8>) -> bool {
    match alg {
        KeyAlgorithm::Ed25519 => secret.len() == 32,
        KeyAlgorithm::P256 => secret.len() == 32 && p256_secret_valid_spec(secret),
        KeyAlgorithm::P384 => secret.len() == 48 && p384_secret_valid_spec(secret),
    }
}

/// Public material that the algorithm's crate accepts: for Ed25519 a
/// compressed point in `x` and nothing in `y`; for ECDSA the coordinates.
pub open spec fn public_valid(alg: KeyAlgorithm, x: Seq<u8>, y: Seq<u8>) -> bool {
    match alg {
        KeyAlgorithm::Ed25519 => x.len() == 32 && y.len() == 0 && ed25519_key_valid_spec(x),
        KeyAlgorithm::P256 => x.len() == 32 && y.len() == 32 && p256_point_valid_spec(x, y),
        KeyAlgorithm::P384 => x.len() == 48 && y.len() == 48 && p384_point_valid_spec(x, y),
    }
}

/// The public material `(x, y)` that belongs to a secret.
pub open spec fn public_of(alg: KeyAlgorithm, secret: Seq<u8>) -> (Seq<u8>, Seq<u8>) {
    match alg {
        KeyAlgorithm::Ed25519 => (ed25519_public_spec(secret), Seq::empty()),
        KeyAlgorithm::P256 => (p256_public_spec(secret).take(32), p256_public_spec(secret).skip(32)),
        KeyAlgorithm::P384 => (p384_public_spec(secret).take(48), p384_public_spec(secret).skip(48)),
    }
}

/// The signature that `PrivateKey::sign` makes: Ed25519's 64 bytes, or an
/// ECDSA signature in ASN.1 DER.
pub open spec fn sign_der_spec(alg: KeyAlgorithm, secret: Seq<u8>, message: Seq<u8>) -> Seq<u8> {
    match alg {
        KeyAlgorithm::Ed25519 => ed25519_sign_spec(secret, message),
        KeyAlgorithm::P256 => p256_der_spec(p256_sign_spec(secret, message)),
        KeyAlgorithm::P384 => p384_der_spec(p384_sign_spec(secret, message)),
    }
}

/// The signature that `PrivateKey::sign_p1363` makes: Ed25519's 64 bytes,
/// or an ECDSA signature as `r || s`.
pub open spec fn sign_p1363_spec(alg: KeyAlgorithm, secret: Seq<u8>, message: Seq<u8>) -> Seq<u8> {
    match alg {
        KeyAlgorithm::Ed25519 => ed25519_sign_spec(secret, message),
        KeyAlgorithm::P256 => p256_sign_spec(secret, message),
        KeyAlgorithm::P384 => p384_sign_spec(secret, message),
    }
}

/// The raw ECDSA signature read from `sig`: first as DER, else as `r || s`.
pub open spec fn p256_read_signature(sig: Seq<u8>) -> Option<Seq<u8>> {
    match p256_parse_der_spec(sig) {
        Some(raw) => Some(raw),
        None => p256_parse_raw_spec(sig),
    }
}

/// The raw ECDSA signature read from `sig`: first as DER, else as `r || s`.
pub open spec fn p384_read_signature(sig: Seq<u8>) -> Option<Seq<u8>> {
    match p384_parse_der_spec(sig) {
        Some(raw) => Some(raw),
        None => p384_parse_raw_spec(sig),
    }
}

/// Whether `PublicKey::verify` accepts `sig` over `message`: an Ed25519
/// signature must be 64 bytes; an ECDSA one may be DER or `r || s`.
pub open spec fn verifies(
    alg: KeyAlgorithm,
    x: Seq<u8>,
    y: Seq<u8>,
    sig: Seq<u8>,
    message: Seq<u8>,
) -> bool {
    match alg {
        KeyAlgorithm::Ed25519 => sig.len() == 64 && ed25519_verify_spec(x, message, sig),
        KeyAlgorithm::P256 => match p256_read_signature(sig) {
            Some(raw) => p256_verify_spec(x, y, message, raw),
            None => false,
        },
        KeyAlgorithm::P384 => match p384_read_signature(sig) {
            Some(raw) => p384_verify_spec(x, y, message, raw),
            None => false,
        },
    }
}

/// A private signing key (Ed25519, ECDSA P-256 or ECDSA P-384).
pub struct PrivateKey {
    alg: KeyAlgorithm,
    secret: Vec<u8>,
}

/// A public verification key (Ed25519, ECDSA P-256 or ECDSA P-384).
#[derive(Debug, PartialEq, Eq)]
pub struct PublicKey {
    alg: KeyAlgorithm,
    x: Vec<u8>,
    y: Vec<u8>,
}

impl PrivateKey {
    #[verifier::type_invariant]
    spec fn inv(self) -> bool {
        secret_valid(self.alg, self.secret@)
    }

    pub closed spec fn alg(self) -> KeyAlgorithm {
        self.alg
    }

    pub closed spec fn secret(self) -> Seq<u8> {
        self.secret@
    }

    /// The key's algorithm; its secret is valid for it.
    pub fn algorithm(&self) -> (a: KeyAlgorithm)
        ensures
            a == self.alg(),
            secret_valid(self.alg(), self.secret()),
    {
        proof {
            use_type_invariant(self);
        }
        self.alg
    }

    /// The corresponding public key.
    pub fn public_key(&self) -> (pk: PublicKey)
        ensures
            pk.alg() == self.alg(),
            (pk.x(), pk.y()) == public_of(self.alg(), self.secret()),
            public_valid(pk.alg(), pk.x(), pk.y()),
    {
        proof {
            use_type_invariant(self);
        }
        let s = self.secret.as_slice();
        match self.alg {
            KeyAlgorithm::Ed25519 => {
                PublicKey { alg: KeyAlgorithm::Ed25519, x: ed25519_public(s), y: Vec::new() }
            },
            KeyAlgorithm::P256 => {
                let xy = p256_public(s);
                let x = vstd::slice::slice_to_vec(vstd::slice::slice_subrange(xy.as_slice(), 0, 32));
                let y = vstd::slice::slice_to_vec(vstd::slice::slice_subrange(xy.as_slice(), 32, 64));
                assert(y@ =~= xy@.skip(32));
                assert(x@ =~= xy@.take(32));
                PublicKey { alg: KeyAlgorithm::P256, x, y }
            },
            KeyAlgorithm::P384 => {
                let xy = p384_public(s);
                let x = vstd::slice::slice_to_vec(vstd::slice::slice_subrange(xy.as_slice(), 0, 48));
                let y = vstd::slice::slice_to_vec(vstd::slice::slice_subrange(xy.as_slice(), 48, 96));
                assert(y@ =~= xy@.skip(48));
                assert(x@ =~= xy@.take(48));
                PublicKey { alg: KeyAlgorithm::P384, x, y }
            },
        }
    }

    /// Signs `message`, returning raw signature bytes: 64 bytes for Ed25519,
    /// DER for ECDSA. The matching public key verifies the result.
    pub fn sign(&self, message: &[u8]) -> (sig: Vec<u8>)
        ensures
            sig@ == sign_der_spec(self.alg(), self.secret(), message@),
            self.alg() == KeyAlgorithm::Ed25519 ==> sig@.len() == 64,
            self.alg() == KeyAlgorithm::P256 ==> sig@.len() > 0 && sig@[0] == 0x30
                && p256_parse_der_spec(sig@) == Some(p256_sign_spec(self.secret(), message@)),
            self.alg() == KeyAlgorithm::P384 ==> sig@.len() > 0 && sig@[0] == 0x30
                && p384_parse_der_spec(sig@) == Some(p384_sign_spec(self.secret(), message@)),
            verifies(
                self.alg(),
                public_of(self.alg(), self.secret()).0,
                public_of(self.alg(), self.secret()).1,
                sig@,
                message@,
            ),
    {
        proof {
            use_type_invariant(self);
        }
        let s = self.secret.as_slice();
        match self.alg {
            KeyAlgorithm::Ed25519 => ed25519_sign(s, message),
            KeyAlgorithm::P256 => {
                let raw = p256_sign(s, message);
                p256_to_der(raw.as_slice())
            },
            KeyAlgorithm::P384 => {
                let raw = p384_sign(s, message);
                p384_to_der(raw.as_slice())
            },
        }
    }

    /// Signs `message` with an IEEE P1363 (`r || s`) signature, the form JWS
    /// (RFC 7515) uses for ES256/ES384; for Ed25519 the same as `sign`.
    /// The matching public key verifies the result, unless its bytes
    /// happen to read as DER as well.
    pub fn sign_p1363(&self, message: &[u8]) -> (sig: Vec<u8>)
        ensures
            sig@ == sign_p1363_spec(self.alg(), self.secret(), message@),
            self.alg() == KeyAlgorithm::Ed25519 ==> sig@ == sign_der_spec(
                self.alg(),
                self.secret(),
                message@,
            ) && sig@.len() == 64,
            self.alg() == KeyAlgorithm::P256 ==> sig@.len() == 64,
            self.alg() == KeyAlgorithm::P384 ==> sig@.len() == 96,
            self.alg() == KeyAlgorithm::Ed25519 || (self.alg() == KeyAlgorithm::P256
                && p256_parse_der_spec(sig@) is None) || (self.alg() == KeyAlgorithm::P384
                && p384_parse_der_spec(sig@) is None) ==> verifies(
                self.alg(),
                public_of(self.alg(), self.secret()).0,
                public_of(self.alg(), self.secret()).1,
                sig@,
                message@,
            ),
    {
        proof {
            use_type_invariant(self);
        }
        let s = self.secret.as_slice();
        match self.alg {
            KeyAlgorithm::Ed25519 => ed25519_sign(s, message),
            KeyAlgorithm::P256 => p256_sign(s, message),
            KeyAlgorithm::P384 => p384_sign(s, message),
        }
    }

    /// A description that names the algorithm and leaves out the secret, as
    /// `PrivateKey(Ed25519)`, `PrivateKey(P-256)` or `PrivateKey(P-384)`.
    pub fn describe(&self) -> (text: &'static str)
        ensures
            text@ == match self.alg() {
                KeyAlgorithm::Ed25519 => "PrivateKey(Ed25519)"@,
                KeyAlgorithm::P256 => "PrivateKey(P-256)"@,
                KeyAlgorithm::P384 => "PrivateKey(P-384)"@,
            },
    {
        match self.alg {
            KeyAlgorithm::Ed25519 => "PrivateKey(Ed25519)",
            KeyAlgorithm::P256 => "PrivateKey(P-256)",
            KeyAlgorithm::P384 => "PrivateKey(P-384)",
        }
    }

    /// The JWS algorithm identifier for this key ("EdDSA", "ES256", "ES384").
    pub fn jws_algorithm(&self) -> (name: &'static str)
        ensures
            name@ == match self.alg() {
                KeyAlgorithm::Ed25519 => "EdDSA"@,
                KeyAlgorithm::P256 => "ES256"@,
                KeyAlgorithm::P384 => "ES384"@,
            },
    {
        match self.alg {
            KeyAlgorithm::Ed25519 => "EdDSA",
            KeyAlgorithm::P256 => "ES256",
            KeyAlgorithm::P384 => "ES384",
        }
    }

    /// The RFC 9421 HTTP signature algorithm identifier for this key.
    pub fn http_sig_algorithm(&self) -> (name: &'static str)
        ensures
            name@ == match self.alg() {
                KeyAlgorithm::Ed25519 => crate::signing::algorithms::ED25519@,
                KeyAlgorithm::P256 => crate::signing::algorithms::ECDSA_P256_SHA256@,
                KeyAlgorithm::P384 => crate::signing::algorithms::ECDSA_P384_SHA384@,
            },
    {
        match self.alg {
            KeyAlgorithm::Ed25519 => crate::signing::algorithms::ED25519,
            KeyAlgorithm::P256 => crate::signing::algorithms::ECDSA_P256_SHA256,
            KeyAlgorithm::P384 => crate::signing::algorithms::ECDSA_P384_SHA384,
        }
    }
}

impl PublicKey {
    #[verifier::type_invariant]
    spec fn inv(self) -> bool {
        public_valid(self.alg, self.x@, self.y@)
    }

    pub closed spec fn alg(self) -> KeyAlgorithm {
        self.alg
    }

    /// The compressed Ed25519 point, or the ECDSA `x` coordinate.
    pub closed spec fn x(self) -> Seq<u8> {
        self.x@
    }

    /// Empty for Ed25519, the ECDSA `y` coordinate otherwise.
    pub closed spec fn y(self) -> Seq<u8> {
        self.y@
    }

    /// A key from its material, when the algorithm's crate accepts it.
    pub(crate) fn from_parts(alg: KeyAlgorithm, x: Vec<u8>, y: Vec<u8>) -> (pk: PublicKey)
        requires
            public_valid(alg, x@, y@),
        ensures
            pk.alg() == alg,
            pk.x() == x@,
            pk.y() == y@,
    {
        PublicKey { alg, x, y }
    }

    /// The key's algorithm; its material is valid for it.
    pub fn algorithm(&self) -> (a: KeyAlgorithm)
        ensures
            a == self.alg(),
            public_valid(self.alg(), self.x(), self.y()),
    {
        proof {
            use_type_invariant(self);
        }
        self.alg
    }

    /// The compressed Ed25519 point, or the ECDSA `x` coordinate.
    pub fn x_bytes(&self) -> (x: &[u8])
        ensures
            x@ == self.x(),
    {
        self.x.as_slice()
    }

    /// Empty for Ed25519, the ECDSA `y` coordinate otherwise.
    pub fn y_bytes(&self) -> (y: &[u8])
        ensures
            y@ == self.y(),
    {
        self.y.as_slice()
    }

    /// Verifies `signature` over `message`. ECDSA signatures are accepted in
    /// DER and in IEEE P1363 (`r || s`) form.
    pub fn verify(&self, signature: &[u8], message: &[u8]) -> (r: Result<(), AAuthError>)
        ensures
            r is Ok <==> verifies(self.alg(), self.x(), self.y(), signature@, message@),
            r matches Err(e) ==> e->Signature_0@ == "signature verification failed"@,
    {
        proof {
            use_type_invariant(self);
        }
        let ok = match self.alg {
            KeyAlgorithm::Ed25519 => {
                signature.len() == 64 && ed25519_verify(self.x.as_slice(), message, signature)
            },
            KeyAlgorithm::P256 => {
                let raw = match p256_parse_der(signature) {
                    Some(raw) => Some(raw),
                    None => p256_parse_raw(signature),
                };
                match raw {
                    Some(raw) => p256_verify(
                        self.x.as_slice(),
                        self.y.as_slice(),
                        message,
                        raw.as_slice(),
                    ),
                    None => false,
                }
            },
            KeyAlgorithm::P384 => {
                let raw = match p384_parse_der(signature) {
                    Some(raw) => Some(raw),
                    None => p384_parse_raw(signature),
                };
                match raw {
                    Some(raw) => p384_verify(
                        self.x.as_slice(),
                        self.y.as_slice(),
                        message,
                        raw.as_slice(),
                    ),
                    None => false,
                }
            },
        };
        if ok {
            Ok(())
        } else {
            Err(AAuthError::signature("signature verification failed"))
        }
    }
}

impl Clone for PrivateKey {
    fn clone(&self) -> (k: PrivateKey)
        ensures
            k.alg() == self.alg(),
            k.secret() == self.secret(),
    {
        proof {
            use_type_invariant(self);
        }
        PrivateKey { alg: self.alg, secret: vstd::slice::slice_to_vec(self.secret.as_slice()) }
    }
}

impl Clone for PublicKey {
    fn clone(&self) -> (k: PublicKey)
        ensures
            k.alg() == self.alg(),
            k.x() == self.x(),
            k.y() == self.y(),
    {
        proof {
            use_type_invariant(self);
        }
        PublicKey {
            alg: self.alg,
            x: vstd::slice::slice_to_vec(self.x.as_slice()),
            y: vstd::slice::slice_to_vec(self.y.as_slice()),
        }
    }
}

/// Generates a new Ed25519 key pair from the operating system's randomness.
pub fn generate_ed25519_keypair() -> (keys: (PrivateKey, PublicKey))
    ensures
        keys.0.alg() == KeyAlgorithm::Ed25519,
        keys.1.alg() == KeyAlgorithm::Ed25519,
        (keys.1.x(), keys.1.y()) == public_of(keys.0.alg(), keys.0.secret()),
{
    let sk = PrivateKey { alg: KeyAlgorithm::Ed25519, secret: ed25519_generate() };
    let pk = sk.public_key();
    (sk, pk)
}

/// Generates a new ECDSA P-256 key pair from the operating system's randomness.
pub fn generate_p256_keypair() -> (keys: (PrivateKey, PublicKey))
    ensures
        keys.0.alg() == KeyAlgorithm::P256,
        keys.1.alg() == KeyAlgorithm::P256,
        (keys.1.x(), keys.1.y()) == public_of(keys.0.alg(), keys.0.secret()),
{
    let sk = PrivateKey { alg: KeyAlgorithm::P256, secret: p256_generate() };
    let pk = sk.public_key();
    (sk, pk)
}

/// Generates a new ECDSA P-384 key pair from the operating system's randomness.
pub fn generate_p384_keypair() -> (keys: (PrivateKey, PublicKey))
    ensures
        keys.0.alg() == KeyAlgorithm::P384,
        keys.1.alg() == KeyAlgorithm::P384,
        (keys.1.x(), keys.1.y()) == public_of(keys.0.alg(), keys.0.secret()),
{
    let sk = PrivateKey { alg: KeyAlgorithm::P384, secret: p384_generate() };
    let pk = sk.public_key();
    (sk, pk)
}

} // verus!
