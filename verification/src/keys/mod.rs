//! Key management: key pairs, JWK conversion and RFC 7638 thumbprints.

pub mod jwk;
pub mod keypair;

pub use keypair::{
    generate_ed25519_keypair, generate_p256_keypair, generate_p384_keypair, KeyAlgorithm,
    PrivateKey, PublicKey,
};

pub use jwk::{
    calculate_jwk_thumbprint, calculate_jwk_thumbprint_sha512, jwk_to_public_key,
    jwk_to_public_key_checked, private_key_to_jwk, public_key_to_jwk, Jwk,
};
