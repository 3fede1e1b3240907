//! HTTP Message Signatures (RFC 9421): algorithms, the signature base and the
//! `Signature-Input`, `Signature` and `Signature-Key` headers.

pub mod algorithms;
pub mod base;
pub mod input;
pub mod key;
pub mod signature;

pub use algorithms::{
    is_supported, ECDSA_P256_SHA256, ECDSA_P384_SHA384, ED25519, REQUIRED_ALGORITHM,
    RSA_PSS_SHA256, RSA_PSS_SHA512, SUPPORTED_ALGORITHMS,
};
pub use signature::{build_signature_header, parse_signature};
pub use input::{build_signature_input_header, parse_signature_input, SignatureInputParams};
pub use key::{build_signature_key_header, parse_signature_key, ParsedSignatureKey, SigScheme};
pub use base::{
    build_signature_base, build_signature_params, calculate_content_digest,
    determine_covered_components, get_header,
};
