//! HTTP Message Signatures (RFC 9421) with the `Signature-Key` header,
//! JSON Web Keys and the key material used by the AAuth protocol.

pub mod text;
pub mod decimal;
pub mod codec;
pub mod crypto;
pub mod errors;
pub mod params;
pub mod keys;
pub mod signing;
