# aauth

HTTP Message Signatures (RFC 9421) with the `Signature-Key` header, JSON Web
Keys (RFC 7517) with RFC 7638 thumbprints, and the Ed25519 / ECDSA P-256 /
ECDSA P-384 keys used by the AAuth protocol, verified with Verus.

- `src/signing/`: algorithm identifiers, the signature base, and building and
  parsing of the `Signature-Input`, `Signature` and `Signature-Key` headers.
  Each builder's contract states that the matching parser reads its output
  back, under stated conditions: a `Signature-Key` or `Signature-Input` label
  of ASCII letters, digits and `_`, and no `;` in an `x509` scheme's `x5t`;
  `Signature-Input` components without `"` or `)`; a `Signature` label
  without `=` and without whitespace at its ends.
- `src/keys/`: key pairs (signing, verification, generation) and JWK
  conversion and thumbprints.
- `src/text.rs`, `src/decimal.rs`, `src/params.rs`: whitespace trimming and
  searching over characters, decimal `i64` text, and the parameter map.
- `src/codec.rs`, `src/crypto.rs`: the calls into `base64`, `sha2`,
  `ed25519-dalek`, `p256` and `p384`, each with a trusted contract.
- `app/`: JSON conversion of JWKs (serde), JWKS documents, and `HashMap`
  conversions.
