//! JSON Web Keys (RFC 7517) and their RFC 7638 thumbprints.

use crate::codec::{
    b64url_decode, decode_error_text, is_b64url_char, b64url_decode_spec, b64url_encode, b64url_encode_spec, sha256, sha256_spec,
    sha512, sha512_spec,
};
use crate::crypto::{
    ed25519_check_key, ed25519_key_valid_spec, signature_error_text, p256_check_point, p256_point_valid_spec,
    p384_check_point, p384_point_valid_spec,
};
use crate::errors::AAuthError;
use crate::keys::keypair::{KeyAlgorithm, PrivateKey, PublicKey};
use crate::text::{debug_option, debug_text};
use vstd::prelude::*;

verus! {

/// A JSON Web Key (RFC 7517), covering the members AAuth uses.
#[derive(Debug, Clone, PartialEq, Eq)]
pub struct Jwk {
    pub kty: String,
    pub crv: Option<String>,
    pub x: Option<String>,
    pub y: Option<String>,
    /// RSA modulus (for thumbprints only; RSA keys cannot sign or verify here).
    pub n: Option<String>,
    /// RSA exponent (for thumbprints only).
    pub e: Option<String>,
    pub kid: Option<String>,
    pub alg: Option<String>,
    pub use_: Option<String>,
}

/// The text of an optional member.
pub open spec fn ov(o: Option<String>) -> Option<Seq<char>> {
    match o {
        Some(s) => Some(s@),
        None => None,
    }
}

/// The bytes of an optional base64url member: `None` when it is missing or
/// does not decode.
pub open spec fn decoded(o: Option<String>) -> Option<Seq<u8>> {
    match o {
        Some(s) => b64url_decode_spec(s@),
        None => None,
    }
}

/// Equal key material (kty, crv, x, y, n, e), whatever kid, alg and use hold.
pub open spec fn same_material(a: Jwk, b: Jwk) -> bool {
    &&& a.kty@ == b.kty@
    &&& ov(a.crv) == ov(b.crv)
    &&& ov(a.x) == ov(b.x)
    &&& ov(a.y) == ov(b.y)
    &&& ov(a.n) == ov(b.n)
    &&& ov(a.e) == ov(b.e)
}

/// The key that a JWK describes, `None` where `jwk_to_public_key` fails:
/// an OKP key must be Ed25519 with a 32-byte `x` that decompresses; an EC key
/// needs `x` and `y` and a supported curve, and the point must lie on it.
pub open spec fn jwk_key_spec(jwk: Jwk) -> Option<(KeyAlgorithm, Seq<u8>, Seq<u8>)> {
    if jwk.kty@ == "OKP"@ {
        if ov(jwk.crv) == Some("Ed25519"@) {
            match decoded(jwk.x) {
                Some(x) => if x.len() == 32 && ed25519_key_valid_spec(x) {
                    Some((KeyAlgorithm::Ed25519, x, Seq::empty()))
                } else {
                    None
                },
                None => None,
            }
        } else {
            None
        }
    } else if jwk.kty@ == "EC"@ {
        match (decoded(jwk.x), decoded(jwk.y)) {
            (Some(x), Some(y)) => if ov(jwk.crv) == Some("P-256"@) {
                if p256_point_valid_spec(x, y) {
                    Some((KeyAlgorithm::P256, x, y))
                } else {
                    None
                }
            } else if ov(jwk.crv) == Some("P-384"@) {
                if p384_point_valid_spec(x, y) {
                    Some((KeyAlgorithm::P384, x, y))
                } else {
                    None
                }
            } else {
                None
            },
            _ => None,
        }
    } else {
        None
    }
}

/// The JWKs on which `jwk_to_public_key` is defined: for an EC key on a
/// supported curve whose coordinates decode, they are one field element long.
pub open spec fn coordinates_fit(jwk: Jwk) -> bool {
    jwk.kty@ == "EC"@ ==> match (decoded(jwk.x), decoded(jwk.y)) {
        (Some(x), Some(y)) => (ov(jwk.crv) == Some("P-256"@) ==> x.len() == 32 && y.len() == 32)
            && (ov(jwk.crv) == Some("P-384"@) ==> x.len() == 48 && y.len() == 48),
        _ => true,
    }
}

/// The JWK key type of an algorithm.
pub open spec fn kty_name(alg: KeyAlgorithm) -> Seq<char> {
    if alg == KeyAlgorithm::Ed25519 {
        "OKP"@
    } else {
        "EC"@
    }
}

/// The JWK curve name of an algorithm.
pub open spec fn crv_name(alg: KeyAlgorithm) -> Seq<char> {
    match alg {
        KeyAlgorithm::Ed25519 => "Ed25519"@,
        KeyAlgorithm::P256 => "P-256"@,
        KeyAlgorithm::P384 => "P-384"@,
    }
}

/// The JWK of a public key, with the key id `kid`.
pub open spec fn jwk_of(jwk: Jwk, alg: KeyAlgorithm, x: Seq<u8>, y: Seq<u8>, kid: Option<Seq<char>>) -> bool {
    &&& jwk.kty@ == kty_name(alg)
    &&& ov(jwk.crv) == Some(crv_name(alg))
    &&& ov(jwk.x) == Some(b64url_encode_spec(x))
    &&& ov(jwk.y) == (if alg == KeyAlgorithm::Ed25519 {
        None
    } else {
        Some(b64url_encode_spec(y))
    })
    &&& jwk.n is None
    &&& jwk.e is None
    &&& ov(jwk.kid) == kid
    &&& jwk.alg is None
    &&& jwk.use_ is None
}

/// The RFC 7638 section 3.2 canonical JSON of a JWK: only the required
/// members, in lexicographic order, without whitespace. `None` when one is
/// missing or the key type is not OKP, EC or RSA.
pub open spec fn canonical_spec(jwk: Jwk) -> Option<Seq<char>> {
    if jwk.kty@ == "OKP"@ {
        match (ov(jwk.crv), ov(jwk.x)) {
            (Some(crv), Some(x)) => Some(
                "{\"crv\":\""@ + crv + "\",\"kty\":\"OKP\",\"x\":\""@ + x + "\"}"@,
            ),
            _ => None,
        }
    } else if jwk.kty@ == "EC"@ {
        match (ov(jwk.crv), ov(jwk.x), ov(jwk.y)) {
            (Some(crv), Some(x), Some(y)) => Some(
                "{\"crv\":\""@ + crv + "\",\"kty\":\"EC\",\"x\":\""@ + x + "\",\"y\":\""@ + y
                    + "\"}"@,
            ),
            _ => None,
        }
    } else if jwk.kty@ == "RSA"@ {
        match (ov(jwk.e), ov(jwk.n)) {
            (Some(e), Some(n)) => Some(
                "{\"e\":\""@ + e + "\",\"kty\":\"RSA\",\"n\":\""@ + n + "\"}"@,
            ),
            _ => None,
        }
    } else {
        None
    }
}

/// The SHA-256 thumbprint of a JWK (base64url, no padding).
pub open spec fn thumbprint_spec(jwk: Jwk) -> Option<Seq<char>> {
    match canonical_spec(jwk) {
        Some(c) => Some(b64url_encode_spec(sha256_spec(vstd::utf8::encode_utf8(c)))),
        None => None,
    }
}

/// The SHA-512 thumbprint of a JWK (base64url, no padding).
pub open spec fn thumbprint_sha512_spec(jwk: Jwk) -> Option<Seq<char>> {
    match canonical_spec(jwk) {
        Some(c) => Some(b64url_encode_spec(sha512_spec(vstd::utf8::encode_utf8(c)))),
        None => None,
    }
}

fn opt_eq(a: &Option<String>, b: &Option<String>) -> (r: bool)
    ensures
        r == (ov(*a) == ov(*b)),
{
    match (a, b) {
        (Some(a), Some(b)) => *a == *b,
        (None, None) => true,
        _ => false,
    }
}

fn opt_is(a: &Option<String>, text: &str) -> (r: bool)
    ensures
        r == (ov(*a) == Some(text@)),
{
    match a {
        Some(a) => *a == text.to_owned(),
        None => false,
    }
}

impl Default for Jwk {
    fn default() -> (jwk: Jwk)
        ensures
            jwk.kty@ == Seq::<char>::empty(),
            jwk.crv is None && jwk.x is None && jwk.y is None && jwk.n is None,
            jwk.e is None && jwk.kid is None && jwk.alg is None && jwk.use_ is None,
    {
        Jwk {
            kty: String::new(),
            crv: None,
            x: None,
            y: None,
            n: None,
            e: None,
            kid: None,
            alg: None,
            use_: None,
        }
    }
}

impl Jwk {
    /// Converts to a [`PublicKey`]; fails for unsupported or invalid keys.
    pub fn to_public_key(&self) -> (r: Result<PublicKey, AAuthError>)
        requires
            coordinates_fit(*self),
        ensures
            match r {
                Ok(pk) => jwk_key_spec(*self) == Some((pk.alg(), pk.x(), pk.y())),
                Err(_) => jwk_key_spec(*self) is None,
            },
    {
        jwk_to_public_key(self)
    }

    /// The RFC 7638 SHA-256 thumbprint (base64url, no padding).
    pub fn thumbprint(&self) -> (r: Result<String, AAuthError>)
        ensures
            match r {
                Ok(t) => thumbprint_spec(*self) == Some(t@),
                Err(_) => thumbprint_spec(*self) is None,
            },
            r matches Ok(t) ==> t@.len() == 43 && forall|i: int|
                0 <= i < t@.len() ==> is_b64url_char(#[trigger] t@[i]),
    {
        calculate_jwk_thumbprint(self)
    }

    /// Whether the key material (kty, crv, x, y, n, e) equals `other`'s,
    /// ignoring kid, alg and use.
    pub fn same_key_material(&self, other: &Jwk) -> (r: bool)
        ensures
            r == same_material(*self, *other),
    {
        self.kty == other.kty && opt_eq(&self.crv, &other.crv) && opt_eq(&self.x, &other.x)
            && opt_eq(&self.y, &other.y) && opt_eq(&self.n, &other.n) && opt_eq(
            &self.e,
            &other.e,
        )
    }
}

/// `same_key_material` is an equivalence: reflexive, symmetric, transitive.
pub proof fn lemma_same_material_equivalence(a: Jwk, b: Jwk, c: Jwk)
    ensures
        same_material(a, a),
        same_material(a, b) ==> same_material(b, a),
        same_material(a, b) && same_material(b, c) ==> same_material(a, c),
{
}

/// Keys with the same material have the same thumbprints: kid, alg and use
/// play no part in them.
pub proof fn lemma_thumbprint_of_material(a: Jwk, b: Jwk)
    requires
        same_material(a, b),
    ensures
        canonical_spec(a) == canonical_spec(b),
        thumbprint_spec(a) == thumbprint_spec(b),
        thumbprint_sha512_spec(a) == thumbprint_sha512_spec(b),
{
}

/// The key a JWK describes depends on its key material alone: JWKs with
/// equal kty, crv, x and y convert alike (to the same key, or both fail),
/// whatever their kid, alg, use, n and e hold.
pub proof fn lemma_key_of_material(a: Jwk, b: Jwk)
    requires
        a.kty@ == b.kty@,
        ov(a.crv) == ov(b.crv),
        ov(a.x) == ov(b.x),
        ov(a.y) == ov(b.y),
    ensures
        jwk_key_spec(a) == jwk_key_spec(b),
        coordinates_fit(a) == coordinates_fit(b),
{
    assert(decoded(a.x) == decoded(b.x));
    assert(decoded(a.y) == decoded(b.y));
}

/// An Ed25519 JWK whose `x` decodes to 32 bytes of a valid public key
/// describes that key, whatever else it holds.
pub proof fn lemma_ed25519_jwk_key(jwk: Jwk, x: Seq<u8>)
    requires
        jwk.kty@ == "OKP"@,
        ov(jwk.crv) == Some("Ed25519"@),
        decoded(jwk.x) == Some(x),
        x.len() == 32,
        ed25519_key_valid_spec(x),
    ensures
        coordinates_fit(jwk),
        jwk_key_spec(jwk) == Some((KeyAlgorithm::Ed25519, x, Seq::<u8>::empty())),
{
    assert("OKP"@ != "EC"@) by {
        reveal_strlit("OKP");
        reveal_strlit("EC");
        assert("OKP"@.len() != "EC"@.len());
    }
}

/// A JSON member `"name":"value"`.
pub open spec fn json_member(m: (Seq<char>, Seq<char>)) -> Seq<char> {
    seq!['"'] + m.0 + seq!['"', ':', '"'] + m.1 + seq!['"']
}

/// JSON members joined by `,`.
pub open spec fn json_members(ms: Seq<(Seq<char>, Seq<char>)>) -> Seq<char>
    decreases ms.len(),
{
    if ms.len() == 0 {
        Seq::empty()
    } else if ms.len() == 1 {
        json_member(ms[0])
    } else {
        json_member(ms[0]) + seq![','] + json_members(ms.subrange(1, ms.len() as int))
    }
}

/// A JSON object of string members, without whitespace.
pub open spec fn json_object(ms: Seq<(Seq<char>, Seq<char>)>) -> Seq<char> {
    seq!['{'] + json_members(ms) + seq!['}']
}

/// `a` comes before `b` in lexicographic order of code points.
pub open spec fn lex_lt(a: Seq<char>, b: Seq<char>) -> bool
    decreases a.len(),
{
    if a.len() == 0 {
        b.len() > 0
    } else if b.len() == 0 {
        false
    } else if a[0] != b[0] {
        a[0] < b[0]
    } else {
        lex_lt(a.subrange(1, a.len() as int), b.subrange(1, b.len() as int))
    }
}

/// The member names are in strictly increasing lexicographic order.
pub open spec fn names_sorted(ms: Seq<(Seq<char>, Seq<char>)>) -> bool {
    forall|i: int, j: int| 0 <= i < j < ms.len() ==> lex_lt(#[trigger] ms[i].0, #[trigger] ms[j].0)
}

/// The RFC 7638 canonical JSON of a JWK is a JSON object of exactly its
/// required members (OKP: crv, kty, x; EC: crv, kty, x, y; RSA: e, kty, n),
/// whose names are in lexicographic order; the thumbprints are the base64url
/// digests of its UTF-8 bytes. There is one when the key type is one of
/// these and its members are present.
pub proof fn lemma_canonical_json_members(jwk: Jwk) -> (ms: Seq<(Seq<char>, Seq<char>)>)
    ensures
        canonical_spec(jwk) is Some <==> (
            (jwk.kty@ == "OKP"@ && jwk.crv is Some && jwk.x is Some)
            || (jwk.kty@ == "EC"@ && jwk.crv is Some && jwk.x is Some && jwk.y is Some)
            || (jwk.kty@ == "RSA"@ && jwk.e is Some && jwk.n is Some)),
        canonical_spec(jwk) is Some ==> {
            &&& canonical_spec(jwk) == Some(json_object(ms))
            &&& thumbprint_spec(jwk) == Some(
                b64url_encode_spec(sha256_spec(vstd::utf8::encode_utf8(json_object(ms)))),
            )
            &&& thumbprint_sha512_spec(jwk) == Some(
                b64url_encode_spec(sha512_spec(vstd::utf8::encode_utf8(json_object(ms)))),
            )
            &&& names_sorted(ms)
            &&& ms.contains(("kty"@, jwk.kty@))
        },
        canonical_spec(jwk) is Some && jwk.kty@ == "OKP"@ ==> {
            &&& ms.len() == 3
            &&& ms.contains(("crv"@, ov(jwk.crv)->0))
            &&& ms.contains(("x"@, ov(jwk.x)->0))
        },
        canonical_spec(jwk) is Some && jwk.kty@ == "EC"@ ==> {
            &&& ms.len() == 4
            &&& ms.contains(("crv"@, ov(jwk.crv)->0))
            &&& ms.contains(("x"@, ov(jwk.x)->0))
            &&& ms.contains(("y"@, ov(jwk.y)->0))
        },
        canonical_spec(jwk) is Some && jwk.kty@ == "RSA"@ ==> {
            &&& ms.len() == 3
            &&& ms.contains(("e"@, ov(jwk.e)->0))
            &&& ms.contains(("n"@, ov(jwk.n)->0))
        },
{
    lemma_kty_names_differ();
    if jwk.kty@ == "OKP"@ && jwk.crv is Some && jwk.x is Some {
        lemma_canonical_okp(jwk)
    } else if jwk.kty@ == "EC"@ && jwk.crv is Some && jwk.x is Some && jwk.y is Some {
        lemma_canonical_ec(jwk)
    } else if jwk.kty@ == "RSA"@ && jwk.e is Some && jwk.n is Some {
        lemma_canonical_rsa(jwk)
    } else {
        Seq::empty()
    }
}

/// The three key type names differ.
proof fn lemma_kty_names_differ()
    ensures
        "OKP"@ != "EC"@,
        "OKP"@ != "RSA"@,
        "EC"@ != "RSA"@,
{
    reveal_strlit("OKP");
    reveal_strlit("EC");
    reveal_strlit("RSA");
    assert("OKP"@.len() != "EC"@.len());
    assert("OKP"@[0] != "RSA"@[0]);
    assert("EC"@.len() != "RSA"@.len());
}

proof fn lemma_canonical_okp(jwk: Jwk) -> (ms: Seq<(Seq<char>, Seq<char>)>)
    requires
        jwk.kty@ == "OKP"@ && jwk.crv is Some && jwk.x is Some,
    ensures
        canonical_spec(jwk) == Some(json_object(ms)),
        names_sorted(ms),
        ms.len() == 3,
        ms.contains(("kty"@, jwk.kty@)),
        ms.contains(("crv"@, ov(jwk.crv)->0)),
        ms.contains(("x"@, ov(jwk.x)->0)),
{
    reveal_strlit("OKP");
    reveal_strlit("crv");
    reveal_strlit("kty");
    reveal_strlit("x");
    reveal_strlit("{\"crv\":\"");
    reveal_strlit("\",\"kty\":\"OKP\",\"x\":\"");
    reveal_strlit("\"}");
    let crv = ov(jwk.crv)->0;
    let x = ov(jwk.x)->0;
    let ms = seq![("crv"@, crv), ("kty"@, jwk.kty@), ("x"@, x)];
    lemma_json_object3(ms);
    assert(ms[0] == ("crv"@, crv));
    assert(ms[1] == ("kty"@, jwk.kty@));
    assert(ms[2] == ("x"@, x));
    assert(lex_lt("crv"@, "kty"@));
    assert(lex_lt("crv"@, "x"@));
    assert(lex_lt("kty"@, "x"@));
    assert(json_object(ms) =~= "{\"crv\":\""@ + crv + "\",\"kty\":\"OKP\",\"x\":\""@ + x + "\"}"@);
    ms
}

proof fn lemma_canonical_ec(jwk: Jwk) -> (ms: Seq<(Seq<char>, Seq<char>)>)
    requires
        jwk.kty@ == "EC"@ && jwk.crv is Some && jwk.x is Some && jwk.y is Some,
    ensures
        canonical_spec(jwk) == Some(json_object(ms)),
        names_sorted(ms),
        ms.len() == 4,
        ms.contains(("kty"@, jwk.kty@)),
        ms.contains(("crv"@, ov(jwk.crv)->0)),
        ms.contains(("x"@, ov(jwk.x)->0)),
        ms.contains(("y"@, ov(jwk.y)->0)),
{
    lemma_kty_names_differ();
    reveal_strlit("OKP");
    reveal_strlit("EC");
    reveal_strlit("crv");
    reveal_strlit("kty");
    reveal_strlit("x");
    reveal_strlit("y");
    reveal_strlit("{\"crv\":\"");
    reveal_strlit("\",\"kty\":\"EC\",\"x\":\"");
    reveal_strlit("\",\"y\":\"");
    reveal_strlit("\"}");
    let crv = ov(jwk.crv)->0;
    let x = ov(jwk.x)->0;
    let y = ov(jwk.y)->0;
    let ms = seq![("crv"@, crv), ("kty"@, jwk.kty@), ("x"@, x), ("y"@, y)];
    lemma_json_object4(ms);
    assert(ms[0] == ("crv"@, crv));
    assert(ms[1] == ("kty"@, jwk.kty@));
    assert(ms[2] == ("x"@, x));
    assert(ms[3] == ("y"@, y));
    assert(lex_lt("crv"@, "kty"@));
    assert(lex_lt("crv"@, "x"@));
    assert(lex_lt("crv"@, "y"@));
    assert(lex_lt("kty"@, "x"@));
    assert(lex_lt("kty"@, "y"@));
    assert(lex_lt("x"@, "y"@));
    assert(json_object(ms) =~= "{\"crv\":\""@ + crv + "\",\"kty\":\"EC\",\"x\":\""@ + x + "\",\"y\":\""@ + y
        + "\"}"@);
    ms
}

proof fn lemma_canonical_rsa(jwk: Jwk) -> (ms: Seq<(Seq<char>, Seq<char>)>)
    requires
        jwk.kty@ == "RSA"@ && jwk.e is Some && jwk.n is Some,
    ensures
        canonical_spec(jwk) == Some(json_object(ms)),
        names_sorted(ms),
        ms.len() == 3,
        ms.contains(("kty"@, jwk.kty@)),
        ms.contains(("e"@, ov(jwk.e)->0)),
        ms.contains(("n"@, ov(jwk.n)->0)),
{
    lemma_kty_names_differ();
    reveal_strlit("OKP");
    reveal_strlit("EC");
    reveal_strlit("RSA");
    reveal_strlit("e");
    reveal_strlit("kty");
    reveal_strlit("n");
    reveal_strlit("{\"e\":\"");
    reveal_strlit("\",\"kty\":\"RSA\",\"n\":\"");
    reveal_strlit("\"}");
    let e = ov(jwk.e)->0;
    let n = ov(jwk.n)->0;
    let ms = seq![("e"@, e), ("kty"@, jwk.kty@), ("n"@, n)];
    lemma_json_object3(ms);
    assert(ms[0] == ("e"@, e));
    assert(ms[1] == ("kty"@, jwk.kty@));
    assert(ms[2] == ("n"@, n));
    assert(lex_lt("e"@, "kty"@));
    assert(lex_lt("e"@, "n"@));
    assert(lex_lt("kty"@, "n"@));
    assert(json_object(ms) =~= "{\"e\":\""@ + e + "\",\"kty\":\"RSA\",\"n\":\""@ + n + "\"}"@);
    ms
}

proof fn lemma_json_object3(ms: Seq<(Seq<char>, Seq<char>)>)
    requires
        ms.len() == 3,
    ensures
        json_object(ms) == seq!['{'] + json_member(ms[0]) + seq![','] + json_member(ms[1]) + seq![',']
            + json_member(ms[2]) + seq!['}'],
{
    let t1 = ms.subrange(1, 3);
    let t2 = t1.subrange(1, 2);
    assert(t1[0] == ms[1] && t2[0] == ms[2]);
    assert(json_members(t2) == json_member(ms[2]));
    assert(json_members(t1) == json_member(ms[1]) + seq![','] + json_members(t2));
    assert(json_object(ms) =~= seq!['{'] + json_member(ms[0]) + seq![','] + json_member(ms[1]) + seq![',']
        + json_member(ms[2]) + seq!['}']);
}

proof fn lemma_json_object4(ms: Seq<(Seq<char>, Seq<char>)>)
    requires
        ms.len() == 4,
    ensures
        json_object(ms) == seq!['{'] + json_member(ms[0]) + seq![','] + json_member(ms[1]) + seq![',']
            + json_member(ms[2]) + seq![','] + json_member(ms[3]) + seq!['}'],
{
    let t1 = ms.subrange(1, 4);
    let t2 = t1.subrange(1, 3);
    let t3 = t2.subrange(1, 2);
    assert(t1[0] == ms[1] && t2[0] == ms[2] && t3[0] == ms[3]);
    assert(json_members(t3) == json_member(ms[3]));
    assert(json_members(t2) == json_member(ms[2]) + seq![','] + json_members(t3));
    assert(json_members(t1) == json_member(ms[1]) + seq![','] + json_members(t2));
    assert(json_object(ms) =~= seq!['{'] + json_member(ms[0]) + seq![','] + json_member(ms[1]) + seq![',']
        + json_member(ms[2]) + seq![','] + json_member(ms[3]) + seq!['}']);
}

fn some_string(s: String) -> (r: Option<String>)
    ensures
        ov(r) == Some(s@),
{
    Some(s)
}

/// The JWK of the public part of a private key, with the key id `kid`.
pub fn private_key_to_jwk(private_key: &PrivateKey, kid: Option<&str>) -> (jwk: Jwk)
    ensures
        jwk_of(
            jwk,
            private_key.alg(),
            crate::keys::keypair::public_of(private_key.alg(), private_key.secret()).0,
            crate::keys::keypair::public_of(private_key.alg(), private_key.secret()).1,
            match kid {
                Some(k) => Some(k@),
                None => None,
            },
        ),
{
    public_key_to_jwk(&private_key.public_key(), kid)
}

/// The JWK of a public key (Ed25519, or EC P-256/P-384), with the key id
/// `kid`. Converting it back gives the same key.
pub fn public_key_to_jwk(public_key: &PublicKey, kid: Option<&str>) -> (jwk: Jwk)
    ensures
        jwk_of(
            jwk,
            public_key.alg(),
            public_key.x(),
            public_key.y(),
            match kid {
                Some(k) => Some(k@),
                None => None,
            },
        ),
        coordinates_fit(jwk),
        jwk_key_spec(jwk) == Some((public_key.alg(), public_key.x(), public_key.y())),
{
    let alg = public_key.algorithm();
    let x = b64url_encode(public_key.x_bytes());
    let mut jwk = match alg {
        KeyAlgorithm::Ed25519 => Jwk {
            kty: "OKP".to_owned(),
            crv: some_string("Ed25519".to_owned()),
            x: some_string(x),
            y: None,
            n: None,
            e: None,
            kid: None,
            alg: None,
            use_: None,
        },
        KeyAlgorithm::P256 => Jwk {
            kty: "EC".to_owned(),
            crv: some_string("P-256".to_owned()),
            x: some_string(x),
            y: some_string(b64url_encode(public_key.y_bytes())),
            n: None,
            e: None,
            kid: None,
            alg: None,
            use_: None,
        },
        KeyAlgorithm::P384 => Jwk {
            kty: "EC".to_owned(),
            crv: some_string("P-384".to_owned()),
            x: some_string(x),
            y: some_string(b64url_encode(public_key.y_bytes())),
            n: None,
            e: None,
            kid: None,
            alg: None,
            use_: None,
        },
    };
    if let Some(kid) = kid {
        jwk.kid = some_string(kid.to_owned());
    }
    proof {
        if alg == KeyAlgorithm::Ed25519 {
            assert(public_key.y() =~= Seq::<u8>::empty());
        }
        assert("OKP"@ != "EC"@) by {
            reveal_strlit("OKP");
            reveal_strlit("EC");
            assert("OKP"@.len() == 3);
            assert("EC"@.len() == 2);
        }
        assert("P-256"@ != "P-384"@) by {
            reveal_strlit("P-256");
            reveal_strlit("P-384");
            assert("P-256"@[2] != "P-384"@[2]);
        }
    }
    jwk
}

/// The bytes of a base64url member of `jwk`.
fn b64_field(jwk: &Jwk, field: &Option<String>, name: &str) -> (r: Result<Vec<u8>, AAuthError>)
    ensures
        match r {
            Ok(b) => decoded(*field) == Some(b@),
            Err(_) => decoded(*field) is None,
        },
{
    match field {
        None => {
            let mut m = "JWK (".to_owned();
            m.append(jwk.kty.as_str());
            m.append(") missing '");
            m.append(name);
            m.append("' member");
            Err(AAuthError::Signature(m))
        },
        Some(text) => match b64url_decode(text.as_str()) {
            Ok(bytes) => Ok(bytes),
            Err(e) => {
                let mut m = "Invalid base64url in JWK '".to_owned();
                m.append(name);
                m.append("': ");
                let detail = decode_error_text(&e);
                m.append(detail.as_str());
                Err(AAuthError::Signature(m))
            },
        },
    }
}

/// Converts a JWK to a [`PublicKey`] (Ed25519, or EC P-256/P-384).
pub fn jwk_to_public_key(jwk: &Jwk) -> (r: Result<PublicKey, AAuthError>)
    requires
        coordinates_fit(*jwk),
    ensures
        match r {
            Ok(pk) => jwk_key_spec(*jwk) == Some((pk.alg(), pk.x(), pk.y())),
            Err(_) => jwk_key_spec(*jwk) is None,
        },
{
    if jwk.kty == "OKP".to_owned() {
        if !opt_is(&jwk.crv, "Ed25519") {
            let d = debug_option(&jwk.crv);
            return Err(AAuthError::signature_with("Unsupported OKP curve: ", d.as_str()));
        }
        let x = b64_field(jwk, &jwk.x, "x")?;
        if x.len() != 32 {
            return Err(AAuthError::signature("Ed25519 JWK 'x' must be 32 bytes"));
        }
        if let Err(e) = ed25519_check_key(x.as_slice()) {
            let d = signature_error_text(&e);
            return Err(AAuthError::signature_with("Invalid Ed25519 public key: ", d.as_str()));
        }
        Ok(PublicKey::from_parts(KeyAlgorithm::Ed25519, x, Vec::new()))
    } else if jwk.kty == "EC".to_owned() {
        let x = b64_field(jwk, &jwk.x, "x")?;
        let y = b64_field(jwk, &jwk.y, "y")?;
        if opt_is(&jwk.crv, "P-256") {
            if p256_check_point(x.as_slice(), y.as_slice()) {
                Ok(PublicKey::from_parts(KeyAlgorithm::P256, x, y))
            } else {
                Err(AAuthError::signature("Invalid P-256 public key"))
            }
        } else if opt_is(&jwk.crv, "P-384") {
            if p384_check_point(x.as_slice(), y.as_slice()) {
                Ok(PublicKey::from_parts(KeyAlgorithm::P384, x, y))
            } else {
                Err(AAuthError::signature("Invalid P-384 public key"))
            }
        } else {
            let d = debug_option(&jwk.crv);
            Err(AAuthError::signature_with("Unsupported EC curve: ", d.as_str()))
        }
    } else {
        let d = debug_text(jwk.kty.as_str());
        Err(AAuthError::signature_with("Unsupported JWK kty: ", d.as_str()))
    }
}

/// `jwk_to_public_key` on every JWK: `None` for the EC keys whose decoded
/// coordinates are not one field element long, on which that conversion is
/// not defined.
pub fn jwk_to_public_key_checked(jwk: &Jwk) -> (r: Option<Result<PublicKey, AAuthError>>)
    ensures
        r is Some <==> coordinates_fit(*jwk),
        r matches Some(res) ==> match res {
            Ok(pk) => jwk_key_spec(*jwk) == Some((pk.alg(), pk.x(), pk.y())),
            Err(_) => jwk_key_spec(*jwk) is None,
        },
{
    if jwk.kty == "EC".to_owned() {
        if let (Some(xt), Some(yt)) = (&jwk.x, &jwk.y) {
            if let (Ok(x), Ok(y)) = (b64url_decode(xt.as_str()), b64url_decode(yt.as_str())) {
                if (opt_is(&jwk.crv, "P-256") && (x.len() != 32 || y.len() != 32)) || (opt_is(
                    &jwk.crv,
                    "P-384",
                ) && (x.len() != 48 || y.len() != 48)) {
                    return None;
                }
            }
        }
    }
    Some(jwk.to_public_key())
}

/// The error for a member that a thumbprint needs and the JWK lacks.
fn missing_member(name: &str) -> AAuthError {
    let mut m = "JWK missing '".to_owned();
    m.append(name);
    m.append("' member for thumbprint");
    AAuthError::Signature(m)
}

/// The canonical JSON of `jwk` for its thumbprint.
fn canonical_thumbprint_json(jwk: &Jwk) -> (r: Result<String, AAuthError>)
    ensures
        match r {
            Ok(c) => canonical_spec(*jwk) == Some(c@),
            Err(_) => canonical_spec(*jwk) is None,
        },
{
    proof {
        reveal_strlit("OKP");
        reveal_strlit("EC");
        reveal_strlit("RSA");
    }
    if jwk.kty == "OKP".to_owned() {
        match (&jwk.crv, &jwk.x) {
            (None, _) => Err(missing_member("crv")),
            (_, None) => Err(missing_member("x")),
            (Some(crv), Some(x)) => {
                let mut out = "{\"crv\":\"".to_owned();
                out.append(crv.as_str());
                out.append("\",\"kty\":\"OKP\",\"x\":\"");
                out.append(x.as_str());
                out.append("\"}");
                Ok(out)
            },
        }
    } else if jwk.kty == "EC".to_owned() {
        match (&jwk.crv, &jwk.x, &jwk.y) {
            (None, _, _) => Err(missing_member("crv")),
            (_, None, _) => Err(missing_member("x")),
            (_, _, None) => Err(missing_member("y")),
            (Some(crv), Some(x), Some(y)) => {
                let mut out = "{\"crv\":\"".to_owned();
                out.append(crv.as_str());
                out.append("\",\"kty\":\"EC\",\"x\":\"");
                out.append(x.as_str());
                out.append("\",\"y\":\"");
                out.append(y.as_str());
                out.append("\"}");
                Ok(out)
            },
        }
    } else if jwk.kty == "RSA".to_owned() {
        match (&jwk.e, &jwk.n) {
            (None, _) => Err(missing_member("e")),
            (_, None) => Err(missing_member("n")),
            (Some(e), Some(n)) => {
                let mut out = "{\"e\":\"".to_owned();
                out.append(e.as_str());
                out.append("\",\"kty\":\"RSA\",\"n\":\"");
                out.append(n.as_str());
                out.append("\"}");
                Ok(out)
            },
        }
    } else {
        let d = debug_text(jwk.kty.as_str());
        Err(AAuthError::signature_with("Unsupported kty for thumbprint: ", d.as_str()))
    }
}

/// The JWK thumbprint of RFC 7638 (SHA-256, base64url, no padding).
pub fn calculate_jwk_thumbprint(jwk: &Jwk) -> (r: Result<String, AAuthError>)
    ensures
        match r {
            Ok(t) => thumbprint_spec(*jwk) == Some(t@),
            Err(_) => thumbprint_spec(*jwk) is None,
        },
        r matches Ok(t) ==> t@.len() == 43 && forall|i: int|
            0 <= i < t@.len() ==> is_b64url_char(#[trigger] t@[i]),
{
    let canonical = canonical_thumbprint_json(jwk)?;
    let digest = sha256(canonical.as_str().as_bytes());
    Ok(b64url_encode(digest.as_slice()))
}

/// The JWK thumbprint of RFC 7638 with SHA-512 (for `jkt-s512+jwt`).
pub fn calculate_jwk_thumbprint_sha512(jwk: &Jwk) -> (r: Result<String, AAuthError>)
    ensures
        match r {
            Ok(t) => thumbprint_sha512_spec(*jwk) == Some(t@),
            Err(_) => thumbprint_sha512_spec(*jwk) is None,
        },
        r matches Ok(t) ==> t@.len() == 86 && forall|i: int|
            0 <= i < t@.len() ==> is_b64url_char(#[trigger] t@[i]),
{
    let canonical = canonical_thumbprint_json(jwk)?;
    let digest = sha512(canonical.as_str().as_bytes());
    Ok(b64url_encode(digest.as_slice()))
}

} // verus!
