use aauth::errors::AAuthError;
use aauth::keys::{
    calculate_jwk_thumbprint, calculate_jwk_thumbprint_sha512, generate_ed25519_keypair,
    generate_p256_keypair, generate_p384_keypair, jwk_to_public_key, jwk_to_public_key_checked,
    private_key_to_jwk, public_key_to_jwk, Jwk, KeyAlgorithm,
};

fn message(e: &AAuthError) -> String {
    e.message().to_string()
}

fn jwk(kty: &str, crv: Option<&str>, x: Option<&str>, y: Option<&str>) -> Jwk {
    Jwk {
        kty: kty.to_string(),
        crv: crv.map(|s| s.to_string()),
        x: x.map(|s| s.to_string()),
        y: y.map(|s| s.to_string()),
        ..Default::default()
    }
}

#[test]
fn ed25519_signatures_verify() {
    let (sk, pk) = generate_ed25519_keypair();
    assert_eq!(pk.algorithm(), KeyAlgorithm::Ed25519);
    let sig = sk.sign(b"hello");
    assert_eq!(sig.len(), 64);
    assert!(pk.verify(&sig, b"hello").is_ok());
    assert_eq!(sk.sign_p1363(b"hello"), sig);
    let err = pk.verify(&sig, b"hellO").unwrap_err();
    assert_eq!(message(&err), "signature verification failed");
    assert!(pk.verify(&sig[..63], b"hello").is_err());
    assert_eq!(sk.jws_algorithm(), "EdDSA");
    assert_eq!(sk.http_sig_algorithm(), "ed25519");
    assert_eq!(sk.public_key(), pk);
}

#[test]
fn p256_signatures_verify_in_der_and_p1363() {
    let (sk, pk) = generate_p256_keypair();
    assert_eq!(pk.x_bytes().len(), 32);
    assert_eq!(pk.y_bytes().len(), 32);
    let der = sk.sign(b"payload");
    assert_eq!(der[0], 0x30);
    assert!(pk.verify(&der, b"payload").is_ok());
    let raw = sk.sign_p1363(b"payload");
    assert_eq!(raw.len(), 64);
    assert!(pk.verify(&raw, b"payload").is_ok());
    assert!(pk.verify(&raw, b"other").is_err());
    assert!(pk.verify(b"not a signature", b"payload").is_err());
    assert_eq!(sk.jws_algorithm(), "ES256");
    assert_eq!(sk.http_sig_algorithm(), "ecdsa-p256-sha256");
}

#[test]
fn p384_signatures_verify_in_der_and_p1363() {
    let (sk, pk) = generate_p384_keypair();
    assert_eq!(pk.x_bytes().len(), 48);
    let der = sk.sign(b"payload");
    assert!(pk.verify(&der, b"payload").is_ok());
    let raw = sk.sign_p1363(b"payload");
    assert_eq!(raw.len(), 96);
    assert!(pk.verify(&raw, b"payload").is_ok());
    assert_eq!(sk.jws_algorithm(), "ES384");
    assert_eq!(sk.http_sig_algorithm(), "ecdsa-p384-sha384");
}

#[test]
fn signatures_of_one_key_fail_under_another() {
    let (sk, _) = generate_ed25519_keypair();
    let (_, other) = generate_ed25519_keypair();
    assert!(other.verify(&sk.sign(b"m"), b"m").is_err());
}

#[test]
fn jwk_round_trips_for_every_algorithm() {
    for (_, pk) in [generate_ed25519_keypair(), generate_p256_keypair(), generate_p384_keypair()] {
        let j = public_key_to_jwk(&pk, Some("k1"));
        assert_eq!(j.kid.as_deref(), Some("k1"));
        let back = jwk_to_public_key(&j).unwrap();
        assert_eq!(back, pk);
        assert_eq!(j.to_public_key().unwrap(), pk);
    }
}

#[test]
fn jwk_members_of_public_keys() {
    let (sk, pk) = generate_ed25519_keypair();
    let j = public_key_to_jwk(&pk, None);
    assert_eq!(j.kty, "OKP");
    assert_eq!(j.crv.as_deref(), Some("Ed25519"));
    assert_eq!(j.x.as_ref().unwrap().len(), 43);
    assert!(j.y.is_none() && j.kid.is_none() && j.alg.is_none() && j.use_.is_none());
    assert_eq!(private_key_to_jwk(&sk, None), j);

    let (_, pk) = generate_p256_keypair();
    let j = public_key_to_jwk(&pk, None);
    assert_eq!(j.kty, "EC");
    assert_eq!(j.crv.as_deref(), Some("P-256"));
    assert_eq!(j.y.as_ref().unwrap().len(), 43);

    let (_, pk) = generate_p384_keypair();
    let j = public_key_to_jwk(&pk, None);
    assert_eq!(j.crv.as_deref(), Some("P-384"));
    assert_eq!(j.x.as_ref().unwrap().len(), 64);
}

#[test]
fn jwk_to_public_key_reports_each_failure() {
    let x = "11qYAYKxCrfVS_7TyWQHOg7hcvPapiMlrwIaaPcHURo";
    assert!(jwk_to_public_key(&jwk("OKP", Some("Ed25519"), Some(x), None)).is_ok());
    let e = jwk_to_public_key(&jwk("RSA", None, None, None)).unwrap_err();
    assert!(message(&e).contains("Unsupported JWK kty"));
    let e = jwk_to_public_key(&jwk("OKP", Some("X25519"), Some(x), None)).unwrap_err();
    assert!(message(&e).contains("Unsupported OKP curve"));
    assert!(jwk_to_public_key(&jwk("OKP", Some("Ed25519"), None, None)).is_err());
    assert!(jwk_to_public_key(&jwk("OKP", Some("Ed25519"), Some("***"), None)).is_err());
    let e = jwk_to_public_key(&jwk("OKP", Some("Ed25519"), Some("AAAA"), None)).unwrap_err();
    assert!(message(&e).contains("32 bytes"));
    let zero32 = "AAAAAAAAAAAAAAAAAAAAAAAAAAAAAAAAAAAAAAAAAAA";
    let e = jwk_to_public_key(&jwk("EC", Some("P-256"), Some(zero32), Some(zero32))).unwrap_err();
    assert!(message(&e).contains("Invalid P-256 public key"));
    let e = jwk_to_public_key(&jwk("EC", Some("P-521"), Some(zero32), Some(zero32))).unwrap_err();
    assert!(message(&e).contains("Unsupported EC curve"));
    assert!(jwk_to_public_key(&jwk("EC", Some("P-256"), Some(zero32), None)).is_err());
}

#[test]
fn checked_conversion_refuses_short_coordinates() {
    let (_, pk) = generate_p256_keypair();
    let good = public_key_to_jwk(&pk, None);
    assert_eq!(jwk_to_public_key_checked(&good).unwrap().unwrap(), pk);
    let short = jwk("EC", Some("P-256"), Some("AAAA"), good.y.as_deref());
    assert!(jwk_to_public_key_checked(&short).is_none());
    let unknown = jwk("EC", Some("P-521"), Some("AAAA"), Some("AAAA"));
    assert!(jwk_to_public_key_checked(&unknown).unwrap().is_err());
}

#[test]
fn rfc7638_rsa_thumbprint() {
    let j = Jwk {
        kty: "RSA".to_string(),
        n: Some("0vx7agoebGcQSuuPiLJXZptN9nndrQmbXEps2aiAFbWhM78LhWx4cbbfAAtVT86zwu1RK7aPFFxuhDR1L6tSoc_BJECPebWKRXjBZCiFV4n3oknjhMstn64tZ_2W-5JsGY4Hc5n9yBXArwl93lqt7_RN5w6Cf0h4QyQ5v-65YGjQR0_FDW2QvzqY368QQMicAtaSqzs8KJZgnYb9c7d0zgdAZHzu6qMQvRL5hajrn1n91CbOpbISD08qNLyrdkt-bFTWhAI4vMQFh6WeZu0fM4lFd2NcRwr3XPksINHaQ-G_xBniIqbw0Ls1jF44-csFCur-kEgU8awapJzKnqDKgw".to_string()),
        e: Some("AQAB".to_string()),
        alg: Some("RS256".to_string()),
        kid: Some("2011-04-29".to_string()),
        ..Default::default()
    };
    assert_eq!(calculate_jwk_thumbprint(&j).unwrap(), "NzbLsXh8uDCcd-6MNwXF4W_7noWXFZAfHkxZsRGC9Xs");
}

#[test]
fn rfc8037_ed25519_thumbprint() {
    let j = jwk("OKP", Some("Ed25519"), Some("11qYAYKxCrfVS_7TyWQHOg7hcvPapiMlrwIaaPcHURo"), None);
    assert_eq!(j.thumbprint().unwrap(), "kPrK_qmxVWaYVA9wwBF6Iuo3vVzz7TxHCTwXBygrS4k");
    assert_eq!(calculate_jwk_thumbprint_sha512(&j).unwrap().len(), 86);
}

#[test]
fn thumbprint_ignores_kid_alg_and_use() {
    let (_, pk) = generate_p256_keypair();
    let a = public_key_to_jwk(&pk, Some("one"));
    let mut b = public_key_to_jwk(&pk, Some("two"));
    b.alg = Some("ES256".to_string());
    b.use_ = Some("sig".to_string());
    assert!(a.same_key_material(&b));
    assert!(b.same_key_material(&a));
    assert_eq!(a.thumbprint().unwrap(), b.thumbprint().unwrap());
    assert_eq!(
        calculate_jwk_thumbprint_sha512(&a).unwrap(),
        calculate_jwk_thumbprint_sha512(&b).unwrap()
    );
    let (_, other) = generate_p256_keypair();
    let c = public_key_to_jwk(&other, Some("one"));
    assert!(!a.same_key_material(&c));
    assert_ne!(a.thumbprint().unwrap(), c.thumbprint().unwrap());
}

#[test]
fn thumbprint_needs_the_required_members() {
    let e = calculate_jwk_thumbprint(&jwk("OKP", None, Some("abc"), None)).unwrap_err();
    assert!(message(&e).contains("missing"));
    assert!(calculate_jwk_thumbprint(&jwk("EC", Some("P-256"), Some("a"), None)).is_err());
    let e = calculate_jwk_thumbprint(&jwk("oct", None, None, None)).unwrap_err();
    assert!(message(&e).contains("Unsupported kty for thumbprint"));
}

#[test]
fn ecdsa_signatures_are_der_and_p1363_lengths() {
    let (sk, _) = generate_p256_keypair();
    assert_eq!(sk.sign(b"m")[0], 0x30);
    assert_eq!(sk.sign_p1363(b"m").len(), 64);
    assert_eq!(sk.describe(), "PrivateKey(P-256)");
    let (sk, _) = generate_p384_keypair();
    assert_eq!(sk.sign(b"m")[0], 0x30);
    assert_eq!(sk.sign_p1363(b"m").len(), 96);
    assert_eq!(sk.describe(), "PrivateKey(P-384)");
    let (sk, _) = generate_ed25519_keypair();
    assert_eq!(sk.describe(), "PrivateKey(Ed25519)");
}

#[test]
fn thumbprints_are_base64url_of_fixed_length() {
    let (_, pk) = generate_p384_keypair();
    let j = public_key_to_jwk(&pk, None);
    let t = j.thumbprint().unwrap();
    assert_eq!(t.len(), 43);
    assert!(t.chars().all(|c| c.is_ascii_alphanumeric() || c == '-' || c == '_'));
    assert_eq!(calculate_jwk_thumbprint_sha512(&j).unwrap().len(), 86);
}

#[test]
fn jwk_error_messages() {
    let e = jwk_to_public_key(&jwk("RSA", None, None, None)).unwrap_err();
    assert_eq!(message(&e), "Unsupported JWK kty: \"RSA\"");
    let e = jwk_to_public_key(&jwk("OKP", Some("X25519"), Some("AAAA"), None)).unwrap_err();
    assert_eq!(message(&e), "Unsupported OKP curve: Some(\"X25519\")");
    let e = jwk_to_public_key(&jwk("OKP", Some("Ed25519"), None, None)).unwrap_err();
    assert_eq!(message(&e), "JWK (OKP) missing 'x' member");
    let e = jwk_to_public_key(&jwk("OKP", Some("Ed25519"), Some("***"), None)).unwrap_err();
    assert!(message(&e).starts_with("Invalid base64url in JWK 'x': "));
    let e = jwk_to_public_key(&jwk("EC", None, Some("AAAA"), Some("AAAA"))).unwrap_err();
    assert_eq!(message(&e), "Unsupported EC curve: None");
    let e = calculate_jwk_thumbprint(&jwk("EC", Some("P-256"), Some("a"), None)).unwrap_err();
    assert_eq!(message(&e), "JWK missing 'y' member for thumbprint");
    let e = calculate_jwk_thumbprint(&jwk("oct", None, None, None)).unwrap_err();
    assert_eq!(message(&e), "Unsupported kty for thumbprint: \"oct\"");
}
