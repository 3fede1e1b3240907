use aauth::keys::{generate_ed25519_keypair, generate_p256_keypair, private_key_to_jwk};
use aauth::params::ParamMap;
use aauth::signing::{
    build_signature_base, build_signature_header, build_signature_input_header,
    build_signature_key_header, build_signature_params, calculate_content_digest,
    determine_covered_components, get_header, is_supported, parse_signature,
    parse_signature_input, parse_signature_key, ParsedSignatureKey, SigScheme,
    SignatureInputParams, REQUIRED_ALGORITHM, SUPPORTED_ALGORITHMS,
};

fn strings(v: &[&str]) -> Vec<String> {
    v.iter().map(|s| s.to_string()).collect()
}

fn headers(v: &[(&str, &str)]) -> Vec<(String, String)> {
    v.iter().map(|(k, v)| (k.to_string(), v.to_string())).collect()
}

#[test]
fn algorithms_are_recognized_ignoring_case() {
    assert!(is_supported("ed25519"));
    assert!(is_supported("ED25519"));
    assert!(is_supported("Ecdsa-P256-SHA256"));
    assert!(is_supported("rsa-pss-sha512"));
    assert!(!is_supported("hs256"));
    assert!(!is_supported("ed2551"));
    assert!(!is_supported(""));
    assert!(is_supported(REQUIRED_ALGORITHM));
    assert!(SUPPORTED_ALGORITHMS.iter().all(|a| is_supported(a)));
}

#[test]
fn covered_components_follow_the_profile() {
    assert_eq!(
        determine_covered_components(None, None, false),
        strings(&["@method", "@authority", "@path", "signature-key"])
    );
    assert_eq!(
        determine_covered_components(Some(""), None, false),
        strings(&["@method", "@authority", "@path", "signature-key"])
    );
    assert_eq!(
        determine_covered_components(
            Some("a=1"),
            Some(&["content-type", "content-digest"]),
            true
        ),
        strings(&[
            "@method",
            "@authority",
            "@path",
            "@query",
            "content-type",
            "content-digest",
            "signature-key",
            "aauth-mission"
        ])
    );
}

#[test]
fn signature_params_text() {
    let comps = strings(&["@method", "@authority"]);
    assert_eq!(build_signature_params(&comps, 1618884473), "(\"@method\" \"@authority\");created=1618884473");
    assert_eq!(build_signature_params(&[], -5), "();created=-5");
    assert_eq!(
        build_signature_params(&strings(&["x"]), i64::MIN),
        "(\"x\");created=-9223372036854775808"
    );
}

#[test]
fn signature_input_round_trip() {
    let comps = strings(&["@method", "@authority", "@path", "signature-key"]);
    let header = build_signature_input_header(&comps, "sig", Some(1_750_000_000));
    assert_eq!(
        header,
        "sig=(\"@method\" \"@authority\" \"@path\" \"signature-key\");created=1750000000"
    );
    let parsed = parse_signature_input(&header).unwrap();
    assert_eq!(parsed.label, "sig");
    assert_eq!(parsed.components, comps);
    assert_eq!(parsed.created(), Some(1_750_000_000));
    assert_eq!(parsed.params.len(), 1);
    let negative = build_signature_input_header(&comps, "s_1", Some(i64::MIN));
    assert_eq!(parse_signature_input(&negative).unwrap().created(), Some(i64::MIN));
}

#[test]
fn signature_input_defaults_to_now() {
    let header = build_signature_input_header(&strings(&["@method"]), "sig", None);
    let created = parse_signature_input(&header).unwrap().created().unwrap();
    assert!(created > 1_700_000_000);
}

#[test]
fn signature_input_parameters() {
    let p = parse_signature_input(" sig1 = (\"@method\"  \"x\") ;created=\"12\"; keyid=\"k\" ;alg= ed25519;;bare;=v").unwrap();
    assert_eq!(p.label, "sig1");
    assert_eq!(p.components, strings(&["@method", "x"]));
    assert_eq!(p.params.get("created"), Some("12"));
    assert_eq!(p.created(), Some(12));
    assert_eq!(p.params.get("keyid"), Some("k"));
    assert_eq!(p.params.get("alg"), Some("ed25519"));
    assert_eq!(p.params.get("bare"), None);
    assert_eq!(p.params.len(), 3);
    let p = parse_signature_input("sig=();created=+7").unwrap();
    assert!(p.components.is_empty());
    assert_eq!(p.created(), Some(7));
    let p = parse_signature_input("sig=();created=soon").unwrap();
    assert_eq!(p.created(), None);
    let p = parse_signature_input("sig=();created=99999999999999999999").unwrap();
    assert_eq!(p.created(), None);
    assert_eq!(parse_signature_input("sig=()").unwrap().created(), None);
}

#[test]
fn signature_input_rejects_malformed_values() {
    assert!(parse_signature_input("no equals sign").is_err());
    assert!(parse_signature_input("bad label=(\"@method\")").is_err());
    assert!(parse_signature_input("=(\"@method\")").is_err());
    assert!(parse_signature_input("sig=\"@method\"").is_err());
    assert!(parse_signature_input("sig=(\"@method\"").is_err());
    assert!(parse_signature_input("sig=(\"@method)").is_err());
    let e = parse_signature_input("sig").unwrap_err();
    assert!(e.message().starts_with("Invalid Signature-Input format"));
}

#[test]
fn signature_header_round_trip() {
    let bytes: Vec<u8> = (0u8..=255).collect();
    let header = build_signature_header(&bytes, "sig");
    assert!(header.starts_with("sig=:"));
    assert!(header.ends_with(':'));
    assert_eq!(parse_signature(&header, Some("sig")).unwrap(), bytes);
    assert_eq!(parse_signature(&header, None).unwrap(), bytes);
    assert_eq!(build_signature_header(b"hello", "sig"), "sig=:aGVsbG8:");
}

#[test]
fn signature_parsing_is_lenient_about_base64() {
    assert_eq!(parse_signature("sig=:aGVsbG8=:", None).unwrap(), b"hello");
    assert_eq!(parse_signature("  sig = :aGVsbG8: ", Some("sig")).unwrap(), b"hello");
    assert_eq!(parse_signature("sig=:+/8=:", None).unwrap(), vec![0xfb, 0xff]);
    assert_eq!(parse_signature("sig=:-_8:", None).unwrap(), vec![0xfb, 0xff]);
    assert_eq!(parse_signature("sig=:+/8:", None).unwrap(), vec![0xfb, 0xff]);
    assert_eq!(parse_signature("sig=::", None).unwrap(), Vec::<u8>::new());
}

#[test]
fn signature_parsing_errors() {
    let e = parse_signature("sig=:aGVsbG8:", Some("other")).unwrap_err();
    assert!(e.message().starts_with("Label mismatch"));
    assert!(parse_signature("sig:aGVsbG8:", None).is_err());
    assert!(parse_signature("sig=aGVsbG8", None).is_err());
    assert!(parse_signature("sig=:", None).is_err());
    let e = parse_signature("sig=:*:", None).unwrap_err();
    assert!(e.message().starts_with("Failed to decode signature"));
}

#[test]
fn signature_key_headers_for_each_scheme() {
    assert_eq!(
        build_signature_key_header(&SigScheme::Jwt { jwt: "a.b.c" }, None, "sig").unwrap(),
        "sig=jwt;jwt=\"a.b.c\""
    );
    assert_eq!(
        build_signature_key_header(&SigScheme::JktJwt { jwt: "t" }, None, "sig").unwrap(),
        "sig=jkt-jwt;jwt=\"t\""
    );
    assert_eq!(
        build_signature_key_header(
            &SigScheme::JwksUri { id: "https://agent.example", dwk: "aauth-agent.json", kid: "key-1" },
            None,
            "sig"
        )
        .unwrap(),
        "sig=jwks_uri;id=\"https://agent.example\";dwk=\"aauth-agent.json\";kid=\"key-1\""
    );
    assert_eq!(
        build_signature_key_header(&SigScheme::X509 { x5u: "https://c.example/\"x\"", x5t: "abc" }, None, "sig")
            .unwrap(),
        "sig=x509;x5u=\"https://c.example/\\\"x\\\"\";x5t=:abc:"
    );
    assert_eq!(SigScheme::Hwk.name(), "hwk");
    assert_eq!(SigScheme::X509 { x5u: "", x5t: "" }.name(), "x509");
    let e = build_signature_key_header(&SigScheme::Hwk, None, "sig").unwrap_err();
    assert_eq!(e.message(), "scheme=hwk requires a private key");
}

#[test]
fn signature_key_escaping_round_trips() {
    let jwt = "we\\ird \"value\"; x=1";
    let header = build_signature_key_header(&SigScheme::Jwt { jwt }, None, "sig").unwrap();
    assert_eq!(header, "sig=jwt;jwt=\"we\\\\ird \\\"value\\\"; x=1\"");
    let parsed = parse_signature_key(&header).unwrap();
    assert_eq!(parsed.scheme, "jwt");
    assert_eq!(parsed.param("jwt"), Some(jwt));
    assert_eq!(parsed.params.len(), 1);
}

#[test]
fn hwk_headers_carry_the_public_key() {
    let (sk, _) = generate_ed25519_keypair();
    let jwk = private_key_to_jwk(&sk, None);
    let header = build_signature_key_header(&SigScheme::Hwk, Some(&sk), "sig").unwrap();
    let parsed = parse_signature_key(&header).unwrap();
    assert_eq!(parsed.label, "sig");
    assert_eq!(parsed.scheme, "hwk");
    assert_eq!(parsed.param("kty"), Some("OKP"));
    assert_eq!(parsed.param("crv"), Some("Ed25519"));
    assert_eq!(parsed.param("x"), jwk.x.as_deref());
    assert_eq!(parsed.param("y"), None);

    let (sk, _) = generate_p256_keypair();
    let jwk = private_key_to_jwk(&sk, None);
    let parsed = parse_signature_key(&build_signature_key_header(&SigScheme::Hwk, Some(&sk), "k").unwrap()).unwrap();
    assert_eq!(parsed.param("kty"), Some("EC"));
    assert_eq!(parsed.param("y"), jwk.y.as_deref());
}

#[test]
fn x509_header_reads_back() {
    let header = build_signature_key_header(&SigScheme::X509 { x5u: "u", x5t: "dGh1bWI=" }, None, "sig").unwrap();
    let parsed = parse_signature_key(&header).unwrap();
    assert_eq!(parsed.scheme, "x509");
    assert_eq!(parsed.param("x5u"), Some("u"));
    assert_eq!(parsed.param("x5t"), Some(":dGh1bWI=:"));
}

#[test]
fn signature_key_parsing_forms() {
    let p = parse_signature_key(" sig=jwks_uri ; id=\"a\"; kid = k1 ;;dwk=\"d;x\"").unwrap();
    assert_eq!(p.label, "sig");
    assert_eq!(p.scheme, "jwks_uri");
    assert_eq!(p.param("id"), Some("a"));
    assert_eq!(p.param("kid"), Some("k1"));
    assert_eq!(p.param("dwk"), Some("d;x"));
    let p = parse_signature_key("sig=hwk").unwrap();
    assert_eq!(p.scheme, "hwk");
    assert_eq!(p.params.len(), 0);
    let p = parse_signature_key("sig=jwt;jwt=\"open").unwrap();
    assert_eq!(p.param("jwt"), Some("open"));
    let p = parse_signature_key("sig=jwt;a=").unwrap();
    assert_eq!(p.param("a"), Some(""));
    let p = parse_signature_key("sig=jwt;a=1;noequals;b=2").unwrap();
    assert_eq!(p.param("a"), Some("1"));
    assert_eq!(p.param("b"), None);
}

#[test]
fn legacy_inner_list_form() {
    let p = parse_signature_key("sig=(scheme=hwk kty=\"OKP\" crv=\"Ed25519\" x=\"abc\")").unwrap();
    assert_eq!(p.label, "sig");
    assert_eq!(p.scheme, "hwk");
    assert_eq!(p.param("kty"), Some("OKP"));
    assert_eq!(p.param("x"), Some("abc"));
    assert_eq!(p.params.len(), 3);
    let p = parse_signature_key("sig=(kid=k1 scheme=jwt)").unwrap();
    assert_eq!(p.scheme, "jwt");
    assert_eq!(p.param("kid"), Some("k1"));
    let e = parse_signature_key("sig=(kty=\"OKP\")").unwrap_err();
    assert!(e.message().starts_with("Missing scheme in Signature-Key"));
}

#[test]
fn signature_key_rejects_malformed_values() {
    assert!(parse_signature_key("no-equals").is_err());
    assert!(parse_signature_key("bad label=hwk").is_err());
    assert!(parse_signature_key("=hwk").is_err());
    let e = parse_signature_key("sig=").unwrap_err();
    assert_eq!(e.message(), "Missing scheme in Signature-Key");
    assert!(parse_signature_key("sig= ;x=\"1\"").is_err());
}

#[test]
fn signature_base_lines() {
    let h = headers(&[("Content-Type", "application/json"), ("content-digest", "sha-256=:x:")]);
    let comps = strings(&["@method", "@authority", "@path", "@query", "content-type", "content-digest", "signature-key"]);
    let base = build_signature_base(
        "POST",
        "resource.example",
        "/api",
        Some("a=1"),
        &h,
        Some(b"{}"),
        "sig=hwk;kty=\"OKP\"",
        &comps,
        "(\"@method\");created=1",
    )
    .unwrap();
    assert_eq!(
        base,
        "\"@method\": POST\n\"@authority\": resource.example\n\"@path\": /api\n\"@query\": ?a=1\n\"content-type\": application/json\n\"content-digest\": sha-256=:x:\n\"signature-key\": sig=hwk;kty=\"OKP\"\n\"@signature-params\": (\"@method\");created=1"
    );
}

#[test]
fn signature_base_errors() {
    let h = headers(&[]);
    let comps = strings(&["@method"]);
    let e = build_signature_base("GET", "a", "/", None, &h, None, "k", &comps, "").unwrap_err();
    assert_eq!(e.message(), "signature_params is required for valid signature base");
    let q = strings(&["@query"]);
    assert!(build_signature_base("GET", "a", "/", None, &h, None, "k", &q, "p").is_err());
    assert!(build_signature_base("GET", "a", "/", Some(""), &h, None, "k", &q, "p").is_err());
    let ct = strings(&["content-type"]);
    let e = build_signature_base("GET", "a", "/", None, &h, Some(b""), "k", &ct, "p").unwrap_err();
    assert_eq!(e.message(), "content-type component specified but no body present");
    let e = build_signature_base("GET", "a", "/", None, &h, Some(b"x"), "k", &ct, "p").unwrap_err();
    assert_eq!(e.message(), "content-type component required but header missing");
    let m = strings(&["aauth-mission"]);
    assert!(build_signature_base("GET", "a", "/", None, &h, None, "k", &m, "p").is_err());
    let u = strings(&["cookie"]);
    let e = build_signature_base("GET", "a", "/", None, &h, None, "k", &u, "p").unwrap_err();
    assert_eq!(e.message(), "Unknown component: cookie");
    let h = headers(&[("AAuth-Mission", "m1")]);
    assert_eq!(
        build_signature_base("GET", "a", "/", None, &h, None, "k", &m, "p").unwrap(),
        "\"aauth-mission\": m1\n\"@signature-params\": p"
    );
}

#[test]
fn header_lookup_ignores_ascii_case() {
    let h = headers(&[("X-One", "1"), ("x-one", "2"), ("Two", "t")]);
    assert_eq!(get_header(&h, "x-ONE"), Some("1"));
    assert_eq!(get_header(&h, "two"), Some("t"));
    assert_eq!(get_header(&h, "three"), None);
}

#[test]
fn content_digest_values() {
    assert_eq!(calculate_content_digest(b""), "sha-256=:47DEQpj8HBSa+/TImW+5JCeuQeRkm5NMpJWZG3hSuFU=:");
    assert_ne!(calculate_content_digest(b"{\"amount\":10}"), calculate_content_digest(b"{\"amount\":999999}"));
}

#[test]
fn param_map_replaces_values() {
    let mut m = ParamMap::new();
    m.insert("a".to_string(), "1".to_string());
    m.insert("b".to_string(), "2".to_string());
    m.insert("a".to_string(), "3".to_string());
    assert_eq!(m.len(), 2);
    assert_eq!(m.get("a"), Some("3"));
    let c = m.clone();
    assert_eq!(c.get("b"), Some("2"));
    assert_eq!(ParamMap::default().len(), 0);
}

#[test]
fn defaults_are_empty() {
    let p = SignatureInputParams::default();
    assert!(p.label.is_empty() && p.components.is_empty() && p.params.len() == 0);
    assert_eq!(p.created(), None);
    let k = ParsedSignatureKey::default();
    assert!(k.scheme.is_empty());
    assert_eq!(k.param("x"), None);
}

#[test]
fn signed_base_verifies_and_detects_a_swapped_body() {
    let (sk, pk) = generate_ed25519_keypair();
    let body = b"{\"amount\":10}";
    let h = headers(&[("content-digest", &calculate_content_digest(body))]);
    let comps = determine_covered_components(None, Some(&["content-digest"]), false);
    let key_header = build_signature_key_header(&SigScheme::Hwk, Some(&sk), "sig").unwrap();
    let params = build_signature_params(&comps, 1_750_000_000);
    let base = build_signature_base("POST", "r.example", "/pay", None, &h, Some(body), &key_header, &comps, &params).unwrap();
    let sig_header = build_signature_header(&sk.sign(base.as_bytes()), "sig");
    let sig = parse_signature(&sig_header, Some("sig")).unwrap();
    assert!(pk.verify(&sig, base.as_bytes()).is_ok());
    let tampered = b"{\"amount\":999999}";
    assert_ne!(get_header(&h, "content-digest").unwrap(), calculate_content_digest(tampered));
}

#[test]
fn signing_error_messages() {
    let e = parse_signature("sig=:aGVsbG8:", Some("other")).unwrap_err();
    assert_eq!(e.message(), "Label mismatch: expected other, got sig");
    let e = parse_signature("sig=:*:", None).unwrap_err();
    assert_eq!(e.message(), "Failed to decode signature: *");
    let e = parse_signature_key("  bad label=hwk ").unwrap_err();
    assert_eq!(e.message(), "Invalid Signature-Key format: bad label=hwk");
    let e = parse_signature_key("sig=(kty=\"OKP\")").unwrap_err();
    assert_eq!(e.message(), "Missing scheme in Signature-Key: (kty=\"OKP\")");
}
