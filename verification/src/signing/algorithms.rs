//! Signature algorithm identifiers (AAuth section 10.2).
//!
//! Implementations must support ed25519 and may support the others. Keys of
//! this library sign with ed25519, ecdsa-p256-sha256 and ecdsa-p384-sha384;
//! the RSA-PSS identifiers are recognized but RSA keys are not supported.

use vstd::prelude::*;

verus! {

pub const ED25519: &'static str = "ed25519";

pub const RSA_PSS_SHA512: &'static str = "rsa-pss-sha512";

pub const RSA_PSS_SHA256: &'static str = "rsa-pss-sha256";

pub const ECDSA_P256_SHA256: &'static str = "ecdsa-p256-sha256";

pub const ECDSA_P384_SHA384: &'static str = "ecdsa-p384-sha384";

/// The algorithm every implementation must support.
pub const REQUIRED_ALGORITHM: &'static str = "ed25519";

/// All algorithm identifiers the specification recognizes.
pub const SUPPORTED_ALGORITHMS: [&'static str; 5] = [
    "ed25519",
    "rsa-pss-sha512",
    "rsa-pss-sha256",
    "ecdsa-p256-sha256",
    "ecdsa-p384-sha384",
];

/// The ASCII lower-case form of a character (others are unchanged).
pub open spec fn ascii_lower(c: char) -> char {
    if 'A' <= c && c <= 'Z' {
        ((c as int) + 32) as char
    } else {
        c
    }
}

/// Equality up to ASCII case, as `str::eq_ignore_ascii_case` decides it.
pub open spec fn eq_ignore_ascii_case(a: Seq<char>, b: Seq<char>) -> bool {
    a.len() == b.len() && forall|i: int| 0 <= i < a.len() ==> ascii_lower(a[i]) == ascii_lower(b[i])
}

/// The recognized algorithm identifiers.
pub open spec fn supported_names() -> Seq<Seq<char>> {
    seq![
        "ed25519"@,
        "rsa-pss-sha512"@,
        "rsa-pss-sha256"@,
        "ecdsa-p256-sha256"@,
        "ecdsa-p384-sha384"@,
    ]
}

/// Whether an identifier is recognized, ignoring ASCII case.
pub open spec fn supported_spec(algorithm: Seq<char>) -> bool {
    exists|i: int| 0 <= i < 5 && eq_ignore_ascii_case(#[trigger] supported_names()[i], algorithm)
}

/// Recognition ignores ASCII case: identifiers equal up to case are
/// recognized alike.
pub proof fn lemma_supported_ignores_case(a: Seq<char>, b: Seq<char>)
    requires
        eq_ignore_ascii_case(a, b),
    ensures
        supported_spec(a) == supported_spec(b),
{
    if supported_spec(a) {
        let i = choose|i: int| 0 <= i < 5 && eq_ignore_ascii_case(#[trigger] supported_names()[i], a);
        assert(eq_ignore_ascii_case(supported_names()[i], b));
    }
    if supported_spec(b) {
        let i = choose|i: int| 0 <= i < 5 && eq_ignore_ascii_case(#[trigger] supported_names()[i], b);
        assert(eq_ignore_ascii_case(supported_names()[i], a));
    }
}

fn ascii_lower_char(c: char) -> (r: char)
    ensures
        r == ascii_lower(c),
{
    if 'A' <= c && c <= 'Z' {
        ((c as u8) + 32u8) as char
    } else {
        c
    }
}

/// `a` and `b` are equal up to ASCII case.
pub fn eq_ignore_ascii_case_str(a: &str, b: &str) -> (r: bool)
    ensures
        r == eq_ignore_ascii_case(a@, b@),
{
    let va = crate::text::chars_of(a);
    let vb = crate::text::chars_of(b);
    if va.len() != vb.len() {
        return false;
    }
    let mut i: usize = 0;
    while i < va.len()
        invariant
            i <= va@.len() == vb@.len(),
            va@ == a@,
            vb@ == b@,
            forall|j: int| 0 <= j < i ==> ascii_lower(va@[j]) == ascii_lower(vb@[j]),
        decreases va.len() - i,
    {
        if ascii_lower_char(va[i]) != ascii_lower_char(vb[i]) {
            return false;
        }
        i += 1;
    }
    true
}

/// Whether an algorithm identifier is recognized, ignoring ASCII case.
pub fn is_supported(algorithm: &str) -> (r: bool)
    ensures
        r == supported_spec(algorithm@),
{
    let names = SUPPORTED_ALGORITHMS;
    let mut i: usize = 0;
    while i < 5
        invariant
            i <= 5,
            names@ =~= seq![
                "ed25519",
                "rsa-pss-sha512",
                "rsa-pss-sha256",
                "ecdsa-p256-sha256",
                "ecdsa-p384-sha384",
            ],
            forall|j: int| 0 <= j < i ==> !eq_ignore_ascii_case(#[trigger] supported_names()[j], algorithm@),
        decreases 5 - i,
    {
        if eq_ignore_ascii_case_str(names[i], algorithm) {
            assert(names@[i as int]@ == supported_names()[i as int]);
            return true;
        }
        i += 1;
    }
    false
}

} // verus!
