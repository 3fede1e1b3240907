//! The `Signature` header (RFC 9421 section 4.2).

use crate::codec::{
    b64std_decode, b64std_decode_spec, b64std_nopad_decode, b64std_nopad_decode_spec,
    b64url_decode, b64url_decode_spec, b64url_encode, b64url_encode_spec, is_b64url_char,
};
use crate::errors::AAuthError;
use crate::text::{
    chars_of, find, find_char, is_ws, lemma_find_at, lemma_strip_trailing_none,
    lemma_trim_unchanged, string_of_range, strip_trailing, strip_trailing_at, trim, trim_at,
};
use vstd::prelude::*;

verus! {

/// The bytes of base64 text read leniently: URL-safe or standard alphabet,
/// padded or not. The URL-safe reading and the unpadded standard reading
/// see the text without its trailing `=`.
pub open spec fn decode_lenient_spec(text: Seq<char>) -> Option<Seq<u8>> {
    let trimmed = strip_trailing(text, '=');
    match b64url_decode_spec(trimmed) {
        Some(b) => Some(b),
        None => match b64std_decode_spec(text) {
            Some(b) => Some(b),
            None => b64std_nopad_decode_spec(trimmed),
        },
    }
}

/// The `Signature` value `label=:base64url:` for signature bytes.
pub open spec fn signature_header_spec(bytes: Seq<u8>, label: Seq<char>) -> Seq<char> {
    label + "=:"@ + b64url_encode_spec(bytes) + ":"@
}

/// A label that reads back from a `Signature` value: no `=`, and no
/// whitespace at either end.
pub open spec fn plain_label(label: Seq<char>) -> bool {
    &&& forall|i: int| 0 <= i < label.len() ==> label[i] != '='
    &&& label.len() > 0 ==> !is_ws(label[0]) && !is_ws(label[label.len() - 1])
}

/// What `parse_signature` reads from a `Signature` value: the label before
/// the first `=` (which must equal `expected` when one is given), then the
/// signature between colons, decoded leniently. `None` where it fails.
pub open spec fn parse_signature_spec(header: Seq<char>, expected: Option<Seq<char>>) -> Option<
    Seq<u8>,
> {
    let value = trim(header);
    match find(value, '=') {
        None => None,
        Some(eq) => {
            let found = trim(value.take(eq));
            let rest = trim(value.skip(eq + 1));
            if expected is Some && found != expected->0 {
                None
            } else if rest.len() >= 2 && rest[0] == ':' && rest[rest.len() - 1] == ':' {
                decode_lenient_spec(rest.subrange(1, rest.len() - 1))
            } else {
                None
            }
        },
    }
}

/// Builds a `Signature` header value; the signature bytes are base64url
/// without padding. Parsing the value with its label gives the bytes back.
pub fn build_signature_header(signature_bytes: &[u8], label: &str) -> (header: String)
    requires
        signature_bytes@.len() <= usize::MAX / 2,
    ensures
        header@ == signature_header_spec(signature_bytes@, label@),
        plain_label(label@) ==> parse_signature_spec(header@, Some(label@)) == Some(
            signature_bytes@,
        ),
        plain_label(label@) ==> parse_signature_spec(header@, None) == Some(signature_bytes@),
{
    let encoded = b64url_encode(signature_bytes);
    let mut header = label.to_owned();
    header.append("=:");
    header.append(encoded.as_str());
    header.append(":");
    proof {
        if plain_label(label@) {
            lemma_signature_roundtrip(label@, encoded@, signature_bytes@);
        }
    }
    header
}

proof fn lemma_signature_roundtrip(label: Seq<char>, enc: Seq<char>, bytes: Seq<u8>)
    requires
        plain_label(label),
        forall|i: int| 0 <= i < enc.len() ==> is_b64url_char(#[trigger] enc[i]),
        b64url_decode_spec(enc) == Some(bytes),
    ensures
        parse_signature_spec(label + "=:"@ + enc + ":"@, Some(label)) == Some(bytes),
        parse_signature_spec(label + "=:"@ + enc + ":"@, None) == Some(bytes),
{
    reveal_strlit("=:");
    reveal_strlit(":");
    let h = label + "=:"@ + enc + ":"@;
    assert(h.len() > 0);
    assert(h[h.len() - 1] == ':');
    if label.len() > 0 {
        assert(h[0] == label[0]);
    } else {
        assert(h[0] == '=');
    }
    lemma_trim_unchanged(h);
    assert(h[label.len() as int] == '=');
    lemma_find_at(h, '=', label.len() as int);
    assert(h.take(label.len() as int) =~= label);
    lemma_trim_unchanged(label);
    let rest = h.skip(label.len() as int + 1);
    assert(rest =~= seq![':'] + enc + seq![':']);
    lemma_trim_unchanged(rest);
    assert(rest.subrange(1, rest.len() - 1) =~= enc);
    assert forall|i: int| 0 <= i < enc.len() implies enc[i] != '=' by {
        assert(is_b64url_char(enc[i]));
    }
    lemma_strip_trailing_none(enc, '=');
}

/// `n` padding characters `=`.
pub open spec fn padding(n: nat) -> Seq<char> {
    Seq::new(n, |i: int| '=')
}

proof fn lemma_strip_padding(t: Seq<char>, n: nat)
    requires
        t.len() == 0 || t[t.len() - 1] != '=',
    ensures
        strip_trailing(t + padding(n), '=') == t,
    decreases n,
{
    let s = t + padding(n);
    if n == 0 {
        assert(s =~= t);
    } else {
        assert(s[s.len() - 1] == '=');
        assert(s.subrange(0, s.len() - 1) =~= t + padding((n - 1) as nat));
        lemma_strip_padding(t, (n - 1) as nat);
    }
}

/// Padding does not change what a `Signature` value decodes to: when `t`
/// is URL-safe base64 text that decodes (unpadded) to bytes `b`, the value
/// `label=:t:` followed by any number of `=` before the closing colon
/// parses to `b`, with or without the expected label.
pub proof fn lemma_signature_padding(label: Seq<char>, t: Seq<char>, n: nat, b: Seq<u8>)
    requires
        plain_label(label),
        forall|i: int| 0 <= i < t.len() ==> is_b64url_char(#[trigger] t[i]),
        b64url_decode_spec(t) == Some(b),
    ensures
        parse_signature_spec(label + "=:"@ + t + padding(n) + ":"@, Some(label)) == Some(b),
        parse_signature_spec(label + "=:"@ + t + padding(n) + ":"@, None) == Some(b),
{
    reveal_strlit("=:");
    reveal_strlit(":");
    let enc = t + padding(n);
    let h = label + "=:"@ + enc + ":"@;
    assert(h =~= label + "=:"@ + t + padding(n) + ":"@);
    assert(h.len() > 0);
    assert(h[h.len() - 1] == ':');
    if label.len() > 0 {
        assert(h[0] == label[0]);
    } else {
        assert(h[0] == '=');
    }
    lemma_trim_unchanged(h);
    assert(h[label.len() as int] == '=');
    lemma_find_at(h, '=', label.len() as int);
    assert(h.take(label.len() as int) =~= label);
    lemma_trim_unchanged(label);
    let rest = h.skip(label.len() as int + 1);
    assert(rest =~= seq![':'] + enc + seq![':']);
    lemma_trim_unchanged(rest);
    assert(rest.subrange(1, rest.len() - 1) =~= enc);
    if t.len() > 0 {
        assert(is_b64url_char(t[t.len() - 1]));
    }
    lemma_strip_padding(t, n);
}

/// Reads base64 leniently: URL-safe or standard alphabet, padded or not.
fn decode_b64_lenient(v: &Vec<char>, lo: usize, hi: usize) -> (r: Option<Vec<u8>>)
    requires
        lo <= hi <= v.len(),
    ensures
        match r {
            Some(b) => decode_lenient_spec(v@.subrange(lo as int, hi as int)) == Some(b@),
            None => decode_lenient_spec(v@.subrange(lo as int, hi as int)) is None,
        },
{
    let end = strip_trailing_at(v, lo, hi, '=');
    let trimmed = string_of_range(v, lo, end);
    if let Ok(b) = b64url_decode(trimmed.as_str()) {
        return Some(b);
    }
    let full = string_of_range(v, lo, hi);
    if let Some(b) = b64std_decode(full.as_str()) {
        return Some(b);
    }
    b64std_nopad_decode(trimmed.as_str())
}

/// Parses a `Signature` header value, returning the raw signature bytes.
/// When `label` is given, the header's label must match it.
pub fn parse_signature(header_value: &str, label: Option<&str>) -> (r: Result<Vec<u8>, AAuthError>)
    ensures
        match r {
            Ok(b) => parse_signature_spec(
                header_value@,
                match label {
                    Some(l) => Some(l@),
                    None => None,
                },
            ) == Some(b@),
            Err(_) => parse_signature_spec(
                header_value@,
                match label {
                    Some(l) => Some(l@),
                    None => None,
                },
            ) is None,
        },
{
    let v = chars_of(header_value);
    let (a, b) = trim_at(&v, 0, v.len());
    let ghost value = v@.subrange(a as int, b as int);
    assert(v@.subrange(0, v@.len() as int) =~= v@);
    let eq = match find_char(&v, a, b, '=') {
        Some(eq) => eq,
        None => return Err(AAuthError::signature_with("Invalid Signature format: ", header_value)),
    };
    let (la, lb) = trim_at(&v, a, eq);
    let (ra, rb) = trim_at(&v, eq + 1, b);
    assert(v@.subrange(a as int, eq as int) =~= value.take(eq - a));
    assert(v@.subrange(eq + 1, b as int) =~= value.skip(eq - a + 1));
    if let Some(expected) = label {
        let found = string_of_range(&v, la, lb);
        if found != expected.to_owned() {
            let mut m = "Label mismatch: expected ".to_owned();
            m.append(expected);
            m.append(", got ");
            m.append(found.as_str());
            return Err(AAuthError::Signature(m));
        }
    }
    if !(rb - ra >= 2 && v[ra] == ':' && v[rb - 1] == ':') {
        return Err(AAuthError::signature_with("Invalid Signature format: ", header_value));
    }
    assert(v@.subrange(ra + 1, rb - 1) =~= v@.subrange(ra as int, rb as int).subrange(
        1,
        (rb - ra - 1) as int,
    ));
    match decode_b64_lenient(&v, ra + 1, rb - 1) {
        Some(bytes) => Ok(bytes),
        None => {
            let inner = string_of_range(&v, ra + 1, rb - 1);
            Err(AAuthError::signature_with("Failed to decode signature: ", inner.as_str()))
        },
    }
}

} // verus!
