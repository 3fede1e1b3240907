//! The `Signature-Key` header: building and parsing.
//!
//! Schemes (draft-hardt-httpbis-signature-key):
//! - `hwk`: the public key inline (pseudonymous)
//! - `jkt-jwt`: self-issued key delegation from an enclave key (pseudonymous)
//! - `jwks_uri`: a JWKS endpoint to look the key up (identity)
//! - `jwt`: a JWT with the public key in its `cnf` claim (identity)
//! - `x509`: an X.509 certificate reference (built only)

use crate::codec::b64url_encode_spec;
use crate::errors::AAuthError;
use crate::keys::jwk::{crv_name, kty_name, ov, private_key_to_jwk};
use crate::keys::keypair::{public_of, KeyAlgorithm, PrivateKey};
use crate::params::ParamMap;
use crate::signing::input::{is_label_char, valid_label};
use crate::text::{
    chars_of, find, find_char, is_ws, is_ws_char, lemma_find, lemma_find_at, lemma_find_none,
    lemma_trim_unchanged, push_char, string_of_range, trim, trim_at, trim_start,
    trim_start_at,
};
use vstd::prelude::*;

verus! {

/// The key discovery scheme carried in a `Signature-Key` header.
#[derive(Debug, Clone)]
pub enum SigScheme<'a> {
    /// The public key of the signing key, inline (pseudonymous).
    Hwk,
    /// A self-issued key-delegation JWT from an enclave key (pseudonymous).
    JktJwt { jwt: &'a str },
    /// JWKS discovery: signer identifier, well-known metadata document name, key id.
    JwksUri { id: &'a str, dwk: &'a str, kid: &'a str },
    /// A JWT with a `cnf.jwk` confirmation key (agent token or auth token).
    Jwt { jwt: &'a str },
    /// An X.509 certificate reference (`x5t` is base64, written as `:b64:`).
    X509 { x5u: &'a str, x5t: &'a str },
}

/// The scheme token as it appears in the header.
pub open spec fn scheme_name(scheme: SigScheme) -> Seq<char> {
    match scheme {
        SigScheme::Hwk => "hwk"@,
        SigScheme::JktJwt { .. } => "jkt-jwt"@,
        SigScheme::JwksUri { .. } => "jwks_uri"@,
        SigScheme::Jwt { .. } => "jwt"@,
        SigScheme::X509 { .. } => "x509"@,
    }
}

impl SigScheme<'_> {
    /// The scheme token as it appears in the header.
    pub fn name(&self) -> (name: &'static str)
        ensures
            name@ == scheme_name(*self),
    {
        match self {
            SigScheme::Hwk => "hwk",
            SigScheme::JktJwt { .. } => "jkt-jwt",
            SigScheme::JwksUri { .. } => "jwks_uri",
            SigScheme::Jwt { .. } => "jwt",
            SigScheme::X509 { .. } => "x509",
        }
    }
}

/// A character as it stands inside an RFC 8941 quoted string.
pub open spec fn escape_char(c: char) -> Seq<char> {
    if c == '\\' {
        seq!['\\', '\\']
    } else if c == '"' {
        seq!['\\', '"']
    } else {
        seq![c]
    }
}

/// A value escaped for an RFC 8941 quoted string: `\` and `"` get a
/// backslash before them.
pub open spec fn escape_spec(s: Seq<char>) -> Seq<char>
    decreases s.len(),
{
    if s.len() == 0 {
        Seq::empty()
    } else {
        escape_char(s[0]) + escape_spec(s.subrange(1, s.len() as int))
    }
}

proof fn lemma_escape_push(s: Seq<char>, c: char)
    ensures
        escape_spec(s.push(c)) == escape_spec(s) + escape_char(c),
    decreases s.len(),
{
    if s.len() == 0 {
        assert(s.push(c).subrange(1, 1) =~= Seq::<char>::empty());
        assert(s.push(c)[0] == c);
        assert(escape_spec(Seq::<char>::empty()) == Seq::<char>::empty());
        assert(escape_spec(s.push(c)) == escape_char(c) + escape_spec(Seq::<char>::empty()));
        assert(escape_spec(s.push(c)) =~= escape_char(c));
    } else {
        let t = s.subrange(1, s.len() as int);
        lemma_escape_push(t, c);
        assert(s.push(c).subrange(1, s.len() as int + 1) =~= t.push(c));
        assert(escape_spec(s.push(c)) =~= escape_spec(s) + escape_char(c));
    }
}

/// Escapes a value for use inside an RFC 8941 quoted string.
fn escape_sf_string(value: &str) -> (r: String)
    ensures
        r@ == escape_spec(value@),
{
    let v = chars_of(value);
    let mut out = String::new();
    let mut i: usize = 0;
    while i < v.len()
        invariant
            i <= v@.len(),
            v@ == value@,
            out@ == escape_spec(v@.take(i as int)),
        decreases v.len() - i,
    {
        proof {
            lemma_escape_push(v@.take(i as int), v@[i as int]);
            assert(v@.take(i + 1) =~= v@.take(i as int).push(v@[i as int]));
        }
        let c = v[i];
        if c == '\\' {
            push_char(&mut out, '\\');
            push_char(&mut out, '\\');
        } else if c == '"' {
            push_char(&mut out, '\\');
            push_char(&mut out, '"');
        } else {
            push_char(&mut out, c);
        }
        assert(out@ =~= escape_spec(v@.take(i + 1)));
        i += 1;
    }
    assert(v@.take(v@.len() as int) =~= v@);
    out
}

/// One parameter `key="escaped value"`.
pub open spec fn param_text(p: (Seq<char>, Seq<char>)) -> Seq<char> {
    p.0 + seq!['=', '"'] + escape_spec(p.1) + seq!['"']
}

/// Parameters joined by `;`.
pub open spec fn format_params_spec(pairs: Seq<(Seq<char>, Seq<char>)>) -> Seq<char>
    decreases pairs.len(),
{
    if pairs.len() == 0 {
        Seq::empty()
    } else if pairs.len() == 1 {
        param_text(pairs[0])
    } else {
        param_text(pairs[0]) + seq![';'] + format_params_spec(pairs.subrange(1, pairs.len() as int))
    }
}

proof fn lemma_format_params_push(s: Seq<(Seq<char>, Seq<char>)>, p: (Seq<char>, Seq<char>))
    ensures
        format_params_spec(s.push(p)) == if s.len() == 0 {
            param_text(p)
        } else {
            format_params_spec(s) + seq![';'] + param_text(p)
        },
    decreases s.len(),
{
    let t = s.push(p);
    if s.len() == 1 {
        assert(t.subrange(1, 2) =~= seq![p]);
        assert(t[0] == s[0]);
        assert(format_params_spec(seq![p]) == param_text(seq![p][0]));
        assert(format_params_spec(t) =~= format_params_spec(s) + seq![';'] + param_text(p));
    } else if s.len() > 1 {
        let tail = s.subrange(1, s.len() as int);
        lemma_format_params_push(tail, p);
        assert(t.subrange(1, t.len() as int) =~= tail.push(p));
        assert(t[0] == s[0]);
        assert(format_params_spec(t) =~= format_params_spec(s) + seq![';'] + param_text(p));
    }
}

/// The views of `(name, value)` pairs.
pub open spec fn pair_views(pairs: Seq<(&str, &str)>) -> Seq<(Seq<char>, Seq<char>)> {
    pairs.map_values(|p: (&str, &str)| (p.0@, p.1@))
}

/// `key="value";...` for the pairs, values escaped.
fn format_sf_parameters(pairs: &[(&str, &str)]) -> (r: String)
    ensures
        r@ == format_params_spec(pair_views(pairs@)),
{
    let ghost pv = pair_views(pairs@);
    let mut out = String::new();
    let mut i: usize = 0;
    while i < pairs.len()
        invariant
            i <= pairs@.len(),
            pv == pair_views(pairs@),
            out@ == format_params_spec(pv.take(i as int)),
        decreases pairs.len() - i,
    {
        proof {
            lemma_format_params_push(pv.take(i as int), pv[i as int]);
            assert(pv.take(i + 1) =~= pv.take(i as int).push(pv[i as int]));
        }
        let (k, v) = pairs[i];
        if i > 0 {
            push_char(&mut out, ';');
        }
        out.append(k);
        push_char(&mut out, '=');
        push_char(&mut out, '"');
        let e = escape_sf_string(v);
        out.append(e.as_str());
        push_char(&mut out, '"');
        assert(out@ =~= format_params_spec(pv.take(i + 1)));
        i += 1;
    }
    assert(pv.take(pairs@.len() as int) =~= pv);
    out
}

/// A separator skipped before a parameter: space, tab or `;`.
pub open spec fn is_sep(c: char) -> bool {
    c == ' ' || c == '\t' || c == ';'
}

/// `s` without its leading separators.
pub open spec fn drop_seps(s: Seq<char>) -> Seq<char>
    decreases s.len(),
{
    if s.len() > 0 && is_sep(s[0]) {
        drop_seps(s.subrange(1, s.len() as int))
    } else {
        s
    }
}

pub proof fn lemma_drop_seps_len(s: Seq<char>)
    ensures
        drop_seps(s).len() <= s.len(),
    decreases s.len(),
{
    if s.len() > 0 && is_sep(s[0]) {
        lemma_drop_seps_len(s.subrange(1, s.len() as int));
    }
}

/// The value of an RFC 8941 quoted string whose opening quote is just
/// before `t`, and how many characters of `t` it takes, the closing quote
/// included. A backslash takes the next character as it is; a string left
/// open runs to the end.
pub open spec fn unquote(t: Seq<char>) -> (Seq<char>, int)
    decreases t.len(),
{
    if t.len() == 0 {
        (Seq::empty(), 0)
    } else if t[0] == '\\' && t.len() > 1 {
        let (b, n) = unquote(t.subrange(2, t.len() as int));
        (seq![t[1]] + b, n + 2)
    } else if t[0] == '"' {
        (Seq::empty(), 1)
    } else {
        let (b, n) = unquote(t.subrange(1, t.len() as int));
        (seq![t[0]] + b, n + 1)
    }
}

pub proof fn lemma_unquote_len(t: Seq<char>)
    ensures
        0 <= unquote(t).1 <= t.len(),
    decreases t.len(),
{
    if t.len() > 0 {
        if t[0] == '\\' && t.len() > 1 {
            lemma_unquote_len(t.subrange(2, t.len() as int));
        } else if t[0] != '"' {
            lemma_unquote_len(t.subrange(1, t.len() as int));
        }
    }
}

/// The parameters of RFC 8941 Item parameters `s` (after the scheme token),
/// added to `acc` in order: separators are skipped, then `key=` (the key
/// trimmed) with a quoted string or a bare value up to `;` (trimmed). A part
/// without `=` ends the list.
pub open spec fn sf_run(s: Seq<char>, acc: Map<Seq<char>, Seq<char>>) -> Map<Seq<char>, Seq<char>>
    decreases s.len(),
{
    let s1 = drop_seps(s);
    proof {
        lemma_drop_seps_len(s);
    }
    if s1.len() == 0 {
        acc
    } else {
        match find(s1, '=') {
            None => acc,
            Some(e) => {
                proof {
                    lemma_find(s1, '=');
                }
                if 0 <= e < s1.len() {
                    let key = trim(s1.take(e));
                    let r = s1.subrange(e + 1, s1.len() as int);
                    if r.len() == 0 {
                        acc.insert(key, Seq::empty())
                    } else if r[0] == '"' {
                        let t = r.subrange(1, r.len() as int);
                        proof {
                            lemma_unquote_len(t);
                        }
                        let used = unquote(t).1;
                        if 0 <= used <= t.len() {
                            sf_run(t.subrange(used, t.len() as int), acc.insert(key, unquote(t).0))
                        } else {
                            acc
                        }
                    } else {
                        match find(r, ';') {
                            Some(p) => {
                                proof {
                                    lemma_find(r, ';');
                                }
                                if 0 <= p < r.len() {
                                    sf_run(
                                        r.subrange(p, r.len() as int),
                                        acc.insert(key, trim(r.take(p))),
                                    )
                                } else {
                                    acc
                                }
                            },
                            None => acc.insert(key, trim(r)),
                        }
                    }
                } else {
                    acc
                }
            },
        }
    }
}

/// Start of `v[lo..hi]` once its leading separators are dropped.
fn drop_seps_at(v: &Vec<char>, lo: usize, hi: usize) -> (r: usize)
    requires
        lo <= hi <= v.len(),
    ensures
        lo <= r <= hi,
        v@.subrange(r as int, hi as int) == drop_seps(v@.subrange(lo as int, hi as int)),
{
    let mut i = lo;
    while i < hi && (v[i] == ' ' || v[i] == '\t' || v[i] == ';')
        invariant
            lo <= i <= hi <= v.len(),
            drop_seps(v@.subrange(i as int, hi as int)) == drop_seps(v@.subrange(lo as int, hi as int)),
        decreases hi - i,
    {
        assert(v@.subrange(i + 1, hi as int) =~= v@.subrange(i as int, hi as int).subrange(
            1,
            (hi - i) as int,
        ));
        i += 1;
    }
    i
}

/// Reads the quoted string whose opening quote is just before `v[lo]`:
/// its value, and the index just past it.
fn unquote_at(v: &Vec<char>, lo: usize, hi: usize) -> (r: (String, usize))
    requires
        lo <= hi <= v.len(),
    ensures
        lo <= r.1 <= hi,
        unquote(v@.subrange(lo as int, hi as int)) == (r.0@, r.1 - lo),
{
    let mut buf = String::new();
    let mut j = lo;
    loop
        invariant_except_break
            unquote(v@.subrange(lo as int, hi as int)) == (
                buf@ + unquote(v@.subrange(j as int, hi as int)).0,
                (j - lo) + unquote(v@.subrange(j as int, hi as int)).1,
            ),
        invariant
            lo <= j <= hi <= v.len(),
        ensures
            lo <= j <= hi,
            unquote(v@.subrange(lo as int, hi as int)) == (buf@, j - lo),
        decreases hi - j,
    {
        let ghost t = v@.subrange(j as int, hi as int);
        let ghost b0 = buf@;
        if j >= hi {
            assert(t =~= Seq::<char>::empty());
            assert(b0 + Seq::<char>::empty() =~= b0);
            break;
        }
        let c = v[j];
        if c == '\\' && j + 1 < hi {
            assert(t.subrange(2, t.len() as int) =~= v@.subrange(j + 2, hi as int));
            push_char(&mut buf, v[j + 1]);
            proof {
                let u = unquote(v@.subrange(j + 2, hi as int));
                assert(b0 + (seq![t[1]] + u.0) =~= buf@ + u.0);
            }
            j += 2;
        } else if c == '"' {
            assert(b0 + Seq::<char>::empty() =~= b0);
            j += 1;
            break;
        } else {
            assert(t.subrange(1, t.len() as int) =~= v@.subrange(j + 1, hi as int));
            push_char(&mut buf, c);
            proof {
                let u = unquote(v@.subrange(j + 1, hi as int));
                assert(b0 + (seq![t[0]] + u.0) =~= buf@ + u.0);
            }
            j += 1;
        }
    }
    (buf, j)
}

/// Parses RFC 8941 Item parameters `v[lo..hi]` after the scheme token.
fn parse_sf_parameters(v: &Vec<char>, lo: usize, hi: usize) -> (params: ParamMap)
    requires
        lo <= hi <= v.len(),
    ensures
        params@ == sf_run(v@.subrange(lo as int, hi as int), Map::empty()),
{
    let mut params = ParamMap::new();
    let mut i = lo;
    loop
        invariant
            lo <= i <= hi <= v.len(),
            sf_run(v@.subrange(lo as int, hi as int), Map::empty()) == sf_run(
                v@.subrange(i as int, hi as int),
                params@,
            ),
        ensures
            sf_run(v@.subrange(lo as int, hi as int), Map::empty()) == params@,
        decreases hi - i,
    {
        let ghost s = v@.subrange(i as int, hi as int);
        let j = drop_seps_at(v, i, hi);
        let ghost s1 = v@.subrange(j as int, hi as int);
        if j >= hi {
            break;
        }
        let e = match find_char(v, j, hi, '=') {
            Some(e) => e,
            None => {
                break;
            },
        };
        proof {
            lemma_find(s1, '=');
        }
        assert(s1.take(e - j) =~= v@.subrange(j as int, e as int));
        let ghost r = v@.subrange(e + 1, hi as int);
        assert(s1.subrange(e - j + 1, s1.len() as int) =~= r);
        let (ka, kb) = trim_at(v, j, e);
        let key = string_of_range(v, ka, kb);
        if e + 1 >= hi {
            assert(r.len() == 0);
            params.insert(key, String::new());
            break;
        }
        if v[e + 1] == '"' {
            let (buf, next) = unquote_at(v, e + 2, hi);
            let ghost t = v@.subrange(e + 2, hi as int);
            assert(r.subrange(1, r.len() as int) =~= t);
            assert(t.subrange(next - (e + 2), t.len() as int) =~= v@.subrange(next as int, hi as int));
            params.insert(key, buf);
            i = next;
        } else {
            match find_char(v, e + 1, hi, ';') {
                Some(p) => {
                    proof {
                        lemma_find(r, ';');
                    }
                    assert(r.take(p - e - 1) =~= v@.subrange(e + 1, p as int));
                    assert(r.subrange(p - e - 1, r.len() as int) =~= v@.subrange(p as int, hi as int));
                    let (va, vb) = trim_at(v, e + 1, p);
                    let value = string_of_range(v, va, vb);
                    params.insert(key, value);
                    i = p;
                },
                None => {
                    let (va, vb) = trim_at(v, e + 1, hi);
                    let value = string_of_range(v, va, vb);
                    params.insert(key, value);
                    break;
                },
            }
        }
    }
    params
}

/// Length of the key at the start of `s`: up to `=` or whitespace.
pub open spec fn key_end(s: Seq<char>) -> int
    decreases s.len(),
{
    if s.len() == 0 || s[0] == '=' || is_ws(s[0]) {
        0
    } else {
        1 + key_end(s.subrange(1, s.len() as int))
    }
}

/// Length of the bare value at the start of `s`: up to whitespace or `)`.
pub open spec fn token_end(s: Seq<char>) -> int
    decreases s.len(),
{
    if s.len() == 0 || is_ws(s[0]) || s[0] == ')' {
        0
    } else {
        1 + token_end(s.subrange(1, s.len() as int))
    }
}

pub proof fn lemma_key_end(s: Seq<char>)
    ensures
        0 <= key_end(s) <= s.len(),
        key_end(s) < s.len() ==> (s[key_end(s)] == '=' || is_ws(s[key_end(s)])),
    decreases s.len(),
{
    if !(s.len() == 0 || s[0] == '=' || is_ws(s[0])) {
        lemma_key_end(s.subrange(1, s.len() as int));
    }
}

pub proof fn lemma_token_end(s: Seq<char>)
    ensures
        0 <= token_end(s) <= s.len(),
    decreases s.len(),
{
    if !(s.len() == 0 || is_ws(s[0]) || s[0] == ')') {
        lemma_token_end(s.subrange(1, s.len() as int));
    }
}

pub proof fn lemma_trim_start_len(s: Seq<char>)
    ensures
        trim_start(s).len() <= s.len(),
    decreases s.len(),
{
    if s.len() > 0 && is_ws(s[0]) {
        lemma_trim_start_len(s.subrange(1, s.len() as int));
    }
}

/// The legacy inner list `scheme=hwk kty="..." ...` of `s`, read from the
/// state `(scheme, acc)`: whitespace-separated `key=value` members, a value
/// quoted (no escapes) or bare up to whitespace or `)`; the member named
/// `scheme` gives the scheme. A member without `=` ends the list.
pub open spec fn legacy_run(s: Seq<char>, scheme: Option<Seq<char>>, acc: Map<Seq<char>, Seq<char>>) -> (
    Option<Seq<char>>,
    Map<Seq<char>, Seq<char>>,
)
    decreases s.len(),
{
    let s1 = trim_start(s);
    proof {
        lemma_trim_start_len(s);
        lemma_key_end(s1);
    }
    let k = key_end(s1);
    if s1.len() == 0 || k >= s1.len() || k < 0 || s1[k] != '=' {
        (scheme, acc)
    } else {
        let key = s1.take(k);
        let r = s1.subrange(k + 1, s1.len() as int);
        let t = r.subrange(1, r.len() as int);
        proof {
            lemma_find(t, '"');
            lemma_token_end(r);
        }
        let value = if r.len() > 0 && r[0] == '"' {
            match find(t, '"') {
                Some(q) => t.take(q),
                None => t,
            }
        } else {
            r.take(token_end(r))
        };
        let rest = if r.len() > 0 && r[0] == '"' {
            match find(t, '"') {
                Some(q) => if 0 <= q < t.len() {
                    t.subrange(q + 1, t.len() as int)
                } else {
                    Seq::empty()
                },
                None => Seq::empty(),
            }
        } else if 0 <= token_end(r) <= r.len() {
            r.subrange(token_end(r), r.len() as int)
        } else {
            Seq::empty()
        };
        if key == "scheme"@ {
            legacy_run(rest, Some(value), acc)
        } else {
            legacy_run(rest, scheme, acc.insert(key, value))
        }
    }
}

/// End of the key at `v[lo]`: the first `=` or whitespace.
fn key_end_at(v: &Vec<char>, lo: usize, hi: usize) -> (r: usize)
    requires
        lo <= hi <= v.len(),
    ensures
        lo <= r <= hi,
        r - lo == key_end(v@.subrange(lo as int, hi as int)),
{
    let mut i = lo;
    while i < hi && v[i] != '=' && !is_ws_char(v[i])
        invariant
            lo <= i <= hi <= v.len(),
            key_end(v@.subrange(lo as int, hi as int)) == (i - lo) + key_end(
                v@.subrange(i as int, hi as int),
            ),
        decreases hi - i,
    {
        assert(v@.subrange(i + 1, hi as int) =~= v@.subrange(i as int, hi as int).subrange(
            1,
            (hi - i) as int,
        ));
        i += 1;
    }
    i
}

/// End of the bare value at `v[lo]`: the first whitespace or `)`.
fn token_end_at(v: &Vec<char>, lo: usize, hi: usize) -> (r: usize)
    requires
        lo <= hi <= v.len(),
    ensures
        lo <= r <= hi,
        r - lo == token_end(v@.subrange(lo as int, hi as int)),
{
    let mut i = lo;
    while i < hi && v[i] != ')' && !is_ws_char(v[i])
        invariant
            lo <= i <= hi <= v.len(),
            token_end(v@.subrange(lo as int, hi as int)) == (i - lo) + token_end(
                v@.subrange(i as int, hi as int),
            ),
        decreases hi - i,
    {
        assert(v@.subrange(i + 1, hi as int) =~= v@.subrange(i as int, hi as int).subrange(
            1,
            (hi - i) as int,
        ));
        i += 1;
    }
    i
}

/// Reads the legacy inner list `v[lo..hi]`: its scheme and parameters.
fn parse_inner_list_legacy(v: &Vec<char>, lo: usize, hi: usize) -> (r: (Option<String>, ParamMap))
    requires
        lo <= hi <= v.len(),
    ensures
        legacy_run(v@.subrange(lo as int, hi as int), None, Map::empty()) == (ov(r.0), r.1@),
{
    let mut params = ParamMap::new();
    let mut scheme: Option<String> = None;
    let mut i = lo;
    loop
        invariant
            lo <= i <= hi <= v.len(),
            legacy_run(v@.subrange(lo as int, hi as int), None, Map::empty()) == legacy_run(
                v@.subrange(i as int, hi as int),
                ov(scheme),
                params@,
            ),
        ensures
            legacy_run(v@.subrange(lo as int, hi as int), None, Map::empty()) == (
                ov(scheme),
                params@,
            ),
        decreases hi - i,
    {
        let ghost s = v@.subrange(i as int, hi as int);
        let j = trim_start_at(v, i, hi);
        let ghost s1 = v@.subrange(j as int, hi as int);
        let k = key_end_at(v, j, hi);
        proof {
            lemma_key_end(s1);
        }
        if j >= hi || k >= hi || v[k] != '=' {
            break;
        }
        assert(s1.take(k - j) =~= v@.subrange(j as int, k as int));
        let ghost r = v@.subrange(k + 1, hi as int);
        assert(s1.subrange(k - j + 1, s1.len() as int) =~= r);
        let key = string_of_range(v, j, k);
        let ghost t = r.subrange(1, r.len() as int);
        let value;
        if k + 1 < hi && v[k + 1] == '"' {
            assert(t =~= v@.subrange(k + 2, hi as int));
            match find_char(v, k + 2, hi, '"') {
                Some(q) => {
                    proof {
                        lemma_find(t, '"');
                    }
                    assert(t.take(q - k - 2) =~= v@.subrange(k + 2, q as int));
                    assert(t.subrange(q - k - 1, t.len() as int) =~= v@.subrange(q + 1, hi as int));
                    value = string_of_range(v, k + 2, q);
                    i = q + 1;
                },
                None => {
                    assert(v@.subrange(hi as int, hi as int) =~= Seq::<char>::empty());
                    value = string_of_range(v, k + 2, hi);
                    i = hi;
                },
            }
        } else {
            let e = token_end_at(v, k + 1, hi);
            assert(r.take(e - k - 1) =~= v@.subrange(k + 1, e as int));
            assert(r.subrange(e - k - 1, r.len() as int) =~= v@.subrange(e as int, hi as int));
            value = string_of_range(v, k + 1, e);
            i = e;
        }
        if key == "scheme".to_owned() {
            scheme = Some(value);
        } else {
            params.insert(key, value);
        }
    }
    (scheme, params)
}

/// A parsed `Signature-Key` header.
#[derive(Debug, Clone)]
pub struct ParsedSignatureKey {
    pub label: String,
    /// The scheme token (`hwk`, `jkt-jwt`, `jwks_uri`, `jwt`, `x509`).
    pub scheme: String,
    pub params: ParamMap,
}

impl Default for ParsedSignatureKey {
    fn default() -> (d: ParsedSignatureKey)
        ensures
            d.label@.len() == 0,
            d.scheme@.len() == 0,
            d.params@ == Map::<Seq<char>, Seq<char>>::empty(),
    {
        ParsedSignatureKey { label: String::new(), scheme: String::new(), params: ParamMap::new() }
    }
}

impl ParsedSignatureKey {
    /// The value of the parameter `name`, if present.
    pub fn param(&self, name: &str) -> (r: Option<&str>)
        ensures
            match r {
                Some(v) => self.params@.contains_key(name@) && self.params@[name@] == v@,
                None => !self.params@.contains_key(name@),
            },
    {
        self.params.get(name)
    }
}

/// What `parse_signature_key` reads from a `Signature-Key` value: the label
/// before the first `=` (trimmed, non-empty, of label characters); then either
/// the legacy inner list `(scheme=... ...)`, or the scheme token up to the
/// first `;` followed by RFC 8941 parameters. `None` where it fails.
pub open spec fn parse_signature_key_spec(h: Seq<char>) -> Option<
    (Seq<char>, Seq<char>, Map<Seq<char>, Seq<char>>),
> {
    let value = trim(h);
    match find(value, '=') {
        None => None,
        Some(eq) => {
            let label = trim(value.take(eq));
            let rest = trim(value.skip(eq + 1));
            if !valid_label(label) {
                None
            } else if rest.len() > 0 && rest[0] == '(' && rest[rest.len() - 1] == ')' {
                let run = legacy_run(rest.subrange(1, rest.len() - 1), None, Map::empty());
                match run.0 {
                    Some(sc) => Some((label, sc, run.1)),
                    None => None,
                }
            } else if rest.len() == 0 {
                None
            } else {
                match find(rest, ';') {
                    Some(p) => {
                        let sc = trim(rest.take(p));
                        if sc.len() == 0 {
                            None
                        } else {
                            Some((label, sc, sf_run(rest.skip(p + 1), Map::empty())))
                        }
                    },
                    None => Some((label, rest, sf_run(Seq::empty(), Map::empty()))),
                }
            }
        },
    }
}

/// Parses a `Signature-Key` header value: the form `label=scheme;param="value";...`
/// and the legacy inner-list form `label=(scheme=hwk ...)`.
#[verifier::rlimit(40)]
pub fn parse_signature_key(header_value: &str) -> (r: Result<ParsedSignatureKey, AAuthError>)
    ensures
        match r {
            Ok(k) => parse_signature_key_spec(header_value@) == Some((k.label@, k.scheme@, k.params@)),
            Err(_) => parse_signature_key_spec(header_value@) is None,
        },
{
    let v = chars_of(header_value);
    let n = v.len();
    assert(v@.subrange(0, n as int) =~= v@);
    let (a, b) = trim_at(&v, 0, n);
    let ghost value = v@.subrange(a as int, b as int);
    let eq = match find_char(&v, a, b, '=') {
        Some(eq) => eq,
        None => {
            let trimmed = string_of_range(&v, a, b);
            return Err(AAuthError::signature_with("Invalid Signature-Key format: ", trimmed.as_str()));
        },
    };
    assert(v@.subrange(a as int, eq as int) =~= value.take(eq - a));
    assert(v@.subrange(eq + 1, b as int) =~= value.skip(eq - a + 1));
    let (la, lb) = trim_at(&v, a, eq);
    let mut ok = lb > la;
    let mut i = la;
    while i < lb
        invariant
            la <= i <= lb <= v@.len(),
            ok ==> lb > la && forall|j: int| la <= j < i ==> is_label_char(#[trigger] v@[j]),
            !ok ==> !valid_label(v@.subrange(la as int, lb as int)),
        decreases lb - i,
    {
        let c = v[i];
        if !(('a' <= c && c <= 'z') || ('A' <= c && c <= 'Z') || ('0' <= c && c <= '9') || c == '_') {
            assert(v@.subrange(la as int, lb as int)[i - la] == c);
            ok = false;
        }
        i += 1;
    }
    if !ok {
        let trimmed = string_of_range(&v, a, b);
        return Err(AAuthError::signature_with("Invalid Signature-Key format: ", trimmed.as_str()));
    }
    proof {
        let l = v@.subrange(la as int, lb as int);
        assert forall|k: int| 0 <= k < l.len() implies is_label_char(#[trigger] l[k]) by {
            assert(l[k] == v@[k + la]);
        }
    }
    let (ra, rb) = trim_at(&v, eq + 1, b);
    let ghost rest = v@.subrange(ra as int, rb as int);
    let label = string_of_range(&v, la, lb);
    if rb > ra && v[ra] == '(' && v[rb - 1] == ')' {
        assert(rest.subrange(1, rest.len() - 1) =~= v@.subrange(ra + 1, rb - 1));
        let (scheme, params) = parse_inner_list_legacy(&v, ra + 1, rb - 1);
        return match scheme {
            Some(scheme) => Ok(ParsedSignatureKey { label, scheme, params }),
            None => {
                let mut m = "Missing scheme in Signature-Key: (".to_owned();
                let inner = string_of_range(&v, ra + 1, rb - 1);
                m.append(inner.as_str());
                m.append(")");
                Err(AAuthError::Signature(m))
            },
        };
    }
    if rb == ra {
        return Err(AAuthError::signature("Missing scheme in Signature-Key"));
    }
    match find_char(&v, ra, rb, ';') {
        Some(p) => {
            assert(rest.take(p - ra) =~= v@.subrange(ra as int, p as int));
            assert(rest.skip(p - ra + 1) =~= v@.subrange(p + 1, rb as int));
            let (sa, sb) = trim_at(&v, ra, p);
            if sa == sb {
                return Err(AAuthError::signature("Missing scheme in Signature-Key"));
            }
            let scheme = string_of_range(&v, sa, sb);
            let params = parse_sf_parameters(&v, p + 1, rb);
            Ok(ParsedSignatureKey { label, scheme, params })
        },
        None => {
            let scheme = string_of_range(&v, ra, rb);
            let params = parse_sf_parameters(&v, rb, rb);
            assert(v@.subrange(rb as int, rb as int) =~= Seq::<char>::empty());
            Ok(ParsedSignatureKey { label, scheme, params })
        },
    }
}

/// The `hwk` parameters of a public key: `kty`, `crv`, `x` and, for ECDSA, `y`.
pub open spec fn hwk_pairs(alg: KeyAlgorithm, x: Seq<u8>, y: Seq<u8>) -> Seq<(Seq<char>, Seq<char>)> {
    let base = seq![
        ("kty"@, kty_name(alg)),
        ("crv"@, crv_name(alg)),
        ("x"@, b64url_encode_spec(x)),
    ];
    if alg == KeyAlgorithm::Ed25519 {
        base
    } else {
        base.push(("y"@, b64url_encode_spec(y)))
    }
}

/// The quoted parameters of a scheme (`hwk` takes `hwk` as its own).
pub open spec fn scheme_pairs(scheme: SigScheme, hwk: Seq<(Seq<char>, Seq<char>)>) -> Seq<
    (Seq<char>, Seq<char>),
> {
    match scheme {
        SigScheme::Hwk => hwk,
        SigScheme::JktJwt { jwt } => seq![("jwt"@, jwt@)],
        SigScheme::JwksUri { id, dwk, kid } => seq![("id"@, id@), ("dwk"@, dwk@), ("kid"@, kid@)],
        SigScheme::Jwt { jwt } => seq![("jwt"@, jwt@)],
        SigScheme::X509 { x5u, .. } => seq![("x5u"@, x5u@)],
    }
}

/// The `Signature-Key` value `label=scheme;params`; `x509` ends with the
/// bare `x5t=:...:`.
pub open spec fn key_header_spec(
    scheme: SigScheme,
    label: Seq<char>,
    hwk: Seq<(Seq<char>, Seq<char>)>,
) -> Seq<char> {
    label + seq!['='] + scheme_name(scheme) + seq![';'] + format_params_spec(scheme_pairs(scheme, hwk))
        + match scheme {
        SigScheme::X509 { x5t, .. } => ";x5t=:"@ + x5t@ + seq![':'],
        _ => Seq::empty(),
    }
}

/// The parameters `pairs` insert into `acc`, in order.
pub open spec fn pairs_map(pairs: Seq<(Seq<char>, Seq<char>)>, acc: Map<Seq<char>, Seq<char>>) -> Map<
    Seq<char>,
    Seq<char>,
>
    decreases pairs.len(),
{
    if pairs.len() == 0 {
        acc
    } else {
        pairs_map(pairs.subrange(1, pairs.len() as int), acc.insert(pairs[0].0, pairs[0].1))
    }
}

/// The parameters that parsing a built header gives back.
pub open spec fn key_header_params(scheme: SigScheme, hwk: Seq<(Seq<char>, Seq<char>)>) -> Map<
    Seq<char>,
    Seq<char>,
> {
    let m = pairs_map(scheme_pairs(scheme, hwk), Map::empty());
    match scheme {
        SigScheme::X509 { x5t, .. } => m.insert("x5t"@, seq![':'] + x5t@ + seq![':']),
        _ => m,
    }
}

/// The `hwk` parameters of the public part of a private key, if any.
pub open spec fn hwk_of(private_key: Option<&PrivateKey>) -> Seq<(Seq<char>, Seq<char>)> {
    match private_key {
        Some(k) => hwk_pairs(k.alg(), public_of(k.alg(), k.secret()).0, public_of(k.alg(), k.secret()).1),
        None => Seq::empty(),
    }
}

/// An `x509` scheme's `x5t` holds no `;` (other schemes have none).
pub open spec fn x5t_readable(scheme: SigScheme) -> bool {
    scheme matches SigScheme::X509 { x5t, .. } ==> forall|i: int| 0 <= i < x5t@.len() ==> x5t@[i] != ';'
}

/// Builds a `Signature-Key` header value, an RFC 8941 Dictionary member
/// `label=scheme;param="value";...`. For `hwk` the public key parameters come
/// from `private_key`, which that scheme requires. With a valid label (and an
/// `x5t` without `;`), parsing the value gives label, scheme and parameters back.
pub fn build_signature_key_header(
    scheme: &SigScheme<'_>,
    private_key: Option<&PrivateKey>,
    label: &str,
) -> (r: Result<String, AAuthError>)
    ensures
        r is Err <==> (*scheme is Hwk && private_key is None),
        r matches Ok(h) ==> h@ == key_header_spec(*scheme, label@, hwk_of(private_key)),
        r matches Ok(h) ==> (valid_label(label@) && x5t_readable(*scheme) ==> parse_signature_key_spec(
            h@,
        ) == Some((label@, scheme_name(*scheme), key_header_params(*scheme, hwk_of(private_key))))),
{
    match scheme {
        SigScheme::Hwk => {
            let key = match private_key {
                Some(k) => k,
                None => return Err(AAuthError::signature("scheme=hwk requires a private key")),
            };
            let jwk = private_key_to_jwk(key, None);
            let crv = match &jwk.crv {
                Some(c) => c.as_str(),
                None => "",
            };
            let x = match &jwk.x {
                Some(x) => x.as_str(),
                None => "",
            };
            let mut pairs: Vec<(&str, &str)> = Vec::new();
            pairs.push(("kty", jwk.kty.as_str()));
            pairs.push(("crv", crv));
            pairs.push(("x", x));
            if let Some(y) = &jwk.y {
                pairs.push(("y", y.as_str()));
            }
            let ghost alg = key.alg();
            let ghost xy = public_of(alg, key.secret());
            assert(pair_views(pairs@) =~= hwk_pairs(alg, xy.0, xy.1));
            let mut out = label.to_owned();
            out.append("=hwk;");
            let params = format_sf_parameters(pairs.as_slice());
            out.append(params.as_str());
            proof {
                reveal_strlit("=hwk;");
                reveal_strlit("hwk");
                assert(out@ =~= key_header_spec(*scheme, label@, hwk_pairs(alg, xy.0, xy.1)));
            }
            proof {
                lemma_build_key_readback(*scheme, label@, private_key);
            }
            Ok(out)
        },
        SigScheme::JktJwt { jwt } => {
            let pairs = [("jwt", *jwt)];
            let mut out = label.to_owned();
            out.append("=jkt-jwt;");
            let params = format_sf_parameters(&pairs);
            out.append(params.as_str());
            proof {
                reveal_strlit("=jkt-jwt;");
                reveal_strlit("jkt-jwt");
                assert(pair_views(pairs@) =~= scheme_pairs(*scheme, Seq::empty()));
                assert(out@ =~= key_header_spec(*scheme, label@, Seq::empty()));
            }
            proof {
                lemma_build_key_readback(*scheme, label@, private_key);
            }
            Ok(out)
        },
        SigScheme::JwksUri { id, dwk, kid } => {
            let pairs = [("id", *id), ("dwk", *dwk), ("kid", *kid)];
            let mut out = label.to_owned();
            out.append("=jwks_uri;");
            let params = format_sf_parameters(&pairs);
            out.append(params.as_str());
            proof {
                reveal_strlit("=jwks_uri;");
                reveal_strlit("jwks_uri");
                assert(pair_views(pairs@) =~= scheme_pairs(*scheme, Seq::empty()));
                assert(out@ =~= key_header_spec(*scheme, label@, Seq::empty()));
            }
            proof {
                lemma_build_key_readback(*scheme, label@, private_key);
            }
            Ok(out)
        },
        SigScheme::Jwt { jwt } => {
            let pairs = [("jwt", *jwt)];
            let mut out = label.to_owned();
            out.append("=jwt;");
            let params = format_sf_parameters(&pairs);
            out.append(params.as_str());
            proof {
                reveal_strlit("=jwt;");
                reveal_strlit("jwt");
                assert(pair_views(pairs@) =~= scheme_pairs(*scheme, Seq::empty()));
                assert(out@ =~= key_header_spec(*scheme, label@, Seq::empty()));
            }
            proof {
                lemma_build_key_readback(*scheme, label@, private_key);
            }
            Ok(out)
        },
        SigScheme::X509 { x5u, x5t } => {
            let pairs = [("x5u", *x5u)];
            let mut out = label.to_owned();
            out.append("=x509;");
            let params = format_sf_parameters(&pairs);
            out.append(params.as_str());
            out.append(";x5t=:");
            out.append(x5t);
            push_char(&mut out, ':');
            proof {
                reveal_strlit("=x509;");
                reveal_strlit("x509");
                assert(pair_views(pairs@) =~= scheme_pairs(*scheme, Seq::empty()));
                assert(out@ =~= key_header_spec(*scheme, label@, Seq::empty()));
            }
            proof {
                lemma_build_key_readback(*scheme, label@, private_key);
            }
            Ok(out)
        },
    }
}

/// A parameter name that reads back: non-empty, without `=` or `;`, and
/// neither starting nor ending with whitespace.
pub open spec fn simple_key(k: Seq<char>) -> bool {
    &&& k.len() > 0
    &&& !is_ws(k[0])
    &&& !is_ws(k[k.len() - 1])
    &&& forall|i: int| 0 <= i < k.len() ==> k[i] != '=' && k[i] != ';'
}

/// All names of `pairs` read back.
pub open spec fn simple_keys(pairs: Seq<(Seq<char>, Seq<char>)>) -> bool {
    forall|i: int| 0 <= i < pairs.len() ==> simple_key(#[trigger] pairs[i].0)
}

proof fn lemma_unquote_escape(v: Seq<char>, rest: Seq<char>)
    ensures
        unquote(escape_spec(v) + seq!['"'] + rest) == (v, escape_spec(v).len() as int + 1),
    decreases v.len(),
{
    let t = escape_spec(v) + seq!['"'] + rest;
    if v.len() == 0 {
        assert(t =~= seq!['"'] + rest);
        assert(t[0] == '"');
    } else {
        let c = v[0];
        let w = v.subrange(1, v.len() as int);
        lemma_unquote_escape(w, rest);
        let inner = escape_spec(w) + seq!['"'] + rest;
        assert(t =~= escape_char(c) + inner);
        if c == '\\' || c == '"' {
            assert(t.subrange(2, t.len() as int) =~= inner);
            assert(t[1] == c);
        } else {
            assert(t.subrange(1, t.len() as int) =~= inner);
            assert(t[0] == c);
        }
        assert(seq![c] + w =~= v);
    }
}

proof fn lemma_sf_empty(acc: Map<Seq<char>, Seq<char>>)
    ensures
        sf_run(Seq::empty(), acc) == acc,
{
}

proof fn lemma_sf_one(k: Seq<char>, v: Seq<char>, after: Seq<char>, acc: Map<Seq<char>, Seq<char>>)
    requires
        simple_key(k),
        after.len() == 0 || after[0] == ';',
    ensures
        sf_run(param_text((k, v)) + after, acc) == sf_run(after, acc.insert(k, v)),
{
    let e = escape_spec(v);
    let s = param_text((k, v)) + after;
    assert(s =~= k + seq!['='] + (seq!['"'] + (e + seq!['"'] + after)));
    assert(drop_seps(s) == s) by {
        assert(s[0] == k[0]);
    }
    assert forall|j: int| 0 <= j < k.len() implies s[j] != '=' by {
        assert(s[j] == k[j]);
    }
    lemma_find_at(s, '=', k.len() as int);
    assert(s.take(k.len() as int) =~= k);
    lemma_trim_unchanged(k);
    let r = s.subrange(k.len() as int + 1, s.len() as int);
    assert(r =~= seq!['"'] + (e + seq!['"'] + after));
    let t = r.subrange(1, r.len() as int);
    assert(t =~= e + seq!['"'] + after);
    lemma_unquote_escape(v, after);
    assert(t.subrange(e.len() as int + 1, t.len() as int) =~= after);
}

proof fn lemma_sf_format(
    pairs: Seq<(Seq<char>, Seq<char>)>,
    more: Seq<char>,
    acc: Map<Seq<char>, Seq<char>>,
)
    requires
        pairs.len() > 0,
        simple_keys(pairs),
        more.len() == 0 || more[0] == ';',
    ensures
        sf_run(format_params_spec(pairs) + more, acc) == sf_run(more, pairs_map(pairs, acc)),
    decreases pairs.len(),
{
    assert(simple_key(pairs[0].0));
    let p0 = pairs[0];
    let rest = pairs.subrange(1, pairs.len() as int);
    if pairs.len() == 1 {
        lemma_sf_one(p0.0, p0.1, more, acc);
        assert(rest =~= Seq::<(Seq<char>, Seq<char>)>::empty());
        assert(format_params_spec(pairs) == param_text(p0));
        assert(pairs_map(pairs, acc) == pairs_map(rest, acc.insert(p0.0, p0.1)));
        assert(pairs_map(rest, acc.insert(p0.0, p0.1)) == acc.insert(p0.0, p0.1));
    } else {
        assert forall|i: int| 0 <= i < rest.len() implies simple_key(#[trigger] rest[i].0) by {
            assert(rest[i] == pairs[i + 1]);
        }
        let tail = seq![';'] + format_params_spec(rest) + more;
        assert(format_params_spec(pairs) + more =~= param_text(p0) + tail);
        lemma_sf_one(p0.0, p0.1, tail, acc);
        let acc1 = acc.insert(p0.0, p0.1);
        // `sf_run` skips the `;` before the next parameter.
        let nxt = format_params_spec(rest) + more;
        assert(tail.subrange(1, tail.len() as int) =~= nxt);
        assert(rest[0] == pairs[1]);
        assert(simple_key(rest[0].0));
        assert(format_params_spec(rest)[0] == rest[0].0[0]) by {
            if rest.len() == 1 {
                assert(format_params_spec(rest) == param_text(rest[0]));
            }
        }
        assert(nxt[0] == rest[0].0[0]);
        assert(drop_seps(nxt) == nxt);
        assert(drop_seps(tail) == drop_seps(nxt));
        lemma_sf_format(rest, more, acc1);
        assert(sf_run(tail, acc1) == sf_run(nxt, acc1)) by {
            lemma_sf_same_after_seps(tail, nxt, acc1);
        }
        assert(pairs_map(pairs, acc) == pairs_map(rest, acc1));
        assert(format_params_spec(pairs) == param_text(p0) + seq![';'] + format_params_spec(rest));
    }
}

proof fn lemma_sf_same_after_seps(s: Seq<char>, t: Seq<char>, acc: Map<Seq<char>, Seq<char>>)
    requires
        drop_seps(s) == drop_seps(t),
    ensures
        sf_run(s, acc) == sf_run(t, acc),
{
}

/// The names of `pairs`, in order.
pub open spec fn pair_keys(pairs: Seq<(Seq<char>, Seq<char>)>) -> Seq<Seq<char>> {
    pairs.map_values(|p: (Seq<char>, Seq<char>)| p.0)
}

/// No name occurs twice among `pairs`.
pub open spec fn distinct_keys(pairs: Seq<(Seq<char>, Seq<char>)>) -> bool {
    forall|i: int, j: int| 0 <= i < pairs.len() && 0 <= j < pairs.len() && i != j ==> #[trigger] pairs[i].0 != #[trigger] pairs[j].0
}

proof fn lemma_pairs_map(pairs: Seq<(Seq<char>, Seq<char>)>, acc: Map<Seq<char>, Seq<char>>)
    requires
        distinct_keys(pairs),
    ensures
        forall|k: Seq<char>|
            #[trigger] pairs_map(pairs, acc).contains_key(k) <==> (acc.contains_key(k) || exists|i: int|
                0 <= i < pairs.len() && pairs[i].0 == k),
        forall|i: int|
            0 <= i < pairs.len() ==> #[trigger] pairs_map(pairs, acc)[pairs[i].0] == pairs[i].1,
        forall|k: Seq<char>|
            acc.contains_key(k) && (forall|i: int| 0 <= i < pairs.len() ==> pairs[i].0 != k)
                ==> #[trigger] pairs_map(pairs, acc)[k] == acc[k],
    decreases pairs.len(),
{
    if pairs.len() > 0 {
        let p0 = pairs[0];
        let rest = pairs.subrange(1, pairs.len() as int);
        let acc1 = acc.insert(p0.0, p0.1);
        assert forall|i: int, j: int|
            0 <= i < rest.len() && 0 <= j < rest.len() && i != j implies #[trigger] rest[i].0
            != #[trigger] rest[j].0 by {
            assert(rest[i] == pairs[i + 1] && rest[j] == pairs[j + 1]);
        }
        lemma_pairs_map(rest, acc1);
        let m = pairs_map(pairs, acc);
        assert(m == pairs_map(rest, acc1));
        assert forall|k: Seq<char>|
            #[trigger] m.contains_key(k) <==> (acc.contains_key(k) || exists|i: int|
                0 <= i < pairs.len() && pairs[i].0 == k) by {
            if exists|i: int| 0 <= i < pairs.len() && pairs[i].0 == k {
                let i = choose|i: int| 0 <= i < pairs.len() && pairs[i].0 == k;
                if i > 0 {
                    assert(rest[i - 1].0 == k);
                }
            }
            if exists|i: int| 0 <= i < rest.len() && rest[i].0 == k {
                let i = choose|i: int| 0 <= i < rest.len() && rest[i].0 == k;
                assert(pairs[i + 1].0 == k);
            }
        }
        assert forall|i: int| 0 <= i < pairs.len() implies #[trigger] m[pairs[i].0] == pairs[i].1 by {
            if i > 0 {
                assert(rest[i - 1] == pairs[i]);
                assert(m[rest[i - 1].0] == rest[i - 1].1);
            } else {
                assert forall|j: int| 0 <= j < rest.len() implies rest[j].0 != p0.0 by {
                    assert(rest[j] == pairs[j + 1]);
                }
                assert(acc1.contains_key(p0.0));
                assert(m[p0.0] == acc1[p0.0]);
            }
        }
        assert forall|k: Seq<char>|
            acc.contains_key(k) && (forall|i: int| 0 <= i < pairs.len() ==> pairs[i].0 != k)
                implies #[trigger] m[k] == acc[k] by {
            assert(pairs[0].0 != k);
            assert forall|j: int| 0 <= j < rest.len() implies rest[j].0 != k by {
                assert(rest[j] == pairs[j + 1]);
            }
        }
    }
}

/// Parsing formatted RFC 8941 parameters gives every parameter back: with
/// distinct names that are non-empty, free of `=` and `;`, and without
/// whitespace at either end, and any values, the parsed map holds exactly the
/// names, each with its value. No parameters give the empty map.
pub proof fn lemma_sf_parameters_roundtrip(pairs: Seq<(Seq<char>, Seq<char>)>)
    requires
        simple_keys(pairs),
        distinct_keys(pairs),
    ensures
        sf_run(format_params_spec(pairs), Map::empty()) == pairs_map(pairs, Map::empty()),
        forall|i: int|
            0 <= i < pairs.len() ==> sf_run(format_params_spec(pairs), Map::empty()).contains_key(
                #[trigger] pairs[i].0,
            ) && sf_run(format_params_spec(pairs), Map::empty())[pairs[i].0] == pairs[i].1,
        sf_run(format_params_spec(pairs), Map::empty()).dom() == pair_keys(pairs).to_set(),
        sf_run(format_params_spec(pairs), Map::empty()).dom().len() == pairs.len(),
{
    if pairs.len() > 0 {
        lemma_sf_format(pairs, Seq::empty(), Map::empty());
        assert(format_params_spec(pairs) + Seq::<char>::empty() =~= format_params_spec(pairs));
        lemma_sf_empty(pairs_map(pairs, Map::empty()));
    } else {
        assert(format_params_spec(pairs) =~= Seq::<char>::empty());
        lemma_sf_empty(Map::empty());
    }
    lemma_pairs_map(pairs, Map::empty());
    let m = pairs_map(pairs, Map::empty());
    let keys = pair_keys(pairs);
    assert forall|i: int| 0 <= i < pairs.len() implies m.contains_key(#[trigger] pairs[i].0) by {}
    assert(m.dom() =~= keys.to_set()) by {
        assert forall|k: Seq<char>| m.dom().contains(k) implies keys.to_set().contains(k) by {
            let i = choose|i: int| 0 <= i < pairs.len() && pairs[i].0 == k;
            assert(keys[i] == k);
        }
        assert forall|k: Seq<char>| keys.to_set().contains(k) implies m.dom().contains(k) by {
            let i = choose|i: int| 0 <= i < keys.len() && keys[i] == k;
            assert(pairs[i].0 == k);
        }
    }
    assert(keys.no_duplicates()) by {
        assert forall|i: int, j: int| 0 <= i < keys.len() && 0 <= j < keys.len() && i != j implies keys[i] != keys[j] by {
            assert(pairs[i].0 != pairs[j].0);
        }
    }
    keys.unique_seq_to_set();
}

proof fn lemma_sf_x5t(x5t: Seq<char>, acc: Map<Seq<char>, Seq<char>>)
    requires
        forall|i: int| 0 <= i < x5t.len() ==> x5t[i] != ';',
    ensures
        sf_run(";x5t=:"@ + x5t + seq![':'], acc) == acc.insert("x5t"@, seq![':'] + x5t + seq![':']),
{
    reveal_strlit(";x5t=:");
    reveal_strlit("x5t");
    let s = ";x5t=:"@ + x5t + seq![':'];
    let u = s.subrange(1, s.len() as int);
    assert(u =~= "x5t"@ + seq!['='] + (seq![':'] + x5t + seq![':']));
    assert(drop_seps(s) == drop_seps(u));
    assert(drop_seps(u) == u);
    lemma_find_at(u, '=', 3);
    assert(u.take(3) =~= "x5t"@);
    assert(trim("x5t"@) == "x5t"@);
    let r = u.subrange(4, u.len() as int);
    let val = seq![':'] + x5t + seq![':'];
    assert(r =~= val);
    assert forall|i: int| 0 <= i < val.len() implies val[i] != ';' by {
        if 0 < i < val.len() - 1 {
            assert(val[i] == x5t[i - 1]);
        }
    }
    lemma_find_none(val, ';');
    lemma_trim_unchanged(val);
}

/// Requirements under which a built `Signature-Key` value reads back: a
/// valid label, readable parameter names, and an `x5t` without `;`.
pub open spec fn key_header_readable(scheme: SigScheme, label: Seq<char>, hwk: Seq<(Seq<char>, Seq<char>)>) -> bool {
    &&& valid_label(label)
    &&& scheme is Hwk ==> hwk.len() > 0 && simple_keys(hwk)
    &&& scheme matches SigScheme::X509 { x5t, .. } ==> forall|i: int| 0 <= i < x5t@.len() ==> x5t@[i] != ';'
}

proof fn lemma_hwk_pairs_simple(alg: KeyAlgorithm, x: Seq<u8>, y: Seq<u8>)
    ensures
        hwk_pairs(alg, x, y).len() > 0,
        simple_keys(hwk_pairs(alg, x, y)),
{
    reveal_strlit("kty");
    reveal_strlit("crv");
    reveal_strlit("x");
    reveal_strlit("y");
    let p = hwk_pairs(alg, x, y);
    assert forall|i: int| 0 <= i < p.len() implies simple_key(#[trigger] p[i].0) by {
        if i == 0 {
            assert(p[i].0 == "kty"@);
        } else if i == 1 {
            assert(p[i].0 == "crv"@);
        } else if i == 2 {
            assert(p[i].0 == "x"@);
        } else {
            assert(p[i].0 == "y"@);
        }
    }
}

/// Parsing a built `Signature-Key` value gives back its label, its scheme
/// name and its parameters.
pub proof fn lemma_signature_key_roundtrip(scheme: SigScheme, label: Seq<char>, hwk: Seq<(Seq<char>, Seq<char>)>)
    requires
        key_header_readable(scheme, label, hwk),
    ensures
        parse_signature_key_spec(key_header_spec(scheme, label, hwk)) == Some(
            (label, scheme_name(scheme), key_header_params(scheme, hwk)),
        ),
{
    reveal_strlit("hwk");
    reveal_strlit("jkt-jwt");
    reveal_strlit("jwks_uri");
    reveal_strlit("jwt");
    reveal_strlit("x509");
    reveal_strlit("id");
    reveal_strlit("dwk");
    reveal_strlit("kid");
    reveal_strlit("x5u");
    reveal_strlit(";x5t=:");
    let name = scheme_name(scheme);
    let pairs = scheme_pairs(scheme, hwk);
    let fp = format_params_spec(pairs);
    let tail: Seq<char> = match scheme {
        SigScheme::X509 { x5t, .. } => ";x5t=:"@ + x5t@ + seq![':'],
        _ => Seq::empty(),
    };
    let h = key_header_spec(scheme, label, hwk);
    let rest = name + seq![';'] + fp + tail;
    assert(h =~= label + seq!['='] + rest);
    assert(pairs.len() > 0);
    assert(simple_keys(pairs));
    // The parameters end with a closing quote, or the `:` after `x5t`.
    let last_pair = pairs[pairs.len() - 1];
    assert(fp.len() > 0 && fp[fp.len() - 1] == '"') by {
        lemma_format_params_last(pairs);
    }
    assert(rest[rest.len() - 1] == '"' || rest[rest.len() - 1] == ':');
    assert(name.len() > 0 && name[0] != '(' && !is_ws(name[0]));
    assert(forall|j: int| 0 <= j < name.len() ==> name[j] != ';' && name[j] != '=' && !is_ws(name[j]));
    // The whole value needs no trimming; the label ends at the first `=`.
    assert(is_label_char(label[0]) && is_label_char(label[label.len() - 1]));
    assert(h[0] == label[0]);
    assert(h[h.len() - 1] == rest[rest.len() - 1]);
    lemma_trim_unchanged(h);
    assert forall|j: int| 0 <= j < label.len() implies h[j] != '=' by {
        assert(h[j] == label[j]);
        assert(is_label_char(label[j]));
    }
    lemma_find_at(h, '=', label.len() as int);
    assert(h.take(label.len() as int) =~= label);
    lemma_trim_unchanged(label);
    assert(h.skip(label.len() as int + 1) =~= rest);
    assert(rest[0] == name[0]);
    lemma_trim_unchanged(rest);
    // The scheme ends at the first `;`.
    assert forall|j: int| 0 <= j < name.len() implies rest[j] != ';' by {
        assert(rest[j] == name[j]);
    }
    lemma_find_at(rest, ';', name.len() as int);
    assert(rest.take(name.len() as int) =~= name);
    lemma_trim_unchanged(name);
    assert(rest.skip(name.len() as int + 1) =~= fp + tail);
    lemma_sf_format(pairs, tail, Map::empty());
    match scheme {
        SigScheme::X509 { x5t, .. } => {
            lemma_sf_x5t(x5t@, pairs_map(pairs, Map::empty()));
        },
        _ => {
            lemma_sf_empty(pairs_map(pairs, Map::empty()));
        },
    }
}

proof fn lemma_format_params_last(pairs: Seq<(Seq<char>, Seq<char>)>)
    requires
        pairs.len() > 0,
    ensures
        format_params_spec(pairs).len() > 0,
        format_params_spec(pairs)[format_params_spec(pairs).len() - 1] == '"',
    decreases pairs.len(),
{
    if pairs.len() > 1 {
        lemma_format_params_last(pairs.subrange(1, pairs.len() as int));
    }
}

proof fn lemma_build_key_readback(scheme: SigScheme, label: Seq<char>, private_key: Option<&PrivateKey>)
    requires
        !(scheme is Hwk && private_key is None),
    ensures
        valid_label(label) && x5t_readable(scheme) ==> parse_signature_key_spec(
            key_header_spec(scheme, label, hwk_of(private_key)),
        ) == Some((label, scheme_name(scheme), key_header_params(scheme, hwk_of(private_key)))),
{
    if valid_label(label) && x5t_readable(scheme) {
        if let Some(k) = private_key {
            lemma_hwk_pairs_simple(k.alg(), public_of(k.alg(), k.secret()).0, public_of(k.alg(), k.secret()).1);
        }
        lemma_signature_key_roundtrip(scheme, label, hwk_of(private_key));
    }
}

} // verus!
