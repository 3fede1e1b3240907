//! The `Signature-Input` header (RFC 9421 section 4.1).

use crate::decimal::{
    dec_int, is_digit, lemma_dec_int_chars, lemma_parse_dec_i64, parse_i64, parse_i64_spec,
    push_dec_i64,
};
use crate::errors::AAuthError;
use crate::params::ParamMap;
use crate::text::{
    chars_of, find, find_char, is_ws, lemma_find, lemma_find_at, lemma_find_none, push_range,
    string_of_range, strip_leading, strip_leading_at, strip_trailing, strip_trailing_at, trim,
    trim_at, trim_start, trim_start_at,
};
use vstd::prelude::*;

verus! {

/// A parsed `Signature-Input` header: the label, the covered components and
/// the parameters after them (such as `created`), their values without
/// surrounding quotes.
#[derive(Debug, Clone)]
pub struct SignatureInputParams {
    pub label: String,
    pub components: Vec<String>,
    pub params: ParamMap,
}

/// The current Unix time in seconds (`SystemTime::now` since the epoch).
///
/// Trusted: nothing is said of the value; a clock before the epoch gives 0.
#[verifier::external_body]
fn now_unix() -> i64 {
    match std::time::SystemTime::now().duration_since(std::time::UNIX_EPOCH) {
        Ok(elapsed) => elapsed.as_secs() as i64,
        Err(_) => 0,
    }
}

/// A character allowed in a label: ASCII letter or digit, or `_`.
pub open spec fn is_label_char(c: char) -> bool {
    ('a' <= c && c <= 'z') || ('A' <= c && c <= 'Z') || ('0' <= c && c <= '9') || c == '_'
}

/// A non-empty label of label characters.
pub open spec fn valid_label(label: Seq<char>) -> bool {
    label.len() > 0 && forall|i: int| 0 <= i < label.len() ==> is_label_char(#[trigger] label[i])
}

/// The views of a sequence of strings.
pub open spec fn views(s: Seq<String>) -> Seq<Seq<char>> {
    s.map_values(|x: String| x@)
}

/// The components, each in double quotes, separated by single spaces.
pub open spec fn quoted_list(comps: Seq<Seq<char>>) -> Seq<char>
    decreases comps.len(),
{
    if comps.len() == 0 {
        Seq::empty()
    } else if comps.len() == 1 {
        seq!['"'] + comps[0] + seq!['"']
    } else {
        seq!['"'] + comps[0] + seq!['"', ' '] + quoted_list(comps.subrange(1, comps.len() as int))
    }
}

proof fn lemma_quoted_list_push(s: Seq<Seq<char>>, c: Seq<char>)
    ensures
        quoted_list(s.push(c)) == if s.len() == 0 {
            seq!['"'] + c + seq!['"']
        } else {
            quoted_list(s) + seq![' ', '"'] + c + seq!['"']
        },
    decreases s.len(),
{
    let t = s.push(c);
    if s.len() == 1 {
        assert(t.subrange(1, 2) =~= seq![c]);
        assert(t[0] == s[0]);
        assert(seq![c][0] == c);
        assert(quoted_list(seq![c]) == seq!['"'] + c + seq!['"']);
        assert(quoted_list(s) == seq!['"'] + s[0] + seq!['"']);
        assert(quoted_list(t) == seq!['"'] + s[0] + seq!['"', ' '] + quoted_list(seq![c]));
        assert(quoted_list(t) =~= quoted_list(s) + seq![' ', '"'] + c + seq!['"']);
    } else if s.len() > 1 {
        let tail = s.subrange(1, s.len() as int);
        lemma_quoted_list_push(tail, c);
        assert(t.subrange(1, t.len() as int) =~= tail.push(c));
        assert(t[0] == s[0]);
        assert(quoted_list(t) == seq!['"'] + s[0] + seq!['"', ' '] + quoted_list(tail.push(c)));
        assert(quoted_list(s) == seq!['"'] + s[0] + seq!['"', ' '] + quoted_list(tail));
        assert(quoted_list(t) =~= quoted_list(s) + seq![' ', '"'] + c + seq!['"']);
    }
}

/// The `Signature-Input` value after the label: the quoted components in
/// parentheses, then `;created=` and the creation time.
pub open spec fn signature_params_spec(comps: Seq<Seq<char>>, created: int) -> Seq<char> {
    seq!['('] + quoted_list(comps) + ");created="@ + dec_int(created)
}

/// The strings between successive pairs of double quotes; `None` when a
/// quote is left open. Characters outside quotes are skipped.
pub open spec fn quoted_items(s: Seq<char>) -> Option<Seq<Seq<char>>>
    decreases s.len(),
{
    if s.len() == 0 {
        Some(Seq::empty())
    } else if s[0] != '"' {
        quoted_items(s.subrange(1, s.len() as int))
    } else {
        let t = s.subrange(1, s.len() as int);
        match find(t, '"') {
            None => None,
            Some(e) => {
                proof {
                    lemma_find(t, '"');
                }
                if 0 <= e < t.len() {
                    match quoted_items(t.subrange(e + 1, t.len() as int)) {
                        Some(rest) => Some(seq![t.take(e)] + rest),
                        None => None,
                    }
                } else {
                    None
                }
            },
        }
    }
}

/// One `;`-separated part of the parameters: `key=value` with both trimmed
/// and the value's surrounding quotes removed; empty keys and parts without
/// `=` are ignored.
pub open spec fn add_param(part: Seq<char>, acc: Map<Seq<char>, Seq<char>>) -> Map<
    Seq<char>,
    Seq<char>,
> {
    let t = trim(part);
    match find(t, '=') {
        None => acc,
        Some(e) => {
            let key = trim(t.take(e));
            let value = strip_trailing(strip_leading(trim(t.skip(e + 1)), '"'), '"');
            if key.len() == 0 {
                acc
            } else {
                acc.insert(key, value)
            }
        },
    }
}

/// The parameters of the `;`-separated parts of `s`, added to `acc` in order.
pub open spec fn input_params(s: Seq<char>, acc: Map<Seq<char>, Seq<char>>) -> Map<
    Seq<char>,
    Seq<char>,
>
    decreases s.len(),
{
    match find(s, ';') {
        None => add_param(s, acc),
        Some(p) => {
            proof {
                lemma_find(s, ';');
            }
            if 0 <= p < s.len() {
                input_params(s.subrange(p + 1, s.len() as int), add_param(s.take(p), acc))
            } else {
                acc
            }
        },
    }
}

/// What `parse_signature_input` reads: the label before the first `=`
/// (trimmed, non-empty, of label characters), a parenthesized list of quoted
/// components, then parameters. `None` where it fails.
pub open spec fn parse_signature_input_spec(h: Seq<char>) -> Option<
    (Seq<char>, Seq<Seq<char>>, Map<Seq<char>, Seq<char>>),
> {
    match find(h, '=') {
        None => None,
        Some(eq) => {
            let label = trim(h.take(eq));
            let rest = trim_start(h.skip(eq + 1));
            if !valid_label(label) || rest.len() == 0 || rest[0] != '(' {
                None
            } else {
                match find(rest, ')') {
                    None => None,
                    Some(close) => match quoted_items(rest.subrange(1, close)) {
                        None => None,
                        Some(comps) => Some(
                            (label, comps, input_params(rest.skip(close + 1), Map::empty())),
                        ),
                    },
                }
            }
        },
    }
}

impl Default for SignatureInputParams {
    fn default() -> (d: SignatureInputParams)
        ensures
            d.label@.len() == 0,
            d.components@.len() == 0,
            d.params@ == Map::<Seq<char>, Seq<char>>::empty(),
    {
        SignatureInputParams { label: String::new(), components: Vec::new(), params: ParamMap::new() }
    }
}

impl SignatureInputParams {
    /// The `created` parameter as Unix time, if present and numeric.
    pub fn created(&self) -> (r: Option<i64>)
        ensures
            r == (if self.params@.contains_key("created"@) {
                parse_i64_spec(self.params@["created"@])
            } else {
                None
            }),
    {
        match self.params.get("created") {
            Some(text) => {
                let v = chars_of(text);
                assert(v@.subrange(0, v@.len() as int) =~= v@);
                parse_i64(&v, 0, v.len())
            },
            None => None,
        }
    }
}

/// Appends `(` the quoted components `);created=` and the time to `out`.
pub(crate) fn push_signature_params(out: &mut String, covered_components: &[String], created: i64)
    ensures
        final(out)@ == old(out)@ + signature_params_spec(views(covered_components@), created as int),
{
    let ghost comps = views(covered_components@);
    let ghost start = out@;
    let mut body = "(".to_owned();
    proof {
        reveal_strlit("(");
        assert(comps.take(0) =~= Seq::<Seq<char>>::empty());
        assert(body@ =~= seq!['('] + quoted_list(comps.take(0)));
    }
    let mut i: usize = 0;
    while i < covered_components.len()
        invariant
            i <= covered_components@.len(),
            comps == views(covered_components@),
            body@ == seq!['('] + quoted_list(comps.take(i as int)),
        decreases covered_components.len() - i,
    {
        proof {
            reveal_strlit("(");
            reveal_strlit(" \"");
            reveal_strlit("\"");
        }
        let ghost before = body@;
        if i > 0 {
            body.append(" \"");
        } else {
            body.append("\"");
        }
        body.append(covered_components[i].as_str());
        body.append("\"");
        proof {
            let t = comps.take(i + 1);
            assert(t =~= comps.take(i as int).push(covered_components@[i as int]@));
            lemma_quoted_list_push(comps.take(i as int), covered_components@[i as int]@);
            assert(body@ =~= seq!['('] + quoted_list(t));
        }
        i += 1;
    }
    assert(comps.take(covered_components@.len() as int) =~= comps);
    body.append(");created=");
    let mut digits: Vec<char> = Vec::new();
    push_dec_i64(created, &mut digits);
    assert(digits@ =~= dec_int(created as int));
    push_range(&mut body, &digits, 0, digits.len());
    assert(digits@.subrange(0, digits@.len() as int) =~= digits@);
    out.append(body.as_str());
    assert(out@ =~= start + signature_params_spec(comps, created as int));
}

/// Labels and components that read back from a `Signature-Input` value: a
/// valid label, and components without `"` or `)`.
pub open spec fn readable_input(label: Seq<char>, comps: Seq<Seq<char>>) -> bool {
    &&& valid_label(label)
    &&& forall|i: int, j: int|
        0 <= i < comps.len() && 0 <= j < comps[i].len() ==> comps[i][j] != '"' && comps[i][j]
            != ')'
}

/// Builds a `Signature-Input` header value `label=(...);created=N`;
/// `created` defaults to the current time. With a readable label and
/// components, parsing the value gives them back, with the time as the one
/// parameter.
pub fn build_signature_input_header(
    covered_components: &[String],
    label: &str,
    created: Option<i64>,
) -> (header: String)
    ensures
        created matches Some(c) ==> header@ == label@ + seq!['='] + signature_params_spec(
            views(covered_components@),
            c as int,
        ),
        created is None ==> exists|t: i64|
            header@ == label@ + seq!['='] + signature_params_spec(
                views(covered_components@),
                t as int,
            ),
        created matches Some(c) ==> (readable_input(label@, views(covered_components@))
            ==> parse_signature_input_spec(header@) == Some(
            (
                label@,
                views(covered_components@),
                Map::<Seq<char>, Seq<char>>::empty().insert("created"@, dec_int(c as int)),
            ),
        )),
{
    let t = match created {
        Some(c) => c,
        None => now_unix(),
    };
    let mut header = label.to_owned();
    header.append("=");
    proof {
        reveal_strlit("=");
    }
    push_signature_params(&mut header, covered_components, t);
    proof {
        if created is Some && readable_input(label@, views(covered_components@)) {
            lemma_input_roundtrip(label@, views(covered_components@), t);
        }
    }
    header
}

proof fn lemma_quoted_list_chars(comps: Seq<Seq<char>>, c: char)
    requires
        c != '"' && c != ' ',
        forall|i: int, j: int| 0 <= i < comps.len() && 0 <= j < comps[i].len() ==> comps[i][j] != c,
    ensures
        forall|k: int| 0 <= k < quoted_list(comps).len() ==> quoted_list(comps)[k] != c,
    decreases comps.len(),
{
    let q = quoted_list(comps);
    if comps.len() > 0 {
        let c0 = comps[0];
        assert forall|j: int| 0 <= j < c0.len() implies c0[j] != c by {
            assert(comps[0][j] != c);
        }
    }
    if comps.len() == 1 {
        assert forall|k: int| 0 <= k < q.len() implies q[k] != c by {
            if 0 < k < q.len() - 1 {
                assert(q[k] == comps[0][k - 1]);
            }
        }
    } else if comps.len() > 1 {
        let tail = comps.subrange(1, comps.len() as int);
        assert forall|i: int, j: int| 0 <= i < tail.len() && 0 <= j < tail[i].len() implies tail[i][j]
            != c by {
            assert(tail[i] == comps[i + 1]);
        }
        lemma_quoted_list_chars(tail, c);
        let qt = quoted_list(tail);
        let c0 = comps[0];
        assert(q == seq!['"'] + c0 + seq!['"', ' '] + qt);
        assert forall|k: int| 0 <= k < q.len() implies q[k] != c by {
            if 0 < k <= c0.len() {
                assert(q[k] == c0[k - 1]);
            } else if k >= c0.len() + 3 {
                assert(q[k] == qt[k - c0.len() - 3]);
            }
        }
    }
}

proof fn lemma_quoted_items_of_list(comps: Seq<Seq<char>>)
    requires
        forall|i: int, j: int| 0 <= i < comps.len() && 0 <= j < comps[i].len() ==> comps[i][j] != '"',
    ensures
        quoted_items(quoted_list(comps)) == Some(comps),
    decreases comps.len(),
{
    if comps.len() > 0 {
        let q = quoted_list(comps);
        let c0 = comps[0];
        let tail_s = if comps.len() == 1 {
            Seq::<char>::empty()
        } else {
            seq![' '] + quoted_list(comps.subrange(1, comps.len() as int))
        };
        assert(q =~= seq!['"'] + c0 + seq!['"'] + tail_s);
        let t = q.subrange(1, q.len() as int);
        assert(t =~= c0 + seq!['"'] + tail_s);
        assert forall|j: int| 0 <= j < c0.len() implies t[j] != '"' by {
            assert(t[j] == c0[j]);
            assert(comps[0][j] != '"');
        }
        lemma_find_at(t, '"', c0.len() as int);
        assert(t.take(c0.len() as int) =~= c0);
        assert(t.subrange(c0.len() as int + 1, t.len() as int) =~= tail_s);
        assert(q[0] == '"');
        if comps.len() == 1 {
            assert(quoted_items(tail_s) == Some(Seq::<Seq<char>>::empty()));
            assert(seq![c0] + Seq::<Seq<char>>::empty() =~= comps);
            assert(quoted_items(q) == Some(seq![c0] + Seq::<Seq<char>>::empty()));
        } else {
            let rest = comps.subrange(1, comps.len() as int);
            assert forall|i: int, j: int| 0 <= i < rest.len() && 0 <= j < rest[i].len() implies rest[i][j]
                != '"' by {
                assert(rest[i] == comps[i + 1]);
            }
            lemma_quoted_items_of_list(rest);
            assert(tail_s.subrange(1, tail_s.len() as int) =~= quoted_list(rest));
            assert(tail_s[0] == ' ');
            assert(quoted_items(tail_s) == Some(rest));
            assert(seq![c0] + rest =~= comps);
            assert(quoted_items(q) == Some(seq![c0] + rest));
        }
    }
}

/// The parameters `;created=D` of a decimal text `D`.
proof fn lemma_created_param(d: Seq<char>)
    requires
        d.len() > 0,
        is_digit(d[d.len() - 1]),
        forall|i: int| 0 <= i < d.len() ==> is_digit(#[trigger] d[i]) || (i == 0 && d[i] == '-'),
    ensures
        input_params(seq![';'] + "created="@ + d, Map::empty()) == Map::<Seq<char>, Seq<char>>::empty().insert(
            "created"@,
            d,
        ),
{
    reveal_strlit("created=");
    reveal_strlit("created");
    let after = seq![';'] + "created="@ + d;
    lemma_find_at(after, ';', 0);
    assert(after.take(0) =~= Seq::<char>::empty());
    let kv = "created="@ + d;
    assert(after.subrange(1, after.len() as int) =~= kv);
    assert forall|k: int| 0 <= k < kv.len() implies kv[k] != ';' by {
        if k >= 8 {
            assert(kv[k] == d[k - 8]);
        }
    }
    lemma_find_none(kv, ';');
    assert(trim(kv) == kv) by {
        assert(kv[0] == 'c');
        assert(kv[kv.len() - 1] == d[d.len() - 1]);
    }
    assert forall|k: int| 0 <= k < 7 implies kv[k] != '=' by {}
    lemma_find_at(kv, '=', 7);
    assert(kv.take(7) =~= "created"@);
    assert(trim("created"@) == "created"@);
    assert(kv.skip(8) =~= d);
    assert(trim(d) == d) by {
        assert(d[0] == '-' || is_digit(d[0]));
    }
    assert(strip_leading(d, '"') == d) by {
        assert(d[0] == '-' || is_digit(d[0]));
    }
    assert(strip_trailing(d, '"') == d);
    let e: Seq<char> = Seq::empty();
    assert(trim(e) =~= e);
    assert(find(e, '=') is None);
    assert(add_param(e, Map::empty()) == Map::<Seq<char>, Seq<char>>::empty());
    assert(add_param(kv, Map::empty()) == Map::<Seq<char>, Seq<char>>::empty().insert("created"@, d));
    assert(input_params(kv, Map::empty()) == add_param(kv, Map::empty()));
    assert(input_params(after, Map::empty()) == input_params(
        after.subrange(1, after.len() as int),
        add_param(after.take(0), Map::empty()),
    ));
}

proof fn lemma_input_roundtrip(label: Seq<char>, comps: Seq<Seq<char>>, t: i64)
    requires
        readable_input(label, comps),
    ensures
        parse_signature_input_spec(label + seq!['='] + signature_params_spec(comps, t as int))
            == Some(
            (label, comps, Map::<Seq<char>, Seq<char>>::empty().insert("created"@, dec_int(t as int))),
        ),
{
    reveal_strlit(");created=");
    reveal_strlit("created");
    let d = dec_int(t as int);
    lemma_dec_int_chars(t as int);
    let ql = quoted_list(comps);
    let h = label + seq!['='] + signature_params_spec(comps, t as int);
    let tail = seq![';'] + "created="@ + d;
    assert(");created="@ =~= seq![')'] + seq![';'] + "created="@) by {
        reveal_strlit("created=");
    }
    reveal_strlit("created=");
    assert(h =~= label + seq!['='] + (seq!['('] + ql + seq![')'] + tail));
    // The label ends at the first `=`.
    assert forall|j: int| 0 <= j < label.len() implies h[j] != '=' by {
        assert(h[j] == label[j]);
        assert(is_label_char(label[j]));
    }
    lemma_find_at(h, '=', label.len() as int);
    assert(h.take(label.len() as int) =~= label);
    assert(label.len() > 0 && !is_ws(label[0]) && !is_ws(label[label.len() - 1])) by {
        assert(is_label_char(label[0]));
        assert(is_label_char(label[label.len() - 1]));
    }
    assert(trim(label) == label);
    let rest = h.skip(label.len() as int + 1);
    assert(rest =~= seq!['('] + ql + seq![')'] + tail);
    assert(trim_start(rest) == rest);
    // The component list ends at the first `)`.
    assert forall|i: int, j: int| 0 <= i < comps.len() && 0 <= j < comps[i].len() implies comps[i][j]
        != ')' && comps[i][j] != '"' by {
    }
    lemma_quoted_list_chars(comps, ')');
    assert forall|k: int| 0 <= k < ql.len() + 1 implies rest[k] != ')' by {
        if k > 0 {
            assert(rest[k] == ql[k - 1]);
        }
    }
    lemma_find_at(rest, ')', ql.len() as int + 1);
    assert(rest.subrange(1, ql.len() as int + 1) =~= ql);
    lemma_quoted_items_of_list(comps);
    let after = rest.skip(ql.len() as int + 2);
    assert(after =~= tail);
    lemma_created_param(d);
}

/// The `created` parameter of a value built with time `c` reads back as `c`.
pub proof fn lemma_created_reads_back(c: i64)
    ensures
        parse_i64_spec(
            Map::<Seq<char>, Seq<char>>::empty().insert("created"@, dec_int(c as int))["created"@],
        ) == Some(c),
{
    lemma_parse_dec_i64(c);
}

pub open spec fn prepend_opt(p: Seq<Seq<char>>, o: Option<Seq<Seq<char>>>) -> Option<Seq<Seq<char>>> {
    match o {
        Some(r) => Some(p + r),
        None => None,
    }
}

/// Whether every character of `v[lo..hi]` is a label character.
fn all_label_chars(v: &Vec<char>, lo: usize, hi: usize) -> (r: bool)
    requires
        lo <= hi <= v.len(),
    ensures
        r == forall|i: int| lo <= i < hi ==> is_label_char(#[trigger] v@[i]),
{
    let mut i = lo;
    while i < hi
        invariant
            lo <= i <= hi <= v.len(),
            forall|j: int| lo <= j < i ==> is_label_char(#[trigger] v@[j]),
        decreases hi - i,
    {
        let c = v[i];
        if !(('a' <= c && c <= 'z') || ('A' <= c && c <= 'Z') || ('0' <= c && c <= '9') || c == '_') {
            return false;
        }
        i += 1;
    }
    true
}

/// Adds the parameter of the part `v[lo..hi]` to `params`.
fn add_param_at(v: &Vec<char>, lo: usize, hi: usize, params: &mut ParamMap)
    requires
        lo <= hi <= v.len(),
    ensures
        final(params)@ == add_param(v@.subrange(lo as int, hi as int), old(params)@),
{
    let (a, b) = trim_at(v, lo, hi);
    let ghost t = v@.subrange(a as int, b as int);
    match find_char(v, a, b, '=') {
        None => {},
        Some(e) => {
            assert(v@.subrange(a as int, e as int) =~= t.take(e - a));
            assert(v@.subrange(e + 1, b as int) =~= t.skip(e - a + 1));
            let (ka, kb) = trim_at(v, a, e);
            let (va, vb) = trim_at(v, e + 1, b);
            let va2 = strip_leading_at(v, va, vb, '"');
            let vb2 = strip_trailing_at(v, va2, vb, '"');
            if kb > ka {
                let key = string_of_range(v, ka, kb);
                let value = string_of_range(v, va2, vb2);
                params.insert(key, value);
            }
        },
    }
}

/// Parses a `Signature-Input` header value into label, components and parameters.
pub fn parse_signature_input(header_value: &str) -> (r: Result<SignatureInputParams, AAuthError>)
    ensures
        match r {
            Ok(p) => parse_signature_input_spec(header_value@) == Some(
                (p.label@, views(p.components@), p.params@),
            ),
            Err(_) => parse_signature_input_spec(header_value@) is None,
        },
{
    let v = chars_of(header_value);
    let n = v.len();
    let ghost h = v@;
    assert(v@.subrange(0, n as int) =~= h);
    let eq = match find_char(&v, 0, n, '=') {
        Some(eq) => eq,
        None => return Err(AAuthError::signature_with("Invalid Signature-Input format: ", header_value)),
    };
    assert(v@.subrange(0, eq as int) =~= h.take(eq as int));
    assert(v@.subrange(eq + 1, n as int) =~= h.skip(eq + 1));
    let (la, lb) = trim_at(&v, 0, eq);
    if lb == la || !all_label_chars(&v, la, lb) {
        proof {
            let l = v@.subrange(la as int, lb as int);
            if l.len() > 0 {
                let k = choose|k: int| la <= k < lb && !is_label_char(#[trigger] v@[k]);
                assert(l[k - la] == v@[k]);
            }
        }
        return Err(AAuthError::signature_with("Invalid Signature-Input format: ", header_value));
    }
    let ra = trim_start_at(&v, eq + 1, n);
    let ghost rest = v@.subrange(ra as int, n as int);
    proof {
        let l = v@.subrange(la as int, lb as int);
        assert forall|k: int| 0 <= k < l.len() implies is_label_char(#[trigger] l[k]) by {
            assert(l[k] == v@[k + la]);
        }
    }
    if ra == n || v[ra] != '(' {
        return Err(AAuthError::signature_with("Invalid Signature-Input format: ", header_value));
    }
    let close = match find_char(&v, ra, n, ')') {
        Some(c) => c,
        None => return Err(AAuthError::signature_with("Invalid Signature-Input format: ", header_value)),
    };
    proof {
        lemma_find(rest, ')');
    }
    let ghost close_rel = (close - ra) as int;
    assert(v@.subrange(ra + 1, close as int) =~= rest.subrange(1, close_rel));
    assert(v@.subrange(close + 1, n as int) =~= rest.skip(close_rel + 1));
    let ghost label_v = v@.subrange(la as int, lb as int);
    let ghost spec_result = parse_signature_input_spec(header_value@);
    assert(spec_result == match quoted_items(v@.subrange(ra + 1, close as int)) {
        None => None,
        Some(c) => Some((label_v, c, input_params(v@.subrange(close + 1, n as int), Map::empty()))),
    });
    // The quoted components of `v[ra + 1..close]`.
    let mut components: Vec<String> = Vec::new();
    let mut i = ra + 1;
    while i < close
        invariant
            ra + 1 <= i <= close < n == v@.len(),
            spec_result == parse_signature_input_spec(header_value@),
            spec_result == match quoted_items(v@.subrange(ra + 1, close as int)) {
                None => None,
                Some(c) => Some((label_v, c, input_params(v@.subrange(close + 1, n as int), Map::empty()))),
            },
            quoted_items(v@.subrange(ra + 1, close as int)) == prepend_opt(
                views(components@),
                quoted_items(v@.subrange(i as int, close as int)),
            ),
        decreases close - i,
    {
        let ghost s = v@.subrange(i as int, close as int);
        let ghost t = v@.subrange(i + 1, close as int);
        assert(s.subrange(1, s.len() as int) =~= t);
        if v[i] == '"' {
            match find_char(&v, i + 1, close, '"') {
                None => {
                    return Err(AAuthError::signature_with("Invalid Signature-Input format: ", header_value));
                },
                Some(e) => {
                    proof {
                        lemma_find(t, '"');
                    }
                    assert(t.take(e - i - 1) =~= v@.subrange(i + 1, e as int));
                    assert(t.subrange(e - i, t.len() as int) =~= v@.subrange(e + 1, close as int));
                    let item = string_of_range(&v, i + 1, e);
                    let ghost before = views(components@);
                    components.push(item);
                    assert(views(components@) =~= before.push(item@));
                    proof {
                        match quoted_items(v@.subrange(e + 1, close as int)) {
                            Some(r) => {
                                assert(before + (seq![item@] + r) =~= before.push(item@) + r);
                            },
                            None => {},
                        }
                    }
                    i = e + 1;
                },
            }
        } else {
            i += 1;
        }
    }
    assert(v@.subrange(close as int, close as int) =~= Seq::<char>::empty());
    assert(views(components@) + Seq::<Seq<char>>::empty() =~= views(components@));
    // The parameters of `v[close + 1..n]`.
    let mut params = ParamMap::new();
    let mut pos = close + 1;
    let ghost comps_v = views(components@);
    assert(spec_result == Some((label_v, comps_v, input_params(v@.subrange(close + 1, n as int), Map::empty()))));
    loop
        invariant
            close + 1 <= pos <= n == v@.len(),
            la <= lb <= n,
            label_v == v@.subrange(la as int, lb as int),
            comps_v == views(components@),
            spec_result == parse_signature_input_spec(header_value@),
            spec_result == Some((label_v, comps_v, input_params(v@.subrange(close + 1, n as int), Map::empty()))),
            input_params(v@.subrange(close + 1, n as int), Map::empty()) == input_params(
                v@.subrange(pos as int, n as int),
                params@,
            ),
        ensures
            la <= lb <= n,
            label_v == v@.subrange(la as int, lb as int),
            comps_v == views(components@),
            spec_result == parse_signature_input_spec(header_value@),
            spec_result == Some((label_v, comps_v, params@)),
        decreases n - pos,
    {
        let ghost s = v@.subrange(pos as int, n as int);
        match find_char(&v, pos, n, ';') {
            None => {
                add_param_at(&v, pos, n, &mut params);
                break;
            },
            Some(p) => {
                proof {
                    lemma_find(s, ';');
                }
                assert(s.take(p - pos) =~= v@.subrange(pos as int, p as int));
                assert(s.subrange(p - pos + 1, s.len() as int) =~= v@.subrange(p + 1, n as int));
                add_param_at(&v, pos, p, &mut params);
                pos = p + 1;
            },
        }
    }
    assert(v@.subrange(n as int, n as int) =~= Seq::<char>::empty());
    let label = string_of_range(&v, la, lb);
    Ok(SignatureInputParams { label, components, params })
}

} // verus!
