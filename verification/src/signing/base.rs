//! The signature base (RFC 9421 section 2.5), covered components (AAuth
//! section 15.3) and the `Content-Digest` header (RFC 9530).

use crate::codec::{b64std_encode, b64std_encode_spec, sha256, sha256_spec};
use crate::errors::AAuthError;
use crate::signing::algorithms::{ascii_lower, eq_ignore_ascii_case, eq_ignore_ascii_case_str};
use crate::signing::input::{push_signature_params, signature_params_spec, views};
use crate::text::str_eq;
use vstd::prelude::*;

verus! {

/// Index of the first header whose name equals `name` up to ASCII case.
pub open spec fn header_index(headers: Seq<(String, String)>, name: Seq<char>) -> Option<int>
    decreases headers.len(),
{
    if headers.len() == 0 {
        None
    } else if eq_ignore_ascii_case(headers[0].0@, name) {
        Some(0)
    } else {
        match header_index(headers.subrange(1, headers.len() as int), name) {
            Some(i) => Some(i + 1),
            None => None,
        }
    }
}

/// The value of the first header named `name` (ASCII case ignored).
pub open spec fn header_value(headers: Seq<(String, String)>, name: Seq<char>) -> Option<Seq<char>> {
    match header_index(headers, name) {
        Some(i) => Some(headers[i].1@),
        None => None,
    }
}

proof fn lemma_header_index(headers: Seq<(String, String)>, name: Seq<char>)
    ensures
        header_index(headers, name) matches Some(i) ==> 0 <= i < headers.len() && eq_ignore_ascii_case(
            headers[i].0@,
            name,
        ) && forall|j: int| 0 <= j < i ==> !eq_ignore_ascii_case(#[trigger] headers[j].0@, name),
        header_index(headers, name) is None ==> forall|j: int|
            0 <= j < headers.len() ==> !eq_ignore_ascii_case(#[trigger] headers[j].0@, name),
    decreases headers.len(),
{
    if headers.len() > 0 {
        let t = headers.subrange(1, headers.len() as int);
        lemma_header_index(t, name);
        assert forall|j: int| 1 <= j < headers.len() implies headers[j] == t[j - 1] by {}
    }
}

/// The value of the header named `name`, ignoring ASCII case; with several
/// such headers, the first.
pub fn get_header<'a>(headers: &'a Vec<(String, String)>, name: &str) -> (r: Option<&'a str>)
    ensures
        match r {
            Some(v) => header_value(headers@, name@) == Some(v@),
            None => header_value(headers@, name@) is None,
        },
{
    let mut i: usize = 0;
    while i < headers.len()
        invariant
            i <= headers@.len(),
            forall|j: int| 0 <= j < i ==> !eq_ignore_ascii_case(#[trigger] headers@[j].0@, name@),
        decreases headers.len() - i,
    {
        if eq_ignore_ascii_case_str(headers[i].0.as_str(), name) {
            proof {
                lemma_header_index(headers@, name@);
                assert(eq_ignore_ascii_case(headers@[i as int].0@, name@));
                match header_index(headers@, name@) {
                    Some(k) => {
                        if k < i {
                            assert(!eq_ignore_ascii_case(headers@[k].0@, name@));
                        } else if k > i {
                            assert(!eq_ignore_ascii_case(headers@[i as int].0@, name@));
                        }
                    },
                    None => {},
                }
            }
            return Some(headers[i].1.as_str());
        }
        i += 1;
    }
    proof {
        lemma_header_index(headers@, name@);
        if let Some(k) = header_index(headers@, name@) {
            assert(!eq_ignore_ascii_case(headers@[k].0@, name@));
        }
    }
    None
}

/// The request data a signature base is built from.
pub struct BaseInputs {
    pub method: Seq<char>,
    pub authority: Seq<char>,
    pub path: Seq<char>,
    pub query: Option<Seq<char>>,
    pub headers: Seq<(String, String)>,
    pub has_body: bool,
    pub signature_key: Seq<char>,
}

/// The value of a covered component; `None` for an unknown component, or
/// one whose data is missing (`@query` needs a non-empty query;
/// `content-type` and `content-digest` need a body and their header;
/// `aauth-mission` needs its header).
pub open spec fn component_value(c: Seq<char>, r: BaseInputs) -> Option<Seq<char>> {
    if c == "@method"@ {
        Some(r.method)
    } else if c == "@authority"@ {
        Some(r.authority)
    } else if c == "@path"@ {
        Some(r.path)
    } else if c == "@query"@ {
        match r.query {
            Some(q) => if q.len() > 0 {
                Some(seq!['?'] + q)
            } else {
                None
            },
            None => None,
        }
    } else if c == "content-type"@ {
        if r.has_body {
            header_value(r.headers, "content-type"@)
        } else {
            None
        }
    } else if c == "content-digest"@ {
        if r.has_body {
            header_value(r.headers, "content-digest"@)
        } else {
            None
        }
    } else if c == "signature-key"@ {
        Some(r.signature_key)
    } else if c == "aauth-mission"@ {
        header_value(r.headers, "aauth-mission"@)
    } else {
        None
    }
}

/// The lines `"component": value`, each followed by a newline.
pub open spec fn component_lines(comps: Seq<Seq<char>>, r: BaseInputs) -> Option<Seq<char>>
    decreases comps.len(),
{
    if comps.len() == 0 {
        Some(Seq::empty())
    } else {
        match (component_value(comps[0], r), component_lines(comps.subrange(1, comps.len() as int), r)) {
            (Some(v), Some(rest)) => Some(
                seq!['"'] + comps[0] + "\": "@ + v + seq!['\n'] + rest,
            ),
            _ => None,
        }
    }
}

/// The line of one covered component: `"name": value` and a newline, or
/// none when the component has no value.
pub proof fn lemma_component_line_single(c: Seq<char>, r: BaseInputs)
    ensures
        component_lines(seq![c], r) == match component_value(c, r) {
            Some(v) => Some(seq!['"'] + c + seq!['"', ':', ' '] + v + seq!['\n']),
            None => None,
        },
{
    reveal_strlit("\": ");
    let s = seq![c];
    assert(s.subrange(1, 1) =~= Seq::<Seq<char>>::empty());
    assert(s[0] == c);
    assert(component_lines(s.subrange(1, 1), r) == Some(Seq::<char>::empty()));
    assert("\": "@ =~= seq!['"', ':', ' ']);
    if let Some(v) = component_value(c, r) {
        assert(seq!['"'] + c + "\": "@ + v + seq!['\n'] + Seq::<char>::empty() =~= seq!['"'] + c + seq![
            '"',
            ':',
            ' ',
        ] + v + seq!['\n']);
    }
}

/// The lines of covered components follow the components' order: the
/// lines of `a + b` are those of `a` followed by those of `b`, and there are
/// none when a component of either has no value.
pub proof fn lemma_component_lines_append(a: Seq<Seq<char>>, b: Seq<Seq<char>>, r: BaseInputs)
    ensures
        component_lines(a + b, r) == match (component_lines(a, r), component_lines(b, r)) {
            (Some(x), Some(y)) => Some(x + y),
            _ => None,
        },
    decreases a.len(),
{
    if a.len() == 0 {
        assert(a + b =~= b);
        if let Some(y) = component_lines(b, r) {
            assert(Seq::<char>::empty() + y =~= y);
        }
    } else {
        let t = a.subrange(1, a.len() as int);
        lemma_component_lines_append(t, b, r);
        assert((a + b).subrange(1, (a + b).len() as int) =~= t + b);
        assert((a + b)[0] == a[0]);
        match (component_value(a[0], r), component_lines(t, r), component_lines(b, r)) {
            (Some(v), Some(x), Some(y)) => {
                assert(seq!['"'] + a[0] + "\": "@ + v + seq!['\n'] + (x + y) =~= (seq!['"'] + a[0] + "\": "@
                    + v + seq!['\n'] + x) + y);
            },
            _ => {},
        }
    }
}

/// The signature base: one line per covered component, then the
/// `"@signature-params"` line. `None` when the parameters are empty or a
/// component cannot be given a value.
pub open spec fn signature_base_spec(comps: Seq<Seq<char>>, r: BaseInputs, params: Seq<char>) -> Option<
    Seq<char>,
> {
    if params.len() == 0 {
        None
    } else {
        match component_lines(comps, r) {
            Some(lines) => Some(lines + "\"@signature-params\": "@ + params),
            None => None,
        }
    }
}

pub open spec fn prepend_text(p: Seq<char>, o: Option<Seq<char>>) -> Option<Seq<char>> {
    match o {
        Some(s) => Some(p + s),
        None => None,
    }
}

/// The components read from a header.
pub open spec fn header_component(c: Seq<char>) -> bool {
    c == "content-type"@ || c == "content-digest"@ || c == "aauth-mission"@
}

/// A header-backed component reads its header as `get_header` does: its
/// value is the value of the first header whose name equals the component's
/// name up to ASCII case, and it has none when no header name does;
/// `content-type` and `content-digest` have a value only with a body.
pub proof fn lemma_header_component_value(c: Seq<char>, r: BaseInputs)
    requires
        header_component(c),
    ensures
        (c != "aauth-mission"@ && !r.has_body) ==> component_value(c, r) is None,
        (c == "aauth-mission"@ || r.has_body) ==> {
            &&& (forall|j: int| 0 <= j < r.headers.len() ==> !eq_ignore_ascii_case(#[trigger] r.headers[j].0@, c))
                ==> component_value(c, r) is None
            &&& forall|i: int|
                0 <= i < r.headers.len() && eq_ignore_ascii_case(#[trigger] r.headers[i].0@, c) && (forall|j: int|
                    0 <= j < i ==> !eq_ignore_ascii_case(#[trigger] r.headers[j].0@, c))
                    ==> component_value(c, r) == Some(r.headers[i].1@)
        },
{
    reveal_strlit("@method");
    reveal_strlit("@authority");
    reveal_strlit("@path");
    reveal_strlit("@query");
    reveal_strlit("content-type");
    reveal_strlit("content-digest");
    reveal_strlit("signature-key");
    reveal_strlit("aauth-mission");
    lemma_header_index(r.headers, c);
    assert(c.len() > 0 && c[0] != '@');
    if c == "content-type"@ {
        assert(c != "content-digest"@ && c[8] == 't');
    } else if c == "content-digest"@ {
        assert(c[8] == 'd');
    }
    assert forall|i: int|
        0 <= i < r.headers.len() && eq_ignore_ascii_case(#[trigger] r.headers[i].0@, c) && (forall|j: int|
            0 <= j < i ==> !eq_ignore_ascii_case(#[trigger] r.headers[j].0@, c))
        implies header_index(r.headers, c) == Some(i) by {
        match header_index(r.headers, c) {
            Some(m) => {
                if m < i {
                    assert(!eq_ignore_ascii_case(r.headers[m].0@, c));
                } else if m > i {
                    assert(!eq_ignore_ascii_case(r.headers[i].0@, c));
                }
            },
            None => {
                assert(!eq_ignore_ascii_case(r.headers[i].0@, c));
            },
        }
    }
}

/// Equality up to ASCII case is an equivalence.
proof fn lemma_eq_ignore_case_trans(a: Seq<char>, b: Seq<char>, n: Seq<char>)
    requires
        eq_ignore_ascii_case(a, b),
    ensures
        eq_ignore_ascii_case(a, n) == eq_ignore_ascii_case(b, n),
{
    if eq_ignore_ascii_case(a, n) {
        assert forall|i: int| 0 <= i < b.len() implies ascii_lower(b[i]) == ascii_lower(n[i]) by {
            assert(ascii_lower(a[i]) == ascii_lower(b[i]));
        }
    }
    if eq_ignore_ascii_case(b, n) {
        assert forall|i: int| 0 <= i < a.len() implies ascii_lower(a[i]) == ascii_lower(n[i]) by {
            assert(ascii_lower(a[i]) == ascii_lower(b[i]));
        }
    }
}

/// Header lists whose names agree up to ASCII case, with equal values.
pub open spec fn same_headers_ignoring_case(h1: Seq<(String, String)>, h2: Seq<(String, String)>) -> bool {
    &&& h1.len() == h2.len()
    &&& forall|i: int|
        0 <= i < h1.len() ==> eq_ignore_ascii_case(#[trigger] h1[i].0@, h2[i].0@) && h1[i].1@ == h2[i].1@
}

proof fn lemma_header_index_ignoring_case(h1: Seq<(String, String)>, h2: Seq<(String, String)>, n: Seq<char>)
    requires
        same_headers_ignoring_case(h1, h2),
    ensures
        header_index(h1, n) == header_index(h2, n),
    decreases h1.len(),
{
    if h1.len() > 0 {
        lemma_eq_ignore_case_trans(h1[0].0@, h2[0].0@, n);
        let t1 = h1.subrange(1, h1.len() as int);
        let t2 = h2.subrange(1, h2.len() as int);
        assert forall|i: int| 0 <= i < t1.len() implies eq_ignore_ascii_case(#[trigger] t1[i].0@, t2[i].0@)
            && t1[i].1@ == t2[i].1@ by {
            assert(t1[i] == h1[i + 1] && t2[i] == h2[i + 1]);
        }
        lemma_header_index_ignoring_case(t1, t2, n);
    }
}

/// Header names are read without regard to ASCII case: requests whose
/// header names differ only in case give every component the same value.
pub proof fn lemma_component_value_ignores_header_case(c: Seq<char>, r1: BaseInputs, r2: BaseInputs)
    requires
        same_headers_ignoring_case(r1.headers, r2.headers),
        r1.method == r2.method && r1.authority == r2.authority && r1.path == r2.path,
        r1.query == r2.query && r1.has_body == r2.has_body && r1.signature_key == r2.signature_key,
    ensures
        component_value(c, r1) == component_value(c, r2),
{
    lemma_header_index_ignoring_case(r1.headers, r2.headers, "content-type"@);
    lemma_header_index_ignoring_case(r1.headers, r2.headers, "content-digest"@);
    lemma_header_index_ignoring_case(r1.headers, r2.headers, "aauth-mission"@);
    lemma_header_index(r1.headers, "content-type"@);
    lemma_header_index(r1.headers, "content-digest"@);
    lemma_header_index(r1.headers, "aauth-mission"@);
}

/// Builds the signature base string (RFC 9421 section 2.5).
///
/// `signature_params` is the `Signature-Input` value after the label; it
/// becomes the final `"@signature-params"` line. Each component name is
/// written as given: the names accepted here are lower-case already.
pub fn build_signature_base(
    method: &str,
    authority: &str,
    path: &str,
    query: Option<&str>,
    headers: &Vec<(String, String)>,
    body: Option<&[u8]>,
    signature_key_header: &str,
    covered_components: &[String],
    signature_params: &str,
) -> (res: Result<String, AAuthError>)
    ensures
        ({
            let r = BaseInputs {
                method: method@,
                authority: authority@,
                path: path@,
                query: match query {
                    Some(q) => Some(q@),
                    None => None,
                },
                headers: headers@,
                has_body: match body {
                    Some(b) => b@.len() > 0,
                    None => false,
                },
                signature_key: signature_key_header@,
            };
            match res {
                Ok(s) => signature_base_spec(views(covered_components@), r, signature_params@) == Some(
                    s@,
                ),
                Err(_) => signature_base_spec(views(covered_components@), r, signature_params@) is None,
            }
        }),
{
    let ghost r = BaseInputs {
        method: method@,
        authority: authority@,
        path: path@,
        query: match query {
            Some(q) => Some(q@),
            None => None,
        },
        headers: headers@,
        has_body: match body {
            Some(b) => b@.len() > 0,
            None => false,
        },
        signature_key: signature_key_header@,
    };
    let ghost comps = views(covered_components@);
    if signature_params.is_empty() {
        return Err(AAuthError::signature("signature_params is required for valid signature base"));
    }
    let has_body = match body {
        Some(b) => b.len() > 0,
        None => false,
    };
    let mut out = String::new();
    proof {
        assert(comps.subrange(0, comps.len() as int) =~= comps);
        if let Some(t) = component_lines(comps, r) {
            assert(out@ + t =~= t);
        }
    }
    let mut i: usize = 0;
    while i < covered_components.len()
        invariant
            i <= covered_components@.len(),
            comps == views(covered_components@),
            has_body == r.has_body,
            r.has_body == match body {
                Some(b) => b@.len() > 0,
                None => false,
            },
            signature_params@.len() > 0,
            r.headers == headers@,
            r.method == method@ && r.authority == authority@ && r.path == path@,
            r.signature_key == signature_key_header@,
            r.query == match query {
                Some(q) => Some(q@),
                None => None,
            },
            component_lines(comps, r) == prepend_text(
                out@,
                component_lines(comps.subrange(i as int, comps.len() as int), r),
            ),
        decreases covered_components.len() - i,
    {
        let c = covered_components[i].as_str();
        let ghost cv = comps[i as int];
        assert(cv == c@);
        let ghost tail = comps.subrange(i + 1, comps.len() as int);
        assert(comps.subrange(i as int, comps.len() as int).subrange(1, comps.len() - i) =~= tail);
        assert(comps.subrange(i as int, comps.len() as int)[0] == cv);
        let value: String = if str_eq(c, "@method") {
            method.to_owned()
        } else if str_eq(c, "@authority") {
            authority.to_owned()
        } else if str_eq(c, "@path") {
            path.to_owned()
        } else if str_eq(c, "@query") {
            match query {
                Some(q) if !q.is_empty() => {
                    let mut v = "?".to_owned();
                    v.append(q);
                    proof {
                        reveal_strlit("?");
                        assert(v@ =~= seq!['?'] + q@);
                    }
                    v
                },
                _ => {
                    assert(component_value(cv, r) is None);
                    return Err(AAuthError::signature("@query component specified but no query string present"));
                },
            }
        } else if str_eq(c, "content-type") {
            if !has_body {
                return Err(AAuthError::signature("content-type component specified but no body present"));
            }
            match get_header(headers, "content-type") {
                Some(v) => v.to_owned(),
                None => {
                    return Err(AAuthError::signature("content-type component required but header missing"));
                },
            }
        } else if str_eq(c, "content-digest") {
            if !has_body {
                return Err(AAuthError::signature("content-digest component specified but no body present"));
            }
            match get_header(headers, "content-digest") {
                Some(v) => v.to_owned(),
                None => {
                    return Err(AAuthError::signature("content-digest component required but header missing"));
                },
            }
        } else if str_eq(c, "signature-key") {
            signature_key_header.to_owned()
        } else if str_eq(c, "aauth-mission") {
            match get_header(headers, "aauth-mission") {
                Some(v) => v.to_owned(),
                None => {
                    return Err(AAuthError::signature("aauth-mission in Signature-Input but AAuth-Mission header missing"));
                },
            }
        } else {
            return Err(AAuthError::signature_with("Unknown component: ", c));
        };
        let ghost before = out@;
        assert(component_value(cv, r) == Some(value@));
        out.append("\"");
        out.append(c);
        out.append("\": ");
        out.append(value.as_str());
        out.append("\n");
        proof {
            reveal_strlit("\"");
            reveal_strlit("\n");
            match component_lines(tail, r) {
                Some(t) => {
                    assert(before + (seq!['"'] + cv + "\": "@ + value@ + seq!['\n'] + t) =~= out@ + t);
                },
                None => {},
            }
        }
        i += 1;
    }
    assert(comps.subrange(covered_components@.len() as int, comps.len() as int) =~= Seq::<Seq<char>>::empty());
    assert(out@ + Seq::<char>::empty() =~= out@);
    out.append("\"@signature-params\": ");
    out.append(signature_params);
    Ok(out)
}

/// The covered components for a request (AAuth section 15.3): `@method`,
/// `@authority`, `@path`, `@query` when the query is non-empty, the
/// additional components, `signature-key`, and `aauth-mission` when asked.
pub open spec fn covered_components_spec(
    query: Option<Seq<char>>,
    additional: Option<Seq<Seq<char>>>,
    include_aauth_mission: bool,
) -> Seq<Seq<char>> {
    let base = seq!["@method"@, "@authority"@, "@path"@];
    let with_query = match query {
        Some(q) => if q.len() > 0 {
            base.push("@query"@)
        } else {
            base
        },
        None => base,
    };
    let with_additional = match additional {
        Some(a) => with_query + a,
        None => with_query,
    };
    let with_key = with_additional.push("signature-key"@);
    if include_aauth_mission {
        with_key.push("aauth-mission"@)
    } else {
        with_key
    }
}

/// The covered components for a request (AAuth section 15.3).
///
/// `@method`, `@authority`, `@path` and `signature-key` are always covered;
/// `@query` when a query string is present. `additional_components` (such as
/// `content-type` or `content-digest` from resource metadata) come before
/// `signature-key`; `aauth-mission` comes after it when
/// `include_aauth_mission` is set.
pub fn determine_covered_components(
    query: Option<&str>,
    additional_components: Option<&[&str]>,
    include_aauth_mission: bool,
) -> (components: Vec<String>)
    ensures
        views(components@) == covered_components_spec(
            match query {
                Some(q) => Some(q@),
                None => None,
            },
            match additional_components {
                Some(a) => Some(a@.map_values(|c: &str| c@)),
                None => None,
            },
            include_aauth_mission,
        ),
{
    let mut components: Vec<String> = Vec::new();
    components.push("@method".to_owned());
    components.push("@authority".to_owned());
    components.push("@path".to_owned());
    assert(views(components@) =~= seq!["@method"@, "@authority"@, "@path"@]);
    let has_query = match query {
        Some(q) => !q.is_empty(),
        None => false,
    };
    if has_query {
        let ghost p = views(components@);
        components.push("@query".to_owned());
        assert(views(components@) =~= p.push("@query"@));
    }
    let ghost before_additional = views(components@);
    if let Some(additional) = additional_components {
        let mut i: usize = 0;
        while i < additional.len()
            invariant
                i <= additional@.len(),
                views(components@) == before_additional + additional@.map_values(|c: &str| c@).take(
                    i as int,
                ),
            decreases additional.len() - i,
        {
            let ghost prev = views(components@);
            components.push(additional[i].to_owned());
            assert(views(components@) =~= prev.push(additional@[i as int]@));
            assert(additional@.map_values(|c: &str| c@).take(i + 1) =~= additional@.map_values(
                |c: &str| c@,
            ).take(i as int).push(additional@[i as int]@));
            i += 1;
        }
        assert(additional@.map_values(|c: &str| c@).take(additional@.len() as int) =~= additional@.map_values(
            |c: &str| c@,
        ));
    }
    let ghost p1 = views(components@);
    components.push("signature-key".to_owned());
    assert(views(components@) =~= p1.push("signature-key"@));
    if include_aauth_mission {
        let ghost p2 = views(components@);
        components.push("aauth-mission".to_owned());
        assert(views(components@) =~= p2.push("aauth-mission"@));
    }
    proof {
        let q = match query {
            Some(q) => Some(q@),
            None => None,
        };
        let a = match additional_components {
            Some(a) => Some(a@.map_values(|c: &str| c@)),
            None => None,
        };
        assert(views(components@) =~= covered_components_spec(q, a, include_aauth_mission));
    }
    components
}

/// The covered components always hold `@method`, `@authority`, `@path`
/// and `signature-key`; `@query` exactly when the query is non-empty (the
/// additional components aside); `aauth-mission` last when asked for.
pub proof fn lemma_covered_components_mandatory(
    query: Option<Seq<char>>,
    additional: Option<Seq<Seq<char>>>,
    include_aauth_mission: bool,
)
    ensures
        ({
            let c = covered_components_spec(query, additional, include_aauth_mission);
            &&& c.contains("@method"@)
            &&& c.contains("@authority"@)
            &&& c.contains("@path"@)
            &&& c.contains("signature-key"@)
            &&& (query matches Some(q) && q.len() > 0) ==> c.contains("@query"@)
            &&& include_aauth_mission ==> c.last() == "aauth-mission"@
            &&& !include_aauth_mission ==> c.last() == "signature-key"@
        }),
{
    let c = covered_components_spec(query, additional, include_aauth_mission);
    assert(c[0] == "@method"@);
    assert(c[1] == "@authority"@);
    assert(c[2] == "@path"@);
    if let Some(q) = query {
        if q.len() > 0 {
            assert(c[3] == "@query"@);
        }
    }
    if include_aauth_mission {
        assert(c[c.len() - 2] == "signature-key"@);
    } else {
        assert(c[c.len() - 1] == "signature-key"@);
    }
}

/// Every additional component is covered, in the order given: the
/// additional components follow `@path` (or `@query`, when the query is
/// non-empty) directly, and `signature-key` follows them directly, whatever
/// the query and the `aauth-mission` choice.
pub proof fn lemma_covered_components_additional(
    query: Option<Seq<char>>,
    additional: Seq<Seq<char>>,
    include_aauth_mission: bool,
)
    ensures
        ({
            let c = covered_components_spec(query, Some(additional), include_aauth_mission);
            let k: int = if query matches Some(q) && q.len() > 0 {
                4
            } else {
                3
            };
            &&& c.len() == k + additional.len() + 1 + (if include_aauth_mission {
                1int
            } else {
                0int
            })
            &&& c[k - 1] == (if k == 4 {
                "@query"@
            } else {
                "@path"@
            })
            &&& forall|i: int| 0 <= i < additional.len() ==> c[k + i] == #[trigger] additional[i]
            &&& c[k + additional.len()] == "signature-key"@
        }),
{
}

/// Builds the `Signature-Input` value after the label (AAuth section
/// 15.4, where only `created` is required): `("@method" "@authority" ...);created=N`.
pub fn build_signature_params(covered_components: &[String], created: i64) -> (params: String)
    ensures
        params@ == signature_params_spec(views(covered_components@), created as int),
{
    let mut out = String::new();
    push_signature_params(&mut out, covered_components, created);
    assert(out@ =~= signature_params_spec(views(covered_components@), created as int));
    out
}

/// The `Content-Digest` value of a body (RFC 9530): `sha-256=:base64:`.
pub fn calculate_content_digest(body: &[u8]) -> (digest: String)
    ensures
        digest@ == "sha-256=:"@ + b64std_encode_spec(sha256_spec(body@)) + ":"@,
{
    let hash = sha256(body);
    let encoded = b64std_encode(hash.as_slice());
    let mut out = "sha-256=:".to_owned();
    out.append(encoded.as_str());
    out.append(":");
    out
}

} // verus!
