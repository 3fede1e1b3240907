//! Character-level helpers shared by the header parsers and builders:
//! Unicode whitespace trimming, searching, and decimal integers.

use vstd::prelude::*;

verus! {

/// Unicode `White_Space`, the set that `char::is_whitespace` tests.
pub open spec fn is_ws(c: char) -> bool {
    ||| ('\u{09}' <= c && c <= '\u{0D}')
    ||| c == ' '
    ||| c == '\u{85}'
    ||| c == '\u{A0}'
    ||| c == '\u{1680}'
    ||| ('\u{2000}' <= c && c <= '\u{200A}')
    ||| c == '\u{2028}'
    ||| c == '\u{2029}'
    ||| c == '\u{202F}'
    ||| c == '\u{205F}'
    ||| c == '\u{3000}'
}

pub fn is_ws_char(c: char) -> (r: bool)
    ensures
        r == is_ws(c),
{
    ('\u{09}' <= c && c <= '\u{0D}') || c == ' ' || c == '\u{85}' || c == '\u{A0}' || c
        == '\u{1680}' || ('\u{2000}' <= c && c <= '\u{200A}') || c == '\u{2028}' || c
        == '\u{2029}' || c == '\u{202F}' || c == '\u{205F}' || c == '\u{3000}'
}

/// `s` without its leading whitespace.
pub open spec fn trim_start(s: Seq<char>) -> Seq<char>
    decreases s.len(),
{
    if s.len() > 0 && is_ws(s[0]) {
        trim_start(s.subrange(1, s.len() as int))
    } else {
        s
    }
}

/// `s` without its trailing whitespace.
pub open spec fn trim_end(s: Seq<char>) -> Seq<char>
    decreases s.len(),
{
    if s.len() > 0 && is_ws(s[s.len() - 1]) {
        trim_end(s.subrange(0, s.len() - 1))
    } else {
        s
    }
}

/// `s` without leading and trailing whitespace, as `str::trim` gives it.
pub open spec fn trim(s: Seq<char>) -> Seq<char> {
    trim_end(trim_start(s))
}

/// Index of the first character of `v[lo..hi]` that is not whitespace.
pub fn trim_start_at(v: &Vec<char>, lo: usize, hi: usize) -> (r: usize)
    requires
        lo <= hi <= v.len(),
    ensures
        lo <= r <= hi,
        v@.subrange(r as int, hi as int) == trim_start(v@.subrange(lo as int, hi as int)),
{
    let mut i = lo;
    while i < hi && is_ws_char(v[i])
        invariant
            lo <= i <= hi,
            hi <= v.len(),
            trim_start(v@.subrange(i as int, hi as int)) == trim_start(
                v@.subrange(lo as int, hi as int),
            ),
        decreases hi - i,
    {
        assert(v@.subrange(i + 1, hi as int) =~= v@.subrange(i as int, hi as int).subrange(
            1,
            (hi - i) as int,
        ));
        i += 1;
    }
    i
}

/// End of `v[lo..hi]` once its trailing whitespace is dropped.
pub fn trim_end_at(v: &Vec<char>, lo: usize, hi: usize) -> (r: usize)
    requires
        lo <= hi <= v.len(),
    ensures
        lo <= r <= hi,
        v@.subrange(lo as int, r as int) == trim_end(v@.subrange(lo as int, hi as int)),
{
    let mut j = hi;
    while j > lo && is_ws_char(v[j - 1])
        invariant
            lo <= j <= hi,
            hi <= v.len(),
            trim_end(v@.subrange(lo as int, j as int)) == trim_end(
                v@.subrange(lo as int, hi as int),
            ),
        decreases j - lo,
    {
        assert(v@.subrange(lo as int, j - 1) =~= v@.subrange(lo as int, j as int).subrange(
            0,
            (j - 1 - lo) as int,
        ));
        j -= 1;
    }
    j
}

/// Bounds of `v[lo..hi]` trimmed on both sides.
pub fn trim_at(v: &Vec<char>, lo: usize, hi: usize) -> (r: (usize, usize))
    requires
        lo <= hi <= v.len(),
    ensures
        lo <= r.0 <= r.1 <= hi,
        v@.subrange(r.0 as int, r.1 as int) == trim(v@.subrange(lo as int, hi as int)),
{
    let a = trim_start_at(v, lo, hi);
    let b = trim_end_at(v, a, hi);
    (a, b)
}

/// The characters of `s`.
pub fn chars_of(s: &str) -> (v: Vec<char>)
    ensures
        v@ == s@,
{
    broadcast use vstd::string::group_string_axioms;

    let mut v: Vec<char> = Vec::new();
    for c in it: s.chars()
        invariant
            it.seq() == s@,
            v@ == it.seq().take(it.index() as int),
    {
        v.push(c);
    }
    assert(v@ =~= s@);
    v
}

/// Appends `c` to `s` (`String::push`, whose documentation says it appends
/// the character to the end of the string).
#[verifier::external_body]
pub(crate) fn push_char(s: &mut String, c: char)
    ensures
        final(s)@ == old(s)@.push(c),
{
    s.push(c);
}

/// The string made of `v[lo..hi]`.
pub fn string_of_range(v: &Vec<char>, lo: usize, hi: usize) -> (s: String)
    requires
        lo <= hi <= v.len(),
    ensures
        s@ == v@.subrange(lo as int, hi as int),
{
    let mut s = String::new();
    let mut i = lo;
    while i < hi
        invariant
            lo <= i <= hi <= v.len(),
            s@ == v@.subrange(lo as int, i as int),
        decreases hi - i,
    {
        push_char(&mut s, v[i]);
        assert(s@ =~= v@.subrange(lo as int, i + 1));
        i += 1;
    }
    s
}

/// Appends the characters `v[lo..hi]` to `s`.
pub fn push_range(s: &mut String, v: &Vec<char>, lo: usize, hi: usize)
    requires
        lo <= hi <= v.len(),
    ensures
        final(s)@ == old(s)@ + v@.subrange(lo as int, hi as int),
{
    let ghost start = s@;
    let mut i = lo;
    while i < hi
        invariant
            lo <= i <= hi <= v.len(),
            s@ == start + v@.subrange(lo as int, i as int),
        decreases hi - i,
    {
        push_char(s, v[i]);
        assert(s@ =~= start + v@.subrange(lo as int, i + 1));
        i += 1;
    }
}

/// Index of the first `c` in `s`.
pub open spec fn find(s: Seq<char>, c: char) -> Option<int>
    decreases s.len(),
{
    if s.len() == 0 {
        None
    } else if s[0] == c {
        Some(0)
    } else {
        match find(s.subrange(1, s.len() as int), c) {
            Some(i) => Some(i + 1),
            None => None,
        }
    }
}

/// `find` gives the first index holding `c`, and `None` when there is none.
pub proof fn lemma_find(s: Seq<char>, c: char)
    ensures
        find(s, c) is Some <==> exists|i: int| 0 <= i < s.len() && s[i] == c,
        find(s, c) matches Some(i) ==> 0 <= i < s.len() && s[i] == c && forall|j: int|
            0 <= j < i ==> s[j] != c,
    decreases s.len(),
{
    if s.len() > 0 {
        let t = s.subrange(1, s.len() as int);
        lemma_find(t, c);
        if s[0] != c {
            if exists|i: int| 0 <= i < s.len() && s[i] == c {
                let i = choose|i: int| 0 <= i < s.len() && s[i] == c;
                assert(t[i - 1] == c);
            }
            if exists|i: int| 0 <= i < t.len() && t[i] == c {
                let i = choose|i: int| 0 <= i < t.len() && t[i] == c;
                assert(s[i + 1] == c);
            }
            if let Some(k) = find(t, c) {
                assert forall|j: int| 0 <= j < k + 1 implies s[j] != c by {
                    if j > 0 {
                        assert(s[j] == t[j - 1]);
                    }
                }
            }
        }
    }
}

/// A sequence in which `c` stands at `i` and nowhere before has `find` equal to `i`.
pub proof fn lemma_find_at(s: Seq<char>, c: char, i: int)
    requires
        0 <= i < s.len(),
        s[i] == c,
        forall|j: int| 0 <= j < i ==> s[j] != c,
    ensures
        find(s, c) == Some(i),
{
    lemma_find(s, c);
    let k = find(s, c)->0;
    if k < i {
    } else if k > i {
    }
}

/// A sequence without `c` has no `find`.
pub proof fn lemma_find_none(s: Seq<char>, c: char)
    requires
        forall|j: int| 0 <= j < s.len() ==> s[j] != c,
    ensures
        find(s, c) is None,
{
    lemma_find(s, c);
}

/// Index in `v` of the first `c` of `v[lo..hi]`.
pub fn find_char(v: &Vec<char>, lo: usize, hi: usize, c: char) -> (r: Option<usize>)
    requires
        lo <= hi <= v.len(),
    ensures
        match r {
            Some(i) => lo <= i < hi && find(v@.subrange(lo as int, hi as int), c) == Some(
                i - lo,
            ),
            None => find(v@.subrange(lo as int, hi as int), c) is None,
        },
{
    let ghost w = v@.subrange(lo as int, hi as int);
    let mut i = lo;
    while i < hi
        invariant
            lo <= i <= hi <= v.len(),
            w == v@.subrange(lo as int, hi as int),
            forall|j: int| 0 <= j < i - lo ==> w[j] != c,
        decreases hi - i,
    {
        if v[i] == c {
            proof {
                lemma_find_at(w, c, i - lo);
            }
            return Some(i);
        }
        i += 1;
    }
    proof {
        lemma_find_none(w, c);
    }
    None
}

/// `s` without the run of `c` at its end (`str::trim_end_matches(c)`).
pub open spec fn strip_trailing(s: Seq<char>, c: char) -> Seq<char>
    decreases s.len(),
{
    if s.len() > 0 && s[s.len() - 1] == c {
        strip_trailing(s.subrange(0, s.len() - 1), c)
    } else {
        s
    }
}

/// `s` without the run of `c` at its start (`str::trim_start_matches(c)`).
pub open spec fn strip_leading(s: Seq<char>, c: char) -> Seq<char>
    decreases s.len(),
{
    if s.len() > 0 && s[0] == c {
        strip_leading(s.subrange(1, s.len() as int), c)
    } else {
        s
    }
}

/// End of `v[lo..hi]` once the run of `c` at its end is dropped.
pub fn strip_trailing_at(v: &Vec<char>, lo: usize, hi: usize, c: char) -> (r: usize)
    requires
        lo <= hi <= v.len(),
    ensures
        lo <= r <= hi,
        v@.subrange(lo as int, r as int) == strip_trailing(v@.subrange(lo as int, hi as int), c),
{
    let mut j = hi;
    while j > lo && v[j - 1] == c
        invariant
            lo <= j <= hi,
            hi <= v.len(),
            strip_trailing(v@.subrange(lo as int, j as int), c) == strip_trailing(
                v@.subrange(lo as int, hi as int),
                c,
            ),
        decreases j - lo,
    {
        assert(v@.subrange(lo as int, j - 1) =~= v@.subrange(lo as int, j as int).subrange(
            0,
            (j - 1 - lo) as int,
        ));
        j -= 1;
    }
    j
}

/// Start of `v[lo..hi]` once the run of `c` at its start is dropped.
pub fn strip_leading_at(v: &Vec<char>, lo: usize, hi: usize, c: char) -> (r: usize)
    requires
        lo <= hi <= v.len(),
    ensures
        lo <= r <= hi,
        v@.subrange(r as int, hi as int) == strip_leading(v@.subrange(lo as int, hi as int), c),
{
    let mut i = lo;
    while i < hi && v[i] == c
        invariant
            lo <= i <= hi,
            hi <= v.len(),
            strip_leading(v@.subrange(i as int, hi as int), c) == strip_leading(
                v@.subrange(lo as int, hi as int),
                c,
            ),
        decreases hi - i,
    {
        assert(v@.subrange(i + 1, hi as int) =~= v@.subrange(i as int, hi as int).subrange(
            1,
            (hi - i) as int,
        ));
        i += 1;
    }
    i
}

/// Whitespace trimming leaves a sequence that neither starts nor ends with whitespace unchanged.
pub proof fn lemma_trim_unchanged(s: Seq<char>)
    requires
        s.len() > 0 ==> !is_ws(s[0]) && !is_ws(s[s.len() - 1]),
    ensures
        trim(s) == s,
        trim_start(s) == s,
        trim_end(s) == s,
{
}

/// Stripping `c` from the end of a sequence without `c` leaves it unchanged.
pub proof fn lemma_strip_trailing_none(s: Seq<char>, c: char)
    requires
        forall|i: int| 0 <= i < s.len() ==> s[i] != c,
    ensures
        strip_trailing(s, c) == s,
{
}

/// The `Debug` text of a string (`format!("{:?}", s)`): quoted and escaped.
///
/// Trusted: nothing is said of the text.
#[verifier::external_body]
pub(crate) fn debug_text(s: &str) -> String {
    format!("{:?}", s)
}

/// The `Debug` text of an optional string: `None`, or `Some(` its quoted text `)`.
pub(crate) fn debug_option(s: &Option<String>) -> String {
    match s {
        None => "None".to_owned(),
        Some(t) => {
            let mut out = "Some(".to_owned();
            let q = debug_text(t.as_str());
            out.append(q.as_str());
            out.append(")");
            out
        },
    }
}

/// Whether two strings are equal.
pub fn str_eq(a: &str, b: &str) -> (r: bool)
    ensures
        r == (a@ == b@),
{
    a.to_owned() == b.to_owned()
}

} // verus!
