//! Decimal text of 64-bit signed integers, as `i64`'s `Display` writes it
//! and its `FromStr` reads it.

use vstd::prelude::*;

verus! {

pub open spec fn digit_char(d: int) -> char {
    (d + 48) as char
}

pub open spec fn is_digit(c: char) -> bool {
    '0' <= c && c <= '9'
}

/// Decimal digits of `n`, most significant first, without leading zeros.
pub open spec fn dec_nat(n: nat) -> Seq<char>
    decreases n,
{
    if n < 10 {
        seq![digit_char(n as int)]
    } else {
        dec_nat(n / 10).push(digit_char((n % 10) as int))
    }
}

/// Decimal text of `n`: a `-` before the digits of its magnitude when it is negative.
pub open spec fn dec_int(n: int) -> Seq<char> {
    if n < 0 {
        seq!['-'] + dec_nat((-n) as nat)
    } else {
        dec_nat(n as nat)
    }
}

/// Value of a run of decimal digits.
pub open spec fn digits_val(s: Seq<char>) -> int
    decreases s.len(),
{
    if s.len() == 0 {
        0
    } else {
        digits_val(s.drop_last()) * 10 + (s.last() as int - 48)
    }
}

pub open spec fn all_digits(s: Seq<char>) -> bool {
    forall|i: int| 0 <= i < s.len() ==> is_digit(#[trigger] s[i])
}

/// What `str::parse::<i64>` gives: an optional `+` or `-`, then at least one
/// ASCII digit and nothing else, and a value within the range of `i64`.
pub open spec fn parse_i64_spec(s: Seq<char>) -> Option<i64> {
    if s.len() == 0 {
        None
    } else {
        let neg = s[0] == '-';
        let ds = if s[0] == '+' || s[0] == '-' {
            s.subrange(1, s.len() as int)
        } else {
            s
        };
        if ds.len() == 0 || !all_digits(ds) {
            None
        } else {
            let v = if neg {
                -digits_val(ds)
            } else {
                digits_val(ds)
            };
            if i64::MIN <= v <= i64::MAX {
                Some(v as i64)
            } else {
                None
            }
        }
    }
}

fn digit(d: u64) -> (c: char)
    requires
        d < 10,
    ensures
        c == digit_char(d as int),
{
    ((d as u8) + 48u8) as char
}

/// Decimal digits of `m`.
fn push_dec_u64(m: u64, out: &mut Vec<char>)
    ensures
        final(out)@ == old(out)@ + dec_nat(m as nat),
    decreases m,
{
    if m < 10 {
        out.push(digit(m));
    } else {
        push_dec_u64(m / 10, out);
        let ghost mid = out@;
        out.push(digit(m % 10));
        assert(out@ =~= old(out)@ + dec_nat(m as nat));
    }
}

/// Appends the decimal text of `n` to `out`, as `format!("{n}")` writes it.
pub fn push_dec_i64(n: i64, out: &mut Vec<char>)
    ensures
        final(out)@ == old(out)@ + dec_int(n as int),
{
    if n < 0 {
        out.push('-');
        let m: u64 = if n == i64::MIN {
            9223372036854775808u64
        } else {
            (-n) as u64
        };
        push_dec_u64(m, out);
        assert(out@ =~= old(out)@ + dec_int(n as int));
    } else {
        push_dec_u64(n as u64, out);
    }
}

proof fn lemma_digits_val_nonneg(s: Seq<char>)
    requires
        all_digits(s),
    ensures
        digits_val(s) >= 0,
    decreases s.len(),
{
    if s.len() > 0 {
        assert(is_digit(s[s.len() - 1]));
        lemma_digits_val_nonneg(s.drop_last());
    }
}

/// A longer run of digits never has a smaller value than its prefix.
proof fn lemma_digits_val_prefix(s: Seq<char>, k: int)
    requires
        all_digits(s),
        0 <= k <= s.len(),
    ensures
        digits_val(s.take(k)) <= digits_val(s),
    decreases s.len(),
{
    if k < s.len() {
        let t = s.drop_last();
        assert(all_digits(t));
        lemma_digits_val_prefix(t, k);
        assert(t.take(k) =~= s.take(k));
        assert(is_digit(s[s.len() - 1]));
        lemma_digits_val_nonneg(t);
    } else {
        assert(s.take(k) =~= s);
    }
}

/// Reads an `i64` from `v[lo..hi]` as `str::parse::<i64>` does.
pub fn parse_i64(v: &Vec<char>, lo: usize, hi: usize) -> (r: Option<i64>)
    requires
        lo <= hi <= v.len(),
    ensures
        r == parse_i64_spec(v@.subrange(lo as int, hi as int)),
{
    let ghost s = v@.subrange(lo as int, hi as int);
    if lo == hi {
        return None;
    }
    let neg = v[lo] == '-';
    let start = if v[lo] == '+' || v[lo] == '-' {
        lo + 1
    } else {
        lo
    };
    let ghost ds = v@.subrange(start as int, hi as int);
    assert(ds =~= (if s[0] == '+' || s[0] == '-' {
        s.subrange(1, s.len() as int)
    } else {
        s
    }));
    if start == hi {
        return None;
    }
    let limit: u64 = if neg {
        9223372036854775808u64
    } else {
        9223372036854775807u64
    };
    let mut acc: u64 = 0;
    let mut i = start;
    let mut overflow = false;
    while i < hi
        invariant
            start <= i <= hi <= v.len(),
            s == v@.subrange(lo as int, hi as int),
            s.len() > 0,
            neg == (s[0] == '-'),
            ds == (if s[0] == '+' || s[0] == '-' {
                s.subrange(1, s.len() as int)
            } else {
                s
            }),
            ds.len() > 0,
            ds == v@.subrange(start as int, hi as int),
            all_digits(ds.take(i - start)),
            !overflow ==> acc == digits_val(ds.take(i - start)) && acc <= limit,
            overflow ==> digits_val(ds.take(i - start)) > limit,
            limit == (if neg {
                9223372036854775808u64
            } else {
                9223372036854775807u64
            }),
        decreases hi - i,
    {
        let c = v[i];
        if !('0' <= c && c <= '9') {
            assert(ds[i - start] == c);
            assert(!is_digit(ds[i - start]));
            return None;
        }
        let ghost pre = ds.take(i - start);
        let ghost next = ds.take(i - start + 1);
        assert(next.drop_last() =~= pre);
        assert(all_digits(next));
        proof {
            lemma_digits_val_nonneg(pre);
        }
        let d = (c as u64) - 48;
        if !overflow {
            if acc > (limit - d) / 10 {
                assert(acc * 10 + d > limit) by (nonlinear_arith)
                    requires
                        acc > (limit - d) / 10,
                        d <= limit,
                ;
                overflow = true;
            } else {
                assert(acc * 10 + d <= limit) by (nonlinear_arith)
                    requires
                        acc <= (limit - d) / 10,
                        d <= limit,
                ;
                acc = acc * 10 + d;
            }
        } else {
            assert(digits_val(next) >= digits_val(pre) * 10) by (nonlinear_arith)
                requires
                    digits_val(next) == digits_val(pre) * 10 + d,
                    d >= 0,
            ;
            assert(digits_val(pre) * 10 >= digits_val(pre)) by (nonlinear_arith)
                requires
                    digits_val(pre) >= 0,
            ;
        }
        i += 1;
    }
    assert(ds.take(hi - start) =~= ds);
    if overflow {
        return None;
    }
    if neg {
        if acc == 9223372036854775808u64 {
            Some(i64::MIN)
        } else {
            Some(-(acc as i64))
        }
    } else {
        Some(acc as i64)
    }
}

proof fn lemma_dec_nat(n: nat)
    ensures
        dec_nat(n).len() > 0,
        all_digits(dec_nat(n)),
        digits_val(dec_nat(n)) == n,
    decreases n,
{
    if n < 10 {
        assert(digit_char(n as int) as int == n + 48);
        let s = dec_nat(n);
        assert(s.drop_last() =~= Seq::<char>::empty());
        assert(digits_val(s) == digits_val(s.drop_last()) * 10 + n);
    } else {
        lemma_dec_nat(n / 10);
        let s = dec_nat(n);
        let k = (n % 10) as int;
        assert(digit_char(k) as int == k + 48);
        assert(s.drop_last() =~= dec_nat(n / 10));
        assert(s.last() == digit_char(k));
        assert(digits_val(s) == digits_val(s.drop_last()) * 10 + k);
        assert(n == (n / 10) * 10 + k);
        assert forall|i: int| 0 <= i < s.len() implies is_digit(#[trigger] s[i]) by {
            if i < s.len() - 1 {
                assert(s[i] == dec_nat(n / 10)[i]);
            }
        }
    }
}

/// Reading back the decimal text of an `i64` gives the same number.
pub proof fn lemma_parse_dec_i64(n: i64)
    ensures
        parse_i64_spec(dec_int(n as int)) == Some(n),
{
    let s = dec_int(n as int);
    if n < 0 {
        let m = (-n) as nat;
        lemma_dec_nat(m);
        assert(s.subrange(1, s.len() as int) =~= dec_nat(m));
    } else {
        lemma_dec_nat(n as nat);
        assert(is_digit(s[0]));
    }
}

/// Decimal text is non-empty, ends with a digit, and holds only digits
/// after an optional leading `-`.
pub proof fn lemma_dec_int_chars(n: int)
    ensures
        dec_int(n).len() > 0,
        is_digit(dec_int(n)[dec_int(n).len() - 1]),
        forall|i: int|
            0 <= i < dec_int(n).len() ==> is_digit(#[trigger] dec_int(n)[i]) || (i == 0 && dec_int(
                n,
            )[i] == '-'),
{
    let s = dec_int(n);
    if n < 0 {
        let m = (-n) as nat;
        lemma_dec_nat(m);
        let d = dec_nat(m);
        assert(s =~= seq!['-'] + d);
        assert(is_digit(d[d.len() - 1]));
        assert forall|i: int| 0 <= i < s.len() implies is_digit(#[trigger] s[i]) || (i == 0 && s[i]
            == '-') by {
            if i > 0 {
                assert(s[i] == d[i - 1]);
            }
        }
    } else {
        lemma_dec_nat(n as nat);
        assert(is_digit(s[s.len() - 1]));
    }
}

} // verus!
