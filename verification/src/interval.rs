//! The refresh-interval strings: parsing a duration like `100ms`, `1` or
//! `2s` into whole milliseconds, and formatting milliseconds back for the
//! status line.
//!
//! A duration string is surrounding whitespace, a decimal value — digits
//! with at most one dot and at least one digit — and an optional unit
//! suffix, `ms` or `s` in either case, `s` when absent. The milliseconds
//! are the value truncated: whole milliseconds of `value` for `ms`, of
//! `value * 1000` for `s`. An interval under 100 ms is refused.

use vstd::prelude::*;
use vstd::string::StrSliceExecFns;
use vstd::string::StringExecFns;
use crate::content::is_blank_char;
use crate::text::push_char;

verus! {

/// A decimal digit.
pub open spec fn is_digit(c: char) -> bool {
    ||| c == '0'
    ||| c == '1'
    ||| c == '2'
    ||| c == '3'
    ||| c == '4'
    ||| c == '5'
    ||| c == '6'
    ||| c == '7'
    ||| c == '8'
    ||| c == '9'
}

/// The value of a decimal digit.
pub open spec fn digit_val(c: char) -> int {
    if c == '0' {
        0
    } else if c == '1' {
        1
    } else if c == '2' {
        2
    } else if c == '3' {
        3
    } else if c == '4' {
        4
    } else if c == '5' {
        5
    } else if c == '6' {
        6
    } else if c == '7' {
        7
    } else if c == '8' {
        8
    } else {
        9
    }
}

/// The character for a decimal digit's value.
pub open spec fn dec_digit(d: int) -> char {
    if d == 0 {
        '0'
    } else if d == 1 {
        '1'
    } else if d == 2 {
        '2'
    } else if d == 3 {
        '3'
    } else if d == 4 {
        '4'
    } else if d == 5 {
        '5'
    } else if d == 6 {
        '6'
    } else if d == 7 {
        '7'
    } else if d == 8 {
        '8'
    } else {
        '9'
    }
}

pub open spec fn all_digits(s: Seq<char>) -> bool {
    forall|i: int| 0 <= i < s.len() ==> is_digit(s[i])
}

/// The number a sequence of decimal digits denotes; the empty sequence
/// denotes zero.
pub open spec fn digits_val(s: Seq<char>) -> int
    decreases s.len(),
{
    if s.len() == 0 {
        0
    } else {
        digits_val(s.drop_last()) * 10 + digit_val(s.last())
    }
}

proof fn lemma_digits_val_nonneg(s: Seq<char>)
    ensures
        digits_val(s) >= 0,
    decreases s.len(),
{
    if s.len() > 0 {
        lemma_digits_val_nonneg(s.drop_last());
    }
}

/// The whole milliseconds in the first three fraction digits: the fraction
/// is read to a thousandth, truncated, padded with zeros when shorter.
pub open spec fn frac3_val(fp: Seq<char>) -> int {
    if fp.len() >= 3 {
        digits_val(fp.take(3))
    } else if fp.len() == 2 {
        digits_val(fp) * 10
    } else if fp.len() == 1 {
        digits_val(fp) * 100
    } else {
        0
    }
}

/// The input with leading whitespace removed.
pub open spec fn trim_front(s: Seq<char>) -> Seq<char>
    decreases s.len(),
{
    if s.len() > 0 && is_blank_char(s[0]) {
        trim_front(s.drop_first())
    } else {
        s
    }
}

/// The input with trailing whitespace removed.
pub open spec fn trim_back(s: Seq<char>) -> Seq<char>
    decreases s.len(),
{
    if s.len() > 0 && is_blank_char(s.last()) {
        trim_back(s.drop_last())
    } else {
        s
    }
}

/// The input with surrounding whitespace removed.
pub open spec fn trimmed(s: Seq<char>) -> Seq<char> {
    trim_back(trim_front(s))
}

/// The index of the first dot, or the length when there is none.
pub open spec fn first_dot(s: Seq<char>) -> int
    decreases s.len(),
{
    if s.len() == 0 {
        0
    } else if s[0] == '.' {
        0
    } else {
        1 + first_dot(s.drop_first())
    }
}

/// A trimmed input ending in the unit `ms`, in either case.
pub open spec fn ends_ms(t: Seq<char>) -> bool {
    t.len() >= 2 && (t[t.len() - 2] == 'm' || t[t.len() - 2] == 'M') && (t[t.len() - 1] == 's'
        || t[t.len() - 1] == 'S')
}

/// A trimmed input ending in the unit `s`, in either case.
pub open spec fn ends_s(t: Seq<char>) -> bool {
    t.len() >= 1 && (t[t.len() - 1] == 's' || t[t.len() - 1] == 'S')
}

/// The value part of a trimmed input: what precedes its unit suffix.
pub open spec fn value_part(t: Seq<char>) -> Seq<char> {
    if ends_ms(t) {
        t.take(t.len() - 2)
    } else if ends_s(t) {
        t.take(t.len() - 1)
    } else {
        t
    }
}

/// What a duration string denotes, in whole milliseconds: `None` when it is
/// not surrounding whitespace, a decimal value of at least one digit and at
/// most one dot, and an optional `ms`/`s` suffix.
pub open spec fn interval_ms_spec(s: Seq<char>) -> Option<int> {
    let t = trimmed(s);
    let v = value_part(t);
    let p = first_dot(v);
    let ip = v.take(p);
    let fp = if p < v.len() {
        v.skip(p + 1)
    } else {
        Seq::<char>::empty()
    };
    if all_digits(ip) && all_digits(fp) && ip.len() + fp.len() >= 1 {
        if ends_ms(t) {
            Some(digits_val(ip))
        } else {
            Some(digits_val(ip) * 1000 + frac3_val(fp))
        }
    } else {
        None
    }
}

proof fn lemma_trim_front_at(s: Seq<char>, k: int)
    requires
        0 <= k <= s.len(),
        forall|j: int| 0 <= j < k ==> is_blank_char(s[j]),
        k == s.len() || !is_blank_char(s[k]),
    ensures
        trim_front(s) =~= s.skip(k),
    decreases k,
{
    if k == 0 {
        assert(s.skip(0) =~= s);
    } else {
        let s1 = s.drop_first();
        assert forall|j: int| 0 <= j < k - 1 implies is_blank_char(s1[j]) by {
            assert(s1[j] == s[j + 1]);
        }
        lemma_trim_front_at(s1, k - 1);
        assert(s1.skip(k - 1) =~= s.skip(k));
    }
}

proof fn lemma_trim_back_at(s: Seq<char>, e: int)
    requires
        0 <= e <= s.len(),
        forall|j: int| e <= j < s.len() ==> is_blank_char(s[j]),
        e == 0 || !is_blank_char(s[e - 1]),
    ensures
        trim_back(s) =~= s.take(e),
    decreases s.len(),
{
    if s.len() == e {
        assert(s.take(e) =~= s);
    } else {
        let s1 = s.drop_last();
        assert forall|j: int| e <= j < s1.len() implies is_blank_char(s1[j]) by {
            assert(s1[j] == s[j]);
        }
        lemma_trim_back_at(s1, e);
        assert(s1.take(e) =~= s.take(e));
    }
}

proof fn lemma_first_dot_at(s: Seq<char>, p: int)
    requires
        0 <= p <= s.len(),
        forall|j: int| 0 <= j < p ==> s[j] != '.',
        p == s.len() || s[p] == '.',
    ensures
        first_dot(s) == p,
    decreases p,
{
    if p > 0 {
        let s1 = s.drop_first();
        assert forall|j: int| 0 <= j < p - 1 implies s1[j] != '.' by {
            assert(s1[j] == s[j + 1]);
        }
        lemma_first_dot_at(s1, p - 1);
    }
}

proof fn lemma_first_dot_ge(s: Seq<char>, m: int)
    requires
        0 <= m <= s.len(),
        forall|j: int| 0 <= j < m ==> s[j] != '.',
    ensures
        first_dot(s) >= m,
        first_dot(s) <= s.len(),
    decreases s.len(),
{
    if s.len() > 0 && s[0] != '.' {
        let s1 = s.drop_first();
        assert forall|j: int| 0 <= j < m - 1 implies s1[j] != '.' by {
            assert(s1[j] == s[j + 1]);
        }
        if m > 0 {
            lemma_first_dot_ge(s1, m - 1);
        } else {
            lemma_first_dot_ge(s1, 0);
        }
    }
}

/// Why a duration string was refused.
#[derive(Clone, Copy, Debug, PartialEq, Eq, Structural)]
pub enum IntervalError {
    /// Not a decimal value with an optional `ms`/`s` suffix.
    Invalid,
    /// A well-formed duration under the 100 ms minimum.
    TooSmall,
    /// A well-formed duration too large to hold in milliseconds.
    TooLarge,
}

impl IntervalError {
    /// A description of the error for the user.
    pub fn message(&self) -> (r: String)
        ensures
            *self is Invalid ==> r@ == "无效的时间值"@,
            *self is TooSmall ==> r@ == "间隔不能小于100毫秒"@,
            *self is TooLarge ==> r@ == "间隔过大"@,
    {
        match self {
            IntervalError::Invalid => String::from_str("无效的时间值"),
            IntervalError::TooSmall => String::from_str("间隔不能小于100毫秒"),
            IntervalError::TooLarge => String::from_str("间隔过大"),
        }
    }
}

/// The decimal representation of a number, most significant digit first;
/// zero is `0`.
pub open spec fn dec_rep(n: int) -> Seq<char>
    decreases n,
{
    if n < 10 {
        seq![dec_digit(n)]
    } else {
        dec_rep(n / 10).push(dec_digit(n % 10))
    }
}

fn dec_digit_of(d: u64) -> (c: char)
    requires
        d < 10,
    ensures
        c == dec_digit(d as int),
{
    if d == 0 {
        '0'
    } else if d == 1 {
        '1'
    } else if d == 2 {
        '2'
    } else if d == 3 {
        '3'
    } else if d == 4 {
        '4'
    } else if d == 5 {
        '5'
    } else if d == 6 {
        '6'
    } else if d == 7 {
        '7'
    } else if d == 8 {
        '8'
    } else {
        '9'
    }
}

/// The decimal representation of `n`.
fn u64_to_dec(n: u64) -> (r: String)
    ensures
        r@ == dec_rep(n as int),
{
    let mut digits: Vec<char> = Vec::new();
    let mut cur = n;
    proof {
        assert(dec_rep(n as int) =~= dec_rep(n as int) + digits@.reverse());
    }
    loop
        invariant_except_break
            dec_rep(n as int) == dec_rep(cur as int) + digits@.reverse(),
        invariant
            cur <= n,
        ensures
            dec_rep(n as int) == digits@.reverse(),
        decreases cur,
    {
        let ghost prev = digits@;
        let d = cur % 10;
        let c = dec_digit_of(d);
        digits.push(c);
        proof {
            assert(digits@.reverse() =~= seq![c] + prev.reverse());
        }
        if cur < 10 {
            proof {
                assert(dec_rep(cur as int) =~= seq![c]);
                assert(dec_rep(cur as int) + prev.reverse() =~= seq![c] + prev.reverse());
            }
            break ;
        }
        proof {
            assert(dec_rep(cur as int) == dec_rep(cur as int / 10).push(c));
            assert(dec_rep(cur as int / 10).push(c) =~= dec_rep(cur as int / 10) + seq![c]);
            assert(dec_rep(cur as int / 10) + seq![c] + prev.reverse() =~= dec_rep(
                cur as int / 10,
            ) + (seq![c] + prev.reverse()));
        }
        cur = cur / 10;
    }
    let mut r = String::new();
    let mut i: usize = digits.len();
    proof {
        assert(r@ =~= digits@.skip(i as int).reverse());
    }
    while i > 0
        invariant
            0 <= i <= digits.len(),
            dec_rep(n as int) == digits@.reverse(),
            r@ == digits@.skip(i as int).reverse(),
        decreases i,
    {
        let ghost prevr = r@;
        let c = digits[i - 1];
        push_char(&mut r, c);
        proof {
            assert(digits@.skip(i - 1).reverse() =~= prevr.push(c));
        }
        i = i - 1;
    }
    proof {
        assert(digits@.skip(0) =~= digits@);
    }
    r
}

fn is_digit_char(c: char) -> (r: bool)
    ensures
        r == is_digit(c),
{
    c == '0' || c == '1' || c == '2' || c == '3' || c == '4' || c == '5' || c == '6' || c == '7'
        || c == '8' || c == '9'
}

fn digit_value_of(c: char) -> (d: u64)
    requires
        is_digit(c),
    ensures
        d == digit_val(c),
        d <= 9,
{
    if c == '0' {
        0
    } else if c == '1' {
        1
    } else if c == '2' {
        2
    } else if c == '3' {
        3
    } else if c == '4' {
        4
    } else if c == '5' {
        5
    } else if c == '6' {
        6
    } else if c == '7' {
        7
    } else if c == '8' {
        8
    } else {
        9
    }
}

/// Parse a duration string into whole milliseconds: `Ok` exactly for a
/// well-formed duration from 100 ms up to what fits in a `u64`, and the
/// error says which of the three ways the string fell short.
#[verifier::rlimit(100)]
#[verifier::spinoff_prover]
pub fn parse_interval(interval_str: &str) -> (r: Result<u64, IntervalError>)
    ensures
        ({
            let p = interval_ms_spec(interval_str@);
            match r {
                Ok(ms) => p == Some(ms as int) && ms >= 100,
                Err(IntervalError::Invalid) => p is None,
                Err(IntervalError::TooSmall) => p matches Some(v) && v < 100,
                Err(IntervalError::TooLarge) => p matches Some(v) && v > u64::MAX,
            }
        }),
{
    let ghost s = interval_str@;
    let n = interval_str.unicode_len();
    let mut start: usize = 0;
    loop
        invariant
            0 <= start <= n,
            n == s.len(),
            s == interval_str@,
            forall|j: int| 0 <= j < start ==> is_blank_char(s[j]),
        ensures
            0 <= start <= n,
            forall|j: int| 0 <= j < start ==> is_blank_char(s[j]),
            start == n || !is_blank_char(s[start as int]),
        decreases n - start,
    {
        if start >= n {
            break ;
        }
        let c = interval_str.get_char(start);
        if !crate::content::blank_char(c) {
            break ;
        }
        start = start + 1;
    }
    let mut end: usize = n;
    loop
        invariant
            start <= end <= n,
            n == s.len(),
            s == interval_str@,
            forall|j: int| end <= j < n ==> is_blank_char(s[j]),
        ensures
            start <= end <= n,
            forall|j: int| end <= j < n ==> is_blank_char(s[j]),
            end == start || !is_blank_char(s[end - 1]),
        decreases end,
    {
        if end <= start {
            break ;
        }
        let c = interval_str.get_char(end - 1);
        if !crate::content::blank_char(c) {
            break ;
        }
        end = end - 1;
    }
    let ghost t = s.subrange(start as int, end as int);
    proof {
        lemma_trim_front_at(s, start as int);
        let t1 = s.skip(start as int);
        assert forall|j: int| end - start <= j < t1.len() implies is_blank_char(t1[j]) by {
            assert(t1[j] == s[start + j]);
        }
        if end > start {
            assert(t1[end - start - 1] == s[end - 1]);
        }
        lemma_trim_back_at(t1, end - start);
        assert(t1.take(end - start) =~= t);
        assert(trimmed(s) == t);
    }
    let tn = end - start;
    let has_ms = if tn >= 2 {
        let cm = interval_str.get_char(start + tn - 2);
        let cs = interval_str.get_char(start + tn - 1);
        proof {
            assert(t[tn - 2] == s[start + tn - 2]);
            assert(t[tn - 1] == s[start + tn - 1]);
        }
        (cm == 'm' || cm == 'M') && (cs == 's' || cs == 'S')
    } else {
        false
    };
    let has_s = if !has_ms && tn >= 1 {
        let cs = interval_str.get_char(start + tn - 1);
        proof {
            assert(t[tn - 1] == s[start + tn - 1]);
        }
        cs == 's' || cs == 'S'
    } else {
        false
    };
    let vlen = if has_ms {
        tn - 2
    } else if has_s {
        tn - 1
    } else {
        tn
    };
    let ghost v = value_part(t);
    proof {
        assert(has_ms == ends_ms(t));
        assert(v =~= t.take(vlen as int));
        assert(v.len() == vlen);
    }
    let mut k: usize = 0;
    let mut int_val: u64 = 0;
    let mut too_large = false;
    loop
        invariant
            0 <= k <= vlen,
            v.len() == vlen,
            v == value_part(t),
            v == t.take(vlen as int),
            trimmed(s) == t,
            s == interval_str@,
            n == s.len(),
            t == s.subrange(start as int, end as int),
            start + vlen <= end <= n,
            forall|j: int| 0 <= j < k ==> is_digit(v[j]),
            forall|j: int| 0 <= j < k ==> v[j] != '.',
            !too_large ==> int_val == digits_val(v.take(k as int)),
            too_large ==> digits_val(v.take(k as int)) > u64::MAX,
        ensures
            0 <= k <= vlen,
            forall|j: int| 0 <= j < k ==> is_digit(v[j]),
            forall|j: int| 0 <= j < k ==> v[j] != '.',
            !too_large ==> int_val == digits_val(v.take(k as int)),
            too_large ==> digits_val(v.take(k as int)) > u64::MAX,
            k == vlen || v[k as int] == '.',
        decreases vlen - k,
    {
        if k >= vlen {
            break ;
        }
        let c = interval_str.get_char(start + k);
        proof {
            assert(t[k as int] == s[start + k]);
            assert(v[k as int] == t[k as int]);
        }
        if c == '.' {
            break ;
        }
        if !is_digit_char(c) {
            proof {
                lemma_first_dot_ge(v, k + 1);
                let p = first_dot(v);
                assert(v.take(p)[k as int] == v[k as int]);
                assert(!all_digits(v.take(p)));
            }
            return Result::Err(IntervalError::Invalid);
        }
        let d = digit_value_of(c);
        proof {
            assert(v.take(k + 1).drop_last() =~= v.take(k as int));
            assert(v.take(k + 1).last() == v[k as int]);
            lemma_digits_val_nonneg(v.take(k as int));
        }
        if too_large {
        } else {
            let nv = int_val as u128 * 10 + d as u128;
            if nv > u64::MAX as u128 {
                too_large = true;
            } else {
                int_val = nv as u64;
            }
        }
        k = k + 1;
    }
    let ghost p = first_dot(v);
    let ghost ip = v.take(p);
    let ghost fp = if p < v.len() {
        v.skip(p + 1)
    } else {
        Seq::<char>::empty()
    };
    let dotted = k < vlen;
    proof {
        if dotted {
            lemma_first_dot_at(v, k as int);
        } else {
            lemma_first_dot_at(v, vlen as int);
            assert(v.take(vlen as int) =~= v);
        }
        assert(ip == v.take(k as int));
    }
    let flen = if dotted {
        vlen - k - 1
    } else {
        0
    };
    let mut f3: u64 = 0;
    let mut fcount: usize = 0;
    if dotted {
        let mut m = k + 1;
        proof {
            assert(fp =~= v.skip(k + 1));
            assert(fp.len() == flen);
            assert(fp.take(0) =~= Seq::<char>::empty());
        }
        while m < vlen
            invariant
                k + 1 <= m <= vlen,
                v.len() == vlen,
                v == value_part(t),
                v == t.take(vlen as int),
                trimmed(s) == t,
                first_dot(v) == k as int,
                s == interval_str@,
                n == s.len(),
                t == s.subrange(start as int, end as int),
                start + vlen <= end <= n,
                fp == v.skip(k + 1),
                fp.len() == flen == vlen - k - 1,
                forall|j: int| 0 <= j < m - k - 1 ==> is_digit(fp[j]),
                fcount == (if m - k - 1 <= 3 {
                    m - k - 1
                } else {
                    3
                }),
                f3 == digits_val(fp.take(fcount as int)),
                fcount == 0 ==> f3 == 0,
                fcount == 1 ==> f3 <= 9,
                fcount == 2 ==> f3 <= 99,
                fcount >= 3 ==> f3 <= 999,
            decreases vlen - m,
        {
            let c = interval_str.get_char(start + m);
            proof {
                assert(t[m as int] == s[start + m]);
                assert(v[m as int] == t[m as int]);
                assert(fp[m - k - 1] == v[m as int]);
            }
            if !is_digit_char(c) {
                proof {
                    assert(!is_digit(fp[m - k - 1]));
                    assert(!all_digits(fp));
                }
                return Result::Err(IntervalError::Invalid);
            }
            let d = digit_value_of(c);
            if fcount < 3 {
                proof {
                    assert(fp.take(fcount + 1).drop_last() =~= fp.take(fcount as int));
                    assert(fp.take(fcount + 1).last() == fp[fcount as int]);
                    assert(fp[fcount as int] == fp[m - k - 1]);
                }
                f3 = f3 * 10 + d;
                fcount = fcount + 1;
            }
            m = m + 1;
        }
    }
    proof {
        assert(all_digits(ip));
        assert(all_digits(fp));
    }
    if k == 0 && flen == 0 {
        proof {
            assert(ip.len() + fp.len() == 0);
        }
        return Result::Err(IntervalError::Invalid);
    }
    let f3p: u64 = if fcount == 3 {
        f3
    } else if fcount == 2 {
        f3 * 10
    } else if fcount == 1 {
        f3 * 100
    } else {
        0
    };
    proof {
        if flen >= 3 {
            assert(f3p == digits_val(fp.take(3)));
        } else if flen == 2 {
            assert(fp.take(2) =~= fp);
        } else if flen == 1 {
            assert(fp.take(1) =~= fp);
        }
        assert(f3p == frac3_val(fp));
        lemma_digits_val_nonneg(ip);
    }
    if has_ms {
        if too_large {
            return Result::Err(IntervalError::TooLarge);
        }
        if int_val < 100 {
            return Result::Err(IntervalError::TooSmall);
        }
        Result::Ok(int_val)
    } else {
        if too_large {
            proof {
                assert(frac3_val(fp) >= 0) by {
                    if fp.len() >= 3 {
                        lemma_digits_val_nonneg(fp.take(3));
                    } else {
                        lemma_digits_val_nonneg(fp);
                    }
                };
                assert(digits_val(ip) * 1000 + frac3_val(fp) > u64::MAX);
            }
            return Result::Err(IntervalError::TooLarge);
        }
        let total = int_val as u128 * 1000 + f3p as u128;
        if total > u64::MAX as u128 {
            return Result::Err(IntervalError::TooLarge);
        }
        let ms = total as u64;
        if ms < 100 {
            return Result::Err(IntervalError::TooSmall);
        }
        Result::Ok(ms)
    }
}

/// Format an interval for the status line: whole seconds as `Ns` when the
/// milliseconds divide evenly, else as `Nms`.
pub fn format_interval(interval_ms: u64) -> (r: String)
    ensures
        interval_ms % 1000 == 0 ==> r@ == dec_rep(interval_ms as int / 1000) + "s"@,
        interval_ms % 1000 != 0 ==> r@ == dec_rep(interval_ms as int) + "ms"@,
{
    if interval_ms % 1000 == 0 {
        let mut r = u64_to_dec(interval_ms / 1000);
        r.append("s");
        r
    } else {
        let mut r = u64_to_dec(interval_ms);
        r.append("ms");
        r
    }
}

} // verus!
