//! Decimal integers and float literals in text, as `str::parse` and
//! `format!` read and write them.

use vstd::prelude::*;
use vstd::slice::slice_subrange;
use crate::text::{ascii_lower, chars_eq, is_ascii_digit, to_ascii_lowercase, chars_of};

verus! {

pub open spec fn digit_value(c: char) -> int {
    (c as int) - ('0' as int)
}

pub open spec fn all_digits(s: Seq<char>) -> bool {
    forall|i: int| 0 <= i < s.len() ==> is_ascii_digit(#[trigger] s[i])
}

/// The value of a run of decimal digits.
pub open spec fn digits_value(s: Seq<char>) -> int
    decreases s.len(),
{
    if s.len() == 0 {
        0
    } else {
        digits_value(s.drop_last()) * 10 + digit_value(s.last())
    }
}

/// `s` without one leading `+` or `-`.
pub open spec fn strip_sign(s: Seq<char>) -> Seq<char> {
    if s.len() > 0 && (s[0] == '+' || s[0] == '-') {
        s.drop_first()
    } else {
        s
    }
}

/// `i64::from_str`: an optional sign, then at least one decimal digit, with
/// the value in range.
pub open spec fn parse_i64_spec(s: Seq<char>) -> Option<i64> {
    let body = strip_sign(s);
    if body.len() == 0 || !all_digits(body) {
        None
    } else {
        let v = if s[0] == '-' { -digits_value(body) } else { digits_value(body) };
        if i64::MIN <= v <= i64::MAX {
            Some(v as i64)
        } else {
            None
        }
    }
}

proof fn lemma_digits_value_nonneg(s: Seq<char>)
    requires
        all_digits(s),
    ensures
        digits_value(s) >= 0,
    decreases s.len(),
{
    if s.len() > 0 {
        lemma_digits_value_nonneg(s.drop_last());
    }
}

proof fn lemma_digits_value_monotone(s: Seq<char>, k: int)
    requires
        all_digits(s),
        0 <= k <= s.len(),
    ensures
        digits_value(s.take(k)) <= digits_value(s),
    decreases s.len() - k,
{
    if k < s.len() {
        assert(s.take(k + 1).drop_last() =~= s.take(k));
        assert(all_digits(s.take(k + 1)));
        lemma_digits_value_nonneg(s.take(k));
        if k + 1 < s.len() {
            lemma_digits_value_monotone(s, k + 1);
        } else {
            assert(s.take(k + 1) =~= s);
        }
    } else {
        assert(s.take(k) =~= s);
    }
}

/// Parse a decimal `i64` as `str::parse::<i64>` does.
pub fn parse_i64(s: &[char]) -> (r: Option<i64>)
    ensures
        r == parse_i64_spec(s@),
{
    let n = s.len();
    let mut start: usize = 0;
    if n > 0 && (s[0] == '+' || s[0] == '-') {
        start = 1;
    }
    let ghost body = strip_sign(s@);
    assert(body =~= s@.skip(start as int));
    if start == n {
        return None;
    }
    let limit: i128 = 9223372036854775808;
    let mut acc: i128 = 0;
    let mut i: usize = start;
    while i < n
        invariant
            n == s@.len(),
            start <= i <= n,
            body == s@.skip(start as int),
            body == strip_sign(s@),
            all_digits(body.take(i - start)),
            acc == digits_value(body.take(i - start)),
            0 <= acc <= limit,
            limit == 9223372036854775808,
        decreases n - i,
    {
        let c = s[i];
        if !('0' <= c && c <= '9') {
            assert(body[i - start] == c);
            assert(!is_ascii_digit(body[i - start]));
            assert(!all_digits(body));
            assert(body.len() > 0);
            return None;
        }
        assert(body.take(i + 1 - start).drop_last() =~= body.take(i - start));
        acc = acc * 10 + ((c as u32) - ('0' as u32)) as i128;
        i = i + 1;
        if acc > limit {
            proof {
                assert(all_digits(body.take(i - start)));
                if all_digits(body) {
                    lemma_digits_value_monotone(body, i - start);
                    assert(digits_value(body) > 9223372036854775808);
                }
                assert(body.len() > 0);
            }
            return None;
        }
    }
    assert(body.take(n - start) =~= body);
    if s[0] == '-' {
        Some((-acc) as i64)
    } else if acc <= 9223372036854775807 {
        Some(acc as i64)
    } else {
        None
    }
}

pub open spec fn digit_char(d: int) -> char {
    (('0' as int) + d) as char
}

/// Decimal digits of `n`, most significant first, without leading zeros.
pub open spec fn nat_decimal(n: nat) -> Seq<char>
    decreases n,
{
    if n < 10 {
        seq![digit_char(n as int)]
    } else {
        nat_decimal((n / 10) as nat).push(digit_char((n % 10) as int))
    }
}

/// `format!("{}", v)` for an integer.
pub open spec fn int_decimal(v: int) -> Seq<char> {
    if v < 0 {
        seq!['-'] + nat_decimal((-v) as nat)
    } else {
        nat_decimal(v as nat)
    }
}

/// Append the decimal form of `n` to `out`.
pub fn push_u64(out: &mut Vec<char>, n: u64)
    ensures
        final(out)@ == old(out)@ + nat_decimal(n as nat),
    decreases n,
{
    if n >= 10 {
        push_u64(out, n / 10);
    }
    let d: u8 = (n % 10) as u8;
    let c: char = (('0' as u8) + d) as char;
    assert(c == digit_char((n % 10) as int));
    out.push(c);
}

/// Append the decimal form of `v` to `out`.
pub fn push_i64(out: &mut Vec<char>, v: i64)
    ensures
        final(out)@ == old(out)@ + int_decimal(v as int),
{
    if v < 0 {
        out.push('-');
        let m: u64 = (0i128 - (v as i128)) as u64;
        push_u64(out, m);
        assert(final(out)@ =~= old(out)@ + int_decimal(v as int));
    } else {
        push_u64(out, v as u64);
    }
}

/// The digits of `n` read back give `n`.
pub proof fn lemma_decimal_value(n: nat)
    ensures
        digits_value(nat_decimal(n)) == n,
        all_digits(nat_decimal(n)),
    decreases n,
{
    let d = (n % 10) as int;
    let c = digit_char(d);
    assert(digit_value(c) == d);
    if n < 10 {
        assert(n % 10 == n);
        assert(nat_decimal(n) == seq![c]);
        assert(seq![c].drop_last() =~= Seq::<char>::empty());
        assert(digits_value(Seq::<char>::empty()) == 0);
        assert(digits_value(seq![c]) == digits_value(seq![c].drop_last()) * 10 + digit_value(c));
    } else {
        lemma_decimal_value((n / 10) as nat);
        let s = nat_decimal((n / 10) as nat);
        assert(nat_decimal(n) == s.push(c));
        assert(s.push(c).drop_last() =~= s);
        assert(s.push(c).last() == c);
        assert(digits_value(s.push(c)) == digits_value(s) * 10 + d);
        assert((n / 10) * 10 + n % 10 == n);
        assert(all_digits(s.push(c))) by {
            assert forall|i: int| 0 <= i < s.push(c).len() implies is_ascii_digit(#[trigger] s.push(c)[i]) by {
                if i < s.len() {
                    assert(s.push(c)[i] == s[i]);
                }
            }
        }
    }
}

/// Different numbers have different decimal forms.
pub proof fn lemma_decimal_injective(n: nat, m: nat)
    requires
        nat_decimal(n) == nat_decimal(m),
    ensures
        n == m,
{
    lemma_decimal_value(n);
    lemma_decimal_value(m);
}

/// `s` without one leading `+`.
pub open spec fn strip_plus(s: Seq<char>) -> Seq<char> {
    if s.len() > 0 && s[0] == '+' {
        s.drop_first()
    } else {
        s
    }
}

/// `u64::from_str`: an optional `+`, then at least one decimal digit, with
/// the value in range.
pub open spec fn parse_u64_spec(s: Seq<char>) -> Option<u64> {
    let body = strip_plus(s);
    if body.len() == 0 || !all_digits(body) || digits_value(body) > u64::MAX {
        None
    } else {
        Some(digits_value(body) as u64)
    }
}

/// Parse a decimal `u64` as `str::parse::<u64>` does.
pub fn parse_u64(s: &[char]) -> (r: Option<u64>)
    ensures
        r == parse_u64_spec(s@),
{
    let n = s.len();
    let mut start: usize = 0;
    if n > 0 && s[0] == '+' {
        start = 1;
    }
    let ghost body = strip_plus(s@);
    assert(body =~= s@.skip(start as int));
    if start == n {
        return None;
    }
    let mut acc: u128 = 0;
    let mut i: usize = start;
    while i < n
        invariant
            n == s@.len(),
            start <= i <= n,
            body == s@.skip(start as int),
            body == strip_plus(s@),
            all_digits(body.take(i - start)),
            acc == digits_value(body.take(i - start)),
            acc <= u64::MAX,
        decreases n - i,
    {
        let c = s[i];
        if !('0' <= c && c <= '9') {
            assert(body[i - start] == c);
            assert(!is_ascii_digit(body[i - start]));
            assert(!all_digits(body));
            assert(body.len() > 0);
            return None;
        }
        assert(body.take(i + 1 - start).drop_last() =~= body.take(i - start));
        acc = acc * 10 + ((c as u32) - ('0' as u32)) as u128;
        assert(acc == digits_value(body.take(i + 1 - start)));
        i = i + 1;
        if acc > 18446744073709551615 {
            proof {
                assert(all_digits(body.take(i - start)));
                if all_digits(body) {
                    lemma_digits_value_monotone(body, i - start);
                    assert(digits_value(body) > u64::MAX);
                }
                assert(body.len() > 0);
            }
            return None;
        }
    }
    assert(body.take(n - start) =~= body);
    Some(acc as u64)
}

/// `inf`, `infinity` or `nan`, ignoring ASCII case.
pub open spec fn is_float_special(b: Seq<char>) -> bool {
    let l = ascii_lower(b);
    l == "inf"@ || l == "infinity"@ || l == "nan"@
}

/// `Digit+`, `Digit+ '.' Digit*` or `Digit* '.' Digit+`.
pub open spec fn is_mantissa(m: Seq<char>) -> bool {
    ||| m.len() > 0 && all_digits(m)
    ||| m.len() >= 2 && exists|d: int|
        0 <= d < m.len() && m[d] == '.' && all_digits(m.take(d)) && all_digits(#[trigger] m.skip(d + 1))
}

/// `('e' | 'E') Sign? Digit+`.
pub open spec fn is_exponent(e: Seq<char>) -> bool {
    e.len() >= 2 && (e[0] == 'e' || e[0] == 'E') && strip_sign(e.drop_first()).len() > 0 && all_digits(
        strip_sign(e.drop_first()),
    )
}

pub open spec fn is_float_number(b: Seq<char>) -> bool {
    is_mantissa(b) || exists|k: int|
        0 < k < b.len() && is_mantissa(#[trigger] b.take(k)) && is_exponent(b.skip(k))
}

/// The grammar that `f64::from_str` accepts, ignoring ASCII case:
/// `Sign? ( 'inf' | 'infinity' | 'nan' | Number )`.
pub open spec fn is_float_literal(s: Seq<char>) -> bool {
    let b = strip_sign(s);
    is_float_special(b) || is_float_number(b)
}

pub open spec fn is_exponent_mark(c: char) -> bool {
    c == 'e' || c == 'E'
}

proof fn lemma_mantissa_has_no_exponent_mark(m: Seq<char>, i: int)
    requires
        is_mantissa(m),
        0 <= i < m.len(),
    ensures
        !is_exponent_mark(m[i]),
{
    if m.len() > 0 && all_digits(m) {
        assert(is_ascii_digit(m[i]));
    } else {
        let d = choose|d: int|
            0 <= d < m.len() && m[d] == '.' && all_digits(m.take(d)) && all_digits(#[trigger] m.skip(d + 1));
        if i < d {
            assert(m.take(d)[i] == m[i]);
        } else if i > d {
            assert(m.skip(d + 1)[i - d - 1] == m[i]);
        }
    }
}

fn all_digit_chars(s: &[char]) -> (r: bool)
    ensures
        r == all_digits(s@),
{
    let mut i: usize = 0;
    while i < s.len()
        invariant
            i <= s@.len(),
            forall|j: int| 0 <= j < i ==> is_ascii_digit(s@[j]),
        decreases s@.len() - i,
    {
        if !('0' <= s[i] && s[i] <= '9') {
            return false;
        }
        i = i + 1;
    }
    true
}

fn check_mantissa(m: &[char]) -> (r: bool)
    ensures
        r == is_mantissa(m@),
{
    let n = m.len();
    let mut dot: usize = n;
    let mut i: usize = 0;
    while i < n
        invariant
            n == m@.len(),
            i <= n,
            dot == n || (dot < i && m@[dot as int] == '.'),
            dot == n ==> forall|j: int| 0 <= j < i ==> m@[j] != '.',
        decreases n - i,
    {
        if m[i] == '.' && dot == n {
            dot = i;
        }
        i = i + 1;
    }
    if dot == n {
        let r = n > 0 && all_digit_chars(m);
        proof {
            if !r && n >= 2 {
                assert forall|d: int| 0 <= d < m@.len() && m@[d] == '.' implies !(all_digits(m@.take(d))
                    && all_digits(#[trigger] m@.skip(d + 1))) by {}
            }
        }
        return r;
    }
    let head = slice_subrange(m, 0, dot);
    let tail = slice_subrange(m, dot + 1, n);
    assert(head@ =~= m@.take(dot as int));
    assert(tail@ =~= m@.skip(dot + 1));
    let before = all_digit_chars(head);
    let after = all_digit_chars(tail);
    let r = n >= 2 && before && after;
    proof {
        if r {
            assert(m@.skip(dot + 1) == m@.subrange(dot + 1, n as int));
        } else {
            assert(!(m@.len() > 0 && all_digits(m@))) by {
                assert(!is_ascii_digit(m@[dot as int]));
            }
            if n >= 2 {
                assert forall|d: int| 0 <= d < m@.len() && m@[d] == '.' implies !(all_digits(m@.take(d))
                    && all_digits(#[trigger] m@.skip(d + 1))) by {
                    if d < dot {
                        assert(m@.skip(d + 1)[dot - d - 1] == '.');
                    } else if d > dot {
                        assert(m@.take(d)[dot as int] == '.');
                    } else {
                        assert(m@.subrange(dot + 1, n as int) == m@.skip(d + 1));
                    }
                }
            }
        }
    }
    r
}

fn check_exponent(e: &[char]) -> (r: bool)
    ensures
        r == is_exponent(e@),
{
    let n = e.len();
    if n < 2 || !(e[0] == 'e' || e[0] == 'E') {
        return false;
    }
    let mut start: usize = 1;
    if e[1] == '+' || e[1] == '-' {
        start = 2;
    }
    let digits = slice_subrange(e, start, n);
    assert(digits@ =~= strip_sign(e@.drop_first()));
    digits.len() > 0 && all_digit_chars(digits)
}

/// Whether `f64::from_str` accepts `s`.
pub fn is_float_literal_exec(s: &[char]) -> (r: bool)
    ensures
        r == is_float_literal(s@),
{
    let n = s.len();
    let mut start: usize = 0;
    if n > 0 && (s[0] == '+' || s[0] == '-') {
        start = 1;
    }
    let b = slice_subrange(s, start, n);
    assert(b@ =~= strip_sign(s@));
    let lower = to_ascii_lowercase(b);
    let inf = chars_of("inf");
    let infinity = chars_of("infinity");
    let nan = chars_of("nan");
    if chars_eq(lower.as_slice(), inf.as_slice()) || chars_eq(lower.as_slice(), infinity.as_slice())
        || chars_eq(lower.as_slice(), nan.as_slice()) {
        return true;
    }
    let m = b.len();
    let mut k: usize = 0;
    while k < m && !(b[k] == 'e' || b[k] == 'E')
        invariant
            m == b@.len(),
            k <= m,
            forall|j: int| 0 <= j < k ==> !is_exponent_mark(b@[j]),
        decreases m - k,
    {
        k = k + 1;
    }
    let mantissa = slice_subrange(b, 0, k);
    assert(mantissa@ =~= b@.take(k as int));
    let r = if k == m {
        check_mantissa(b)
    } else {
        let exponent = slice_subrange(b, k, m);
        assert(exponent@ =~= b@.skip(k as int));
        k > 0 && check_mantissa(mantissa) && check_exponent(exponent)
    };
    proof {
        if k == m {
            assert forall|j: int| 0 < j < b@.len() && is_mantissa(#[trigger] b@.take(j)) implies !is_exponent(
                b@.skip(j),
            ) by {
                assert(b@.skip(j)[0] == b@[j]);
            }
        } else {
            assert(!is_mantissa(b@)) by {
                if is_mantissa(b@) {
                    lemma_mantissa_has_no_exponent_mark(b@, k as int);
                }
            }
            assert forall|j: int|
                0 < j < b@.len() && is_mantissa(#[trigger] b@.take(j)) && is_exponent(b@.skip(j)) implies j
                == k by {
                if j < k {
                    assert(b@.skip(j)[0] == b@[j]);
                } else if j > k {
                    lemma_mantissa_has_no_exponent_mark(b@.take(j), k as int);
                }
            }
        }
    }
    r
}

} // verus!
