//! Reading the value of numeric literals as the standard library's `parse`
//! does, after removing the `_` digit separators.

use vstd::prelude::*;

verus! {

/// The characters of `s` other than `_`.
pub open spec fn without_underscores(s: Seq<char>) -> Seq<char>
    decreases s.len(),
{
    if s.len() == 0 {
        s
    } else if s.last() == '_' {
        without_underscores(s.drop_last())
    } else {
        without_underscores(s.drop_last()).push(s.last())
    }
}

/// Whether `c` is an ASCII decimal digit.
pub open spec fn is_digit(c: char) -> bool {
    '0' <= c <= '9'
}

/// Whether every character of `s` is a decimal digit.
pub open spec fn all_digits(s: Seq<char>) -> bool {
    forall|i: int| 0 <= i < s.len() ==> is_digit(#[trigger] s[i])
}

/// The number the decimal digits `s` denote.
pub open spec fn decimal_value(s: Seq<char>) -> int
    decreases s.len(),
{
    if s.len() == 0 {
        0
    } else {
        decimal_value(s.drop_last()) * 10 + (s.last() as int - '0' as int)
    }
}

/// Whether `c` is a sign.
pub open spec fn is_sign(c: char) -> bool {
    c == '+' || c == '-'
}

/// What `i128`'s `parse` gives for `s`: an optional sign followed by at
/// least one decimal digit and nothing else, whose value fits in `i128`.
pub open spec fn parse_i128_spec(s: Seq<char>) -> Option<i128> {
    let signed = s.len() > 0 && is_sign(s[0]);
    let body = if signed { s.drop_first() } else { s };
    if body.len() == 0 || !all_digits(body) {
        None
    } else {
        let v = if signed && s[0] == '-' { -decimal_value(body) } else { decimal_value(body) };
        if i128::MIN <= v <= i128::MAX {
            Some(v as i128)
        } else {
            None
        }
    }
}

/// The value of an integer literal: its text without `_`, read as an `i128`.
pub open spec fn int_literal_value(s: Seq<char>) -> Option<i128> {
    parse_i128_spec(without_underscores(s))
}

/// The number of decimal digits in `s` from `i` on, up to the first non-digit.
pub open spec fn digit_run(s: Seq<char>, i: int) -> int
    decreases s.len() - i,
{
    if 0 <= i < s.len() && is_digit(s[i]) {
        1 + digit_run(s, i + 1)
    } else {
        0
    }
}

/// Whether `e` is empty or an exponent: `e`/`E`, an optional sign, digits.
pub open spec fn exponent_ok(e: Seq<char>) -> bool {
    e.len() == 0 || ((e[0] == 'e' || e[0] == 'E') && {
        let r = e.drop_first();
        let d = if r.len() > 0 && is_sign(r[0]) { r.drop_first() } else { r };
        d.len() > 0 && all_digits(d)
    })
}

/// Whether `s` is a decimal number as `f64`'s `parse` reads it: digits, an
/// optional `.` and fraction digits (at least one digit in all), and an
/// optional exponent.
pub open spec fn is_decimal_float(s: Seq<char>) -> bool {
    let m = digit_run(s, 0);
    let has_dot = m < s.len() && s[m] == '.';
    let f = if has_dot { digit_run(s, m + 1) } else { 0 };
    let k = if has_dot { m + 1 + f } else { m };
    &&& (m > 0 || f > 0)
    &&& exponent_ok(s.subrange(k, s.len() as int))
}

/// The ASCII lower case of `c`.
pub open spec fn lower(c: char) -> char {
    if 'A' <= c <= 'Z' {
        ((c as u32) + 32) as char
    } else {
        c
    }
}

/// `s` in ASCII lower case.
pub open spec fn lowered(s: Seq<char>) -> Seq<char> {
    s.map_values(|c: char| lower(c))
}

/// Whether `f64`'s `parse` accepts `s`: an optional sign followed by a
/// decimal number, or by `inf`, `infinity` or `nan` in any case.
pub open spec fn is_float_text(s: Seq<char>) -> bool {
    let body = if s.len() > 0 && is_sign(s[0]) { s.drop_first() } else { s };
    is_decimal_float(body) || lowered(body) == "inf"@ || lowered(body) == "infinity"@ || lowered(body)
        == "nan"@
}

/// Whether a floating-point literal reads as a number once its `_` are removed.
pub open spec fn float_literal_ok(s: Seq<char>) -> bool {
    is_float_text(without_underscores(s))
}

/// The characters of `s` other than `_`.
fn strip_underscores(s: &str) -> (r: Vec<char>)
    ensures
        r@ == without_underscores(s@),
{
    let n = s.unicode_len();
    let mut out: Vec<char> = Vec::new();
    let mut i: usize = 0;
    while i < n
        invariant
            n == s@.len(),
            i <= n,
            out@ == without_underscores(s@.subrange(0, i as int)),
        decreases n - i,
    {
        let c = s.get_char(i);
        proof {
            assert(s@.subrange(0, i + 1).drop_last() =~= s@.subrange(0, i as int));
        }
        if c != '_' {
            out.push(c);
        }
        i = i + 1;
    }
    proof {
        assert(s@.subrange(0, n as int) =~= s@);
    }
    out
}

/// A longer digit string never denotes less.
proof fn lemma_decimal_prefix(s: Seq<char>, k: int)
    requires
        0 <= k <= s.len(),
        all_digits(s),
    ensures
        decimal_value(s.take(k)) <= decimal_value(s),
        0 <= decimal_value(s.take(k)),
    decreases s.len(),
{
    if k < s.len() {
        assert(s.drop_last().take(k) =~= s.take(k));
        assert(all_digits(s.drop_last()));
        lemma_decimal_prefix(s.drop_last(), k);
    } else {
        assert(s.take(k) =~= s);
    }
    lemma_decimal_nonneg(s);
}

/// Digit strings denote non-negative numbers.
proof fn lemma_decimal_nonneg(s: Seq<char>)
    requires
        all_digits(s),
    ensures
        0 <= decimal_value(s),
    decreases s.len(),
{
    if s.len() > 0 {
        assert(all_digits(s.drop_last()));
        lemma_decimal_nonneg(s.drop_last());
    }
}

/// The magnitude `body` denotes when it is all digits and the magnitude is
/// at most 2^127.
pub open spec fn magnitude_spec(body: Seq<char>) -> Option<u128> {
    if all_digits(body) && decimal_value(body) <= 0x8000_0000_0000_0000_0000_0000_0000_0000 {
        Some(decimal_value(body) as u128)
    } else {
        None
    }
}

/// Reads the digits `s[start..]` as a magnitude of at most 2^127.
fn read_magnitude(s: &Vec<char>, start: usize) -> (r: Option<u128>)
    requires
        start <= s@.len(),
    ensures
        r == magnitude_spec(s@.subrange(start as int, s@.len() as int)),
{
    let n = s.len();
    let ghost body = s@.subrange(start as int, n as int);
    let limit: u128 = 0x8000_0000_0000_0000_0000_0000_0000_0000;
    let mut mag: u128 = 0;
    let mut i: usize = start;
    while i < n
        invariant
            n == s@.len(),
            start <= i <= n,
            body == s@.subrange(start as int, n as int),
            all_digits(body.take(i - start)),
            mag == decimal_value(body.take(i - start)),
            limit == 0x8000_0000_0000_0000_0000_0000_0000_0000u128,
            mag <= limit,
        decreases n - i,
    {
        let c = s[i];
        if !('0' <= c && c <= '9') {
            assert(body[i - start] == c);
            return None;
        }
        let d = (c as u32 - '0' as u32) as u128;
        assert(d <= 9);
        proof {
            assert(body.take(i - start + 1).drop_last() =~= body.take(i - start));
            assert(body.take(i - start + 1).last() == c);
            assert(all_digits(body.take(i - start + 1)));
        }
        if mag > (limit - d) / 10 {
            proof {
                let k = i - start + 1;
                assert(mag * 10 + d > limit) by (nonlinear_arith)
                    requires
                        mag > (limit - d) / 10,
                        d <= 9,
                        limit > 9,
                ;
                assert(decimal_value(body.take(k)) > limit);
                if all_digits(body) {
                    lemma_decimal_prefix(body, k);
                }
            }
            return None;
        }
        assert(mag * 10 + d <= limit) by (nonlinear_arith)
            requires
                mag <= (limit - d) / 10,
                d <= 9,
                limit > 9,
        ;
        mag = mag * 10 + d;
        i = i + 1;
    }
    proof {
        assert(body.take(n - start) =~= body);
    }
    Some(mag)
}

/// Reads `s` as `i128`'s `parse` does.
fn parse_i128(s: &Vec<char>) -> (r: Option<i128>)
    ensures
        r == parse_i128_spec(s@),
{
    let n = s.len();
    let signed = n > 0 && (s[0] == '+' || s[0] == '-');
    let start: usize = if signed { 1 } else { 0 };
    proof {
        let body = if signed { s@.drop_first() } else { s@ };
        assert(body =~= s@.subrange(start as int, n as int));
        lemma_decimal_nonneg_if_digits(body);
    }
    if start == n {
        return None;
    }
    let mag = match read_magnitude(s, start) {
        Some(m) => m,
        None => return None,
    };
    if signed && s[0] == '-' {
        if mag == 0x8000_0000_0000_0000_0000_0000_0000_0000 {
            Some(i128::MIN)
        } else {
            Some(-(mag as i128))
        }
    } else if mag > 0x7fff_ffff_ffff_ffff_ffff_ffff_ffff_ffff {
        None
    } else {
        Some(mag as i128)
    }
}

/// Digit strings denote non-negative numbers (nothing is claimed otherwise).
proof fn lemma_decimal_nonneg_if_digits(s: Seq<char>)
    ensures
        all_digits(s) ==> 0 <= decimal_value(s),
{
    if all_digits(s) {
        lemma_decimal_nonneg(s);
    }
}

/// The value of an integer literal, ignoring its `_` separators.
pub fn int_literal(s: &str) -> (r: Option<i128>)
    ensures
        r == int_literal_value(s@),
{
    let chars = strip_underscores(s);
    parse_i128(&chars)
}

/// Digit runs stay within the sequence.
proof fn lemma_digit_run_bounds(s: Seq<char>, i: int)
    requires
        0 <= i <= s.len(),
    ensures
        0 <= digit_run(s, i) <= s.len() - i,
        i + digit_run(s, i) < s.len() ==> !is_digit(s[i + digit_run(s, i)]),
        forall|j: int| i <= j < i + digit_run(s, i) ==> is_digit(#[trigger] s[j]),
    decreases s.len() - i,
{
    if i < s.len() && is_digit(s[i]) {
        lemma_digit_run_bounds(s, i + 1);
    }
}

/// The number of digits in `s` from `i` on.
fn count_digits(s: &Vec<char>, i: usize) -> (r: usize)
    requires
        i <= s@.len(),
    ensures
        r == digit_run(s@, i as int),
{
    let mut j = i;
    while j < s.len() && '0' <= s[j] && s[j] <= '9'
        invariant
            i <= j <= s@.len(),
            digit_run(s@, i as int) == (j - i) + digit_run(s@, j as int),
        decreases s@.len() - j,
    {
        j = j + 1;
    }
    (j - i) as usize
}

/// Whether `s[k..]` is empty or an exponent.
fn exponent_at(s: &Vec<char>, k: usize) -> (r: bool)
    requires
        k <= s@.len(),
    ensures
        r == exponent_ok(s@.subrange(k as int, s@.len() as int)),
{
    let n = s.len();
    let ghost e = s@.subrange(k as int, n as int);
    if k == n {
        return true;
    }
    if !(s[k] == 'e' || s[k] == 'E') {
        assert(e[0] == s@[k as int]);
        return false;
    }
    let mut d = k + 1;
    if d < n && (s[d] == '+' || s[d] == '-') {
        d = d + 1;
    }
    proof {
        let rr = e.drop_first();
        assert(rr =~= s@.subrange(k + 1, n as int));
        let dd = if rr.len() > 0 && is_sign(rr[0]) { rr.drop_first() } else { rr };
        assert(dd =~= s@.subrange(d as int, n as int));
        lemma_digit_run_bounds(s@, d as int);
    }
    if d == n {
        return false;
    }
    let run = count_digits(s, d);
    proof {
        let dd = s@.subrange(d as int, n as int);
        if d + run == n {
            assert forall|j: int| 0 <= j < dd.len() implies is_digit(#[trigger] dd[j]) by {
                assert(dd[j] == s@[d + j]);
            }
        } else {
            assert(!is_digit(dd[run as int]));
        }
    }
    d + run == n
}

/// Whether `s` is a decimal number as `f64`'s `parse` reads it.
fn decimal_float(s: &Vec<char>) -> (r: bool)
    ensures
        r == is_decimal_float(s@),
{
    let n = s.len();
    let m = count_digits(s, 0);
    proof {
        lemma_digit_run_bounds(s@, 0);
    }
    let has_dot = m < n && s[m] == '.';
    let f = if has_dot {
        proof {
            lemma_digit_run_bounds(s@, m + 1);
        }
        count_digits(s, m + 1)
    } else {
        0
    };
    let k = if has_dot { m + 1 + f } else { m };
    (m > 0 || f > 0) && exponent_at(s, k)
}

/// Whether `s`, lowered to ASCII lower case, is `word`.
fn lowered_is(s: &Vec<char>, start: usize, word: &str) -> (r: bool)
    requires
        start <= s@.len(),
    ensures
        r == (lowered(s@.subrange(start as int, s@.len() as int)) == word@),
{
    let n = s.len();
    let w = word.unicode_len();
    let ghost body = s@.subrange(start as int, n as int);
    if n - start != w {
        assert(lowered(body).len() != word@.len());
        return false;
    }
    let mut i: usize = 0;
    while i < w
        invariant
            n == s@.len(),
            w == word@.len(),
            n - start == w,
            body == s@.subrange(start as int, n as int),
            i <= w,
            forall|j: int| 0 <= j < i ==> lower(#[trigger] body[j]) == word@[j],
        decreases w - i,
    {
        let c = s[start + i];
        let lc = if 'A' <= c && c <= 'Z' { ((c as u32) + 32) as u8 as char } else { c };
        assert(body[i as int] == c);
        assert(lc == lower(c)) by {
            if 'A' <= c && c <= 'Z' {
                assert((((c as u32) + 32) as u8) as char == ((c as u32) + 32) as char);
            }
        }
        if lc != word.get_char(i) {
            assert(lowered(body)[i as int] != word@[i as int]);
            return false;
        }
        i = i + 1;
    }
    assert(lowered(body) =~= word@);
    true
}

/// Whether `f64`'s `parse` accepts `s`.
fn float_text(s: &Vec<char>) -> (r: bool)
    ensures
        r == is_float_text(s@),
{
    let n = s.len();
    let signed = n > 0 && (s[0] == '+' || s[0] == '-');
    let start: usize = if signed { 1 } else { 0 };
    let mut body: Vec<char> = Vec::new();
    let mut i = start;
    while i < n
        invariant
            n == s@.len(),
            start <= i <= n,
            body@ == s@.subrange(start as int, i as int),
        decreases n - i,
    {
        body.push(s[i]);
        i = i + 1;
    }
    proof {
        let b = if signed { s@.drop_first() } else { s@ };
        assert(b =~= body@);
        assert(body@ =~= s@.subrange(start as int, n as int));
    }
    decimal_float(&body) || lowered_is(s, start, "inf") || lowered_is(s, start, "infinity")
        || lowered_is(s, start, "nan")
}

/// Whether a floating-point literal reads as a number once its `_` are removed.
pub fn float_literal(s: &str) -> (r: bool)
    ensures
        r == float_literal_ok(s@),
{
    let chars = strip_underscores(s);
    float_text(&chars)
}

} // verus!
