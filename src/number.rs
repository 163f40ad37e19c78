//! Decimal text of integers: rendering and parsing.

use vstd::prelude::*;

verus! {

/// The ten decimal digits, in order.
pub open spec fn digit_chars() -> Seq<char> {
    seq!['0', '1', '2', '3', '4', '5', '6', '7', '8', '9']
}

pub open spec fn is_digit(c: char) -> bool {
    '0' <= c && c <= '9'
}

/// The value of one decimal digit.
pub open spec fn digit_value(c: char) -> nat {
    ((c as u32) - ('0' as u32)) as nat
}

/// The shortest decimal text of `n`, without sign.
pub open spec fn decimal(n: nat) -> Seq<char>
    decreases n,
{
    if n < 10 {
        seq![digit_chars()[n as int]]
    } else {
        decimal(n / 10).push(digit_chars()[(n % 10) as int])
    }
}

/// The decimal text of a signed integer: a `-` before negative values.
pub open spec fn signed_decimal(n: int) -> Seq<char> {
    if n < 0 {
        seq!['-'] + decimal((-n) as nat)
    } else {
        decimal(n as nat)
    }
}

/// A non-empty run of decimal digits.
pub open spec fn all_digits(s: Seq<char>) -> bool {
    s.len() > 0 && forall|i: int| 0 <= i < s.len() ==> is_digit(#[trigger] s[i])
}

/// The value of a run of decimal digits.
pub open spec fn digits_value(s: Seq<char>) -> nat
    decreases s.len(),
{
    if s.len() == 0 {
        0
    } else {
        digits_value(s.drop_last()) * 10 + digit_value(s.last())
    }
}

/// A signed integer literal: an optional `+` or `-`, then one or more digits.
pub open spec fn signed_literal(s: Seq<char>) -> Option<int> {
    if s.len() > 0 && s[0] == '-' && all_digits(s.skip(1)) {
        Some(-digits_value(s.skip(1)))
    } else if s.len() > 0 && s[0] == '+' && all_digits(s.skip(1)) {
        Some(digits_value(s.skip(1)) as int)
    } else if all_digits(s) {
        Some(digits_value(s) as int)
    } else {
        None
    }
}

/// An unsigned integer literal: an optional `+`, then one or more digits.
pub open spec fn unsigned_literal(s: Seq<char>) -> Option<nat> {
    if s.len() > 0 && s[0] == '+' && all_digits(s.skip(1)) {
        Some(digits_value(s.skip(1)))
    } else if all_digits(s) {
        Some(digits_value(s))
    } else {
        None
    }
}

/// The `i32` that the text denotes, if it is a literal in range.
pub open spec fn i32_of(s: Seq<char>) -> Option<i32> {
    match signed_literal(s) {
        Some(v) => if i32::MIN <= v <= i32::MAX { Some(v as i32) } else { None },
        None => None,
    }
}

/// The `i64` that the text denotes, if it is a literal in range.
pub open spec fn i64_of(s: Seq<char>) -> Option<i64> {
    match signed_literal(s) {
        Some(v) => if i64::MIN <= v <= i64::MAX { Some(v as i64) } else { None },
        None => None,
    }
}

/// The `u64` that the text denotes, if it is a literal in range.
pub open spec fn u64_of(s: Seq<char>) -> Option<u64> {
    match unsigned_literal(s) {
        Some(v) => if v <= u64::MAX { Some(v as u64) } else { None },
        None => None,
    }
}

fn digit_text(d: u64) -> (r: &'static str)
    requires
        d < 10,
    ensures
        r@ == seq![digit_chars()[d as int]],
{
    proof {
        reveal_strlit("0");
        reveal_strlit("1");
        reveal_strlit("2");
        reveal_strlit("3");
        reveal_strlit("4");
        reveal_strlit("5");
        reveal_strlit("6");
        reveal_strlit("7");
        reveal_strlit("8");
        reveal_strlit("9");
    }
    match d {
        0 => "0",
        1 => "1",
        2 => "2",
        3 => "3",
        4 => "4",
        5 => "5",
        6 => "6",
        7 => "7",
        8 => "8",
        _ => "9",
    }
}

/// The decimal text of an unsigned integer.
pub fn render_u64(n: u64) -> (r: String)
    ensures
        r@ == decimal(n as nat),
    decreases n,
{
    if n < 10 {
        String::from_str(digit_text(n))
    } else {
        let mut r = render_u64(n / 10);
        r.append(digit_text(n % 10));
        r
    }
}

/// The decimal text of a signed integer.
pub fn render_i64(n: i64) -> (r: String)
    ensures
        r@ == signed_decimal(n as int),
{
    if n < 0 {
        let magnitude: u64 = (-(n as i128)) as u64;
        let digits = render_u64(magnitude);
        let mut r = String::from_str("-");
        r.append(digits.as_str());
        proof {
            reveal_strlit("-");
        }
        r
    } else {
        render_u64(n as u64)
    }
}

proof fn lemma_digits_value_prefix(s: Seq<char>, j: int)
    requires
        0 <= j <= s.len(),
    ensures
        digits_value(s.subrange(0, j)) <= digits_value(s),
    decreases s.len(),
{
    if j < s.len() {
        assert(s.drop_last() == s.subrange(0, s.len() - 1));
        assert(s.subrange(0, j) == s.drop_last().subrange(0, j));
        lemma_digits_value_prefix(s.drop_last(), j);
    } else {
        assert(s.subrange(0, j) == s);
    }
}

/// Reads the digits of `s` from `start` to the end, as long as their value
/// stays within `limit`.
fn digits_within(s: &str, start: usize, limit: u64) -> (r: Option<u64>)
    requires
        start <= s@.len(),
    ensures
        r == (if all_digits(s@.skip(start as int)) && digits_value(s@.skip(start as int)) <= limit {
            Some(digits_value(s@.skip(start as int)) as u64)
        } else {
            None
        }),
{
    let n = s.unicode_len();
    if start >= n {
        return None;
    }
    let ghost t = s@.skip(start as int);
    let mut acc: u64 = 0;
    let mut i: usize = start;
    while i < n
        invariant
            start <= i <= n,
            n == s@.len(),
            t == s@.skip(start as int),
            acc as nat == digits_value(t.subrange(0, i - start)),
            acc <= limit,
            forall|k: int| 0 <= k < i - start ==> is_digit(#[trigger] t[k]),
        decreases n - i,
    {
        let c = s.get_char(i);
        if !('0' <= c && c <= '9') {
            assert(t[i - start] == c);
            return None;
        }
        let d: u64 = (c as u32 - '0' as u32) as u64;
        proof {
            let p = t.subrange(0, i + 1 - start);
            assert(p.drop_last() == t.subrange(0, i - start));
            assert(p.last() == c);
        }
        if d > limit || acc > (limit - d) / 10 {
            proof {
                if d <= limit {
                    assert(acc * 10 + d > limit) by (nonlinear_arith)
                        requires acc > (limit - d) / 10, d <= limit;
                }
                if all_digits(t) {
                    lemma_digits_value_prefix(t, i + 1 - start);
                }
            }
            return None;
        }
        assert(acc * 10 + d <= limit) by (nonlinear_arith)
            requires acc <= (limit - d) / 10, d <= limit;
        acc = acc * 10 + d;
        i = i + 1;
    }
    assert(t.subrange(0, i - start) == t);
    Some(acc)
}

/// Splits an optional sign off the text: where the text starts, and whether
/// the sign was `-`.
fn sign_of(s: &str) -> (r: (usize, bool))
    ensures
        r.0 <= s@.len(),
        s@.len() > 0 && s@[0] == '-' ==> r == (1usize, true),
        s@.len() > 0 && s@[0] == '+' ==> r == (1usize, false),
        !(s@.len() > 0 && (s@[0] == '-' || s@[0] == '+')) ==> r == (0usize, false),
{
    if s.unicode_len() == 0 {
        (0, false)
    } else {
        let c = s.get_char(0);
        if c == '-' {
            (1, true)
        } else if c == '+' {
            (1, false)
        } else {
            (0, false)
        }
    }
}

proof fn lemma_unsigned_no_sign(s: Seq<char>)
    requires
        !(s.len() > 0 && (s[0] == '-' || s[0] == '+')),
    ensures
        s.skip(0) == s,
{
    assert(s.skip(0) =~= s);
}

/// Parses the text as an `i64` literal: an optional sign, then digits, in range.
pub fn parse_i64(s: &str) -> (r: Option<i64>)
    ensures
        r == i64_of(s@),
{
    let (start, negative) = sign_of(s);
    proof {
        if start == 0 {
            lemma_unsigned_no_sign(s@);
        }
    }
    let limit: u64 = if negative { 9223372036854775808 } else { 9223372036854775807 };
    match digits_within(s, start, limit) {
        Some(m) => {
            if negative {
                Some((-(m as i128)) as i64)
            } else {
                Some(m as i64)
            }
        },
        None => None,
    }
}

/// Parses the text as an `i32` literal: an optional sign, then digits, in range.
pub fn parse_i32(s: &str) -> (r: Option<i32>)
    ensures
        r == i32_of(s@),
{
    let (start, negative) = sign_of(s);
    proof {
        if start == 0 {
            lemma_unsigned_no_sign(s@);
        }
    }
    let limit: u64 = if negative { 2147483648 } else { 2147483647 };
    match digits_within(s, start, limit) {
        Some(m) => {
            if negative {
                Some((-(m as i64)) as i32)
            } else {
                Some(m as i32)
            }
        },
        None => None,
    }
}

/// Parses the text as a `u64` literal: an optional `+`, then digits, in range.
pub fn parse_u64(s: &str) -> (r: Option<u64>)
    ensures
        r == u64_of(s@),
{
    let (start, negative) = sign_of(s);
    if negative {
        return None;
    }
    proof {
        if start == 0 {
            lemma_unsigned_no_sign(s@);
        }
    }
    digits_within(s, start, u64::MAX)
}


/// The number of consecutive digits in `s` from position `i`.
pub open spec fn digit_run(s: Seq<char>, i: int) -> nat
    decreases s.len() - i,
{
    if 0 <= i < s.len() && is_digit(s[i]) {
        1 + digit_run(s, i + 1)
    } else {
        0
    }
}

/// The length of an optional `+` or `-` at position `i`.
pub open spec fn sign_at(s: Seq<char>, i: int) -> int {
    if 0 <= i < s.len() && (s[i] == '+' || s[i] == '-') {
        1
    } else {
        0
    }
}

/// From position `q` the text is empty, or is an exponent: `e` or `E`, an
/// optional sign, then one or more digits that end the text.
pub open spec fn exponent_rest(s: Seq<char>, q: int) -> bool {
    q == s.len() || (0 <= q < s.len() && (s[q] == 'e' || s[q] == 'E') && digit_run(
        s,
        q + 1 + sign_at(s, q + 1),
    ) >= 1 && q + 1 + sign_at(s, q + 1) + digit_run(s, q + 1 + sign_at(s, q + 1)) == s.len())
}

/// From position `i` the text is a decimal number: digits, a point and
/// digits (at least one digit in all), then an optional exponent.
pub open spec fn number_rest(s: Seq<char>, i: int) -> bool {
    let a = digit_run(s, i);
    let p = i + a;
    if 0 <= p < s.len() && s[p] == '.' {
        a + digit_run(s, p + 1) >= 1 && exponent_rest(s, p + 1 + digit_run(s, p + 1))
    } else {
        a >= 1 && exponent_rest(s, p)
    }
}

/// `c` is `w`, or its ASCII upper-case form.
pub open spec fn same_letter(c: char, w: char) -> bool {
    c == w || ('A' <= c && c <= 'Z' && (c as u32) + 32 == (w as u32))
}

/// The text equals `w` when compared without regard to ASCII case.
pub open spec fn equal_ignoring_case(t: Seq<char>, w: Seq<char>) -> bool {
    t.len() == w.len() && forall|k: int| 0 <= k < t.len() ==> same_letter(#[trigger] t[k], w[k])
}

/// A literal of a double-precision number: an optional sign, then a decimal
/// number, or `inf`, `infinity` or `nan` in any case.
pub open spec fn double_literal(s: Seq<char>) -> bool {
    let st = sign_at(s, 0);
    number_rest(s, st) || equal_ignoring_case(s.skip(st), seq!['i', 'n', 'f'])
        || equal_ignoring_case(s.skip(st), seq!['i', 'n', 'f', 'i', 'n', 'i', 't', 'y'])
        || equal_ignoring_case(s.skip(st), seq!['n', 'a', 'n'])
}

fn count_digits(s: &str, i: usize) -> (r: usize)
    requires
        i <= s@.len(),
    ensures
        r == digit_run(s@, i as int),
        i + r <= s@.len(),
{
    let n = s.unicode_len();
    let mut j: usize = i;
    while j < n && ('0' <= s.get_char(j) && s.get_char(j) <= '9')
        invariant
            i <= j <= n,
            n == s@.len(),
            digit_run(s@, i as int) == (j - i) + digit_run(s@, j as int),
        decreases n - j,
    {
        j = j + 1;
    }
    (j - i) as usize
}

fn sign_len_at(s: &str, i: usize) -> (r: usize)
    requires
        i <= s@.len(),
    ensures
        r == sign_at(s@, i as int),
{
    if i < s.unicode_len() && (s.get_char(i) == '+' || s.get_char(i) == '-') {
        1
    } else {
        0
    }
}

fn exponent_ok(s: &str, q: usize) -> (r: bool)
    requires
        q <= s@.len(),
    ensures
        r == exponent_rest(s@, q as int),
{
    let n = s.unicode_len();
    if q == n {
        return true;
    }
    let c = s.get_char(q);
    if !(c == 'e' || c == 'E') {
        return false;
    }
    let p = q + 1 + sign_len_at(s, q + 1);
    if p > n {
        return false;
    }
    let d = count_digits(s, p);
    d >= 1 && p + d == n
}

fn letters_match(s: &str, start: usize, w: &str) -> (r: bool)
    requires
        start <= s@.len(),
    ensures
        r == equal_ignoring_case(s@.skip(start as int), w@),
{
    let n = s.unicode_len();
    let m = w.unicode_len();
    if n - start != m {
        return false;
    }
    let mut k: usize = 0;
    while k < m
        invariant
            n == s@.len(),
            m == w@.len(),
            n - start == m,
            start <= n,
            k <= m,
            forall|j: int| 0 <= j < k ==> same_letter(#[trigger] s@.skip(start as int)[j], w@[j]),
        decreases m - k,
    {
        let c = s.get_char(start + k);
        let x = w.get_char(k);
        if !(c == x || ('A' <= c && c <= 'Z' && (c as u32) + 32 == (x as u32))) {
            assert(s@.skip(start as int)[k as int] == c);
            assert(!same_letter(s@.skip(start as int)[k as int], w@[k as int]));
            return false;
        }
        k = k + 1;
    }
    true
}

/// Whether the text is a literal of a double-precision number.
pub fn is_double_literal(s: &str) -> (r: bool)
    ensures
        r == double_literal(s@),
{
    let n = s.unicode_len();
    let st = sign_len_at(s, 0);
    let a = count_digits(s, st);
    let p = st + a;
    let number = if p < n && s.get_char(p) == '.' {
        let b = count_digits(s, p + 1);
        a + b >= 1 && exponent_ok(s, p + 1 + b)
    } else {
        a >= 1 && exponent_ok(s, p)
    };
    proof {
        reveal_strlit("inf");
        reveal_strlit("infinity");
        reveal_strlit("nan");
        assert("inf"@ =~= seq!['i', 'n', 'f']);
        assert("infinity"@ =~= seq!['i', 'n', 'f', 'i', 'n', 'i', 't', 'y']);
        assert("nan"@ =~= seq!['n', 'a', 'n']);
    }
    number || letters_match(s, st, "inf") || letters_match(s, st, "infinity") || letters_match(
        s,
        st,
        "nan",
    )
}

}
