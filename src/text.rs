//! Exact parsing of numbers that arrive as text: signed decimal integers and
//! fixed-point decimals, with no whitespace, exponent or `+` sign accepted.
use vstd::prelude::*;

verus! {

pub open spec fn is_digit(c: char) -> bool {
    '0' <= c && c <= '9'
}

pub open spec fn digit_value(c: char) -> int {
    c as int - '0' as int
}

pub open spec fn all_digits(s: Seq<char>) -> bool {
    forall|i: int| 0 <= i < s.len() ==> is_digit(#[trigger] s[i])
}

/// The value of a string of decimal digits, most significant first.
pub open spec fn digits_value(s: Seq<char>) -> int
    decreases s.len(),
{
    if s.len() == 0 {
        0
    } else {
        digits_value(s.drop_last()) * 10 + digit_value(s.last())
    }
}

/// The integer that `s` spells: one or more digits, optionally after a `-`.
pub open spec fn signed_value(s: Seq<char>) -> Option<int> {
    if s.len() > 1 && s[0] == '-' && all_digits(s.skip(1)) {
        Some(-digits_value(s.skip(1)))
    } else if s.len() > 0 && all_digits(s) {
        Some(digits_value(s))
    } else {
        None
    }
}

/// The 64-bit integer that `s` spells, if it spells one in range.
pub open spec fn int_text(s: Seq<char>) -> Option<i64> {
    match signed_value(s) {
        Some(v) => if i64::MIN <= v <= i64::MAX {
            Some(v as i64)
        } else {
            None
        },
        None => None,
    }
}

/// A fixed-point decimal number: `mantissa / 10^scale`.
#[derive(Clone, Copy, Debug, PartialEq, Eq, Structural)]
pub struct Decimal {
    pub mantissa: i64,
    pub scale: usize,
}

/// `s` splits at `p` into a signed integer, a `.` and one or more digits.
pub open spec fn decimal_split(s: Seq<char>, p: int) -> bool {
    &&& 0 <= p < s.len() - 1
    &&& s[p] == '.'
    &&& signed_value(s.take(p)) is Some
    &&& all_digits(s.skip(p + 1))
}

/// The decimal that `s` spells: an integer, optionally followed by `.` and
/// one or more digits; its digits, taken together, must fit in an `i64`.
pub open spec fn decimal_text(s: Seq<char>) -> Option<Decimal> {
    if exists|p: int| decimal_split(s, p) {
        let p = choose|p: int| decimal_split(s, p);
        match int_text(s.take(p) + s.skip(p + 1)) {
            Some(m) => Some(Decimal { mantissa: m, scale: (s.len() - p - 1) as usize }),
            None => None,
        }
    } else {
        match int_text(s) {
            Some(m) => Some(Decimal { mantissa: m, scale: 0 }),
            None => None,
        }
    }
}

proof fn lemma_digits_prefix(s: Seq<char>, k: int)
    requires
        all_digits(s),
        0 <= k <= s.len(),
    ensures
        0 <= digits_value(s.take(k)) <= digits_value(s),
    decreases s.len(),
{
    if k == s.len() {
        assert(s.take(k) =~= s);
        if s.len() > 0 {
            lemma_digits_prefix(s.drop_last(), k - 1);
            assert(s.drop_last().take(k - 1) =~= s.drop_last());
            assert(is_digit(s[s.len() - 1]));
        }
    } else {
        lemma_digits_prefix(s.drop_last(), k);
        assert(s.drop_last().take(k) =~= s.take(k));
        lemma_digits_prefix(s.drop_last(), s.len() - 1);
        assert(s.drop_last().take(s.len() - 1) =~= s.drop_last());
        assert(is_digit(s[s.len() - 1]));
    }
}

/// A `.` at `p` keeps `s` from spelling an integer.
proof fn lemma_dot_not_int(s: Seq<char>, p: int)
    requires
        0 <= p < s.len(),
        s[p] == '.',
    ensures
        signed_value(s) is None,
{
    assert(!is_digit(s[p]));
    if p >= 1 && s.len() > 1 {
        assert(s.skip(1)[p - 1] == '.');
        assert(!is_digit(s.skip(1)[p - 1]));
    }
}

/// A decimal split can only happen at the first `.`.
proof fn lemma_split_at_first_dot(s: Seq<char>, p: int, q: int)
    requires
        0 <= p < s.len(),
        s[p] == '.',
        forall|j: int| 0 <= j < p ==> s[j] != '.',
        decimal_split(s, q),
    ensures
        q == p,
{
    if q > p {
        assert(s.take(q)[p] == '.');
        lemma_dot_not_int(s.take(q), p);
    }
}

fn is_digits(s: &str) -> (r: bool)
    ensures
        r == all_digits(s@),
{
    let n = s.unicode_len();
    let mut i: usize = 0;
    while i < n
        invariant
            n == s@.len(),
            i <= n,
            forall|j: int| 0 <= j < i ==> is_digit(#[trigger] s@[j]),
        decreases n - i,
    {
        let c = s.get_char(i);
        if !('0' <= c && c <= '9') {
            return false;
        }
        i = i + 1;
    }
    true
}

fn is_int_syntax(s: &str) -> (r: bool)
    ensures
        r == (signed_value(s@) is Some),
{
    let n = s.unicode_len();
    if n > 1 && s.get_char(0) == '-' {
        let rest = s.substring_char(1, n);
        assert(rest@ =~= s@.skip(1));
        if is_digits(rest) {
            return true;
        }
        assert(!is_digit(s@[0]));
        return false;
    }
    n > 0 && is_digits(s)
}

/// Parses a signed decimal integer that must fit in an `i64`.
pub fn parse_int(s: &str) -> (r: Option<i64>)
    ensures
        r == int_text(s@),
{
    let n = s.unicode_len();
    if n == 0 {
        return None;
    }
    let neg = s.get_char(0) == '-';
    let start: usize = if neg { 1 } else { 0 };
    if start >= n {
        return None;
    }
    let limit: u64 = if neg { 9223372036854775808 } else { 9223372036854775807 };
    let mut acc: u64 = 0;
    let mut i: usize = start;
    assert(s@.subrange(start as int, start as int) =~= Seq::<char>::empty());
    while i < n
        invariant
            n == s@.len(),
            start <= i <= n,
            start == 0 || start == 1,
            neg == (s@[0] == '-'),
            start == 1 <==> neg,
            acc <= limit,
            limit == (if neg { 9223372036854775808u64 } else { 9223372036854775807u64 }),
            acc == digits_value(s@.subrange(start as int, i as int)),
            all_digits(s@.subrange(start as int, i as int)),
        decreases n - i,
    {
        let c = s.get_char(i);
        if !('0' <= c && c <= '9') {
            proof {
                assert(!is_digit(s@[i as int]));
                assert(s@.skip(start as int)[i - start] == c);
                if neg {
                    assert(!is_digit(s@.skip(1)[i - 1]));
                }
                assert(!is_digit(s@.skip(0)[i as int]));
                assert(s@.skip(0) =~= s@);
            }
            return None;
        }
        let d: u64 = (c as u32 - '0' as u32) as u64;
        let ghost next = s@.subrange(start as int, i + 1);
        assert(next.drop_last() =~= s@.subrange(start as int, i as int));
        assert(all_digits(next)) by {
            assert forall|j: int| 0 <= j < next.len() implies is_digit(#[trigger] next[j]) by {
                if j < next.len() - 1 {
                    assert(next[j] == s@.subrange(start as int, i as int)[j]);
                }
            }
        }
        if acc > (limit - d) / 10 {
            proof {
                assert(acc * 10 + d > limit) by (nonlinear_arith)
                    requires
                        acc > (limit - d) / 10,
                        d <= 9,
                        d <= limit,
                ;
                let t = s@.skip(start as int);
                if all_digits(t) {
                    assert(t.take(i + 1 - start) =~= next);
                    lemma_digits_prefix(t, i + 1 - start);
                }
                if !neg {
                    assert(t =~= s@);
                }
            }
            return None;
        }
        assert(acc * 10 + d <= limit) by (nonlinear_arith)
            requires
                acc <= (limit - d) / 10,
                d <= 9,
                d <= limit,
        ;
        acc = acc * 10 + d;
        i = i + 1;
    }
    assert(s@.subrange(start as int, n as int) =~= s@.skip(start as int));
    if neg {
        assert(!is_digit(s@[0]));
        if acc == limit {
            Some(i64::MIN)
        } else {
            Some(-(acc as i64))
        }
    } else {
        assert(s@.skip(0) =~= s@);
        Some(acc as i64)
    }
}

fn find_dot(s: &str) -> (p: usize)
    ensures
        p <= s@.len(),
        forall|j: int| 0 <= j < p ==> s@[j] != '.',
        p < s@.len() ==> s@[p as int] == '.',
{
    let n = s.unicode_len();
    let mut p: usize = 0;
    while p < n
        invariant
            n == s@.len(),
            p <= n,
            forall|j: int| 0 <= j < p ==> s@[j] != '.',
        decreases n - p,
    {
        if s.get_char(p) == '.' {
            return p;
        }
        p = p + 1;
    }
    p
}

/// Parses a fixed-point decimal such as `-12.50`; the digits without the
/// point form the mantissa, and the digits after the point give the scale.
pub fn parse_decimal(s: &str) -> (r: Option<Decimal>)
    ensures
        r == decimal_text(s@),
{
    let n = s.unicode_len();
    let p = find_dot(s);
    if p == n {
        assert(!exists|q: int| decimal_split(s@, q));
        return match parse_int(s) {
            Some(m) => Some(Decimal { mantissa: m, scale: 0 }),
            None => None,
        };
    }
    assert(!exists|q: int| decimal_split(s@, q) && q != p) by {
        if exists|q: int| decimal_split(s@, q) && q != p {
            let q = choose|q: int| decimal_split(s@, q) && q != p;
            lemma_split_at_first_dot(s@, p as int, q);
        }
    }
    let whole = s.substring_char(0, p);
    assert(whole@ =~= s@.take(p as int));
    if p + 1 < n && is_int_syntax(whole) {
        let frac = s.substring_char(p + 1, n);
        assert(frac@ =~= s@.skip(p + 1));
        if is_digits(frac) {
            assert(decimal_split(s@, p as int));
            let joined = String::from_str(whole).concat(frac);
            let m = parse_int(joined.as_str());
            return match m {
                Some(m) => Some(Decimal { mantissa: m, scale: n - p - 1 }),
                None => None,
            };
        }
    }
    proof {
        lemma_dot_not_int(s@, p as int);
    }
    None
}

} // verus!
