//! Decimal numbers in text: writing, reading, and recognising them.

use crate::text::{ascii_lower, chars_of, slice_of, str_eq, string_of, to_ascii_lowercase};
use vstd::prelude::*;

verus! {

pub open spec fn is_digit(c: char) -> bool {
    '0' <= c && c <= '9'
}

pub open spec fn digit_value(c: char) -> nat {
    (c as int - '0' as int) as nat
}

pub open spec fn digit_char(d: nat) -> char {
    (48 + d) as char
}

/// The decimal digits of `n`, without leading zeros.
pub open spec fn decimal(n: nat) -> Seq<char>
    decreases n,
{
    if n < 10 {
        seq![digit_char(n)]
    } else {
        decimal(n / 10).push(digit_char(n % 10))
    }
}

pub open spec fn all_digits(s: Seq<char>) -> bool {
    forall|i: int| 0 <= i < s.len() ==> is_digit(#[trigger] s[i])
}

/// The number that a run of digits writes.
pub open spec fn digits_value(s: Seq<char>) -> nat
    decreases s.len(),
{
    if s.len() == 0 {
        0
    } else {
        digits_value(s.drop_last()) * 10 + digit_value(s.last())
    }
}

/// Writes `n` in decimal.
pub fn decimal_text(n: u64) -> (r: String)
    ensures
        r@ == decimal(n as nat),
    decreases n,
{
    let d: u8 = (n % 10) as u8;
    if n < 10 {
        let mut s = String::new();
        s.push((48 + d) as char);
        assert(s@ =~= decimal(n as nat));
        s
    } else {
        let mut s = decimal_text(n / 10);
        s.push((48 + d) as char);
        s
    }
}

/// Writing a number and reading its digits gives the number back.
pub proof fn decimal_round_trip(n: nat)
    ensures
        decimal(n).len() > 0,
        all_digits(decimal(n)),
        digits_value(decimal(n)) == n,
    decreases n,
{
    if n < 10 {
        let s = decimal(n);
        assert(s.drop_last() =~= Seq::<char>::empty());
        assert(digits_value(s.drop_last()) == 0);
        assert(digit_value(s.last()) == n);
    } else {
        decimal_round_trip(n / 10);
        let s = decimal(n);
        assert(s.drop_last() =~= decimal(n / 10));
        assert(digit_value(s.last()) == n % 10);
    }
}

/// The text after one leading plus sign, if there is one.
pub open spec fn after_plus(s: Seq<char>) -> Seq<char> {
    if s.len() > 0 && s[0] == '+' {
        s.drop_first()
    } else {
        s
    }
}

/// The unsigned number written by `s`: digits after an optional plus sign, at most `max`.
pub open spec fn unsigned_value(s: Seq<char>, max: nat) -> Option<nat> {
    let d = after_plus(s);
    if d.len() > 0 && all_digits(d) && digits_value(d) <= max {
        Some(digits_value(d))
    } else {
        None
    }
}

/// The signed 64-bit number written by `s`.
pub open spec fn signed_value(s: Seq<char>) -> Option<int> {
    if s.len() > 0 && s[0] == '-' {
        let d = s.drop_first();
        if d.len() > 0 && all_digits(d) && -(digits_value(d) as int) >= i64::MIN {
            Some(-(digits_value(d) as int))
        } else {
            None
        }
    } else {
        match unsigned_value(s, i64::MAX as nat) {
            Some(v) => Some(v as int),
            None => None,
        }
    }
}

proof fn lemma_value_monotone(s: Seq<char>, i: int)
    requires
        0 <= i <= s.len(),
    ensures
        digits_value(s.take(i)) <= digits_value(s),
    decreases s.len(),
{
    if i == s.len() {
        assert(s.take(i) =~= s);
    } else {
        lemma_value_monotone(s.drop_last(), i);
        assert(s.drop_last().take(i) =~= s.take(i));
    }
}

/// Reads the digits from position `from` on, as long as they are all digits, at least one, and
/// write a number of at most `max`.
fn read_digits(cs: &Vec<char>, from: usize, max: u64) -> (r: Option<u64>)
    requires
        from <= cs@.len(),
    ensures
        ({
            let d = cs@.skip(from as int);
            match r {
                Some(v) => d.len() > 0 && all_digits(d) && digits_value(d) == v && v <= max,
                None => !(d.len() > 0 && all_digits(d) && digits_value(d) <= max),
            }
        }),
{
    let n: usize = cs.len();
    if from == n {
        return None;
    }
    let ghost d = cs@.skip(from as int);
    let mut v: u64 = 0;
    let mut i: usize = from;
    assert(d.take(0) =~= Seq::<char>::empty());
    while i < n
        invariant
            from <= i <= n,
            n == cs@.len(),
            d == cs@.skip(from as int),
            v == digits_value(d.take(i - from)),
            v <= max,
            forall|k: int| 0 <= k < i - from ==> is_digit(#[trigger] d[k]),
        decreases n - i,
    {
        let c = cs[i];
        assert(d[i - from] == c);
        if !('0' <= c && c <= '9') {
            return None;
        }
        let x: u64 = ((c as u32) - 48) as u64;
        proof {
            let t = d.take(i + 1 - from);
            assert(t.drop_last() =~= d.take(i - from));
            assert(t.last() == c);
            assert(digits_value(t) == v * 10 + x);
            lemma_value_monotone(d, i + 1 - from);
        }
        if v > (u64::MAX - x) / 10 {
            return None;
        }
        let w: u64 = v * 10 + x;
        if w > max {
            return None;
        }
        v = w;
        i += 1;
    }
    assert(d.take(n - from) =~= d);
    Some(v)
}

/// Reads an unsigned number of at most `max`.
pub fn parse_unsigned(s: &str, max: u64) -> (r: Option<u64>)
    ensures
        match r {
            Some(v) => unsigned_value(s@, max as nat) == Some(v as nat),
            None => unsigned_value(s@, max as nat) is None,
        },
{
    let cs = chars_of(s);
    let from: usize = if cs.len() > 0 && cs[0] == '+' {
        1
    } else {
        0
    };
    proof {
        assert(cs@.skip(0) =~= cs@);
        if from == 1 {
            assert(cs@.skip(1) =~= cs@.drop_first());
        }
    }
    read_digits(&cs, from, max)
}

/// Reads an unsigned number that fits in a `usize`.
pub fn parse_usize(s: &str) -> (r: Option<usize>)
    ensures
        match r {
            Some(v) => unsigned_value(s@, usize::MAX as nat) == Some(v as nat),
            None => unsigned_value(s@, usize::MAX as nat) is None,
        },
{
    match parse_unsigned(s, usize::MAX as u64) {
        Some(v) => Some(v as usize),
        None => None,
    }
}

/// Reads a signed 64-bit number.
pub fn parse_i64(s: &str) -> (r: Option<i64>)
    ensures
        match r {
            Some(v) => signed_value(s@) == Some(v as int),
            None => signed_value(s@) is None,
        },
{
    let cs = chars_of(s);
    if cs.len() > 0 && cs[0] == '-' {
        assert(cs@.skip(1) =~= cs@.drop_first());
        match read_digits(&cs, 1, 9_223_372_036_854_775_808) {
            Some(v) => {
                if v == 9_223_372_036_854_775_808 {
                    Some(i64::MIN)
                } else {
                    Some(-(v as i64))
                }
            },
            None => None,
        }
    } else {
        match parse_unsigned(s, 9_223_372_036_854_775_807) {
            Some(v) => Some(v as i64),
            None => None,
        }
    }
}

/// `s` without one leading sign.
pub open spec fn after_sign(s: Seq<char>) -> Seq<char> {
    if s.len() > 0 && (s[0] == '+' || s[0] == '-') {
        s.drop_first()
    } else {
        s
    }
}

/// How many digits `s` begins with.
pub open spec fn digit_run(s: Seq<char>) -> nat
    decreases s.len(),
{
    if s.len() > 0 && is_digit(s[0]) {
        1 + digit_run(s.drop_first())
    } else {
        0
    }
}

/// An exponent, or nothing.
pub open spec fn is_exponent(s: Seq<char>) -> bool {
    s.len() == 0 || ((s[0] == 'e' || s[0] == 'E') && {
        let d = after_sign(s.drop_first());
        d.len() > 0 && all_digits(d)
    })
}

/// Digits with at most one point among them, at least one digit, and an optional exponent.
pub open spec fn is_decimal_number(s: Seq<char>) -> bool {
    let a = digit_run(s);
    let rest = s.skip(a as int);
    if rest.len() > 0 && rest[0] == '.' {
        let frac = rest.drop_first();
        let b = digit_run(frac);
        a + b > 0 && is_exponent(frac.skip(b as int))
    } else {
        a > 0 && is_exponent(rest)
    }
}

/// The texts that a floating-point number can be read from: an optional sign, then a decimal
/// number or one of the special names in any case.
pub open spec fn is_float_text(s: Seq<char>) -> bool {
    let t = after_sign(s);
    let l = ascii_lower(t);
    l == "inf"@ || l == "infinity"@ || l == "nan"@ || is_decimal_number(t)
}

/// The position after the digits that start at `from`.
fn run_end(cs: &Vec<char>, from: usize) -> (r: usize)
    requires
        from <= cs@.len(),
    ensures
        from <= r <= cs@.len(),
        r - from == digit_run(cs@.skip(from as int)),
{
    let n: usize = cs.len();
    let mut i: usize = from;
    while i < n && '0' <= cs[i] && cs[i] <= '9'
        invariant
            from <= i <= n,
            n == cs@.len(),
            digit_run(cs@.skip(from as int)) == i - from + digit_run(cs@.skip(i as int)),
        decreases n - i,
    {
        assert(cs@.skip(i as int).drop_first() =~= cs@.skip(i + 1));
        i += 1;
    }
    i
}

proof fn lemma_run_covers(s: Seq<char>)
    ensures
        digit_run(s) <= s.len(),
        digit_run(s) == s.len() <==> all_digits(s),
    decreases s.len(),
{
    if s.len() > 0 && is_digit(s[0]) {
        let t = s.drop_first();
        lemma_run_covers(t);
        assert forall|i: int| 0 <= i < t.len() implies t[i] == #[trigger] s[i + 1] by {}
        if all_digits(t) {
            assert forall|i: int| 0 <= i < s.len() implies is_digit(#[trigger] s[i]) by {
                if i > 0 {
                    assert(t[i - 1] == s[i]);
                }
            }
        }
        if all_digits(s) {
            assert forall|i: int| 0 <= i < t.len() implies is_digit(#[trigger] t[i]) by {
                assert(s[i + 1] == t[i]);
            }
        }
    }
}

fn exponent_at(cs: &Vec<char>, from: usize) -> (r: bool)
    requires
        from <= cs@.len(),
    ensures
        r == is_exponent(cs@.skip(from as int)),
{
    let n: usize = cs.len();
    let ghost s = cs@.skip(from as int);
    if from == n {
        return true;
    }
    if cs[from] != 'e' && cs[from] != 'E' {
        return false;
    }
    assert(s.drop_first() =~= cs@.skip(from + 1));
    let mut at: usize = from + 1;
    if at < n && (cs[at] == '+' || cs[at] == '-') {
        assert(cs@.skip(at as int).drop_first() =~= cs@.skip(at + 1));
        at += 1;
    }
    assert(cs@.skip(at as int) == after_sign(s.drop_first()));
    proof {
        lemma_run_covers(cs@.skip(at as int));
    }
    let end: usize = run_end(cs, at);
    end == n && at < n
}

/// Whether a floating-point number can be read from `s`.
pub fn float_text(s: &str) -> (r: bool)
    ensures
        r == is_float_text(s@),
{
    let cs = chars_of(s);
    let n: usize = cs.len();
    let from: usize = if n > 0 && (cs[0] == '+' || cs[0] == '-') {
        1
    } else {
        0
    };
    proof {
        assert(cs@.skip(0) =~= cs@);
        if from == 1 {
            assert(cs@.skip(1) =~= cs@.drop_first());
        }
        assert(cs@.subrange(from as int, n as int) =~= cs@.skip(from as int));
    }
    let body = string_of(slice_of(&cs, from, n));
    let ghost t = after_sign(s@);
    assert(body@ == t);
    let low = to_ascii_lowercase(body.as_str());
    if str_eq(low.as_str(), "inf") || str_eq(low.as_str(), "infinity") || str_eq(
        low.as_str(),
        "nan",
    ) {
        return true;
    }
    let a: usize = run_end(&cs, from);
    assert(t.skip(a - from) =~= cs@.skip(a as int));
    if a < n && cs[a] == '.' {
        assert(t.skip(a - from).drop_first() =~= cs@.skip(a + 1));
        let b: usize = run_end(&cs, a + 1);
        assert(cs@.skip(a + 1).skip(b - (a + 1)) =~= cs@.skip(b as int));
        (a > from || b > a + 1) && exponent_at(&cs, b)
    } else {
        a > from && exponent_at(&cs, a)
    }
}

} // verus!
