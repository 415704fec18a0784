//! Numbers in decimal notation.

use crate::text;
use vstd::prelude::*;

verus! {

/// The digit character for a value below ten.
pub open spec fn digit_char(d: nat) -> char {
    if d == 0 {
        '0'
    } else if d == 1 {
        '1'
    } else if d == 2 {
        '2'
    } else if d == 3 {
        '3'
    } else if d == 4 {
        '4'
    } else if d == 5 {
        '5'
    } else if d == 6 {
        '6'
    } else if d == 7 {
        '7'
    } else if d == 8 {
        '8'
    } else {
        '9'
    }
}

/// The value of a digit character.
pub open spec fn digit_value(c: char) -> nat {
    (c as int - '0' as int) as nat
}

/// `n` in decimal, without leading zeros.
pub open spec fn decimal(n: nat) -> Seq<char>
    decreases n,
{
    if n < 10 {
        seq![digit_char(n)]
    } else {
        decimal(n / 10).push(digit_char(n % 10))
    }
}

/// The value of a sequence of digits.
pub open spec fn digits_value(s: Seq<char>) -> nat
    decreases s.len(),
{
    if s.len() == 0 {
        0
    } else {
        digits_value(s.drop_last()) * 10 + digit_value(s.last())
    }
}

pub open spec fn all_digits(s: Seq<char>) -> bool {
    forall|i: int| 0 <= i < s.len() ==> text::is_digit(#[trigger] s[i])
}

/// The number a text denotes: digits, after at most one `+`, of a value that
/// does not exceed `max`.
pub open spec fn parse_number(s: Seq<char>, max: nat) -> Option<nat> {
    let d = if s.len() > 0 && s[0] == '+' {
        s.skip(1)
    } else {
        s
    };
    if d.len() > 0 && all_digits(d) && digits_value(d) <= max {
        Some(digits_value(d))
    } else {
        None
    }
}

/// The number a text denotes, where a sign may stand before the digits and
/// the value lies between `-min` and `max`.
pub open spec fn parse_signed(s: Seq<char>, min: nat, max: nat) -> Option<int> {
    if s.len() > 0 && s[0] == '-' {
        let d = s.skip(1);
        if d.len() > 0 && all_digits(d) && digits_value(d) <= min {
            Some(-(digits_value(d) as int))
        } else {
            None
        }
    } else {
        match parse_number(s, max) {
            Some(n) => Some(n as int),
            None => None,
        }
    }
}

fn digit_of(d: u64) -> (c: char)
    requires
        d < 10,
    ensures
        c == digit_char(d as nat),
{
    if d == 0 {
        '0'
    } else if d == 1 {
        '1'
    } else if d == 2 {
        '2'
    } else if d == 3 {
        '3'
    } else if d == 4 {
        '4'
    } else if d == 5 {
        '5'
    } else if d == 6 {
        '6'
    } else if d == 7 {
        '7'
    } else if d == 8 {
        '8'
    } else {
        '9'
    }
}

/// `n` in decimal.
pub fn to_decimal(n: u64) -> (r: String)
    ensures
        r@ == decimal(n as nat),
    decreases n,
{
    let mut out = if n < 10 {
        String::new()
    } else {
        to_decimal(n / 10)
    };
    out.push(digit_of(n % 10));
    if n < 10 {
        assert(out@ =~= seq![digit_char(n as nat)]);
    }
    out
}

/// A `usize` in decimal.
pub fn usize_decimal(n: usize) -> (r: String)
    ensures
        r@ == decimal(n as nat),
{
    to_decimal(n as u64)
}

/// Prefixes of a digit sequence denote no more than the whole.
proof fn lemma_prefix_value(s: Seq<char>, k: int)
    requires
        0 <= k <= s.len(),
    ensures
        digits_value(s.take(k)) <= digits_value(s),
    decreases s.len(),
{
    if k < s.len() {
        lemma_prefix_value(s.drop_last(), k);
        assert(s.drop_last().take(k) =~= s.take(k));
    } else {
        assert(s.take(k) =~= s);
    }
}

/// The value of the digits of `s` from `from` on, if they are digits and the
/// value does not exceed `max`.
fn digits_from(s: &[char], from: usize, max: u64) -> (r: Option<u64>)
    requires
        from <= s@.len(),
    ensures
        match r {
            Some(n) => {
                let d = s@.skip(from as int);
                d.len() > 0 && all_digits(d) && digits_value(d) <= max && n == digits_value(d)
            },
            None => {
                let d = s@.skip(from as int);
                !(d.len() > 0 && all_digits(d) && digits_value(d) <= max)
            },
        },
{
    let ghost d = s@.skip(from as int);
    if from >= s.len() {
        return None;
    }
    let mut n: u64 = 0;
    let mut i: usize = from;
    assert(d.take(0) =~= seq![]);
    while i < s.len()
        invariant
            from <= i <= s@.len(),
            d == s@.skip(from as int),
            n == digits_value(d.take(i - from)),
            n <= max,
            all_digits(d.take(i - from)),
        decreases s@.len() - i,
    {
        let c = s[i];
        let ghost t = d.take(i - from + 1);
        proof {
            assert(t.drop_last() =~= d.take(i - from));
            assert(t.last() == c);
            lemma_prefix_value(d, i - from + 1);
        }
        if !text::digit(c) {
            assert(!text::is_digit(d[i - from]));
            return None;
        }
        let v: u64 = c as u64 - '0' as u64;
        if n > (max - v.min(max)) / 10 || v > max {
            proof {
                assert(digits_value(t) == n * 10 + v);
                assert(digits_value(t) > max);
            }
            return None;
        }
        assert(n * 10 + v <= max);
        n = n * 10 + v;
        proof {
            assert forall|k: int| 0 <= k < t.len() implies text::is_digit(#[trigger] t[k]) by {
                if k < i - from {
                    assert(t[k] == d.take(i - from)[k]);
                }
            }
        }
        i += 1;
    }
    assert(d.take(d.len() as int) =~= d);
    Some(n)
}

/// The unsigned number a text denotes, if it does not exceed `max`.
pub fn parse_up_to(s: &str, max: u64) -> (r: Option<u64>)
    ensures
        match r {
            Some(n) => parse_number(s@, max as nat) == Some(n as nat),
            None => parse_number(s@, max as nat) is None,
        },
{
    let v = text::chars_of(s);
    if v.len() > 0 && v[0] == '+' {
        digits_from(&v, 1, max)
    } else {
        assert(s@.skip(0) =~= s@);
        digits_from(&v, 0, max)
    }
}

/// The `i32` a text denotes.
pub fn parse_i32(s: &str) -> (r: Option<i32>)
    ensures
        match r {
            Some(n) => parse_signed(s@, 0x8000_0000, 0x7fff_ffff) == Some(n as int),
            None => parse_signed(s@, 0x8000_0000, 0x7fff_ffff) is None,
        },
{
    let v = text::chars_of(s);
    if v.len() > 0 && v[0] == '-' {
        match digits_from(&v, 1, 0x8000_0000) {
            Some(n) => {
                let m: i64 = -(n as i64);
                Some(m as i32)
            },
            None => None,
        }
    } else {
        match parse_up_to(s, 0x7fff_ffff) {
            Some(n) => Some(n as i32),
            None => None,
        }
    }
}

/// An integer in decimal, with a minus sign where it is negative.
pub open spec fn signed_decimal(n: int) -> Seq<char> {
    if n < 0 {
        seq!['-'] + decimal((-n) as nat)
    } else {
        decimal(n as nat)
    }
}

/// An `i32` in decimal.
pub fn i32_decimal(n: i32) -> (r: String)
    ensures
        r@ == signed_decimal(n as int),
{
    if n < 0 {
        let mut out = String::new();
        out.push('-');
        let m: i64 = -(n as i64);
        let d = to_decimal(m as u64);
        out.push_str(d.as_str());
        assert(out@ =~= seq!['-'] + d@);
        out
    } else {
        to_decimal(n as u64)
    }
}

/// Decimal notation is made of digits, at least one.
pub proof fn lemma_decimal_digits(n: nat)
    ensures
        decimal(n).len() > 0,
        all_digits(decimal(n)),
    decreases n,
{
    if n >= 10 {
        lemma_decimal_digits(n / 10);
        let p = decimal(n / 10);
        let s = decimal(n);
        assert forall|i: int| 0 <= i < s.len() implies text::is_digit(#[trigger] s[i]) by {
            if i < p.len() {
                assert(s[i] == p[i]);
            }
        }
    }
}

/// Reading decimal notation back gives the number.
pub proof fn lemma_decimal_value(n: nat)
    ensures
        digits_value(decimal(n)) == n,
    decreases n,
{
    if n >= 10 {
        lemma_decimal_value(n / 10);
        assert(decimal(n).drop_last() =~= decimal(n / 10));
    } else {
        assert(decimal(n).drop_last() =~= seq![]);
        assert(digits_value(decimal(n).drop_last()) == 0);
    }
}

/// A number in decimal parses as that number.
pub proof fn lemma_decimal_parses(n: nat, max: nat)
    requires
        n <= max,
    ensures
        parse_number(decimal(n), max) == Some(n),
{
    lemma_decimal_digits(n);
    lemma_decimal_value(n);
    assert(text::is_digit(decimal(n)[0]));
}

/// `n` zeros.
pub open spec fn zeros(n: int) -> Seq<char> {
    Seq::new(n as nat, |i: int| '0')
}

/// `n` in decimal, with leading zeros up to `w` digits.
pub open spec fn padded(n: nat, w: nat) -> Seq<char> {
    let d = decimal(n);
    if d.len() >= w {
        d
    } else {
        zeros(w - d.len()) + d
    }
}

/// Leading zeros do not change a value.
proof fn lemma_zeros(k: int, d: Seq<char>)
    requires
        k >= 0,
    ensures
        digits_value(zeros(k) + d) == digits_value(d),
    decreases d.len(), k,
{
    let s = zeros(k) + d;
    if d.len() > 0 {
        assert(s.drop_last() =~= zeros(k) + d.drop_last());
        lemma_zeros(k, d.drop_last());
    } else if k > 0 {
        assert(s.drop_last() =~= zeros(k - 1) + d);
        assert(s.last() == '0');
        lemma_zeros(k - 1, d);
    } else {
        assert(s =~= d);
    }
}

/// Reading a number with leading zeros back gives the number.
pub proof fn lemma_padded_value(n: nat, w: nat)
    ensures
        padded(n, w).len() > 0,
        padded(n, w).len() >= w,
        all_digits(padded(n, w)),
        digits_value(padded(n, w)) == n,
        forall|c: char| #[trigger] padded(n, w).contains(c) ==> text::is_digit(c),
        w == 2 && n < 100 ==> padded(n, w).len() == 2,
{
    let d = decimal(n);
    let s = padded(n, w);
    lemma_decimal_digits(n);
    lemma_decimal_value(n);
    if d.len() < w {
        lemma_zeros(w - d.len(), d);
    }
    assert forall|i: int| 0 <= i < s.len() implies text::is_digit(#[trigger] s[i]) by {
        if d.len() < w && i >= w - d.len() {
            assert(s[i] == d[i - (w - d.len())]);
        } else if d.len() >= w {
            assert(s[i] == d[i]);
        }
    }
    assert forall|c: char| #[trigger] s.contains(c) implies text::is_digit(c) by {
        let i = choose|i: int| 0 <= i < s.len() && s[i] == c;
        assert(text::is_digit(s[i]));
    }
    if 10 <= n < 100 {
        assert(decimal(n / 10) =~= seq![digit_char(n / 10)]);
    }
}

/// `n` in decimal, with leading zeros up to `w` digits.
pub fn to_padded(n: u64, w: usize) -> (r: String)
    ensures
        r@ == padded(n as nat, w as nat),
{
    let d = to_decimal(n);
    let have: usize = d.as_str().unicode_len();
    let mut out = String::new();
    let mut i: usize = have;
    assert(out@ =~= zeros(0));
    while i < w
        invariant
            have == d@.len(),
            have <= i,
            i <= w || i == have,
            out@ == zeros(i - have),
        decreases w - i,
    {
        out.push('0');
        assert(out@ =~= zeros(i + 1 - have));
        i += 1;
    }
    out.push_str(d.as_str());
    if have >= w {
        assert(out@ =~= d@);
    }
    out
}

} // verus!
