//! Reading numbers written in ASCII digits, as std's `FromStr` impls read
//! them.

use vstd::prelude::*;
use crate::decimal::{normalize, normalize_exec, Decimal};
use crate::text::{chars_of, dec, digit_char};

verus! {

pub open spec fn is_ascii_digit(c: char) -> bool {
    '0' <= c && c <= '9'
}

pub open spec fn all_ascii_digits(s: Seq<char>) -> bool {
    forall|i: int| 0 <= i < s.len() ==> is_ascii_digit(#[trigger] s[i])
}

pub open spec fn digit_value(c: char) -> nat {
    (c as u32 - '0' as u32) as nat
}

/// Value of a string of ASCII digits.
pub open spec fn digits_value(s: Seq<char>) -> nat
    decreases s.len(),
{
    if s.len() == 0 {
        0
    } else {
        digits_value(s.drop_last()) * 10 + digit_value(s.last())
    }
}


/// Digits of `s` with the `.` left out.
pub open spec fn without_point(s: Seq<char>) -> Seq<char>
    decreases s.len(),
{
    if s.len() == 0 {
        s
    } else if s.last() == '.' {
        without_point(s.drop_last())
    } else {
        without_point(s.drop_last()).push(s.last())
    }
}

/// Number of characters after the `.`, when there is exactly one `.`.
pub open spec fn point_count(s: Seq<char>) -> nat
    decreases s.len(),
{
    if s.len() == 0 {
        0
    } else {
        point_count(s.drop_last()) + if s.last() == '.' { 1nat } else { 0nat }
    }
}

pub open spec fn frac_len(s: Seq<char>) -> nat
    decreases s.len(),
{
    if s.len() == 0 || s.last() == '.' {
        0
    } else {
        frac_len(s.drop_last()) + 1
    }
}


/// Value of the digits `v[0..i]` when they are all ASCII digits and the
/// value fits in `u128`.
pub fn digits_u128(v: &Vec<char>) -> (r: Option<u128>)
    ensures
        match r {
            Some(n) => all_ascii_digits(v@) && n == digits_value(v@),
            None => !all_ascii_digits(v@) || digits_value(v@) > u128::MAX,
        },
{
    let mut n: u128 = 0;
    let mut i: usize = 0;
    while i < v.len()
        invariant
            i <= v.len(),
            all_ascii_digits(v@.take(i as int)),
            n == digits_value(v@.take(i as int)),
        decreases v.len() - i,
    {
        let c = v[i];
        assert(v@.take(i + 1).drop_last() =~= v@.take(i as int));
        if !('0' <= c && c <= '9') {
            assert(!is_ascii_digit(v@[i as int]));
            return None;
        }
        let d = (c as u32 - '0' as u32) as u128;
        if n > (u128::MAX - d) / 10 {
            proof {
                lemma_digits_value_mono(v@, (i + 1) as int);
                assert(n * 10 + d > u128::MAX) by (nonlinear_arith)
                    requires
                        n > (u128::MAX - d) / 10,
                        d <= 9,
                ;
            }
            return None;
        }
        n = n * 10 + d;
        i = i + 1;
    }
    assert(v@.take(v@.len() as int) =~= v@);
    Some(n)
}

pub proof fn lemma_digits_value_mono(s: Seq<char>, k: int)
    requires
        0 <= k <= s.len(),
        all_ascii_digits(s.take(k)),
    ensures
        digits_value(s.take(k)) <= digits_value(s) || !all_ascii_digits(s),
    decreases s.len() - k,
{
    if k < s.len() && all_ascii_digits(s) {
        lemma_digits_value_mono(s, k + 1);
        assert(s.take(k + 1).drop_last() =~= s.take(k));
    } else if k == s.len() {
        assert(s.take(k) =~= s);
    }
}


pub fn without_point_exec(v: &Vec<char>) -> (r: (Vec<char>, usize, usize))
    ensures
        r.0@ == without_point(v@),
        r.1 == point_count(v@),
        r.2 == frac_len(v@),
{
    let mut d: Vec<char> = Vec::new();
    let mut points: usize = 0;
    let mut frac: usize = 0;
    let mut i: usize = 0;
    while i < v.len()
        invariant
            i <= v.len(),
            points <= i,
            frac <= i,
            d@ == without_point(v@.take(i as int)),
            points == point_count(v@.take(i as int)),
            frac == frac_len(v@.take(i as int)),
        decreases v.len() - i,
    {
        assert(v@.take(i + 1).drop_last() =~= v@.take(i as int));
        if v[i] == '.' {
            points = points + 1;
            frac = 0;
        } else {
            d.push(v[i]);
            frac = frac + 1;
        }
        i = i + 1;
    }
    assert(v@.take(v@.len() as int) =~= v@);
    (d, points, frac)
}

pub fn ascii_digits(v: &Vec<char>) -> (r: bool)
    ensures
        r == all_ascii_digits(v@),
{
    let mut i: usize = 0;
    while i < v.len()
        invariant
            i <= v.len(),
            all_ascii_digits(v@.take(i as int)),
        decreases v.len() - i,
    {
        let c = v[i];
        if !('0' <= c && c <= '9') {
            assert(!is_ascii_digit(v@[i as int]));
            return false;
        }
        assert(v@.take(i + 1).drop_last() =~= v@.take(i as int));
        i = i + 1;
    }
    assert(v@.take(v@.len() as int) =~= v@);
    true
}


/// The characters of `v` from position `k` on.
pub fn tail_chars(v: &Vec<char>, k: usize) -> (r: Vec<char>)
    requires
        k <= v.len(),
    ensures
        r@ == v@.skip(k as int),
{
    let mut r: Vec<char> = Vec::new();
    let mut i: usize = k;
    while i < v.len()
        invariant
            k <= i <= v.len(),
            r@ == v@.subrange(k as int, i as int),
        decreases v.len() - i,
    {
        r.push(v[i]);
        assert(r@ =~= v@.subrange(k as int, i + 1));
        i = i + 1;
    }
    assert(r@ =~= v@.skip(k as int));
    r
}

/// `s` without one leading `+`.
pub open spec fn unsigned_body(s: Seq<char>) -> Seq<char> {
    if s.len() > 0 && s[0] == '+' {
        s.skip(1)
    } else {
        s
    }
}

/// What std's `FromStr` for an unsigned integer type whose largest value is
/// `max` gives: an optional `+` and at least one ASCII digit, of value at
/// most `max`.
pub open spec fn unsigned_value(s: Seq<char>, max: nat) -> Option<nat> {
    let b = unsigned_body(s);
    if b.len() > 0 && all_ascii_digits(b) && digits_value(b) <= max {
        Some(digits_value(b))
    } else {
        None
    }
}

/// `s.parse::<u128>()`.
pub fn parse_u128(s: &str) -> (r: Option<u128>)
    ensures
        match r {
            Some(n) => unsigned_value(s@, u128::MAX as nat) == Some(n as nat),
            None => unsigned_value(s@, u128::MAX as nat) is None,
        },
{
    let v = chars_of(s);
    let b = if v.len() > 0 && v[0] == '+' {
        tail_chars(&v, 1)
    } else {
        v
    };
    if b.len() == 0 {
        return None;
    }
    digits_u128(&b)
}

/// `s.parse::<u64>()`.
pub fn parse_u64(s: &str) -> (r: Option<u64>)
    ensures
        match r {
            Some(n) => unsigned_value(s@, u64::MAX as nat) == Some(n as nat),
            None => unsigned_value(s@, u64::MAX as nat) is None,
        },
{
    match parse_u128(s) {
        Some(n) => {
            if n <= 0xffff_ffff_ffff_ffffu128 {
                Some(n as u64)
            } else {
                None
            }
        },
        None => {
            None
        },
    }
}

/// `s` without one leading sign, and whether it was `-`.
pub open spec fn signed_body(s: Seq<char>) -> (bool, Seq<char>) {
    if s.len() > 0 && s[0] == '-' {
        (true, s.skip(1))
    } else if s.len() > 0 && s[0] == '+' {
        (false, s.skip(1))
    } else {
        (false, s)
    }
}

/// A number in plain positional notation: an optional sign, ASCII digits
/// with at most one `.`, and at least one digit; its exact value when the
/// digits fit in 64 bits.
pub open spec fn plain_decimal_value(s: Seq<char>) -> Option<Decimal> {
    let (negative, b) = signed_body(s);
    let d = without_point(b);
    let k = if point_count(b) == 1 { frac_len(b) } else { 0 };
    if d.len() > 0 && all_ascii_digits(d) && point_count(b) <= 1 && digits_value(d) <= u64::MAX && k
        <= i32::MAX {
        Some(normalize(Decimal { negative, digits: digits_value(d) as u64, exp: -(k as int) as i32 }))
    } else {
        None
    }
}

/// Reads a number in plain positional notation (see `plain_decimal_value`).
pub fn parse_plain_decimal(s: &str) -> (r: Option<Decimal>)
    ensures
        r == plain_decimal_value(s@),
{
    let v = chars_of(s);
    let (negative, b) = if v.len() > 0 && v[0] == '-' {
        (true, tail_chars(&v, 1))
    } else if v.len() > 0 && v[0] == '+' {
        (false, tail_chars(&v, 1))
    } else {
        (false, v)
    };
    let (d, points, frac) = without_point_exec(&b);
    if d.len() == 0 || points > 1 || !ascii_digits(&d) {
        return None;
    }
    let n = match digits_u128(&d) {
        Some(n) => n,
        None => {
            return None;
        },
    };
    let k: usize = if points == 1 { frac } else { 0 };
    if n > 0xffff_ffff_ffff_ffffu128 || k > 2147483647usize {
        return None;
    }
    Some(normalize_exec(Decimal { negative, digits: n as u64, exp: -(k as i32) }))
}

/// The decimal rendering of `n` reads back as `n`.
pub proof fn lemma_dec_reads_back(n: nat)
    ensures
        dec(n).len() > 0,
        all_ascii_digits(dec(n)),
        digits_value(dec(n)) == n,
    decreases n,
{
    let d = n % 10;
    assert(is_ascii_digit(digit_char(d as int)) && digit_value(digit_char(d as int)) == d);
    if n >= 10 {
        lemma_dec_reads_back(n / 10);
        let s = dec(n);
        assert(s.drop_last() =~= dec(n / 10));
        assert(s.last() == digit_char(d as int));
        assert(digits_value(s) == digits_value(dec(n / 10)) * 10 + d);
        assert((n / 10) * 10 + n % 10 == n);
        assert forall|i: int| 0 <= i < s.len() implies is_ascii_digit(#[trigger] s[i]) by {
            if i < s.len() - 1 {
                assert(s[i] == dec(n / 10)[i]);
            }
        }
    } else {
        assert(dec(n).drop_last() =~= Seq::<char>::empty());
        assert(digits_value(Seq::<char>::empty()) == 0);
        assert(digits_value(dec(n)) == digits_value(dec(n).drop_last()) * 10 + d);
    }
}

} // verus!
