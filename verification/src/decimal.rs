//! Finite decimal numbers in the form std prints an `f64` in: a sign, up to
//! nineteen significant digits and a power of ten. Quantities that the
//! options carry as floating-point numbers (scale, frame rate, durations,
//! sizes) are held this way, so that the text put on an FFmpeg command line
//! can be stated exactly.

use vstd::prelude::*;
use crate::number::{
    all_ascii_digits, digit_value, digits_value, frac_len, is_ascii_digit, lemma_dec_reads_back,
    lemma_digits_value_mono, point_count, without_point,
};
use crate::text::{chars_of, dec, digit_char, push_char, push_dec};

verus! {

/// The number `(-1)^negative * digits * 10^exp`.
#[derive(Clone, Copy, Debug, PartialEq, Eq)]
pub struct Decimal {
    pub negative: bool,
    pub digits: u64,
    pub exp: i32,
}

pub open spec fn pow10(k: nat) -> nat
    decreases k,
{
    if k == 0 {
        1
    } else {
        10 * pow10((k - 1) as nat)
    }
}

pub open spec fn zeros(k: nat) -> Seq<char> {
    Seq::new(k, |i: int| '0')
}

/// The text std's `Display` gives for the number: no exponent, no trailing
/// zeros after the point, a leading `0.` below one.
pub open spec fn decimal_text(d: Decimal) -> Seq<char> {
    let s = dec(d.digits as nat);
    let body = if d.exp >= 0 {
        if d.digits == 0 {
            seq!['0']
        } else {
            s + zeros(d.exp as nat)
        }
    } else {
        let k = (-d.exp) as int;
        if s.len() > k {
            s.take(s.len() - k) + seq!['.'] + s.skip(s.len() - k)
        } else {
            seq!['0', '.'] + zeros((k - s.len()) as nat) + s
        }
    };
    if d.negative {
        seq!['-'] + body
    } else {
        body
    }
}

/// The number is strictly greater than zero.
pub open spec fn is_positive(d: Decimal) -> bool {
    !d.negative && d.digits > 0
}

/// The number is strictly below one.
pub open spec fn is_below_one(d: Decimal) -> bool {
    if d.negative || d.digits == 0 {
        true
    } else if d.exp >= 0 {
        false
    } else {
        d.digits < pow10((-d.exp) as nat)
    }
}

pub proof fn lemma_pow10_positive(k: nat)
    ensures
        pow10(k) >= 1,
    decreases k,
{
    if k > 0 {
        lemma_pow10_positive((k - 1) as nat);
    }
}

pub proof fn lemma_dec_len(n: nat)
    ensures
        dec(n).len() >= 1,
        n < pow10((dec(n).len() - 1) as nat) * 10,
        n >= 10 ==> n >= pow10((dec(n).len() - 1) as nat),
    decreases n,
{
    if n >= 10 {
        lemma_dec_len(n / 10);
    }
}

fn push_zeros(s: &mut String, k: u64)
    ensures
        final(s)@ == old(s)@ + zeros(k as nat),
{
    let mut i: u64 = 0;
    while i < k
        invariant
            i <= k,
            s@ == old(s)@ + zeros(i as nat),
        decreases k - i,
    {
        push_char(s, '0');
        assert(old(s)@ + zeros((i + 1) as nat) =~= (old(s)@ + zeros(i as nat)).push('0'));
        i = i + 1;
    }
}

/// Number of decimal digits of `n`.
fn digit_count(n: u64) -> (c: u64)
    ensures
        c == dec(n as nat).len(),
        c <= 20,
    decreases n,
{
    proof {
        lemma_dec_digits_bound(n);
    }
    if n >= 10 {
        1 + digit_count(n / 10)
    } else {
        1
    }
}

pub proof fn lemma_dec_digits_bound(n: u64)
    ensures
        dec(n as nat).len() <= 20,
{
    lemma_dec_len(n as nat);
    if dec(n as nat).len() > 20 {
        reveal_with_fuel(pow10, 21);
        assert(pow10(20) == 100000000000000000000nat);
        lemma_pow10_grows(20, (dec(n as nat).len() - 1) as nat);
    }
}

/// Appends the characters `dec(n)[lo..hi]`.
fn push_dec_range(s: &mut String, n: u64, lo: u64, hi: u64)
    requires
        lo <= hi <= dec(n as nat).len(),
    ensures
        final(s)@ == old(s)@ + dec(n as nat).subrange(lo as int, hi as int),
    decreases n,
{
    let len = digit_count(n);
    if n >= 10 {
        let ghost d = dec(n as nat);
        assert(d == dec((n / 10) as nat).push(crate::text::digit_char((n % 10) as int)));
        if hi == len {
            if lo < len {
                push_dec_range(s, n / 10, lo, len - 1);
                push_char(s, crate::text::digit(n % 10));
                assert(old(s)@ + d.subrange(lo as int, hi as int) =~= old(s)@ + dec(
                    (n / 10) as nat,
                ).subrange(lo as int, len - 1) + seq![d.last()]);
            } else {
                assert(d.subrange(lo as int, hi as int) =~= Seq::<char>::empty());
                assert(old(s)@ + d.subrange(lo as int, hi as int) =~= old(s)@);
            }
        } else {
            push_dec_range(s, n / 10, lo, hi);
            assert(d.subrange(lo as int, hi as int) =~= dec((n / 10) as nat).subrange(
                lo as int,
                hi as int,
            ));
        }
    } else {
        if lo < hi {
            push_char(s, crate::text::digit(n));
            assert(old(s)@ + dec(n as nat).subrange(lo as int, hi as int) =~= old(s)@.push(
                crate::text::digit_char(n as int),
            ));
        } else {
            assert(old(s)@ + dec(n as nat).subrange(lo as int, hi as int) =~= old(s)@);
        }
    }
}

impl Decimal {
    /// Zero, written `0`.
    pub fn zero() -> (d: Decimal)
        ensures
            d == (Decimal { negative: false, digits: 0, exp: 0 }),
    {
        Decimal { negative: false, digits: 0, exp: 0 }
    }

    /// The whole number `n`.
    pub fn from_int(n: u64) -> (d: Decimal)
        ensures
            d == (Decimal { negative: false, digits: n, exp: 0 }),
    {
        Decimal { negative: false, digits: n, exp: 0 }
    }

    pub fn is_positive(&self) -> (b: bool)
        ensures
            b == is_positive(*self),
    {
        !self.negative && self.digits > 0
    }

    pub fn is_below_one(&self) -> (b: bool)
        ensures
            b == is_below_one(*self),
    {
        if self.negative || self.digits == 0 {
            true
        } else if self.exp >= 0 {
            false
        } else {
            let k: u64 = if self.exp == i32::MIN { 2147483648u64 } else { (-self.exp) as u64 };
            let mut p: u64 = 1;
            let mut i: u64 = 0;
            while i < k
                invariant
                    i <= k,
                    !self.negative,
                    self.digits > 0,
                    self.exp < 0,
                    k == (-self.exp) as nat,
                    p == pow10(i as nat),
                    p <= self.digits,
                decreases k - i,
            {
                if p > self.digits / 10 {
                    proof {
                        let d = self.digits;
                        assert(10 * p > d) by (nonlinear_arith)
                            requires
                                p > d / 10,
                        ;
                        assert(pow10((i + 1) as nat) == 10 * p);
                        lemma_pow10_grows((i + 1) as nat, k as nat);
                        assert(d < pow10(k as nat));
                        assert((-self.exp) as nat == k as nat);
                        assert(d < pow10((-self.exp) as nat));
                    }
                    return true;
                }
                proof {
                    let d = self.digits;
                    assert(10 * p <= d) by (nonlinear_arith)
                        requires
                            p <= d / 10,
                    ;
                }
                p = p * 10;
                i = i + 1;
            }
            false
        }
    }

    /// Appends std's `Display` text of the number.
    pub fn push_text(&self, s: &mut String)
        ensures
            final(s)@ == old(s)@ + decimal_text(*self),
    {
        let ghost body_start = if self.negative { old(s)@.push('-') } else { old(s)@ };
        if self.negative {
            push_char(s, '-');
        }
        let ghost sd = dec(self.digits as nat);
        if self.exp >= 0 {
            if self.digits == 0 {
                push_char(s, '0');
            } else {
                push_dec(s, self.digits);
                push_zeros(s, self.exp as u64);
            }
        } else {
            let k: u64 = if self.exp == i32::MIN { 2147483648u64 } else { (-self.exp) as u64 };
            let len = digit_count(self.digits);
            if len > k {
                push_dec_range(s, self.digits, 0, len - k);
                push_char(s, '.');
                push_dec_range(s, self.digits, len - k, len);
                assert(sd.subrange(0, len - k) =~= sd.take(len - k));
                assert(sd.subrange((len - k) as int, len as int) =~= sd.skip(len - k));
            } else {
                push_char(s, '0');
                push_char(s, '.');
                push_zeros(s, k - len);
                push_dec(s, self.digits);
            }
        }
        assert(s@ =~= old(s)@ + decimal_text(*self));
    }
}

pub proof fn lemma_pow10_grows(i: nat, k: nat)
    requires
        i <= k,
    ensures
        pow10(i) <= pow10(k),
    decreases k - i,
{
    if i < k {
        lemma_pow10_grows(i, (k - 1) as nat);
        lemma_pow10_positive((k - 1) as nat);
    }
}

/// The text of a decimal as a new string.
pub fn decimal_string(d: Decimal) -> (r: String)
    ensures
        r@ == decimal_text(d),
{
    let mut r = String::new();
    d.push_text(&mut r);
    assert(r@ =~= decimal_text(d));
    r
}

/// The same number with trailing zero digits moved into the exponent.
pub open spec fn normalize(d: Decimal) -> Decimal
    decreases d.digits,
{
    if d.digits == 0 {
        Decimal { negative: d.negative, digits: 0, exp: 0 }
    } else if d.digits % 10 == 0 && d.exp < i32::MAX {
        normalize(Decimal { negative: d.negative, digits: d.digits / 10, exp: (d.exp + 1) as i32 })
    } else {
        d
    }
}

/// `digits / m`, rounded half away from zero.
pub open spec fn div_round_half_up(digits: nat, m: nat) -> nat {
    digits / m + if digits % m >= m / 2 { 1nat } else { 0nat }
}

/// The number rounded to two decimal places, halves away from zero
/// (`(x * 100).round() / 100` on the exact value).
pub open spec fn round_hundredths(d: Decimal) -> Decimal {
    if d.exp >= -2 {
        d
    } else {
        let m = pow10((-d.exp - 2) as nat);
        normalize(
            Decimal {
                negative: d.negative,
                digits: div_round_half_up(d.digits as nat, m) as u64,
                exp: -2i32,
            },
        )
    }
}

pub fn normalize_exec(d: Decimal) -> (r: Decimal)
    ensures
        r == normalize(d),
{
    let mut cur = d;
    while cur.digits != 0 && cur.digits % 10 == 0 && cur.exp < i32::MAX
        invariant
            normalize(cur) == normalize(d),
        decreases cur.digits,
    {
        cur = Decimal { negative: cur.negative, digits: cur.digits / 10, exp: cur.exp + 1 };
    }
    if cur.digits == 0 {
        Decimal { negative: cur.negative, digits: 0, exp: 0 }
    } else {
        cur
    }
}

/// `10^k` for `k <= 19`.
pub fn pow10_u64(k: u64) -> (p: u64)
    requires
        k <= 19,
    ensures
        p == pow10(k as nat),
{
    let mut p: u64 = 1;
    let mut i: u64 = 0;
    while i < k
        invariant
            i <= k <= 19,
            p == pow10(i as nat),
            p <= 10000000000000000000u64,
            i < 19 ==> p * 10 <= 10000000000000000000u64,
        decreases k - i,
    {
        proof {
            reveal_with_fuel(pow10, 20);
            lemma_pow10_grows((i + 1) as nat, 19);
            if i + 1 < 19 {
                lemma_pow10_grows((i + 2) as nat, 19);
            }
            assert(pow10(19) == 10000000000000000000nat);
        }
        p = p * 10;
        i = i + 1;
    }
    p
}

proof fn lemma_small_round_is_zero(digits: u64, k: nat)
    requires
        k >= 20,
    ensures
        div_round_half_up(digits as nat, pow10(k)) == 0,
{
    reveal_with_fuel(pow10, 21);
    assert(pow10(20) == 100000000000000000000nat);
    lemma_pow10_grows(20, k);
    assert(pow10(k) / 2 >= 50000000000000000000nat);
    assert((digits as nat) < pow10(k));
    assert((digits as nat) / pow10(k) == 0) by (nonlinear_arith)
        requires
            (digits as nat) < pow10(k),
    ;
    assert((digits as nat) % pow10(k) == digits) by (nonlinear_arith)
        requires
            (digits as nat) < pow10(k),
    ;
}

impl Decimal {
    /// The number rounded to two decimal places (see `round_hundredths`).
    pub fn round_hundredths(&self) -> (r: Decimal)
        ensures
            r == round_hundredths(*self),
    {
        if self.exp >= -2 {
            return *self;
        }
        let k: u64 = if self.exp == i32::MIN { 2147483646u64 } else { (-self.exp - 2) as u64 };
        let q: u64 = if k >= 20 {
            proof {
                lemma_small_round_is_zero(self.digits, k as nat);
            }
            0
        } else {
            let m = pow10_u64(k);
            proof {
                lemma_pow10_positive(k as nat);
                let d = self.digits;
                assert(d / m <= d) by (nonlinear_arith)
                    requires
                        m >= 1,
                ;
                assert(m >= 10) by {
                    reveal_with_fuel(pow10, 2);
                    lemma_pow10_grows(1, k as nat);
                }
                assert(d / m < 0xffff_ffff_ffff_ffffu64) by (nonlinear_arith)
                    requires
                        m >= 10,
                ;
            }
            self.digits / m + if self.digits % m >= m / 2 { 1 } else { 0 }
        };
        normalize_exec(Decimal { negative: self.negative, digits: q, exp: -2 })
    }
}

/// Four-digit zero-padded rendering of `n < 10000`.
pub open spec fn pad4(n: nat) -> Seq<char> {
    zeros((4 - dec(n).len()) as nat) + dec(n)
}

/// `x` rounded to the nearest multiple of `1/10^4` on the exact value, ties to
/// even, as a count of ten-thousandths (for a non-negative exponent shift the
/// value is exact).
pub open spec fn scaled4_rounded(digits: nat, e: int) -> nat {
    let m = pow10((-e) as nat);
    let q = digits / m;
    let r = digits % m;
    if 2 * r > m || (2 * r == m && q % 2 == 1) {
        q + 1
    } else {
        q
    }
}

/// Text of the number with exactly four decimal places (std `{:.4}`).
pub open spec fn fixed4_text(d: Decimal) -> Seq<char> {
    let e = d.exp + 4;
    let body = if e >= 4 {
        (if d.digits == 0 {
            seq!['0']
        } else {
            dec(d.digits as nat) + zeros(d.exp as nat)
        }) + ".0000"@
    } else {
        let n = if e >= 0 {
            (d.digits as nat) * pow10(e as nat)
        } else {
            scaled4_rounded(d.digits as nat, e)
        };
        dec(n / 10000) + seq!['.'] + pad4(n % 10000)
    };
    if d.negative {
        seq!['-'] + body
    } else {
        body
    }
}

fn push_pad4(s: &mut String, n: u64)
    requires
        n < 10000,
    ensures
        final(s)@ == old(s)@ + pad4(n as nat),
{
    proof {
        lemma_dec_len(n as nat);
        reveal_with_fuel(pow10, 5);
        if dec(n as nat).len() > 4 {
            lemma_pow10_grows(4, (dec(n as nat).len() - 1) as nat);
        }
    }
    let len = digit_count(n);
    push_zeros(s, 4 - len);
    push_dec(s, n);
    assert(final(s)@ =~= old(s)@ + pad4(n as nat)) by {
        assert(s@ == old(s)@ + zeros((4 - len) as nat) + dec(n as nat));
    }
}

impl Decimal {
    /// Appends the four-decimal text of the number (see `fixed4_text`).
    pub fn push_fixed4(&self, s: &mut String)
        ensures
            final(s)@ == old(s)@ + fixed4_text(*self),
    {
        if self.negative {
            push_char(s, '-');
        }
        let ghost mid = s@;
        if self.exp >= 0 {
            if self.digits == 0 {
                push_char(s, '0');
            } else {
                push_dec(s, self.digits);
                push_zeros(s, self.exp as u64);
            }
            crate::text::push_str(s, ".0000");
        } else {
            let e: i64 = self.exp as i64 + 4;
            let n: u64 = if e >= 0 {
                let p = pow10_u64(e as u64);
                proof {
                    reveal_with_fuel(pow10, 5);
                    lemma_pow10_grows(e as nat, 3);
                    let d = self.digits;
                    assert(d * p <= 0xffff_ffff_ffff_ffffu64 * 1000) by (nonlinear_arith)
                        requires
                            p <= 1000,
                            d <= 0xffff_ffff_ffff_ffffu64,
                    ;
                }
                if self.digits > 0xffff_ffff_ffff_ffffu64 / p {
                    // the exact value does not fit: print the integer part digit by digit
                    self.push_fixed4_large(s, e as u64);
                    assert(s@ =~= old(s)@ + fixed4_text(*self));
                    return;
                }
                proof {
                    let d = self.digits;
                    assert(d * p <= 0xffff_ffff_ffff_ffffu64) by (nonlinear_arith)
                        requires
                            d <= 0xffff_ffff_ffff_ffffu64 / p,
                            p >= 1,
                    ;
                    lemma_pow10_positive(e as nat);
                }
                self.digits * p
            } else {
                let k: u64 = (-e) as u64;
                if k >= 20 {
                    proof {
                        lemma_scaled4_small(self.digits, -e);
                    }
                    0
                } else {
                    let m = pow10_u64(k);
                    proof {
                        lemma_pow10_positive(k as nat);
                        reveal_with_fuel(pow10, 2);
                        lemma_pow10_grows(1, k as nat);
                        let d = self.digits;
                        assert(d / m < 0xffff_ffff_ffff_ffffu64) by (nonlinear_arith)
                            requires
                                m >= 10,
                        ;
                    }
                    let q = self.digits / m;
                    let r = self.digits % m;
                    if (r > m - r) || (r == m - r && q % 2 == 1) {
                        q + 1
                    } else {
                        q
                    }
                }
            };
            push_dec(s, n / 10000);
            push_char(s, '.');
            push_pad4(s, n % 10000);
        }
        assert(s@ =~= old(s)@ + fixed4_text(*self));
    }

    fn push_fixed4_large(&self, s: &mut String, e: u64)
        requires
            e <= 3,
            e == self.exp + 4,
            self.exp < 0,
        ensures
            final(s)@ == old(s)@ + dec(((self.digits as nat) * pow10(e as nat)) / 10000) + seq!['.']
                + pad4(((self.digits as nat) * pow10(e as nat)) % 10000),
    {
        // digits * 10^e with e <= 3: split digits = hi * 10^(4-e) + lo
        let m = pow10_u64(4 - e);
        proof {
            lemma_pow10_small();
        }
        let hi = self.digits / m;
        let lo = self.digits % m;
        proof {
            reveal_with_fuel(pow10, 5);
            lemma_pow10_positive((4 - e) as nat);
            let d = self.digits as int;
            let p = pow10(e as nat) as int;
            assert(p * (m as int) == 10000) by {
                lemma_pow10_small();
                if e == 0 {
                    assert(p == 1 && m == 10000);
                } else if e == 1 {
                    assert(p == 10 && m == 1000);
                } else if e == 2 {
                    assert(p == 100 && m == 100);
                } else {
                    assert(p == 1000 && m == 10);
                }
            }
            assert(d == (hi as int) * (m as int) + (lo as int)) by (nonlinear_arith)
                requires
                    m > 0,
                    hi == self.digits / m,
                    lo == self.digits % m,
                    d == self.digits,
            ;
            assert(d * p == (hi as int) * 10000 + (lo as int) * p) by (nonlinear_arith)
                requires
                    d == (hi as int) * (m as int) + (lo as int),
                    p * (m as int) == 10000,
            ;
            assert((lo as int) * p < 10000) by (nonlinear_arith)
                requires
                    (lo as int) < (m as int),
                    p * (m as int) == 10000,
                    p >= 1,
            ;
            assert(0 <= (lo as int) * p);
            assert((d * p) / 10000 == hi as int) by (nonlinear_arith)
                requires
                    d * p == (hi as int) * 10000 + (lo as int) * p,
                    0 <= (lo as int) * p < 10000,
            ;
            assert((d * p) % 10000 == (lo as int) * p) by (nonlinear_arith)
                requires
                    d * p == (hi as int) * 10000 + (lo as int) * p,
                    0 <= (lo as int) * p < 10000,
            ;
        }
        let p = pow10_u64(e);
        push_dec(s, hi);
        push_char(s, '.');
        push_pad4(s, lo * p);
    }
}

pub proof fn lemma_pow10_small()
    ensures
        pow10(0) == 1,
        pow10(1) == 10,
        pow10(2) == 100,
        pow10(3) == 1000,
        pow10(4) == 10000,
{
    reveal_with_fuel(pow10, 5);
}

proof fn lemma_scaled4_small(digits: u64, ne: int)
    requires
        ne >= 20,
    ensures
        scaled4_rounded(digits as nat, -ne) == 0,
{
    reveal_with_fuel(pow10, 21);
    assert(pow10(20) == 100000000000000000000nat);
    lemma_pow10_grows(20, ne as nat);
    let m = pow10(ne as nat);
    assert((digits as nat) / m == 0) by (nonlinear_arith)
        requires
            (digits as nat) < m,
    ;
    assert((digits as nat) % m == digits) by (nonlinear_arith)
        requires
            (digits as nat) < m,
    ;
}

/// The text of the number without its sign.
pub open spec fn unsigned_text(d: Decimal) -> Seq<char> {
    let s = dec(d.digits as nat);
    if d.exp >= 0 {
        if d.digits == 0 {
            seq!['0']
        } else {
            s + zeros(d.exp as nat)
        }
    } else {
        let k = (-d.exp) as int;
        if s.len() > k {
            s.take(s.len() - k) + seq!['.'] + s.skip(s.len() - k)
        } else {
            seq!['0', '.'] + zeros((k - s.len()) as nat) + s
        }
    }
}

/// A number whose text `parse_decimal` reads back: at most nineteen digits,
/// and an exponent whose digit counts in the text fit in an `i32`.
pub open spec fn readable(d: Decimal) -> bool {
    &&& d.digits < pow10(19)
    &&& d.exp > i32::MIN
    &&& d.exp <= i32::MAX - 19
}

/// Only digits and points.
pub open spec fn digits_or_points(s: Seq<char>) -> bool {
    forall|i: int| 0 <= i < s.len() ==> is_ascii_digit(#[trigger] s[i]) || s[i] == '.'
}

proof fn lemma_text_sign(d: Decimal)
    ensures
        decimal_text(d) == if d.negative {
            seq!['-'] + unsigned_text(d)
        } else {
            unsigned_text(d)
        },
{
}

proof fn lemma_pow10_add(a: nat, b: nat)
    ensures
        pow10(a + b) == pow10(a) * pow10(b),
    decreases b,
{
    if b == 0 {
        assert(pow10(0) == 1);
        assert(a + b == a);
        assert(pow10(a) * 1 == pow10(a));
    } else {
        lemma_pow10_add(a, (b - 1) as nat);
        let c = (b - 1) as nat;
        let x = pow10(a);
        let y = pow10(c);
        let xy = pow10(a + c);
        assert(xy == x * y);
        assert(a + b == (a + c) + 1);
        assert(pow10((a + c) + 1) == 10 * xy);
        assert(pow10(b) == pow10(c + 1));
        assert(pow10(c + 1) == 10 * y);
        assert(x * (10 * y) == 10 * (x * y)) by (nonlinear_arith);
        assert(pow10(a + b) == x * pow10(b));
    }
}

proof fn lemma_wp_append(a: Seq<char>, b: Seq<char>)
    ensures
        without_point(a + b) == without_point(a) + without_point(b),
        point_count(a + b) == point_count(a) + point_count(b),
    decreases b.len(),
{
    if b.len() == 0 {
        assert(a + b =~= a);
        assert(without_point(a) + without_point(b) =~= without_point(a));
    } else {
        lemma_wp_append(a, b.drop_last());
        assert((a + b).drop_last() =~= a + b.drop_last());
        assert((a + b).last() == b.last());
        if b.last() != '.' {
            assert(without_point(a + b) =~= without_point(a) + without_point(b));
        }
    }
}

proof fn lemma_wp_digits(a: Seq<char>)
    requires
        all_ascii_digits(a),
    ensures
        without_point(a) == a,
        point_count(a) == 0,
        frac_len(a) == a.len(),
    decreases a.len(),
{
    if a.len() > 0 {
        assert(all_ascii_digits(a.drop_last())) by {
            assert forall|i: int| 0 <= i < a.drop_last().len() implies is_ascii_digit(
                #[trigger] a.drop_last()[i],
            ) by {
                assert(a.drop_last()[i] == a[i]);
            }
        }
        lemma_wp_digits(a.drop_last());
        assert(is_ascii_digit(a[a.len() - 1]));
        assert(a.drop_last().push(a.last()) =~= a);
    }
}

proof fn lemma_frac_after_point(a: Seq<char>, b: Seq<char>)
    requires
        all_ascii_digits(b),
    ensures
        frac_len(a.push('.') + b) == b.len(),
    decreases b.len(),
{
    if b.len() == 0 {
        assert(a.push('.') + b =~= a.push('.'));
    } else {
        assert(all_ascii_digits(b.drop_last())) by {
            assert forall|i: int| 0 <= i < b.drop_last().len() implies is_ascii_digit(
                #[trigger] b.drop_last()[i],
            ) by {
                assert(b.drop_last()[i] == b[i]);
            }
        }
        lemma_frac_after_point(a, b.drop_last());
        assert((a.push('.') + b).drop_last() =~= a.push('.') + b.drop_last());
        assert(is_ascii_digit(b[b.len() - 1]));
    }
}

proof fn lemma_dv_append(a: Seq<char>, b: Seq<char>)
    ensures
        digits_value(a + b) == digits_value(a) * pow10(b.len()) + digits_value(b),
    decreases b.len(),
{
    if b.len() == 0 {
        assert(a + b =~= a);
        assert(pow10(0) == 1);
        assert(digits_value(b) == 0);
        assert(digits_value(a) * 1 == digits_value(a));
    } else {
        lemma_dv_append(a, b.drop_last());
        assert((a + b).drop_last() =~= a + b.drop_last());
        assert((a + b).last() == b.last());
        let c = (b.len() - 1) as nat;
        let x = digits_value(a);
        let y = pow10(c);
        let z = digits_value(b.drop_last());
        let l = digit_value(b.last());
        assert(b.drop_last().len() == c);
        assert(digits_value(a + b.drop_last()) == x * y + z);
        assert(digits_value(a + b) == (x * y + z) * 10 + l);
        assert(digits_value(b) == z * 10 + l);
        assert(b.len() == c + 1);
        assert(pow10(c + 1) == 10 * y);
        assert((x * y + z) * 10 == x * (10 * y) + z * 10) by (nonlinear_arith);
        assert(digits_value(a + b) == x * pow10(b.len()) + digits_value(b));
    }
}

proof fn lemma_zeros_value(k: nat)
    ensures
        all_ascii_digits(zeros(k)),
        digits_value(zeros(k)) == 0,
    decreases k,
{
    if k > 0 {
        lemma_zeros_value((k - 1) as nat);
        assert(zeros(k).drop_last() =~= zeros((k - 1) as nat));
    }
}

proof fn lemma_dec_shift(m: nat, k: nat)
    requires
        m >= 1,
    ensures
        dec(m * pow10(k)) == dec(m) + zeros(k),
    decreases k,
{
    if k == 0 {
        assert(dec(m) + zeros(0) =~= dec(m));
        assert(pow10(0) == 1);
        assert(m * 1 == m);
    } else {
        let c = (k - 1) as nat;
        lemma_dec_shift(m, c);
        let x = m * pow10(c);
        lemma_pow10_positive(c);
        assert(k == c + 1);
        assert(pow10(c + 1) == 10 * pow10(c));
        assert(m * pow10(k) == x * 10) by (nonlinear_arith)
            requires
                pow10(k) == 10 * pow10(c),
                x == m * pow10(c),
        ;
        assert(x >= 1) by (nonlinear_arith)
            requires
                m >= 1,
                pow10(c) >= 1,
                x == m * pow10(c),
        ;
        assert((x * 10) / 10 == x && (x * 10) % 10 == 0) by (nonlinear_arith);
        let y = x * 10;
        assert(y >= 10);
        assert(dec(y) == dec(y / 10).push(digit_char((y % 10) as int)));
        assert(digit_char(0) == '0');
        assert(dec(x) == dec(m) + zeros(c));
        assert(dec(y) == dec(x).push('0'));
        assert(dec(m) + zeros(k) =~= (dec(m) + zeros(c)).push('0'));
        assert(dec(m * pow10(k)) == dec(y));
    }
}

/// The shape of a number's unsigned text: digits and at most one point,
/// starting with a digit; the digits read as the number scaled to an integer,
/// and the digits after the point count the negated exponent.
proof fn lemma_unsigned_text_shape(d: Decimal)
    ensures
        unsigned_text(d).len() > 0,
        is_ascii_digit(unsigned_text(d)[0]),
        digits_or_points(unsigned_text(d)),
        d.exp >= 0 ==> all_ascii_digits(unsigned_text(d)),
        point_count(unsigned_text(d)) == if d.exp < 0 { 1nat } else { 0nat },
        d.exp < 0 ==> frac_len(unsigned_text(d)) == -d.exp,
        digits_value(without_point(unsigned_text(d))) == if d.exp >= 0 {
            (d.digits * pow10(d.exp as nat)) as nat
        } else {
            d.digits as nat
        },
{
    let n = d.digits as nat;
    let s = dec(n);
    let b = unsigned_text(d);
    lemma_dec_reads_back(n);
    if d.exp >= 0 {
        let e = d.exp as nat;
        if d.digits == 0 {
            assert(b =~= seq!['0']);
            assert(all_ascii_digits(b));
            lemma_wp_digits(b);
            assert(b.drop_last() =~= Seq::<char>::empty());
            assert(0 * pow10(e) == 0);
        } else {
            lemma_zeros_value(e);
            assert(all_ascii_digits(b)) by {
                assert forall|i: int| 0 <= i < b.len() implies is_ascii_digit(#[trigger] b[i]) by {
                    if i < s.len() {
                        assert(b[i] == s[i]);
                    } else {
                        assert(b[i] == zeros(e)[i - s.len()]);
                    }
                }
            }
            lemma_wp_digits(b);
            lemma_dv_append(s, zeros(e));
            assert(b[0] == s[0]);
        }
    } else {
        let k = (-d.exp) as int;
        if s.len() > k {
            let a = s.take(s.len() - k);
            let t = s.skip(s.len() - k);
            assert(b =~= a.push('.') + t);
            assert(all_ascii_digits(a)) by {
                assert forall|i: int| 0 <= i < a.len() implies is_ascii_digit(#[trigger] a[i]) by {
                    assert(a[i] == s[i]);
                }
            }
            assert(all_ascii_digits(t)) by {
                assert forall|i: int| 0 <= i < t.len() implies is_ascii_digit(#[trigger] t[i]) by {
                    assert(t[i] == s[i + s.len() - k]);
                }
            }
            lemma_wp_digits(a);
            lemma_wp_digits(t);
            lemma_wp_append(a.push('.'), t);
            assert(a.push('.').drop_last() =~= a);
            assert(without_point(a.push('.')) == without_point(a));
            assert(a + t =~= s);
            lemma_frac_after_point(a, t);
            assert(b[0] == s[0]);
            assert forall|i: int| 0 <= i < b.len() implies is_ascii_digit(#[trigger] b[i]) || b[i] == '.' by {
                if i < a.len() {
                    assert(b[i] == a[i]);
                } else if i > a.len() {
                    assert(b[i] == t[i - a.len() - 1]);
                }
            }
        } else {
            let z = (k - s.len()) as nat;
            let x = seq!['0'].push('.');
            let w = zeros(z) + s;
            lemma_zeros_value(z);
            assert(b =~= x + w);
            assert(all_ascii_digits(w)) by {
                assert forall|i: int| 0 <= i < w.len() implies is_ascii_digit(#[trigger] w[i]) by {
                    if i < z {
                        assert(w[i] == zeros(z)[i]);
                    } else {
                        assert(w[i] == s[i - z]);
                    }
                }
            }
            lemma_wp_digits(w);
            lemma_wp_append(x, w);
            assert(x.drop_last() =~= seq!['0']);
            assert(seq!['0'].drop_last() =~= Seq::<char>::empty());
            assert(x.last() == '.');
            let o = seq!['0'];
            assert(o.last() == '0' && o.len() == 1);
            assert(o.drop_last() =~= Seq::<char>::empty());
            assert(without_point(o.drop_last()) =~= Seq::<char>::empty());
            assert(point_count(o.drop_last()) == 0);
            assert(without_point(o) =~= Seq::<char>::empty().push('0'));
            assert(point_count(o) == 0);
            assert(x.drop_last() =~= o);
            assert(point_count(x) == point_count(o) + 1);
            assert(without_point(x) =~= seq!['0']);
            assert(point_count(x) == 1);
            assert(seq!['0'] + w =~= zeros(z + 1) + s);
            lemma_zeros_value(z + 1);
            lemma_dv_append(zeros(z + 1), s);
            assert(0 * pow10(s.len()) == 0);
            lemma_frac_after_point(seq!['0'], w);
            assert(b[0] == '0');
            assert forall|i: int| 0 <= i < b.len() implies is_ascii_digit(#[trigger] b[i]) || b[i] == '.' by {
                if i >= 2 {
                    assert(b[i] == w[i - 2]);
                }
            }
        }
    }
}

proof fn lemma_pow10_19()
    ensures
        pow10(19) == 10000000000000000000nat,
{
    reveal_with_fuel(pow10, 20);
}

/// Reading more of a text of digits and points never lowers the value read,
/// nor the number of points.
proof fn lemma_wp_prefix_mono(b: Seq<char>, j: int)
    requires
        digits_or_points(b),
        0 <= j <= b.len(),
    ensures
        digits_value(without_point(b.take(j))) <= digits_value(without_point(b)),
        point_count(b.take(j)) <= point_count(b),
    decreases b.len() - j,
{
    if j == b.len() {
        assert(b.take(j) =~= b);
    } else {
        lemma_wp_prefix_mono(b, j + 1);
        let p = b.take(j);
        let q = b.take(j + 1);
        assert(q.drop_last() =~= p);
        assert(q.last() == b[j]);
        if b[j] != '.' {
            let w = without_point(p);
            assert(without_point(q) == w.push(b[j]));
            assert(w.push(b[j]).drop_last() =~= w);
            assert(digits_value(w.push(b[j])) == digits_value(w) * 10 + digit_value(b[j]));
        }
    }
}

/// Where a readable number's text reads at position `j`: past the digits of
/// an integer only zeros follow, after a nonzero value; anywhere else the
/// value read up to and including `j` is at most the number's digits.
proof fn lemma_prefix_facts(d: Decimal, j: int)
    requires
        0 <= j < unsigned_text(d).len(),
    ensures
        (d.exp >= 0 && d.digits != 0 && j >= dec(d.digits as nat).len()) ==> (unsigned_text(d)[j] == '0'
            && point_count(unsigned_text(d).take(j)) == 0 && digits_value(
            without_point(unsigned_text(d).take(j)),
        ) > 0),
        !(d.exp >= 0 && d.digits != 0 && j >= dec(d.digits as nat).len()) ==> digits_value(
            without_point(unsigned_text(d).take(j + 1)),
        ) <= d.digits,
{
    let u = unsigned_text(d);
    let n = d.digits as nat;
    let s = dec(n);
    lemma_unsigned_text_shape(d);
    lemma_dec_reads_back(n);
    if d.exp >= 0 && n != 0 {
        let e = d.exp as nat;
        assert(u == s + zeros(e));
        if j >= s.len() {
            let t = u.take(j);
            let z = (j - s.len()) as nat;
            assert(u[j] == zeros(e)[j - s.len()]);
            assert(t =~= s + zeros(z));
            assert(all_ascii_digits(t)) by {
                assert forall|i: int| 0 <= i < t.len() implies is_ascii_digit(#[trigger] t[i]) by {
                    assert(t[i] == u[i]);
                }
            }
            lemma_wp_digits(t);
            lemma_zeros_value(z);
            lemma_dv_append(s, zeros(z));
            lemma_pow10_positive(z);
            assert(n * pow10(z) >= 1) by (nonlinear_arith)
                requires
                    n >= 1,
                    pow10(z) >= 1,
            ;
        } else {
            let t = u.take(j + 1);
            assert(t =~= s.take(j + 1));
            assert(all_ascii_digits(t)) by {
                assert forall|i: int| 0 <= i < t.len() implies is_ascii_digit(#[trigger] t[i]) by {
                    assert(t[i] == s[i]);
                }
            }
            lemma_wp_digits(t);
            lemma_digits_value_mono(s, j + 1);
        }
    } else {
        lemma_wp_prefix_mono(u, j + 1);
        if d.exp >= 0 {
            assert(0 * pow10(d.exp as nat) == 0);
        }
    }
}

/// What the reading of a readable number's whole text ends with: counts
/// that fit an `i32`, and a number with the same text.
proof fn lemma_parse_end(d0: Decimal, digits: u64, pending: nat, frac: nat, seen: bool)
    requires
        readable(d0),
        seen == (point_count(unsigned_text(d0)) > 0),
        frac == if seen { frac_len(unsigned_text(d0)) } else { 0 },
        digits * pow10(pending) == digits_value(without_point(unsigned_text(d0))),
        digits == 0 ==> pending == 0,
        pending > 0 ==> frac == 0,
    ensures
        frac <= i32::MAX,
        pending <= i32::MAX,
        unsigned_text(Decimal { negative: d0.negative, digits, exp: (pending - frac) as i32 })
            == unsigned_text(d0),
{
    lemma_unsigned_text_shape(d0);
    let n = d0.digits as nat;
    let d1 = Decimal { negative: d0.negative, digits, exp: (pending - frac) as i32 };
    if d0.exp < 0 {
        assert(frac == -d0.exp);
        assert(pending == 0);
        assert(pow10(0) == 1);
        assert(pow10(pending) == 1);
        assert(digits * pow10(pending) == digits * 1);
        assert(digits == n);
        assert(d1 == d0);
    } else {
        let e = d0.exp as nat;
        assert(frac == 0);
        lemma_pow10_positive(pending);
        if n == 0 {
            assert(digits * pow10(pending) == 0) by (nonlinear_arith)
                requires
                    digits * pow10(pending) == n * pow10(e),
                    n == 0,
            ;
            assert(digits == 0) by (nonlinear_arith)
                requires
                    digits * pow10(pending) == 0,
                    pow10(pending) >= 1,
            ;
        } else {
            lemma_pow10_positive(e);
            assert(n * pow10(e) >= 1) by (nonlinear_arith)
                requires
                    n >= 1,
                    pow10(e) >= 1,
            ;
            assert(digits >= 1) by (nonlinear_arith)
                requires
                    digits * pow10(pending) >= 1,
            ;
            if pending >= e + 19 {
                lemma_pow10_grows(e + 19, pending);
                lemma_pow10_add(e, 19);
                lemma_pow10_19();
                assert(false) by (nonlinear_arith)
                    requires
                        digits >= 1,
                        digits * pow10(pending) == n * pow10(e),
                        pow10(pending) >= pow10(e) * 10000000000000000000nat,
                        n < 10000000000000000000nat,
                        pow10(e) >= 1,
                ;
            }
            lemma_dec_shift(digits as nat, pending);
            lemma_dec_shift(n, e);
            assert(unsigned_text(d1) == dec(digits as nat) + zeros(pending));
            assert(unsigned_text(d0) == dec(n) + zeros(e));
        }
    }
}

/// Reads back std's `Display` text of a finite number: `Some(d)` only when
/// the text of `d` is exactly `s`, and always when `s` is the text of a
/// readable number (as the text of every finite `f64` is).
pub fn parse_decimal(s: &str) -> (r: Option<Decimal>)
    ensures
        r matches Some(d) ==> decimal_text(d) == s@,
        (exists|d: Decimal| readable(d) && decimal_text(d) == s@) ==> r is Some,
{
    let v = chars_of(s);
    let ghost good = exists|d: Decimal| readable(d) && decimal_text(d) == s@;
    let ghost d0: Decimal = choose|d: Decimal| readable(d) && decimal_text(d) == s@;
    let mut i: usize = 0;
    let negative = v.len() > 0 && v[0] == '-';
    if negative {
        i = 1;
    }
    let ghost st: int = i as int;
    let ghost body = v@.subrange(st, v@.len() as int);
    proof {
        if good {
            lemma_text_sign(d0);
            lemma_unsigned_text_shape(d0);
            let u = unsigned_text(d0);
            if d0.negative {
                assert(v@ =~= seq!['-'] + u);
                assert(v@[0] == '-');
                assert(body =~= u);
            } else {
                assert(v@ =~= u);
                assert(is_ascii_digit(v@[0]));
                assert(body =~= u);
            }
        }
        assert(body.take(0) =~= Seq::<char>::empty());
        assert(without_point(body.take(0)) =~= Seq::<char>::empty());
        assert(pow10(0) == 1);
    }
    let mut digits: u64 = 0;
    let mut frac: u64 = 0;
    let mut seen_point = false;
    let mut pending: u64 = 0;
    while i < v.len()
        invariant
            0 <= st <= i <= v.len(),
            frac <= i,
            pending <= i,
            body == v@.subrange(st, v@.len() as int),
            seen_point == (point_count(body.take(i - st)) > 0),
            frac == if seen_point { frac_len(body.take(i - st)) } else { 0 },
            digits * pow10(pending as nat) == digits_value(without_point(body.take(i - st))),
            digits == 0 ==> pending == 0,
            pending > 0 ==> frac == 0,
            good == (exists|d: Decimal| readable(d) && decimal_text(d) == s@),
            good ==> body == unsigned_text(d0) && readable(d0) && negative == d0.negative,
        decreases v.len() - i,
    {
        let c = v[i];
        let ghost j = i - st;
        let ghost p = body.take(j);
        let ghost q = body.take(j + 1);
        let ghost w = without_point(p);
        proof {
            assert(body[j] == c);
            assert(q =~= p.push(c));
            assert(q.drop_last() =~= p);
            if good {
                lemma_unsigned_text_shape(d0);
                lemma_prefix_facts(d0, j);
                lemma_wp_prefix_mono(body, j + 1);
                lemma_pow10_19();
            }
        }
        if c == '.' {
            if seen_point {
                proof {
                    if good {
                        assert(point_count(q) == point_count(p) + 1);
                        assert(point_count(q) <= point_count(body));
                        assert(false);
                    }
                }
                return None;
            }
            seen_point = true;
            assert(without_point(q) == w);
        } else if '0' <= c && c <= '9' {
            let dv = (c as u32 - '0' as u32) as u64;
            assert(without_point(q) == w.push(c));
            assert(w.push(c).drop_last() =~= w);
            assert(digits_value(w.push(c)) == digits_value(w) * 10 + digit_value(c));
            assert(dv == digit_value(c));
            if !seen_point && dv == 0 && digits != 0 {
                assert(pow10((pending + 1) as nat) == 10 * pow10(pending as nat));
                assert(digits * pow10((pending + 1) as nat) == digits * pow10(pending as nat) * 10)
                    by (nonlinear_arith)
                    requires
                        pow10((pending + 1) as nat) == 10 * pow10(pending as nat),
                ;
                pending = pending + 1;
            } else {
                let ghost vp = digits_value(w);
                proof {
                    if good {
                        assert(vp * 10 + dv <= d0.digits);
                    }
                }
                while pending > 0
                    invariant
                        pending <= i,
                        digits * pow10(pending as nat) == vp,
                        good ==> vp * 10 + dv < 10000000000000000000nat,
                        good == (exists|d: Decimal| readable(d) && decimal_text(d) == s@),
                        pending > 0 ==> digits != 0,
                    decreases pending,
                {
                    proof {
                        assert(pow10(pending as nat) == 10 * pow10((pending - 1) as nat));
                        lemma_pow10_positive((pending - 1) as nat);
                        assert(digits * 10 <= digits * pow10(pending as nat)) by (nonlinear_arith)
                            requires
                                pow10(pending as nat) == 10 * pow10((pending - 1) as nat),
                                pow10((pending - 1) as nat) >= 1,
                        ;
                        assert(digits * pow10(pending as nat) == (digits * 10) * pow10((pending - 1) as nat))
                            by (nonlinear_arith)
                            requires
                                pow10(pending as nat) == 10 * pow10((pending - 1) as nat),
                        ;
                    }
                    if digits > 1844674407370955161u64 {
                        proof {
                            if good {
                                assert(digits * 10 <= vp);
                                assert(vp < 1000000000000000000nat);
                                assert(false);
                            }
                        }
                        return None;
                    }
                    digits = digits * 10;
                    pending = pending - 1;
                }
                assert(pow10(0) == 1);
                assert(digits * pow10(pending as nat) == digits * 1);
                assert(digits == vp);
                if digits > 1844674407370955160u64 {
                    return None;
                }
                digits = digits * 10 + dv;
                assert(digits * pow10(pending as nat) == digits * 1);
                assert(digits == digits_value(without_point(q)));
                if seen_point {
                    frac = frac + 1;
                }
            }
        } else {
            proof {
                if good {
                    assert(is_ascii_digit(body[j]) || body[j] == '.');
                }
            }
            return None;
        }
        i = i + 1;
    }
    proof {
        assert(body.take(i - st) =~= body);
        if good {
            lemma_parse_end(d0, digits, pending as nat, frac as nat, seen_point);
        }
    }
    if frac > 2147483647 || pending > 2147483647 {
        return None;
    }
    let exp: i32 = (pending as i32) - (frac as i32);
    let d = Decimal { negative, digits, exp };
    let text = decimal_string(d);
    proof {
        if good {
            lemma_text_sign(d);
            lemma_text_sign(d0);
            assert(d == Decimal { negative: d0.negative, digits, exp: (pending - frac) as i32 });
        }
    }
    if crate::text::str_eq(text.as_str(), s) {
        Some(d)
    } else {
        None
    }
}

} // verus!
