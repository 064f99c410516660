//! Reading FFmpeg's progress output: the input duration (`Duration: H:M:S`) and
//! the encoded position (`out_time_ms=`, in microseconds). The fields are
//! found by their leftmost occurrence in a line; their digits are ASCII
//! digits, the only ones FFmpeg writes.

use vstd::prelude::*;
use crate::decimal::{
    is_positive, lemma_pow10_grows, lemma_pow10_positive, normalize, normalize_exec, pow10, pow10_u64,
    Decimal,
};
use crate::number::{
    all_ascii_digits, ascii_digits, digits_u128, is_ascii_digit, digits_value, frac_len, point_count, without_point,
    without_point_exec,
};
use crate::text::{chars_of, push_range};

verus! {

/// End of the run of ASCII digits (and points, when `dot`) starting at `i`.
pub open spec fn run_end(s: Seq<char>, i: int, dot: bool) -> int
    decreases s.len() - i,
{
    if 0 <= i < s.len() && (is_ascii_digit(s[i]) || (dot && s[i] == '.')) {
        run_end(s, i + 1, dot)
    } else {
        i
    }
}

/// `lit` occurs in `s` at position `i`.
pub open spec fn has_literal(s: Seq<char>, i: int, lit: Seq<char>) -> bool {
    0 <= i && i + lit.len() <= s.len() && s.subrange(i, i + lit.len()) == lit
}

pub open spec fn duration_label() -> Seq<char> {
    "Duration: "@
}

pub open spec fn out_time_label() -> Seq<char> {
    "out_time_ms="@
}

/// A duration field starting at `i`: `Duration: `, digits, `:`, digits, `:`,
/// then digits and points; the three runs are hours, minutes and seconds.
pub open spec fn duration_at(s: Seq<char>, i: int) -> Option<(Seq<char>, Seq<char>, Seq<char>)> {
    if has_literal(s, i, duration_label()) {
        let a = i + duration_label().len();
        let b = run_end(s, a, false);
        if a < b && b < s.len() && s[b] == ':' {
            let c = run_end(s, b + 1, false);
            if b + 1 < c && c < s.len() && s[c] == ':' {
                let e = run_end(s, c + 1, true);
                if c + 1 < e {
                    Some((s.subrange(a, b), s.subrange(b + 1, c), s.subrange(c + 1, e)))
                } else {
                    None
                }
            } else {
                None
            }
        } else {
            None
        }
    } else {
        None
    }
}

/// A position field starting at `i`: `out_time_ms=` and its digits.
pub open spec fn out_time_at(s: Seq<char>, i: int) -> Option<Seq<char>> {
    if has_literal(s, i, out_time_label()) {
        let a = i + out_time_label().len();
        let b = run_end(s, a, false);
        if a < b {
            Some(s.subrange(a, b))
        } else {
            None
        }
    } else {
        None
    }
}

pub open spec fn duration_from(s: Seq<char>, i: int) -> Option<(Seq<char>, Seq<char>, Seq<char>)>
    decreases s.len() + 1 - i,
{
    if i < 0 || i > s.len() {
        None
    } else {
        match duration_at(s, i) {
            Some(c) => Some(c),
            None => duration_from(s, i + 1),
        }
    }
}

pub open spec fn out_time_from(s: Seq<char>, i: int) -> Option<Seq<char>>
    decreases s.len() + 1 - i,
{
    if i < 0 || i > s.len() {
        None
    } else {
        match out_time_at(s, i) {
            Some(c) => Some(c),
            None => out_time_from(s, i + 1),
        }
    }
}

/// The leftmost duration field of a line (as the pattern
/// `Duration: (\d+):(\d+):([\d.]+)` finds it, with ASCII digits).
pub open spec fn duration_match(s: Seq<char>) -> Option<(Seq<char>, Seq<char>, Seq<char>)> {
    duration_from(s, 0)
}

/// The leftmost position field of a line (as the pattern
/// `out_time_ms=(\d+)` finds it, with ASCII digits).
pub open spec fn out_time_match(s: Seq<char>) -> Option<Seq<char>> {
    out_time_from(s, 0)
}

fn run_end_exec(v: &Vec<char>, i: usize, dot: bool) -> (r: usize)
    requires
        i <= v.len(),
    ensures
        r as int == run_end(v@, i as int, dot),
        i <= r <= v.len(),
{
    let mut j = i;
    while j < v.len() && (('0' <= v[j] && v[j] <= '9') || (dot && v[j] == '.'))
        invariant
            i <= j <= v.len(),
            run_end(v@, j as int, dot) == run_end(v@, i as int, dot),
        decreases v.len() - j,
    {
        j = j + 1;
    }
    j
}

fn literal_at(v: &Vec<char>, i: usize, lit: &Vec<char>) -> (r: bool)
    requires
        i <= v.len(),
    ensures
        r == has_literal(v@, i as int, lit@),
{
    if lit.len() > v.len() - i {
        return false;
    }
    let mut k: usize = 0;
    while k < lit.len()
        invariant
            k <= lit.len(),
            i + lit.len() <= v.len(),
            forall|j: int| 0 <= j < k ==> v@[i + j] == lit@[j],
        decreases lit.len() - k,
    {
        if v[i + k] != lit[k] {
            assert(v@.subrange(i as int, i + lit.len())[k as int] != lit@[k as int]);
            return false;
        }
        k = k + 1;
    }
    assert(v@.subrange(i as int, i + lit.len()) =~= lit@);
    true
}

fn duration_at_exec(v: &Vec<char>, i: usize, lit: &Vec<char>) -> (r: Option<(String, String, String)>)
    requires
        i <= v.len(),
        lit@ == duration_label(),
    ensures
        match r {
            Some((h, m, sec)) => duration_at(v@, i as int) == Some((h@, m@, sec@)),
            None => duration_at(v@, i as int) is None,
        },
{
    if !literal_at(v, i, lit) {
        return None;
    }
    let a = i + lit.len();
    let b = run_end_exec(v, a, false);
    if !(a < b && b < v.len() && v[b] == ':') {
        return None;
    }
    let c = run_end_exec(v, b + 1, false);
    if !(b + 1 < c && c < v.len() && v[c] == ':') {
        return None;
    }
    let e = run_end_exec(v, c + 1, true);
    if !(c + 1 < e) {
        return None;
    }
    let mut h = String::new();
    push_range(&mut h, v, a, b);
    let mut m = String::new();
    push_range(&mut m, v, b + 1, c);
    let mut sec = String::new();
    push_range(&mut sec, v, c + 1, e);
    proof {
        assert(h@ =~= v@.subrange(a as int, b as int));
        assert(m@ =~= v@.subrange(b + 1, c as int));
        assert(sec@ =~= v@.subrange(c + 1, e as int));
    }
    Some((h, m, sec))
}

fn out_time_at_exec(v: &Vec<char>, i: usize, lit: &Vec<char>) -> (r: Option<String>)
    requires
        i <= v.len(),
        lit@ == out_time_label(),
    ensures
        match r {
            Some(t) => out_time_at(v@, i as int) == Some(t@),
            None => out_time_at(v@, i as int) is None,
        },
{
    if !literal_at(v, i, lit) {
        return None;
    }
    let a = i + lit.len();
    let b = run_end_exec(v, a, false);
    if !(a < b) {
        return None;
    }
    let mut t = String::new();
    push_range(&mut t, v, a, b);
    assert(t@ =~= v@.subrange(a as int, b as int));
    Some(t)
}

/// The hours, minutes and seconds of the leftmost duration field of a line.
pub fn duration_fields(line: &str) -> (r: Option<(String, String, String)>)
    ensures
        match r {
            Some((h, m, sec)) => duration_match(line@) == Some((h@, m@, sec@)),
            None => duration_match(line@) is None,
        },
{
    let v = chars_of(line);
    let lit = chars_of("Duration: ");
    let mut i: usize = 0;
    while i < v.len()
        invariant
            i <= v.len(),
            v@ == line@,
            lit@ == duration_label(),
            duration_from(v@, i as int) == duration_match(line@),
        decreases v.len() - i,
    {
        match duration_at_exec(&v, i, &lit) {
            Some(c) => {
                return Some(c);
            },
            None => {},
        }
        i = i + 1;
    }
    proof {
        reveal_strlit("Duration: ");
        assert(duration_at(v@, v@.len() as int) is None);
        assert(duration_from(v@, v@.len() + 1int) is None);
    }
    None
}

/// The digits of the leftmost position field of a line.
pub fn out_time_field(line: &str) -> (r: Option<String>)
    ensures
        match r {
            Some(t) => out_time_match(line@) == Some(t@),
            None => out_time_match(line@) is None,
        },
{
    let v = chars_of(line);
    let lit = chars_of("out_time_ms=");
    let mut i: usize = 0;
    while i < v.len()
        invariant
            i <= v.len(),
            v@ == line@,
            lit@ == out_time_label(),
            out_time_from(v@, i as int) == out_time_match(line@),
        decreases v.len() - i,
    {
        match out_time_at_exec(&v, i, &lit) {
            Some(t) => {
                return Some(t);
            },
            None => {},
        }
        i = i + 1;
    }
    proof {
        reveal_strlit("out_time_ms=");
        assert(out_time_at(v@, v@.len() as int) is None);
        assert(out_time_from(v@, v@.len() + 1int) is None);
    }
    None
}

/// What std's float parsing gives for a capture of `\d+`: its value when every
/// digit is ASCII, zero (the parse fails) otherwise.
pub open spec fn whole_value(s: Seq<char>) -> nat {
    if all_ascii_digits(s) {
        digits_value(s)
    } else {
        0
    }
}

/// What std's float parsing gives for a capture of `[\d.]+`, as an exact
/// decimal: ASCII digits with at most one point and at least one digit; zero
/// when the parse fails.
pub open spec fn seconds_value(s: Seq<char>) -> (nat, nat) {
    let d = without_point(s);
    if all_ascii_digits(d) && d.len() > 0 && point_count(s) <= 1 {
        (digits_value(d), if point_count(s) == 1 { frac_len(s) } else { 0 })
    } else {
        (0, 0)
    }
}

/// The duration `h:m:s` in seconds as `(n, k)`, meaning `n / 10^k`.
pub open spec fn duration_value(h: Seq<char>, m: Seq<char>, s: Seq<char>) -> (nat, nat) {
    let (sn, sk) = seconds_value(s);
    ((whole_value(h) * 3600 + whole_value(m) * 60) * pow10(sk) + sn, sk)
}

/// What std's integer parsing into `i64` gives for a capture of `\d+`: its
/// value, or zero when it is not all ASCII digits or does not fit.
pub open spec fn out_time_value(t: Seq<char>) -> i64 {
    if all_ascii_digits(t) && digits_value(t) <= i64::MAX {
        digits_value(t) as i64
    } else {
        0
    }
}

/// What one line of output tells: the position to report progress at (when
/// the duration is known and positive), and the duration known after the line.
pub struct ProgressUpdate {
    /// Encoded position in microseconds, when progress is to be reported;
    /// progress is this position over the duration, capped at one.
    pub out_time_us: Option<i64>,
    pub duration: Option<Decimal>,
}

/// The leading digits of `n` that fit in 64 bits, and how many trailing
/// digits were dropped to get them: `(n / 10^t, t)` for the least such `t`.
pub open spec fn fit_u64(n: nat) -> (nat, nat)
    decreases n,
{
    if n <= u64::MAX {
        (n, 0)
    } else {
        let (d, t) = fit_u64(n / 10);
        (d, t + 1)
    }
}

/// The decimal `n / 10^k`, normalized: exact when `n` fits in 64 bits,
/// otherwise cut to the leading digits that do (a float holds fewer); unknown
/// when `n` exceeds 128 bits.
pub open spec fn decimal_of(n: nat, k: nat) -> Option<Decimal> {
    if n <= u128::MAX && k <= i32::MAX {
        let (d, t) = fit_u64(n);
        Some(normalize(Decimal { negative: false, digits: d as u64, exp: (t - k) as i32 }))
    } else {
        None
    }
}

pub open spec fn progress_spec(line: Seq<char>, current: Option<Decimal>) -> ProgressUpdate {
    match duration_match(line) {
        Some((h, m, s)) => ProgressUpdate {
            out_time_us: None,
            duration: decimal_of(duration_value(h, m, s).0, duration_value(h, m, s).1),
        },
        None => match out_time_match(line) {
            Some(t) => match current {
                Some(d) => if is_positive(d) {
                    ProgressUpdate { out_time_us: Some(out_time_value(t)), duration: Some(d) }
                } else {
                    ProgressUpdate { out_time_us: None, duration: current }
                },
                None => ProgressUpdate { out_time_us: None, duration: current },
            },
            None => ProgressUpdate { out_time_us: None, duration: current },
        },
    }
}

/// Parses one line of FFmpeg output (see `progress_spec`). A duration whose
/// exact value needs more than 64 bits of digits keeps its leading digits; one
/// beyond 128 bits is reported as unknown.
pub fn parse_ffmpeg_progress(output: &str, current_duration: Option<Decimal>) -> (r: ProgressUpdate)
    ensures
        r == progress_spec(output@, current_duration),
{
    match duration_fields(output) {
        Some((h, m, s)) => {
            let duration = duration_decimal(h.as_str(), m.as_str(), s.as_str());
            ProgressUpdate { out_time_us: None, duration }
        },
        None => match out_time_field(output) {
            Some(t) => match current_duration {
                Some(d) => {
                    if d.is_positive() {
                        ProgressUpdate { out_time_us: Some(parse_out_time(t.as_str())), duration: Some(d) }
                    } else {
                        ProgressUpdate { out_time_us: None, duration: current_duration }
                    }
                },
                None => ProgressUpdate { out_time_us: None, duration: current_duration },
            },
            None => ProgressUpdate { out_time_us: None, duration: current_duration },
        },
    }
}

/// The position in microseconds from the digits of a position field.
pub fn parse_out_time(t: &str) -> (r: i64)
    ensures
        r == out_time_value(t@),
{
    let v = chars_of(t);
    match digits_u128(&v) {
        Some(n) => {
            if n <= 9223372036854775807u128 {
                n as i64
            } else {
                0
            }
        },
        None => {
            0
        },
    }
}

proof fn lemma_total_bounds(h: nat, m: nat, p: nat, sn: nat)
    requires
        p >= 1,
    ensures
        (h * 3600 + m * 60) * p + sn >= h,
        (h * 3600 + m * 60) * p + sn >= m,
        (h * 3600 + m * 60) * p + sn >= sn,
        (h * 3600 + m * 60) * p + sn >= h * 3600 + m * 60,
        h * 3600 + m * 60 >= 1 ==> (h * 3600 + m * 60) * p + sn >= p,
{
    assert((h * 3600 + m * 60) * p >= h * 3600 + m * 60) by (nonlinear_arith)
        requires
            p >= 1,
    ;
    assert(h * 3600 + m * 60 >= 1 ==> (h * 3600 + m * 60) * p >= p) by (nonlinear_arith);
}

proof fn lemma_fit_bound(n: nat, b: nat)
    requires
        n < pow10(b),
    ensures
        fit_u64(n).1 <= b,
    decreases n,
{
    if n > u64::MAX {
        assert(b >= 1) by {
            if b == 0 {
                assert(pow10(0) == 1);
            }
        }
        let c = (b - 1) as nat;
        assert(pow10(b) == 10 * pow10(c));
        assert(n / 10 < pow10(c)) by (nonlinear_arith)
            requires
                n < 10 * pow10(c),
        ;
        lemma_fit_bound(n / 10, c);
    }
}

/// `10^k` for `k <= 38`.
fn pow10_u128(k: u32) -> (p: u128)
    requires
        k <= 38,
    ensures
        p == pow10(k as nat),
{
    let mut p: u128 = 1;
    let mut i: u32 = 0;
    proof {
        reveal_with_fuel(pow10, 40);
        assert(pow10(38) == 100000000000000000000000000000000000000nat);
    }
    while i < k
        invariant
            i <= k <= 38,
            p == pow10(i as nat),
            pow10(38) == 100000000000000000000000000000000000000nat,
        decreases k - i,
    {
        proof {
            lemma_pow10_grows((i + 1) as nat, 38);
            assert(pow10((i + 1) as nat) == 10 * pow10(i as nat));
        }
        p = p * 10;
        i = i + 1;
    }
    p
}

/// The duration from the hours, minutes and seconds of a duration field.
pub fn duration_decimal(h: &str, m: &str, s: &str) -> (r: Option<Decimal>)
    ensures
        r == decimal_of(duration_value(h@, m@, s@).0, duration_value(h@, m@, s@).1),
{
    let hv = chars_of(h);
    let mv = chars_of(m);
    let sv = chars_of(s);
    let ghost (sn, sk) = seconds_value(s@);
    let ghost hw = whole_value(h@);
    let ghost mw = whole_value(m@);
    let ghost n = (hw * 3600 + mw * 60) * pow10(sk) + sn;
    proof {
        lemma_pow10_positive(sk);
        lemma_total_bounds(hw, mw, pow10(sk), sn);
        assert(n == duration_value(h@, m@, s@).0);
    }
    let hval: u128 = if ascii_digits(&hv) {
        match digits_u128(&hv) {
            Some(n) => n,
            None => {
                return None;
            },
        }
    } else {
        0
    };
    let mval: u128 = if ascii_digits(&mv) {
        match digits_u128(&mv) {
            Some(n) => n,
            None => {
                return None;
            },
        }
    } else {
        0
    };
    assert(hval == hw && mval == mw);
    let (sd, points, frac) = without_point_exec(&sv);
    let (snum, sfrac): (u128, usize) = if points <= 1 && sd.len() > 0 && ascii_digits(&sd) {
        match digits_u128(&sd) {
            Some(n) => (n, if points == 1 { frac } else { 0 }),
            None => {
                return None;
            },
        }
    } else {
        (0, 0)
    };
    assert(snum == sn && sfrac == sk);
    if sfrac > 2147483647usize {
        return None;
    }
    let whole: u128 = match hval.checked_mul(3600) {
        Some(a) => match mval.checked_mul(60) {
            Some(b) => match a.checked_add(b) {
                Some(w) => w,
                None => {
                    return None;
                },
            },
            None => {
                return None;
            },
        },
        None => {
            return None;
        },
    };
    let total: u128 = if whole == 0 {
        assert(whole * pow10(sk) == 0) by (nonlinear_arith)
            requires
                whole == 0,
        ;
        snum
    } else {
        if sfrac > 38 {
            proof {
                lemma_pow10_grows(39, sk);
                reveal_with_fuel(pow10, 40);
                assert(pow10(39) == 1000000000000000000000000000000000000000nat);
            }
            return None;
        }
        let p = pow10_u128(sfrac as u32);
        match whole.checked_mul(p) {
            Some(wp) => match wp.checked_add(snum) {
                Some(t) => t,
                None => {
                    return None;
                },
            },
            None => {
                assert(whole * p + snum > u128::MAX) by (nonlinear_arith)
                    requires
                        whole * p > u128::MAX,
                ;
                return None;
            },
        }
    };
    assert(total == n);
    proof {
        reveal_with_fuel(pow10, 40);
        assert(pow10(39) == 1000000000000000000000000000000000000000nat);
        lemma_fit_bound(n, 39);
    }
    let mut digits: u128 = total;
    let mut dropped: u32 = 0;
    while digits > 0xffff_ffff_ffff_ffffu128
        invariant
            fit_u64(digits as nat).0 == fit_u64(n).0,
            fit_u64(digits as nat).1 + dropped == fit_u64(n).1,
            fit_u64(n).1 <= 39,
        decreases digits,
    {
        digits = digits / 10;
        dropped = dropped + 1;
    }
    let exp: i32 = (dropped as i32) - (sfrac as i32);
    Some(normalize_exec(Decimal { negative: false, digits: digits as u64, exp }))
}

} // verus!
