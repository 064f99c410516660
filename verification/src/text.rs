//! Character-level text helpers: decimal rendering, whitespace trimming,
//! line scanning and UTF-8 byte widths, each with a specification over `Seq<char>`.

use vstd::prelude::*;

verus! {

/// Appends one character (std `String::push`).
#[verifier::external_body]
pub(crate) fn push_char(s: &mut String, c: char)
    ensures
        final(s)@ == old(s)@.push(c),
{
    s.push(c);
}

/// Appends a string slice.
pub(crate) fn push_str(s: &mut String, t: &str)
    ensures
        final(s)@ == old(s)@ + t@,
{
    s.append(t);
}

/// The characters of a string slice, in order.
pub(crate) fn chars_of(s: &str) -> (v: Vec<char>)
    ensures
        v@ == s@,
{
    let mut v: Vec<char> = Vec::new();
    for c in it: s.chars()
        invariant
            v@ == it.seq().take(it.index() as int),
    {
        v.push(c);
    }
    assert(v@ =~= s@);
    v
}

/// A string holding exactly the given characters (std `String::from_iter`).
#[verifier::external_body]
pub(crate) fn string_of(v: &[char]) -> (s: String)
    ensures
        s@ == v@,
{
    v.iter().collect()
}

/// An owned copy of a string slice.
pub fn owned(s: &str) -> (r: String)
    ensures
        r@ == s@,
{
    String::from_str(s)
}

/// The character of a decimal digit.
pub open spec fn digit_char(d: int) -> char {
    if d == 0 { '0' }
    else if d == 1 { '1' }
    else if d == 2 { '2' }
    else if d == 3 { '3' }
    else if d == 4 { '4' }
    else if d == 5 { '5' }
    else if d == 6 { '6' }
    else if d == 7 { '7' }
    else if d == 8 { '8' }
    else { '9' }
}

/// Decimal rendering of a natural number, without leading zeros.
pub open spec fn dec(n: nat) -> Seq<char>
    decreases n,
{
    if n < 10 {
        seq![digit_char(n as int)]
    } else {
        dec(n / 10).push(digit_char((n % 10) as int))
    }
}

/// Decimal rendering of an integer, with a leading minus sign when negative.
pub open spec fn dec_int(x: int) -> Seq<char> {
    if x < 0 {
        seq!['-'] + dec((-x) as nat)
    } else {
        dec(x as nat)
    }
}

pub fn digit(d: u64) -> (c: char)
    requires
        d < 10,
    ensures
        c == digit_char(d as int),
{
    if d == 0 { '0' }
    else if d == 1 { '1' }
    else if d == 2 { '2' }
    else if d == 3 { '3' }
    else if d == 4 { '4' }
    else if d == 5 { '5' }
    else if d == 6 { '6' }
    else if d == 7 { '7' }
    else if d == 8 { '8' }
    else { '9' }
}

/// Appends the decimal rendering of `n`.
pub fn push_dec(s: &mut String, n: u64)
    ensures
        final(s)@ == old(s)@ + dec(n as nat),
    decreases n,
{
    if n >= 10 {
        push_dec(s, n / 10);
        push_char(s, digit(n % 10));
        assert(old(s)@ + dec(n as nat) =~= old(s)@ + dec((n / 10) as nat) + seq![digit_char((n % 10) as int)]);
    } else {
        push_char(s, digit(n));
        assert(old(s)@ + dec(n as nat) =~= old(s)@.push(digit_char(n as int)));
    }
}

/// Appends the decimal rendering of a 128-bit `n`.
pub fn push_dec_u128(s: &mut String, n: u128)
    ensures
        final(s)@ == old(s)@ + dec(n as nat),
    decreases n,
{
    if n >= 10 {
        push_dec_u128(s, n / 10);
        push_char(s, digit((n % 10) as u64));
        assert(old(s)@ + dec(n as nat) =~= old(s)@ + dec((n / 10) as nat) + seq![digit_char((n % 10) as int)]);
    } else {
        push_char(s, digit(n as u64));
        assert(old(s)@ + dec(n as nat) =~= old(s)@.push(digit_char(n as int)));
    }
}

/// Appends the decimal rendering of a signed integer.
pub fn push_dec_i64(s: &mut String, x: i64)
    ensures
        final(s)@ == old(s)@ + dec_int(x as int),
{
    if x < 0 {
        push_char(s, '-');
        let m: u64 = if x == i64::MIN { 9223372036854775808u64 } else { (-x) as u64 };
        push_dec(s, m);
        assert(old(s)@ + dec_int(x as int) =~= old(s)@.push('-') + dec(m as nat));
    } else {
        push_dec(s, x as u64);
    }
}

/// The decimal rendering of `n` as a new string.
pub fn dec_string(n: u64) -> (r: String)
    ensures
        r@ == dec(n as nat),
{
    let mut s = String::new();
    push_dec(&mut s, n);
    assert(Seq::<char>::empty() + dec(n as nat) =~= dec(n as nat));
    s
}


/// Unicode `White_Space`, the set that std's `char::is_whitespace` tests.
pub open spec fn is_ws(c: char) -> bool {
    let u = c as u32;
    ||| 0x9 <= u <= 0xd
    ||| u == 0x20
    ||| u == 0x85
    ||| u == 0xa0
    ||| u == 0x1680
    ||| 0x2000 <= u <= 0x200a
    ||| u == 0x2028
    ||| u == 0x2029
    ||| u == 0x202f
    ||| u == 0x205f
    ||| u == 0x3000
}

pub fn is_whitespace(c: char) -> (b: bool)
    ensures
        b == is_ws(c),
{
    let u = c as u32;
    (0x9 <= u && u <= 0xd) || u == 0x20 || u == 0x85 || u == 0xa0 || u == 0x1680 || (0x2000
        <= u && u <= 0x200a) || u == 0x2028 || u == 0x2029 || u == 0x202f || u == 0x205f || u
        == 0x3000
}

/// Number of leading whitespace characters.
pub open spec fn lead_ws(s: Seq<char>) -> nat
    decreases s.len(),
{
    if s.len() > 0 && is_ws(s[0]) {
        1 + lead_ws(s.drop_first())
    } else {
        0
    }
}

/// Number of trailing whitespace characters.
pub open spec fn trail_ws(s: Seq<char>) -> nat
    decreases s.len(),
{
    if s.len() > 0 && is_ws(s.last()) {
        1 + trail_ws(s.drop_last())
    } else {
        0
    }
}

pub open spec fn trim_start(s: Seq<char>) -> Seq<char> {
    s.skip(lead_ws(s) as int)
}

pub open spec fn trim_end(s: Seq<char>) -> Seq<char> {
    s.take(s.len() - trail_ws(s))
}

/// std `str::trim`: leading and trailing whitespace removed.
pub open spec fn trim(s: Seq<char>) -> Seq<char> {
    trim_end(trim_start(s))
}

pub proof fn lemma_lead_ws_bound(s: Seq<char>)
    ensures
        lead_ws(s) <= s.len(),
    decreases s.len(),
{
    if s.len() > 0 && is_ws(s[0]) {
        lemma_lead_ws_bound(s.drop_first());
    }
}

pub proof fn lemma_trail_ws_bound(s: Seq<char>)
    ensures
        trail_ws(s) <= s.len(),
    decreases s.len(),
{
    if s.len() > 0 && is_ws(s.last()) {
        lemma_trail_ws_bound(s.drop_last());
    }
}

/// Bounds `(a, b)` such that `v[a..b]` is `v[lo..hi]` trimmed.
pub fn trim_bounds(v: &Vec<char>, lo: usize, hi: usize) -> (r: (usize, usize))
    requires
        lo <= hi <= v.len(),
    ensures
        lo <= r.0 <= r.1 <= hi,
        v@.subrange(r.0 as int, r.1 as int) == trim(v@.subrange(lo as int, hi as int)),
{
    let mut a = lo;
    while a < hi && is_whitespace(v[a])
        invariant
            lo <= a <= hi <= v.len(),
            trim_start(v@.subrange(lo as int, hi as int)) == trim_start(
                v@.subrange(a as int, hi as int),
            ),
        decreases hi - a,
    {
        proof {
            let t = v@.subrange(a as int, hi as int);
            assert(t.drop_first() =~= v@.subrange(a + 1, hi as int));
            lemma_lead_ws_bound(t.drop_first());
            assert(lead_ws(t) == 1 + lead_ws(t.drop_first()));
            assert(t.skip(lead_ws(t) as int) =~= t.drop_first().skip(lead_ws(t.drop_first()) as int));
        }
        a = a + 1;
    }
    proof {
        let t = v@.subrange(a as int, hi as int);
        assert(lead_ws(t) == 0);
        assert(t.skip(0) =~= t);
    }
    let mut b = hi;
    while b > a && is_whitespace(v[b - 1])
        invariant
            lo <= a <= b <= hi <= v.len(),
            trim_end(v@.subrange(a as int, hi as int)) == trim_end(v@.subrange(a as int, b as int)),
        decreases b - a,
    {
        proof {
            let t = v@.subrange(a as int, b as int);
            assert(t.drop_last() =~= v@.subrange(a as int, b - 1));
            lemma_trail_ws_bound(t.drop_last());
            assert(t.take(t.len() - trail_ws(t)) =~= t.drop_last().take(
                t.drop_last().len() - trail_ws(t.drop_last()),
            ));
        }
        b = b - 1;
    }
    proof {
        let t = v@.subrange(a as int, b as int);
        assert(trail_ws(t) == 0);
        assert(t.take(t.len() as int) =~= t);
    }
    (a, b)
}

/// Index of the first `'\n'` at or after `i`, or the length when there is none.
pub open spec fn line_end(s: Seq<char>, i: int) -> int
    decreases s.len() - i,
{
    if i >= s.len() || s[i] == '\n' {
        i
    } else {
        line_end(s, i + 1)
    }
}

pub proof fn lemma_line_end_bounds(s: Seq<char>, i: int)
    requires
        0 <= i <= s.len(),
    ensures
        i <= line_end(s, i) <= s.len(),
        line_end(s, i) < s.len() ==> s[line_end(s, i)] == '\n',
    decreases s.len() - i,
{
    if i < s.len() && s[i] != '\n' {
        lemma_line_end_bounds(s, i + 1);
    }
}

/// The first line (std `str::lines`, from position `start` on) that is not blank
/// once trimmed, trimmed; `None` when every line is blank.
pub open spec fn first_nonblank_line(s: Seq<char>, start: int) -> Option<Seq<char>>
    decreases s.len() - start,
{
    if start < 0 || start >= s.len() {
        None
    } else {
        let e = line_end(s, start);
        let t = trim(s.subrange(start, e));
        if t.len() > 0 {
            Some(t)
        } else if e >= s.len() {
            None
        } else {
            proof {
                lemma_line_end_bounds(s, start);
            }
            first_nonblank_line(s, e + 1)
        }
    }
}

/// Bounds of the first non-blank line of `v`, trimmed.
pub fn first_nonblank_bounds(v: &Vec<char>) -> (r: Option<(usize, usize)>)
    ensures
        match r {
            Some((a, b)) => a <= b <= v.len() && first_nonblank_line(v@, 0) == Some(
                v@.subrange(a as int, b as int),
            ),
            None => first_nonblank_line(v@, 0) is None,
        },
{
    let mut start: usize = 0;
    while start < v.len()
        invariant
            start <= v.len(),
            first_nonblank_line(v@, 0) == first_nonblank_line(v@, start as int),
        decreases v.len() - start,
    {
        let mut e = start;
        while e < v.len() && v[e] != '\n'
            invariant
                start <= e <= v.len(),
                line_end(v@, start as int) == line_end(v@, e as int),
            decreases v.len() - e,
        {
            e = e + 1;
        }
        let (a, b) = trim_bounds(v, start, e);
        if b > a {
            return Some((a, b));
        }
        if e >= v.len() {
            return None;
        }
        start = e + 1;
    }
    None
}

/// Number of bytes std's UTF-8 encoding uses for a character.
pub open spec fn utf8_width(c: char) -> nat {
    let u = c as u32;
    if u < 0x80 {
        1
    } else if u < 0x800 {
        2
    } else if u < 0x10000 {
        3
    } else {
        4
    }
}

/// UTF-8 byte length of a character sequence (std `str::len`).
pub open spec fn utf8_len(s: Seq<char>) -> nat
    decreases s.len(),
{
    if s.len() == 0 {
        0
    } else {
        utf8_width(s[0]) + utf8_len(s.drop_first())
    }
}

/// Number of leading characters whose UTF-8 bytes fit in `n` bytes.
pub open spec fn fit_count(s: Seq<char>, n: int) -> nat
    decreases s.len(),
{
    if s.len() == 0 || utf8_width(s[0]) > n {
        0
    } else {
        1 + fit_count(s.drop_first(), n - utf8_width(s[0]))
    }
}

/// Number of bytes of the prefix counted by `fit_count`.
pub open spec fn fit_bytes(s: Seq<char>, n: int) -> nat
    decreases s.len(),
{
    if s.len() == 0 || utf8_width(s[0]) > n {
        0
    } else {
        utf8_width(s[0]) + fit_bytes(s.drop_first(), n - utf8_width(s[0]))
    }
}

pub proof fn lemma_fit_all(s: Seq<char>, n: int)
    requires
        n >= 0,
    ensures
        (fit_count(s, n) == s.len()) <==> (utf8_len(s) <= n),
        fit_count(s, n) <= s.len(),
    decreases s.len(),
{
    if s.len() > 0 && utf8_width(s[0]) <= n {
        lemma_fit_all(s.drop_first(), n - utf8_width(s[0]));
    }
}

pub fn char_width(c: char) -> (w: usize)
    ensures
        w == utf8_width(c),
{
    let u = c as u32;
    if u < 0x80 {
        1
    } else if u < 0x800 {
        2
    } else if u < 0x10000 {
        3
    } else {
        4
    }
}

/// `(fit_count, fit_bytes)` of `v[lo..]` for a budget of `n` bytes.
pub fn fit_prefix(v: &Vec<char>, lo: usize, hi: usize, n: usize) -> (r: (usize, usize))
    requires
        lo <= hi <= v.len(),
    ensures
        r.0 == fit_count(v@.subrange(lo as int, hi as int), n as int),
        r.1 == fit_bytes(v@.subrange(lo as int, hi as int), n as int),
        lo + r.0 <= hi,
        r.1 <= n,
{
    let ghost s = v@.subrange(lo as int, hi as int);
    let mut i: usize = lo;
    let mut acc: usize = 0;
    while i < hi && char_width(v[i]) <= n - acc
        invariant
            lo <= i <= hi <= v.len(),
            acc <= n,
            s == v@.subrange(lo as int, hi as int),
            fit_count(s, n as int) == (i - lo) + fit_count(v@.subrange(i as int, hi as int), n - acc),
            fit_bytes(s, n as int) == acc + fit_bytes(v@.subrange(i as int, hi as int), n - acc),
        decreases hi - i,
    {
        proof {
            let t = v@.subrange(i as int, hi as int);
            assert(t.drop_first() =~= v@.subrange(i + 1, hi as int));
        }
        acc = acc + char_width(v[i]);
        i = i + 1;
    }
    (i - lo, acc)
}

/// Appends the characters `v[lo..hi]`.
pub fn push_range(s: &mut String, v: &Vec<char>, lo: usize, hi: usize)
    requires
        lo <= hi <= v.len(),
    ensures
        final(s)@ == old(s)@ + v@.subrange(lo as int, hi as int),
{
    let mut i = lo;
    while i < hi
        invariant
            lo <= i <= hi <= v.len(),
            s@ == old(s)@ + v@.subrange(lo as int, i as int),
        decreases hi - i,
    {
        push_char(s, v[i]);
        assert(old(s)@ + v@.subrange(lo as int, i + 1) =~= (old(s)@ + v@.subrange(
            lo as int,
            i as int,
        )).push(v@[i as int]));
        i = i + 1;
    }
}

} // verus!

verus! {

/// String slice equality (std `PartialEq` for `str`).
#[verifier::external_body]
pub(crate) fn str_eq(a: &str, b: &str) -> (r: bool)
    ensures
        r == (a@ == b@),
{
    a == b
}

/// The views of a sequence of strings.
pub open spec fn views(v: Seq<String>) -> Seq<Seq<char>> {
    v.map_values(|s: String| s@)
}

/// The strings of `a` followed by those of `b`.
pub fn concat_strings(a: Vec<String>, b: Vec<String>) -> (r: Vec<String>)
    ensures
        views(r@) == views(a@) + views(b@),
{
    let ghost a0 = a@;
    let ghost b0 = b@;
    let mut a = a;
    let mut b = b;
    a.append(&mut b);
    assert(views(a@) =~= views(a0) + views(b0));
    a
}

/// Appends an owned copy of a string slice to a vector of strings.
pub fn push_owned(v: &mut Vec<String>, s: &str)
    ensures
        views(final(v)@) == views(old(v)@).push(s@),
{
    v.push(owned(s));
    assert(views(v@) =~= views(old(v)@).push(s@));
}

} // verus!

verus! {

/// `t` occurs in `s` as a contiguous run of characters.
pub open spec fn has_sub(s: Seq<char>, t: Seq<char>) -> bool {
    exists|i: int| 0 <= i && i + t.len() <= s.len() && #[trigger] s.subrange(i, i + t.len()) == t
}

pub open spec fn has_prefix(s: Seq<char>, t: Seq<char>) -> bool {
    t.len() <= s.len() && s.take(t.len() as int) == t
}

pub open spec fn has_suffix(s: Seq<char>, t: Seq<char>) -> bool {
    t.len() <= s.len() && s.skip(s.len() - t.len()) == t
}

/// Whether `v[i..i + w.len()]` equals `w`.
pub fn range_eq(v: &Vec<char>, i: usize, w: &Vec<char>) -> (r: bool)
    requires
        i + w.len() <= v.len(),
    ensures
        r == (v@.subrange(i as int, i + w.len()) == w@),
{
    let mut k: usize = 0;
    while k < w.len()
        invariant
            k <= w.len(),
            i + w.len() <= v.len(),
            forall|j: int| 0 <= j < k ==> v@[i + j] == w@[j],
        decreases w.len() - k,
    {
        if v[i + k] != w[k] {
            assert(v@.subrange(i as int, i + w.len())[k as int] != w@[k as int]);
            return false;
        }
        k = k + 1;
    }
    assert(v@.subrange(i as int, i + w.len()) =~= w@);
    true
}

/// std `str::contains` for a string pattern.
pub fn contains_str(s: &str, t: &str) -> (r: bool)
    ensures
        r == has_sub(s@, t@),
{
    let v = chars_of(s);
    let w = chars_of(t);
    if w.len() > v.len() {
        return false;
    }
    let n = v.len() - w.len();
    let mut i: usize = 0;
    loop
        invariant
            w.len() <= v.len(),
            n == v.len() - w.len(),
            i <= n,
            v@ == s@,
            w@ == t@,
            forall|j: int| 0 <= j < i ==> #[trigger] v@.subrange(j, j + w.len()) != w@,
        ensures
            forall|j: int| 0 <= j <= n ==> #[trigger] v@.subrange(j, j + w.len()) != w@,
        decreases n - i,
    {
        if range_eq(&v, i, &w) {
            return true;
        }
        if i == n {
            break;
        }
        i = i + 1;
    }
    proof {
        assert forall|j: int| 0 <= j && j + w@.len() <= v@.len() implies #[trigger] v@.subrange(
            j,
            j + w@.len(),
        ) != w@ by {
            assert(j <= n);
        }
    }
    false
}

/// std `str::starts_with` for a string pattern.
pub fn starts_with_str(s: &str, t: &str) -> (r: bool)
    ensures
        r == has_prefix(s@, t@),
{
    let v = chars_of(s);
    let w = chars_of(t);
    if w.len() > v.len() {
        return false;
    }
    let r = range_eq(&v, 0, &w);
    assert(v@.subrange(0, w@.len() as int) =~= v@.take(w@.len() as int));
    r
}

/// std `str::ends_with` for a string pattern.
pub fn ends_with_str(s: &str, t: &str) -> (r: bool)
    ensures
        r == has_suffix(s@, t@),
{
    let v = chars_of(s);
    let w = chars_of(t);
    if w.len() > v.len() {
        return false;
    }
    let r = range_eq(&v, v.len() - w.len(), &w);
    assert(v@.subrange(v@.len() - w@.len(), v@.len() as int) =~= v@.skip(v@.len() - w@.len()));
    r
}

/// What std's `str::to_lowercase` returns for a string: the Unicode lowercase
/// mapping of every character.
pub uninterp spec fn spec_lowercase(s: Seq<char>) -> Seq<char>;

pub open spec fn ascii_lower_char(c: char) -> char {
    if 'A' <= c && c <= 'Z' {
        ((c as u32) + 32) as char
    } else {
        c
    }
}

pub open spec fn is_ascii_text(s: Seq<char>) -> bool {
    forall|i: int| 0 <= i < s.len() ==> (#[trigger] s[i] as u32) < 128
}

/// std `str::to_lowercase`. On ASCII text its documented Unicode mapping is the
/// ASCII one: `A`..`Z` become `a`..`z`, every other character is kept.
#[verifier::external_body]
pub(crate) fn to_lowercase(s: &str) -> (r: String)
    ensures
        r@ == spec_lowercase(s@),
        is_ascii_text(s@) ==> r@ == s@.map_values(|c: char| ascii_lower_char(c)),
{
    s.to_lowercase()
}

} // verus!
