//! Map FFmpeg exit codes to user-facing messages.
//!
//! Exit codes come from ffmpeg.c: 1 (general), 69 (rate exceeded),
//! 123 (hard exit), 255 (signal); -1 stands for a spawn failure.
//! Stderr is kept as detail for debugging.

use vstd::prelude::*;
use crate::text::{
    chars_of, dec_int, fit_bytes, fit_count, fit_prefix, first_nonblank_bounds,
    first_nonblank_line, lemma_fit_all, push_char, push_dec_i64, push_range, push_str,
    trim, trim_bounds, utf8_len, utf8_width,
};

verus! {

/// Payload for an ffmpeg-error event: a short summary and the full detail.
pub struct FfmpegErrorPayload {
    pub summary: String,
    pub detail: String,
}

/// Summary for an exit code that ffmpeg.c documents.
pub open spec fn known_exit_summary(code: int) -> Option<Seq<char>> {
    if code == -1 {
        Some("FFmpeg not found or failed to start."@)
    } else if code == 1 {
        Some("FFmpeg failed."@)
    } else if code == 69 {
        Some("Encoding rate limit exceeded."@)
    } else if code == 123 || code == 255 {
        Some("Encoding was stopped."@)
    } else {
        None
    }
}

pub open spec fn unknown_exit_summary(code: int) -> Seq<char> {
    "FFmpeg failed (exit code "@ + dec_int(code) + ")."@
}

/// The line a summary is cut from: the first non-blank line of `s`, trimmed,
/// or `s` itself when every line is blank.
pub open spec fn summary_line(s: Seq<char>) -> Seq<char> {
    match first_nonblank_line(s, 0) {
        Some(t) => t,
        None => s,
    }
}

/// Bytes kept before the ellipsis when a line longer than `max_len` bytes is cut.
pub open spec fn kept_bytes(max_len: int) -> int {
    if max_len >= 3 { max_len - 3 } else { 0 }
}

/// A line cut to `max_len` bytes: unchanged when it fits, otherwise the
/// longest run of its leading characters within `max_len - 3` bytes (the cut
/// falls on a character boundary) followed by `…` (three bytes in UTF-8).
pub open spec fn truncated(f: Seq<char>, max_len: int) -> Seq<char> {
    if utf8_len(f) <= max_len {
        f
    } else {
        f.take(fit_count(f, kept_bytes(max_len)) as int) + seq!['…']
    }
}

pub open spec fn summary_spec(stderr: Seq<char>, exit_code: Option<i32>) -> Seq<char> {
    match exit_code {
        Some(code) => match known_exit_summary(code as int) {
            Some(m) => m,
            None => unknown_exit_summary(code as int),
        },
        None => truncated(summary_line(stderr), 120),
    }
}

/// Maps an FFmpeg exit code to a short summary; stderr, trimmed, is the detail.
pub fn parse_ffmpeg_error(stderr: &str, exit_code: Option<i32>) -> (p: FfmpegErrorPayload)
    ensures
        p.summary@ == summary_spec(stderr@, exit_code),
        p.detail@ == trim(stderr@),
{
    let summary = match exit_code {
        Some(code) => match known_exit_code_summary(code) {
            Some(msg) => msg,
            None => summary_for_unknown_code(code, stderr),
        },
        None => fallback_summary(stderr),
    };
    let v = chars_of(stderr);
    let (a, b) = trim_bounds(&v, 0, v.len());
    assert(v@.subrange(0, v@.len() as int) =~= v@);
    let mut detail = String::new();
    push_range(&mut detail, &v, a, b);
    assert(detail@ =~= v@.subrange(a as int, b as int));
    FfmpegErrorPayload { summary, detail }
}

fn known_exit_code_summary(code: i32) -> (r: Option<String>)
    ensures
        match r {
            Some(s) => known_exit_summary(code as int) == Some(s@),
            None => known_exit_summary(code as int) is None,
        },
{
    if code == -1 {
        Some(String::from_str("FFmpeg not found or failed to start."))
    } else if code == 1 {
        Some(String::from_str("FFmpeg failed."))
    } else if code == 69 {
        Some(String::from_str("Encoding rate limit exceeded."))
    } else if code == 123 || code == 255 {
        Some(String::from_str("Encoding was stopped."))
    } else {
        None
    }
}

/// The first non-blank line of `stderr`, trimmed, cut to `max_len` bytes.
fn first_line_truncated(stderr: &str, max_len: usize) -> (r: String)
    ensures
        r@ == truncated(summary_line(stderr@), max_len as int),
{
    let v = chars_of(stderr);
    let (a, b) = match first_nonblank_bounds(&v) {
        Some((a, b)) => (a, b),
        None => {
            assert(v@.subrange(0, v@.len() as int) =~= v@);
            (0, v.len())
        },
    };
    let ghost f = v@.subrange(a as int, b as int);
    assert(f == summary_line(stderr@));
    let (whole, _) = fit_prefix(&v, a, b, max_len);
    proof {
        lemma_fit_all(f, max_len as int);
    }
    let mut r = String::new();
    if whole == b - a {
        push_range(&mut r, &v, a, b);
        assert(r@ =~= f);
    } else {
        let keep = if max_len >= 3 { max_len - 3 } else { 0 };
        let (k, _) = fit_prefix(&v, a, b, keep);
        push_range(&mut r, &v, a, a + k);
        push_char(&mut r, '…');
        assert(v@.subrange(a as int, (a + k) as int) =~= f.take(k as int));
        assert(r@ =~= f.take(k as int) + seq!['…']);
    }
    r
}

fn summary_for_unknown_code(code: i32, _stderr: &str) -> (r: String)
    ensures
        r@ == unknown_exit_summary(code as int),
{
    let mut r = String::from_str("FFmpeg failed (exit code ");
    push_dec_i64(&mut r, code as i64);
    push_str(&mut r, ").");
    r
}

fn fallback_summary(stderr: &str) -> (r: String)
    ensures
        r@ == truncated(summary_line(stderr@), 120),
{
    first_line_truncated(stderr, 120)
}

proof fn lemma_fit_bytes_of_prefix(s: Seq<char>, n: int)
    requires
        n >= 0,
    ensures
        utf8_len(s.take(fit_count(s, n) as int)) == fit_bytes(s, n),
        fit_bytes(s, n) <= n,
    decreases s.len(),
{
    if s.len() > 0 && utf8_width(s[0]) <= n {
        let m = n - utf8_width(s[0]);
        lemma_fit_bytes_of_prefix(s.drop_first(), m);
        lemma_fit_all(s.drop_first(), m);
        let t = s.take(fit_count(s, n) as int);
        assert(fit_count(s, n) == 1 + fit_count(s.drop_first(), m));
        assert(t.len() >= 1);
        assert(t[0] == s[0]);
        assert(t.drop_first() =~= s.drop_first().take(fit_count(s.drop_first(), m) as int));
    } else {
        assert(s.take(0) =~= Seq::<char>::empty());
    }
}

proof fn lemma_utf8_len_append(a: Seq<char>, b: Seq<char>)
    ensures
        utf8_len(a + b) == utf8_len(a) + utf8_len(b),
    decreases a.len(),
{
    if a.len() > 0 {
        lemma_utf8_len_append(a.drop_first(), b);
        assert((a + b).drop_first() =~= a.drop_first() + b);
    } else {
        assert(a + b =~= b);
    }
}

/// A summary made from stderr (no exit code) never exceeds 120 bytes.
pub proof fn stderr_summary_fits(stderr: Seq<char>)
    ensures
        utf8_len(summary_spec(stderr, None)) <= 120,
{
    let f = summary_line(stderr);
    if utf8_len(f) > 120 {
        let k = fit_count(f, 117) as int;
        lemma_fit_bytes_of_prefix(f, 117);
        lemma_utf8_len_append(f.take(k), seq!['…']);
        let e = seq!['…'];
        assert(e.drop_first() =~= Seq::<char>::empty());
        assert(('…' as u32) == 0x2026u32);
        assert(utf8_width(e[0]) == 3);
        assert(utf8_len(e) == utf8_width(e[0]) + utf8_len(e.drop_first()));
        assert(utf8_len(Seq::<char>::empty()) == 0);
    }
}

} // verus!
