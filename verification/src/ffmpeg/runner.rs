//! The decisions around one FFmpeg run: what of its stderr is kept, how a
//! line is read for progress, and what the run's end means.

use vstd::prelude::*;
use crate::decimal::{is_positive, Decimal};
use crate::error::AppError;

verus! {

/// At most this many bytes of stderr are kept: the last ones.
pub const MAX_STDERR_BYTES: usize = 65536;

/// The last `MAX_STDERR_BYTES` bytes of `s` (all of it when shorter).
pub open spec fn last_bytes(s: Seq<u8>) -> Seq<u8> {
    if s.len() > MAX_STDERR_BYTES {
        s.skip(s.len() - MAX_STDERR_BYTES)
    } else {
        s
    }
}

/// Appends a line of stderr and a newline to the kept bytes, dropping the
/// oldest bytes beyond the limit.
pub fn append_stderr_line(buf: &mut Vec<u8>, line: &[u8])
    requires
        old(buf)@.len() <= MAX_STDERR_BYTES,
        old(buf)@.len() + line@.len() + 1 <= usize::MAX,
    ensures
        final(buf)@ == last_bytes(old(buf)@ + line@ + seq![10u8]),
        final(buf)@.len() <= MAX_STDERR_BYTES,
{
    let ghost all = old(buf)@ + line@ + seq![10u8];
    let mut j: usize = 0;
    while j < line.len()
        invariant
            j <= line.len(),
            buf@ == old(buf)@ + line@.take(j as int),
            old(buf)@.len() + line@.len() + 1 <= usize::MAX,
        decreases line.len() - j,
    {
        buf.push(line[j]);
        assert(line@.take(j + 1) =~= line@.take(j as int).push(line@[j as int]));
        j = j + 1;
    }
    buf.push(10u8);
    assert(buf@ =~= all);
    if buf.len() > MAX_STDERR_BYTES {
        let start = buf.len() - MAX_STDERR_BYTES;
        let mut kept: Vec<u8> = Vec::new();
        let mut k: usize = start;
        while k < buf.len()
            invariant
                start <= k <= buf.len(),
                buf@ == all,
                kept@ == all.subrange(start as int, k as int),
            decreases buf.len() - k,
        {
            kept.push(buf[k]);
            assert(kept@ =~= all.subrange(start as int, k + 1));
            k = k + 1;
        }
        assert(kept@ =~= last_bytes(all));
        *buf = kept;
    }
}

/// The line without trailing `\n` and `\r` characters.
pub open spec fn line_trimmed_len(s: Seq<char>) -> nat
    decreases s.len(),
{
    if s.len() > 0 && (s.last() == '\n' || s.last() == '\r') {
        line_trimmed_len(s.drop_last())
    } else {
        s.len()
    }
}

/// How long a line is without its trailing `\n` and `\r` characters.
pub fn trimmed_line_len(v: &Vec<char>) -> (n: usize)
    ensures
        n == line_trimmed_len(v@),
        n <= v.len(),
{
    let mut n = v.len();
    assert(v@.take(n as int) =~= v@);
    while n > 0 && (v[n - 1] == '\n' || v[n - 1] == '\r')
        invariant
            n <= v.len(),
            line_trimmed_len(v@.take(n as int)) == line_trimmed_len(v@),
        decreases n,
    {
        assert(v@.take(n as int).drop_last() =~= v@.take(n - 1));
        n = n - 1;
    }
    proof {
        lemma_trimmed_len_bound(v@.take(n as int));
    }
    n
}

proof fn lemma_trimmed_len_bound(s: Seq<char>)
    ensures
        line_trimmed_len(s) <= s.len(),
        !(s.len() > 0 && (s.last() == '\n' || s.last() == '\r')) ==> line_trimmed_len(s) == s.len(),
    decreases s.len(),
{
    if s.len() > 0 && (s.last() == '\n' || s.last() == '\r') {
        lemma_trimmed_len_bound(s.drop_last());
    }
}

/// The duration a run starts with for progress: the given one when
/// positive.
pub fn initial_duration(duration_secs: Option<Decimal>) -> (r: Option<Decimal>)
    ensures
        r == match duration_secs {
            Some(d) => if is_positive(d) {
                Some(d)
            } else {
                None
            },
            None => None,
        },
{
    match duration_secs {
        Some(d) => if d.is_positive() {
            Some(d)
        } else {
            None
        },
        None => None,
    }
}

/// What the end of a run means: a process that was taken away before it
/// finished was aborted; otherwise a successful exit is success and any other
/// is an FFmpeg failure with its exit code (`-1` without one) and stderr.
pub fn run_result(process_present: bool, success: bool, code: Option<i32>, stderr: String) -> (r: Result<
    (),
    AppError,
>)
    ensures
        !process_present ==> r matches Err(AppError::Aborted),
        process_present && success ==> r is Ok,
        process_present && !success ==> r == Err::<(), AppError>(
            AppError::FfmpegFailed {
                code: match code {
                    Some(c) => c,
                    None => -1i32,
                },
                stderr,
            },
        ),
{
    if !process_present {
        return Err(AppError::aborted());
    }
    if success {
        Ok(())
    } else {
        let c = match code {
            Some(c) => c,
            None => -1,
        };
        Err(AppError::ffmpeg_failed(c, stderr))
    }
}

} // verus!
