//! Checking a video by decoding it to nowhere: a valid video decodes without
//! errors. AV1 is decoded with libdav1d when FFmpeg has it, falling back to
//! the default decoder.
//!
//! The caller runs FFmpeg with the arguments given here and reports how each
//! run went; these functions decide what comes next.

use vstd::prelude::*;
use crate::text::{
    contains_str, dec_int, has_sub, push_dec_i64, push_owned, push_str, spec_lowercase,
    to_lowercase, views,
};

verus! {

/// How one decoding run went.
pub struct DecodeOutcome {
    pub success: bool,
    pub exit_code: i32,
    pub stderr: String,
}

/// What to do next: run FFmpeg again with these arguments, or stop with
/// this result.
pub enum VerifyStep {
    Run { args: Vec<String>, use_dav1d: bool },
    Done(Result<(), String>),
}

/// AV1 (by its codec name, in lower case) is decoded with libdav1d.
pub open spec fn uses_dav1d(codec: Option<Seq<char>>) -> bool {
    match codec {
        Some(c) => has_sub(spec_lowercase(c), "svtav1"@) || has_sub(spec_lowercase(c), "av1"@),
        None => false,
    }
}

pub open spec fn verify_args_spec(path: Seq<char>, use_dav1d: bool) -> Seq<Seq<char>> {
    if use_dav1d {
        seq!["-v"@, "error"@, "-c:v"@, "libdav1d"@, "-i"@, path, "-f"@, "null"@, "-"@]
    } else {
        seq!["-v"@, "error"@, "-i"@, path, "-f"@, "null"@, "-"@]
    }
}

/// A run succeeded when FFmpeg exited successfully and wrote no error.
pub open spec fn decode_ok(status_success: bool, stderr: Seq<char>) -> bool {
    status_success && !has_sub(spec_lowercase(stderr), "error"@)
}

/// FFmpeg's words when it has no libdav1d.
pub open spec fn dav1d_missing(stderr: Seq<char>) -> bool {
    let s = spec_lowercase(stderr);
    has_sub(s, "unknown decoder"@) || has_sub(s, "decoder 'libdav1d' not found"@) || has_sub(
        s,
        "could not find decoder"@,
    ) || has_sub(s, "no decoder for"@)
}

pub open spec fn failure_message(exit_code: i32, stderr: Seq<char>) -> Seq<char> {
    "Video verification failed (exit "@ + dec_int(exit_code as int) + "): "@ + stderr
}

fn codec_uses_dav1d(codec: Option<&str>) -> (r: bool)
    ensures
        r == uses_dav1d(match codec {
            Some(c) => Some(c@),
            None => None,
        }),
{
    match codec {
        Some(c) => {
            let l = to_lowercase(c);
            contains_str(l.as_str(), "svtav1") || contains_str(l.as_str(), "av1")
        },
        None => false,
    }
}

fn verify_args(path: &str, use_dav1d: bool) -> (r: Vec<String>)
    ensures
        views(r@) == verify_args_spec(path@, use_dav1d),
{
    let mut a: Vec<String> = Vec::new();
    push_owned(&mut a, "-v");
    push_owned(&mut a, "error");
    if use_dav1d {
        push_owned(&mut a, "-c:v");
        push_owned(&mut a, "libdav1d");
    }
    push_owned(&mut a, "-i");
    push_owned(&mut a, path);
    push_owned(&mut a, "-f");
    push_owned(&mut a, "null");
    push_owned(&mut a, "-");
    assert(views(a@) =~= verify_args_spec(path@, use_dav1d));
    a
}

/// The first run: its arguments and whether it uses libdav1d.
pub fn verify_video(path: &str, codec: Option<&str>) -> (r: VerifyStep)
    ensures
        ({
            let d = uses_dav1d(match codec {
                Some(c) => Some(c@),
                None => None,
            });
            r matches VerifyStep::Run { args, use_dav1d } && use_dav1d == d && views(args@)
                == verify_args_spec(path@, d)
        }),
{
    let use_dav1d = codec_uses_dav1d(codec);
    VerifyStep::Run { args: verify_args(path, use_dav1d), use_dav1d }
}

/// How a run went, from FFmpeg's exit status (its code, `-1` when it has
/// none) and what it wrote to stderr.
pub fn decode_outcome(status_success: bool, code: Option<i32>, stderr: String) -> (r: DecodeOutcome)
    ensures
        r.success == decode_ok(status_success, stderr@),
        r.exit_code == match code {
            Some(c) => c,
            None => -1i32,
        },
        r.stderr@ == stderr@,
{
    let lower = to_lowercase(stderr.as_str());
    let success = status_success && !contains_str(lower.as_str(), "error");
    let exit_code = match code {
        Some(c) => c,
        None => -1,
    };
    DecodeOutcome { success, exit_code, stderr }
}

/// FFmpeg's stderr says it has no libdav1d.
pub fn is_dav1d_unavailable(stderr: &str) -> (r: bool)
    ensures
        r == dav1d_missing(stderr@),
{
    let s = to_lowercase(stderr);
    contains_str(s.as_str(), "unknown decoder") || contains_str(s.as_str(), "decoder 'libdav1d' not found")
        || contains_str(s.as_str(), "could not find decoder") || contains_str(s.as_str(), "no decoder for")
}

/// After a run: success ends the verification; a libdav1d run that failed because
/// FFmpeg lacks libdav1d is retried with the default decoder; any other
/// failure ends the verification with its exit code and stderr.
pub fn verify_after_decode(path: &str, use_dav1d: bool, outcome: DecodeOutcome) -> (r: VerifyStep)
    ensures
        outcome.success ==> r == VerifyStep::Done(Ok(())),
        !outcome.success && use_dav1d && dav1d_missing(outcome.stderr@) ==> (r matches VerifyStep::Run {
            args,
            use_dav1d,
        } && !use_dav1d && views(args@) == verify_args_spec(path@, false)),
        !outcome.success && !(use_dav1d && dav1d_missing(outcome.stderr@)) ==> (r matches VerifyStep::Done(
            Err(m),
        ) && m@ == failure_message(outcome.exit_code, outcome.stderr@)),
{
    if outcome.success {
        return VerifyStep::Done(Ok(()));
    }
    if use_dav1d && is_dav1d_unavailable(outcome.stderr.as_str()) {
        return VerifyStep::Run { args: verify_args(path, false), use_dav1d: false };
    }
    let mut m = String::from_str("Video verification failed (exit ");
    push_dec_i64(&mut m, outcome.exit_code as i64);
    push_str(&mut m, "): ");
    push_str(&mut m, outcome.stderr.as_str());
    VerifyStep::Done(Err(m))
}

} // verus!
