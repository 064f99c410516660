//! Application error type shared by the media commands.

use vstd::prelude::*;
use crate::text::{dec_int, owned, push_dec_i64, push_str};

verus! {

/// std's I/O error, carried through opaquely.
#[verifier::external_type_specification]
#[verifier::external_body]
pub struct ExIoError(std::io::Error);

#[derive(Debug)]
pub enum AppError {
    Io(std::io::Error),
    FfmpegNotFound(String),
    FfmpegFailed { code: i32, stderr: String },
    Aborted,
}

/// The error a plain message stands for: the exact text `Aborted` is a
/// cancellation; any other text is an FFmpeg failure with code -1 and the
/// text as its stderr.
pub open spec fn is_message_error(e: AppError, msg: Seq<char>) -> bool {
    if msg == "Aborted"@ {
        e is Aborted
    } else {
        e matches AppError::FfmpegFailed { code, stderr } && code == -1 && stderr@ == msg
    }
}

/// Display text of an error other than an I/O error.
pub open spec fn message_spec(e: AppError) -> Seq<char> {
    match e {
        AppError::Io(_) => Seq::empty(),
        AppError::FfmpegNotFound(s) => s@,
        AppError::FfmpegFailed { code, stderr } => "FFmpeg failed (code "@ + dec_int(code as int)
            + "): "@ + stderr@,
        AppError::Aborted => "Aborted"@,
    }
}

/// Display text of an I/O error (std `io::Error` as `Display`).
#[verifier::external_body]
fn io_error_text(e: &std::io::Error) -> String {
    e.to_string()
}

impl AppError {
    pub fn aborted() -> (r: Self)
        ensures
            r is Aborted,
    {
        AppError::Aborted
    }

    pub fn ffmpeg_failed(code: i32, stderr: String) -> (r: Self)
        ensures
            r == (AppError::FfmpegFailed { code, stderr }),
    {
        AppError::FfmpegFailed { code, stderr }
    }

    /// Classifies a plain message (see `is_message_error`).
    pub fn from_message(s: String) -> (r: Self)
        ensures
            is_message_error(r, s@),
            s@ != "Aborted"@ ==> r == (AppError::FfmpegFailed { code: -1i32, stderr: s }),
    {
        let aborted = String::from_str("Aborted");
        if s == aborted {
            AppError::Aborted
        } else {
            AppError::FfmpegFailed { code: -1, stderr: s }
        }
    }

    /// The error's display text. For an I/O error it is std's text for it.
    pub fn message(&self) -> (r: String)
        ensures
            !(self is Io) ==> r@ == message_spec(*self),
    {
        match self {
            AppError::Io(e) => io_error_text(e),
            AppError::FfmpegNotFound(s) => s.clone(),
            AppError::FfmpegFailed { code, stderr } => {
                let mut r = String::from_str("FFmpeg failed (code ");
                push_dec_i64(&mut r, *code as i64);
                push_str(&mut r, "): ");
                push_str(&mut r, stderr.as_str());
                r
            },
            AppError::Aborted => String::from_str("Aborted"),
        }
    }
}

impl From<String> for AppError {
    fn from(s: String) -> (r: Self) {
        AppError::from_message(s)
    }
}

impl vstd::std_specs::convert::FromSpecImpl<String> for AppError {
    open spec fn obeys_from_spec() -> bool {
        true
    }

    open spec fn from_spec(v: String) -> AppError {
        if v@ == "Aborted"@ {
            AppError::Aborted
        } else {
            AppError::FfmpegFailed { code: -1i32, stderr: v }
        }
    }
}

impl From<&str> for AppError {
    fn from(s: &str) -> (r: Self)
        ensures
            is_message_error(r, s@),
    {
        AppError::from_message(owned(s))
    }
}

impl vstd::std_specs::convert::FromSpecImpl<&str> for AppError {
    open spec fn obeys_from_spec() -> bool {
        false
    }

    open spec fn from_spec(v: &str) -> AppError {
        choose|e: AppError| is_message_error(e, v@)
    }
}

} // verus!
