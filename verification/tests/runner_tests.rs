use tiny_vid_core::decimal::Decimal;
use tiny_vid_core::error::AppError;
use tiny_vid_core::ffmpeg::runner::{
    append_stderr_line, initial_duration, run_result, trimmed_line_len, MAX_STDERR_BYTES,
};

#[test]
fn stderr_keeps_last_bytes() {
    let mut buf = Vec::new();
    append_stderr_line(&mut buf, b"first");
    append_stderr_line(&mut buf, b"second");
    assert_eq!(buf, b"first\nsecond\n".to_vec());
    let big = vec![b'x'; MAX_STDERR_BYTES];
    append_stderr_line(&mut buf, &big);
    assert_eq!(buf.len(), MAX_STDERR_BYTES);
    assert_eq!(*buf.last().unwrap(), b'\n');
    assert_eq!(buf[0], b'x');
}

#[test]
fn line_endings_are_trimmed() {
    let v: Vec<char> = "frame=1\r\n".chars().collect();
    assert_eq!(trimmed_line_len(&v), 7);
    let v: Vec<char> = "\n\r".chars().collect();
    assert_eq!(trimmed_line_len(&v), 0);
}

#[test]
fn only_positive_durations_start_a_run() {
    assert_eq!(initial_duration(Some(Decimal::from_int(3))), Some(Decimal::from_int(3)));
    assert_eq!(initial_duration(Some(Decimal::zero())), None);
    assert_eq!(initial_duration(None), None);
}

#[test]
fn run_end_is_classified() {
    assert!(matches!(run_result(false, true, Some(0), String::new()), Err(AppError::Aborted)));
    assert!(run_result(true, true, Some(0), String::new()).is_ok());
    match run_result(true, false, None, "bad".to_string()) {
        Err(AppError::FfmpegFailed { code, stderr }) => {
            assert_eq!(code, -1);
            assert_eq!(stderr, "bad");
        }
        _ => panic!("expected a failure"),
    }
}
