use tiny_vid_core::ffmpeg::error::parse_ffmpeg_error;

#[test]
fn exit_code_1() {
    let p = parse_ffmpeg_error("", Some(1));
    assert_eq!(p.summary, "FFmpeg failed.");
}

#[test]
fn exit_code_69() {
    let p = parse_ffmpeg_error("", Some(69));
    assert_eq!(p.summary, "Encoding rate limit exceeded.");
}

#[test]
fn exit_code_255() {
    let p = parse_ffmpeg_error("", Some(255));
    assert_eq!(p.summary, "Encoding was stopped.");
}

#[test]
fn exit_code_minus_one() {
    let p = parse_ffmpeg_error("Failed to spawn FFmpeg", Some(-1));
    assert!(p.summary.contains("not found") || p.summary.contains("start"));
}

#[test]
fn unknown_code_short_summary() {
    let p = parse_ffmpeg_error("Invalid data found when processing input", Some(42));
    assert_eq!(p.summary, "FFmpeg failed (exit code 42).");
    assert_eq!(p.detail, "Invalid data found when processing input");
}

#[test]
fn unknown_code_no_stderr() {
    let p = parse_ffmpeg_error("", Some(99));
    assert_eq!(p.summary, "FFmpeg failed (exit code 99).");
}

#[test]
fn no_code_uses_stderr() {
    let p = parse_ffmpeg_error("Some random error\nSecond line", None);
    assert_eq!(p.summary, "Some random error");
}

#[test]
fn long_stderr_truncated() {
    let long = "a".repeat(150);
    let p = parse_ffmpeg_error(&long, None);
    assert!(p.summary.len() <= 121);
    assert!(p.summary.ends_with('…'));
}

#[test]
fn exit_code_123_is_stopped_and_detail_is_trimmed() {
    let p = parse_ffmpeg_error("  killed\n", Some(123));
    assert_eq!(p.summary, "Encoding was stopped.");
    assert_eq!(p.detail, "killed");
}

#[test]
fn no_code_skips_blank_lines_and_trims() {
    let p = parse_ffmpeg_error("\n   \n  first real line  \nnext", None);
    assert_eq!(p.summary, "first real line");
}

#[test]
fn long_line_keeps_exactly_117_bytes_before_ellipsis() {
    let long = "b".repeat(200);
    let p = parse_ffmpeg_error(&long, None);
    assert_eq!(p.summary, format!("{}…", "b".repeat(117)));
    let exact = "c".repeat(120);
    assert_eq!(parse_ffmpeg_error(&exact, None).summary, exact);
}

#[test]
fn long_multibyte_line_is_cut_on_a_char_boundary() {
    let stderr = "é".repeat(100);
    let p = parse_ffmpeg_error(&stderr, None);
    assert!(p.summary.len() <= 120);
    assert!(p.summary.ends_with('…'));
    let head = p.summary.trim_end_matches('…');
    assert_eq!(head, "é".repeat(58));
    assert!(stderr.starts_with(head));
}
