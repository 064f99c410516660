use tiny_vid_core::decimal::{decimal_string, parse_decimal, Decimal};
use tiny_vid_core::ffmpeg::progress::{
    duration_decimal, duration_fields, out_time_field, parse_ffmpeg_progress, parse_out_time, ProgressUpdate,
};

fn d(x: f64) -> Decimal {
    parse_decimal(&x.to_string()).unwrap()
}

fn as_f64(x: Decimal) -> f64 {
    decimal_string(x).parse().unwrap()
}

/// Progress as the application reports it: position over duration, at most 1.
fn progress_of(u: &ProgressUpdate) -> Option<f64> {
    match (u.out_time_us, u.duration) {
        (Some(us), Some(dur)) => Some((us as f64 / 1_000_000.0 / as_f64(dur)).min(1.0)),
        _ => None,
    }
}

fn parse(line: &str, current: Option<f64>) -> (Option<f64>, Option<f64>) {
    let u = parse_ffmpeg_progress(line, current.map(d));
    (progress_of(&u), u.duration.map(as_f64))
}

#[test]
fn duration_parsed() {
    let (prog, dur) = parse("Duration: 0:1:30.5", None);
    assert_eq!(prog, None);
    assert_eq!(dur, Some(90.5));
}

#[test]
fn duration_hours_minutes_seconds() {
    let (_, dur) = parse("Duration: 1:2:3.0", None);
    assert_eq!(dur, Some(3723.0));
}

#[test]
fn out_time_ms_progress() {
    let (prog, dur) = parse("out_time_ms=5000000", Some(10.0));
    assert_eq!(prog, Some(0.5));
    assert_eq!(dur, Some(10.0));
}

#[test]
fn out_time_ms_complete() {
    let (prog, dur) = parse("out_time_ms=10000000", Some(10.0));
    assert_eq!(prog, Some(1.0));
    assert_eq!(dur, Some(10.0));
}

#[test]
fn invalid_line_returns_current_duration() {
    let (prog, dur) = parse("random garbage", Some(5.0));
    assert_eq!(prog, None);
    assert_eq!(dur, Some(5.0));
}

#[test]
fn duration_is_exact_decimal() {
    let u = parse_ffmpeg_progress("  Duration: 00:00:03.085, start: 0.000000", None);
    assert_eq!(u.duration, Some(d(3.085)));
    assert_eq!(u.out_time_us, None);
}

#[test]
fn position_without_known_duration_reports_nothing() {
    let u = parse_ffmpeg_progress("out_time_ms=123", None);
    assert_eq!(u.out_time_us, None);
    assert_eq!(u.duration, None);
    let u = parse_ffmpeg_progress("out_time_ms=123", Some(Decimal::zero()));
    assert_eq!(u.out_time_us, None);
    assert_eq!(u.duration, Some(Decimal::zero()));
}

#[test]
fn position_beyond_duration_is_capped_by_the_reader() {
    let u = parse_ffmpeg_progress("out_time_ms=99000000", Some(d(10.0)));
    assert_eq!(u.out_time_us, Some(99_000_000));
    assert_eq!(progress_of(&u), Some(1.0));
}

#[test]
fn oversized_position_counts_as_zero() {
    let u = parse_ffmpeg_progress("out_time_ms=99999999999999999999", Some(d(10.0)));
    assert_eq!(u.out_time_us, Some(0));
}

#[test]
fn long_durations_keep_their_leading_digits() {
    let u = parse_ffmpeg_progress("  Duration: 00:00:01.12345678901234567890123, start: 0", None);
    let d = u.duration.unwrap();
    assert_eq!(decimal_string(d), "1.1234567890123456789");
    let u = parse_ffmpeg_progress("  Duration: 99999999999999999999:00:00.00, start: 0", None);
    assert_eq!(decimal_string(u.duration.unwrap()), "359999999999999999900000");
}

#[test]
fn duration_field_grammar() {
    assert_eq!(
        duration_fields("  Duration: 0:1:30.5, start: 0"),
        Some(("0".to_string(), "1".to_string(), "30.5".to_string()))
    );
    assert_eq!(
        duration_fields("Duration: x Duration: 01:02:03.25.7"),
        Some(("01".to_string(), "02".to_string(), "03.25.7".to_string()))
    );
    assert_eq!(duration_fields("Duration: 1:2:"), None);
    assert_eq!(duration_fields("Duration: :2:3"), None);
    assert_eq!(duration_fields("duration: 1:2:3"), None);
    assert_eq!(out_time_field("out_time_ms=1500000"), Some("1500000".to_string()));
    assert_eq!(out_time_field("out_time_ms=N/A out_time_ms=42x"), Some("42".to_string()));
    assert_eq!(out_time_field("out_time_ms="), None);
}

#[test]
fn duration_values_from_fields() {
    assert_eq!(duration_decimal("0", "1", "30.5"), Some(d(90.5)));
    assert_eq!(duration_decimal("1", "0", "0"), Some(d(3600.0)));
    assert_eq!(duration_decimal("0", "0", "1.2.3"), Some(Decimal::zero()));
    let u = parse_ffmpeg_progress("Duration: 0:1:30.5", None);
    assert_eq!(u.duration, Some(d(90.5)));
    assert_eq!(parse_out_time("1500000"), 1500000);
    assert_eq!(parse_out_time("99999999999999999999"), 0);
}
