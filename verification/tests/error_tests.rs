use tiny_vid_core::error::AppError;

#[test]
fn from_aborted_string() {
    let e = AppError::from("Aborted");
    assert!(matches!(e, AppError::Aborted));
}

#[test]
fn from_other_string() {
    let e = AppError::from("some error message");
    match &e {
        AppError::FfmpegFailed { code, stderr } => {
            assert_eq!(*code, -1);
            assert_eq!(stderr, "some error message");
        }
        _ => panic!("expected FfmpegFailed"),
    }
}

#[test]
fn from_str_works() {
    let e: AppError = "Aborted".into();
    assert!(matches!(e, AppError::Aborted));
}

#[test]
fn from_owned_string_classifies_like_str() {
    let e = AppError::from("Aborted".to_string());
    assert!(matches!(e, AppError::Aborted));
    let e = AppError::from("Aborted ".to_string());
    assert!(matches!(e, AppError::FfmpegFailed { code: -1, .. }));
}

#[test]
fn error_messages_follow_display_format() {
    assert_eq!(AppError::aborted().message(), "Aborted");
    assert_eq!(
        AppError::ffmpeg_failed(3, "bad input".to_string()).message(),
        "FFmpeg failed (code 3): bad input"
    );
    assert_eq!(
        AppError::ffmpeg_failed(-7, String::new()).message(),
        "FFmpeg failed (code -7): "
    );
    assert_eq!(AppError::FfmpegNotFound("no ffmpeg".to_string()).message(), "no ffmpeg");
}
