use tiny_vid_core::ffmpeg::verify::{
    decode_outcome, is_dav1d_unavailable, verify_after_decode, verify_video, DecodeOutcome, VerifyStep,
};

fn first_run(codec: Option<&str>) -> (Vec<String>, bool) {
    match verify_video("/v.mp4", codec) {
        VerifyStep::Run { args, use_dav1d } => (args, use_dav1d),
        VerifyStep::Done(_) => panic!("expected a run"),
    }
}

#[test]
fn av1_is_decoded_with_dav1d() {
    let (args, dav1d) = first_run(Some("libSVTAV1"));
    assert!(dav1d);
    assert_eq!(args, vec!["-v", "error", "-c:v", "libdav1d", "-i", "/v.mp4", "-f", "null", "-"]);
    let (args, dav1d) = first_run(Some("libx264"));
    assert!(!dav1d);
    assert_eq!(args, vec!["-v", "error", "-i", "/v.mp4", "-f", "null", "-"]);
    assert!(!first_run(None).1);
}

#[test]
fn error_text_fails_a_clean_exit() {
    let o = decode_outcome(true, Some(0), "[h264] Error while decoding".to_string());
    assert!(!o.success);
    let o = decode_outcome(true, Some(0), "all good".to_string());
    assert!(o.success);
    let o = decode_outcome(false, None, String::new());
    assert_eq!(o.exit_code, -1);
}

#[test]
fn missing_dav1d_falls_back() {
    assert!(is_dav1d_unavailable("Unknown decoder 'libdav1d'"));
    assert!(is_dav1d_unavailable("No decoder for stream"));
    assert!(!is_dav1d_unavailable("Invalid data"));
    let o = DecodeOutcome { success: false, exit_code: 8, stderr: "Unknown decoder 'libdav1d'".to_string() };
    match verify_after_decode("/v.mp4", true, o) {
        VerifyStep::Run { args, use_dav1d } => {
            assert!(!use_dav1d);
            assert_eq!(args, vec!["-v", "error", "-i", "/v.mp4", "-f", "null", "-"]);
        }
        VerifyStep::Done(_) => panic!("expected a fallback run"),
    }
}

#[test]
fn failure_reports_exit_and_stderr() {
    let o = DecodeOutcome { success: false, exit_code: 1, stderr: "corrupt".to_string() };
    match verify_after_decode("/v.mp4", false, o) {
        VerifyStep::Done(Err(m)) => assert_eq!(m, "Video verification failed (exit 1): corrupt"),
        _ => panic!("expected a failure"),
    }
    let o = DecodeOutcome { success: true, exit_code: 0, stderr: String::new() };
    assert!(matches!(verify_after_decode("/v.mp4", true, o), VerifyStep::Done(Ok(()))));
}
