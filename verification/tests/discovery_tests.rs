use tiny_vid_core::error::AppError;
use tiny_vid_core::ffmpeg::discovery::{ffprobe_candidates, get_ffprobe_path, parse_encoder_output};

#[test]
fn ffprobe_candidates_plain_ffmpeg() {
    let candidates = ffprobe_candidates("/usr/bin/ffmpeg", false);
    assert_eq!(candidates.len(), 1);
    assert_eq!(candidates[0], "/usr/bin/ffprobe");
}

#[test]
fn ffprobe_candidates_bundled_suffix_unix() {
    let candidates = ffprobe_candidates("/app/bin/ffmpeg-aarch64-apple-darwin", false);
    assert_eq!(candidates.len(), 2);
    assert_eq!(candidates[0], "/app/bin/ffprobe-aarch64-apple-darwin");
    assert_eq!(candidates[1], "/app/bin/ffprobe");
}

#[test]
fn ffprobe_candidates_bundled_suffix_windows() {
    let candidates = ffprobe_candidates("/app/bin/ffmpeg-x86_64-pc-windows-msvc.exe", true);
    assert_eq!(candidates.len(), 2);
    assert_eq!(candidates[0], "/app/bin/ffprobe-x86_64-pc-windows-msvc.exe");
    assert_eq!(candidates[1], "/app/bin/ffprobe.exe");
}

#[test]
fn parse_ffmpeg_encoders_output() {
    let sample_output = r#"
Encoders:
 V..... libx264              H.264 / AVC / MPEG-4 AVC / MPEG-4 part 10
 V..... libx265              H.265 / HEVC (High Efficiency Video Coding)
 V..... libsvtav1            SVT-AV1(Scalable Video Technology for AV1) encoder
 V..... libvpx-vp9           libvpx VP9
 V..... h264_videotoolbox    VideoToolbox H.264 Encoder
 V..... hevc_videotoolbox    VideoToolbox H.265 Encoder
 V..... mpeg4                MPEG-4 part 2
 A..... aac                  AAC (Advanced Audio Coding)
"#;
    let codecs = parse_encoder_output(sample_output);
    assert_eq!(codecs.len(), 6);
    assert!(codecs.contains(&"libx264".to_string()));
    assert!(codecs.contains(&"h264_videotoolbox".to_string()));
    assert!(!codecs.contains(&"mpeg4".to_string()));
    assert!(!codecs.contains(&"aac".to_string()));
}

#[test]
fn encoders_keep_listing_order() {
    let out = " V..... libvpx-vp9 x\n V..... libx264 y\n";
    assert_eq!(parse_encoder_output(out), vec!["libvpx-vp9", "libx264"]);
}

#[test]
fn ffprobe_path_takes_first_existing_candidate() {
    let p = get_ffprobe_path("/app/bin/ffmpeg-aarch64-apple-darwin", false, &[false, true]).unwrap();
    assert_eq!(p, "/app/bin/ffprobe");
    let p = get_ffprobe_path("/app/bin/ffmpeg-aarch64-apple-darwin", false, &[true, true]).unwrap();
    assert_eq!(p, "/app/bin/ffprobe-aarch64-apple-darwin");
}

#[test]
fn ffprobe_path_missing_names_last_candidate() {
    let err = get_ffprobe_path("/usr/bin/ffmpeg", false, &[false]).err().unwrap();
    match err {
        AppError::FfmpegFailed { stderr, .. } => {
            assert_eq!(stderr, "ffprobe not found at /usr/bin/ffprobe (FFmpeg dir: /usr/bin)")
        }
        _ => panic!("expected a message error"),
    }
}

#[test]
fn ffprobe_missing_existence_entries_count_as_absent() {
    assert!(get_ffprobe_path("/usr/bin/ffmpeg", false, &[]).is_err());
    let p = get_ffprobe_path("/app/bin/ffmpeg-x", false, &[false, true, true]).unwrap();
    assert_eq!(p, "/app/bin/ffprobe");
}
