use tiny_vid_core::codec::{
    codec_table, filter_codecs_for_display, get_build_variant, get_codec_info, supported_codec_names,
};
use tiny_vid_core::error::AppError;

#[test]
fn codec_info_has_correct_metadata() {
    let info = get_codec_info("libx264");
    assert_eq!(info.value, "libx264");
    assert_eq!(info.name, "H.264 (Widest support)");
    assert_eq!(info.formats, vec!["mp4", "mkv"]);
    assert!(info.supports_tune);
    assert_eq!(info.preset_type, "x264");
}

#[test]
fn all_codecs_have_info() {
    for codec in [
        "libx264",
        "libx265",
        "libsvtav1",
        "libvpx-vp9",
        "h264_videotoolbox",
        "hevc_videotoolbox",
    ] {
        let info = get_codec_info(codec);
        assert!(!info.value.is_empty());
        assert!(!info.name.is_empty());
    }
}

#[test]
fn get_codec_info_returns_correct_formats() {
    let x264 = get_codec_info("libx264");
    assert_eq!(x264.formats, vec!["mp4", "mkv"]);

    let av1 = get_codec_info("libsvtav1");
    assert_eq!(av1.formats, vec!["mp4", "webm", "mkv"]);

    let vp9 = get_codec_info("libvpx-vp9");
    assert_eq!(vp9.formats, vec!["webm", "mkv"]);
}

#[test]
fn get_codec_info_preset_types() {
    assert_eq!(get_codec_info("libx264").preset_type, "x264");
    assert_eq!(get_codec_info("libx265").preset_type, "x265");
    assert_eq!(get_codec_info("libsvtav1").preset_type, "av1");
    assert_eq!(get_codec_info("h264_videotoolbox").preset_type, "vt");
}

#[test]
fn filter_codecs_hides_videotoolbox_when_non_vt_available() {
    let available = vec![
        "libx264".to_string(),
        "h264_videotoolbox".to_string(),
        "hevc_videotoolbox".to_string(),
    ];
    let filtered = filter_codecs_for_display(&available);
    assert_eq!(filtered, vec!["libx264"]);
}

#[test]
fn codec_table_matches_supported_codec_names() {
    let table = codec_table();
    let table_names: Vec<&str> = table.iter().map(|r| r.value.as_str()).collect();
    let supported = supported_codec_names();
    assert_eq!(
        table_names.len(),
        supported.len(),
        "CODEC_TABLE and SUPPORTED_CODEC_NAMES should have same length"
    );
    for name in &supported {
        assert!(
            table_names.contains(&name.as_str()),
            "SUPPORTED_CODEC_NAMES includes {} but CODEC_TABLE does not",
            name
        );
    }
}

#[test]
fn filter_codecs_keeps_videotoolbox_when_only_vt_available() {
    let available = vec![
        "h264_videotoolbox".to_string(),
        "hevc_videotoolbox".to_string(),
    ];
    let filtered = filter_codecs_for_display(&available);
    assert_eq!(filtered.len(), 2);
    assert!(filtered.contains(&"h264_videotoolbox".to_string()));
    assert!(filtered.contains(&"hevc_videotoolbox".to_string()));
}

#[test]
fn other_codecs_info_values() {
    let h265 = get_codec_info("libx265");
    assert_eq!(h265.name, "H.265 (Smaller files)");
    assert!(!h265.supports_tune);
    let vt = get_codec_info("hevc_videotoolbox");
    assert_eq!(vt.name, "H.265 (VideoToolbox)");
    assert_eq!(vt.formats, vec!["mp4", "mkv"]);
    assert_eq!(vt.preset_type, "vt");
    assert_eq!(get_codec_info("libvpx-vp9").name, "VP9 (Browser-friendly WebM)");
}

#[test]
fn build_variant_lists_display_codecs_in_order() {
    let available = vec![
        "h264_videotoolbox".to_string(),
        "libvpx-vp9".to_string(),
        "libx264".to_string(),
    ];
    let v = get_build_variant(available).unwrap();
    assert_eq!(v.variant, "standalone");
    let names: Vec<&str> = v.codecs.iter().map(|c| c.value.as_str()).collect();
    assert_eq!(names, vec!["libvpx-vp9", "libx264"]);
}

#[test]
fn build_variant_without_codecs_is_an_error() {
    let err = get_build_variant(Vec::new()).err().unwrap();
    match err {
        AppError::FfmpegFailed { code, stderr } => {
            assert_eq!(code, -1);
            assert_eq!(
                stderr,
                "No supported video codecs found in FFmpeg. Please ensure FFmpeg is properly installed with codec support."
            );
        }
        _ => panic!("expected a message error"),
    }
}

#[test]
fn display_filter_twice_is_filter_once() {
    let lists: [&[&str]; 3] = [
        &["h264_videotoolbox", "libx264", "hevc_videotoolbox", "libsvtav1"],
        &["h264_videotoolbox", "hevc_videotoolbox"],
        &[],
    ];
    for l in lists {
        let v: Vec<String> = l.iter().map(|s| s.to_string()).collect();
        let once = filter_codecs_for_display(&v);
        assert_eq!(filter_codecs_for_display(&once), once);
    }
}
