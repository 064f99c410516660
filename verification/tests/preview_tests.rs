use tiny_vid_core::decimal::{parse_decimal, Decimal};
use tiny_vid_core::ffmpeg::options::TranscodeOptions;
use tiny_vid_core::ffmpeg::builder::{build_extract_args, build_ffmpeg_command};
use tiny_vid_core::preview::{
    estimate_step_count, original_preview_options, plan_preview_segment, preview_original_transcode_codec,
    preview_transcode_command, preview_transcode_options, source_segment_command, source_step, SegmentSource, SourceStep, TempCleanup,
    PREVIEW_STEPS,
};

fn d(x: f64) -> Decimal {
    parse_decimal(&x.to_string()).unwrap()
}

#[test]
fn step_counts() {
    assert_eq!(PREVIEW_STEPS, 2);
    assert_eq!(estimate_step_count(3), 6);
    assert_eq!(estimate_step_count(0), 0);
}

#[test]
fn preview_encodes_drop_audio_only() {
    let mut o = TranscodeOptions::default();
    o.preset = Some("slow".into());
    o.remove_audio = Some(false);
    let p = preview_transcode_options(&o);
    assert_eq!(p.remove_audio, Some(true));
    assert_eq!(p.preset.as_deref(), Some("slow"));
    assert_eq!(p.codec.as_deref(), Some("libx264"));
}

#[test]
fn source_side_options() {
    assert_eq!(preview_original_transcode_codec(), "libx264");
    let o = original_preview_options(false, Some(d(23.976)));
    assert_eq!(o.codec.as_deref(), Some("libx264"));
    assert_eq!(o.quality, Some(90));
    assert_eq!(o.preset.as_deref(), Some("fast"));
    assert_eq!(o.output_format.as_deref(), Some("mp4"));
    assert_eq!(o.remove_audio, Some(true));
    assert_eq!(o.scale, None);
    assert_eq!(o.fps, Some(d(23.976)));
    assert_eq!(original_preview_options(true, Some(d(0.0))).fps, Some(d(30.0)));
    assert_eq!(original_preview_options(true, None).fps, Some(d(30.0)));
}

#[test]
fn temp_cleanup_removes_unless_kept() {
    let mut c = TempCleanup::new();
    c.add("/tmp/a".to_string());
    c.add("/tmp/b".to_string());
    assert_eq!(c.paths_to_remove(), vec!["/tmp/a".to_string(), "/tmp/b".to_string()]);
    c.keep();
    assert!(c.paths_to_remove().is_empty());
}

#[test]
fn stream_copy_source_is_extracted() {
    match source_segment_command("/in.mp4", true, d(2.5), d(3.0), None, "/seg.mp4") {
        SegmentSource::Extract { args, path } => {
            assert_eq!(path, "/seg.mp4");
            assert_eq!(args, build_extract_args("/in.mp4", d(2.5), d(3.0), "/seg.mp4"));
            assert!(args.contains(&"copy".to_string()));
            assert_eq!(args.last().map(String::as_str), Some("/seg.mp4"));
        }
        _ => panic!("expected an extract command"),
    }
}

#[test]
fn other_sources_are_transcoded_to_h264() {
    match source_segment_command("/in.mkv", false, d(1.0), d(3.0), Some(d(25.0)), "/seg.mp4") {
        SegmentSource::TranscodeOriginal { args, path } => {
            assert_eq!(path, "/seg.mp4");
            let o = original_preview_options(true, Some(d(25.0)));
            let expected =
                build_ffmpeg_command("/in.mkv", "/seg.mp4", &o, Some(d(3.0)), Some("mp4"), Some(d(1.0))).unwrap();
            assert_eq!(args, expected);
            assert!(args.contains(&"libx264".to_string()));
            assert!(args.contains(&"-an".to_string()));
            assert!(!args.contains(&"copy".to_string()));
        }
        _ => panic!("expected a transcode command"),
    }
}

#[test]
fn cached_segments_are_reused() {
    let cached = vec!["/a.mp4".to_string()];
    match plan_preview_segment(Some(cached.clone()), "/in.mp4", true, d(0.0), d(3.0), None, "/seg.mp4") {
        SegmentSource::Cached(v) => assert_eq!(v, cached),
        _ => panic!("expected the cached segments"),
    }
    assert!(matches!(
        plan_preview_segment(None, "/in.mp4", true, d(0.0), d(3.0), None, "/seg.mp4"),
        SegmentSource::Extract { .. }
    ));
}

#[test]
fn preview_encode_is_mp4_without_audio() {
    let mut o = TranscodeOptions::default();
    o.output_format = Some("webm".into());
    o.remove_audio = Some(false);
    let args = preview_transcode_command("/seg.mp4", "/out.mp4", &o);
    let expected =
        build_ffmpeg_command("/seg.mp4", "/out.mp4", &preview_transcode_options(&o), None, Some("mp4"), None).unwrap();
    assert_eq!(args, expected);
    assert!(args.contains(&"-an".to_string()));
    assert_eq!(args.last().map(String::as_str), Some("/out.mp4"));
}

#[test]
fn failed_stream_copy_is_retried_as_transcode() {
    let plan = source_segment_command("/in.mp4", true, d(0.0), d(3.0), None, "/seg.mp4");
    match source_step(plan, false) {
        SourceStep::RetryAsTranscode { discard } => assert_eq!(discard, "/seg.mp4"),
        _ => panic!("expected a retry"),
    }
    let plan = source_segment_command("/in.mp4", false, d(0.0), d(3.0), None, "/seg2.mp4");
    match source_step(plan, false) {
        SourceStep::Fail { discard } => assert_eq!(discard, "/seg2.mp4"),
        _ => panic!("expected a failure"),
    }
    let plan = source_segment_command("/in.mp4", false, d(0.0), d(3.0), None, "/seg3.mp4");
    match source_step(plan, true) {
        SourceStep::Ready { paths, created } => {
            assert_eq!(paths, vec!["/seg3.mp4".to_string()]);
            assert!(created);
        }
        _ => panic!("expected ready"),
    }
    match source_step(SegmentSource::Cached(vec!["/a.mp4".to_string()]), false) {
        SourceStep::Ready { paths, created } => {
            assert_eq!(paths, vec!["/a.mp4".to_string()]);
            assert!(!created);
        }
        _ => panic!("expected the cached segments"),
    }
}
