use tiny_vid_core::decimal::{parse_decimal, Decimal};
use tiny_vid_core::ffmpeg::options::{estimate_cache_version_text, RateControlMode, TranscodeOptions};

fn d(x: f64) -> Decimal {
    parse_decimal(&x.to_string()).unwrap()
}

#[test]
fn mod_estimate_cache_key_includes_output_format() {
    let mut opts_a = TranscodeOptions::default();
    opts_a.output_format = Some("mp4".into());
    let mut opts_b = TranscodeOptions::default();
    opts_b.output_format = Some("webm".into());

    assert_ne!(
        opts_a.options_cache_key_for_estimate(),
        opts_b.options_cache_key_for_estimate()
    );
}

#[test]
fn mod_estimate_cache_key_is_versioned() {
    let opts = TranscodeOptions::default();
    let key = opts.options_cache_key_for_estimate();
    assert!(
        key.starts_with(estimate_cache_version_text()),
        "estimate cache key should be prefixed with version token"
    );
}

#[test]
fn defaults_are_the_documented_ones() {
    let o = TranscodeOptions::default();
    assert_eq!(o.effective_codec(), "libx264");
    assert_eq!(o.effective_quality(), 75);
    assert_eq!(o.effective_scale(), d(1.0));
    assert_eq!(o.effective_fps(), d(30.0));
    assert!(!o.effective_remove_audio());
    assert_eq!(o.effective_preset(), "fast");
    assert_eq!(o.effective_tune(), None);
    assert_eq!(o.effective_output_format(), "mp4");
    assert_eq!(o.effective_rate_control_mode(), RateControlMode::Quality);
    assert_eq!(o.effective_preview_duration(), 3);
    assert_eq!(o.effective_audio_bitrate(), 128);
    assert_eq!(o.effective_audio_stream_count(), 1);
    assert_eq!(o.effective_subtitle_stream_count(), 0);
}

#[test]
fn preview_key_ignores_output_format_but_estimate_key_does_not() {
    let mut a = TranscodeOptions::default();
    a.output_format = Some("mp4".into());
    let mut b = TranscodeOptions::default();
    b.output_format = Some("mkv".into());
    assert_eq!(a.options_cache_key_for_preview(), b.options_cache_key_for_preview());
    assert_ne!(a.options_cache_key_for_estimate(), b.options_cache_key_for_estimate());
}

#[test]
fn cache_keys_separate_presets() {
    let mut a = TranscodeOptions::default();
    a.preset = Some("p1".into());
    let mut b = TranscodeOptions::default();
    b.preset = Some("p2".into());
    assert_ne!(a.options_cache_key(), b.options_cache_key());
    assert_ne!(a.options_cache_key_for_preview(), b.options_cache_key_for_preview());
}

#[test]
fn target_size_audio_stream_counts() {
    let mut o = TranscodeOptions::default();
    assert_eq!(o.target_size_audio_streams(), 1);
    o.audio_stream_count = Some(3);
    assert_eq!(o.target_size_audio_streams(), 1);
    o.preserve_additional_audio_streams = Some(true);
    assert_eq!(o.target_size_audio_streams(), 3);
    o.audio_stream_count = Some(0);
    assert_eq!(o.target_size_audio_streams(), 0);
    o.audio_stream_count = Some(2);
    o.remove_audio = Some(true);
    assert_eq!(o.target_size_audio_streams(), 0);
}
