use tiny_vid_core::decimal::{parse_decimal, Decimal};
use tiny_vid_core::ffmpeg::builder::{build_extract_args, build_ffmpeg_command, map_linear_crf, supports_two_pass_codec};
use tiny_vid_core::ffmpeg::options::TranscodeOptions;

fn d(x: f64) -> Decimal {
    parse_decimal(&x.to_string()).unwrap()
}

fn opts() -> TranscodeOptions {
    TranscodeOptions::default()
}

#[test]
fn build_extract_args_includes_faststart_and_avoid_negative_ts() {
    let args = build_extract_args("/in.mkv", d(0.0), d(3.0), "/out.mp4");
    assert!(args.contains(&"-movflags".to_string()));
    assert!(args.contains(&"+faststart".to_string()));
    assert!(args.contains(&"-avoid_negative_ts".to_string()));
    assert!(args.contains(&"make_zero".to_string()));
    assert!(args.contains(&"-c".to_string()));
    assert!(args.contains(&"copy".to_string()));
}

#[test]
fn default_options_produces_expected_args() {
    let args = build_ffmpeg_command("/in.mp4", "/out.mp4", &opts(), None, None, None).unwrap();
    assert!(args.contains(&"-i".to_string()));
    assert!(args.contains(&"/in.mp4".to_string()));
    assert!(args.iter().any(|a| a == "-c:v"));
    assert!(args.contains(&"libx264".to_string()));
    assert!(args.contains(&"-preset".to_string()));
    assert!(args.contains(&"fast".to_string()));
    assert!(args.contains(&"-r".to_string()));
    assert!(args.contains(&"30".to_string()));
    assert!(args.contains(&"-movflags".to_string()));
    assert!(args.contains(&"+faststart".to_string()));
    assert!(args.last() == Some(&"/out.mp4".to_string()));
}

#[test]
fn scale_below_one_adds_scale_filter() {
    let mut o = opts();
    o.scale = Some(d(0.5));
    let args = build_ffmpeg_command("/in.mp4", "/out.mp4", &o, None, None, None).unwrap();
    assert!(args.contains(&"-vf".to_string()));
    let vf_idx = args.iter().position(|a| a == "-vf").unwrap();
    assert_eq!(
        args.get(vf_idx + 1).unwrap(),
        "scale=round(iw*0.5/2)*2:-2"
    );
}

#[test]
fn remove_audio_adds_an() {
    let mut o = opts();
    o.remove_audio = Some(true);
    let args = build_ffmpeg_command("/in.mp4", "/out.mp4", &o, None, None, None).unwrap();
    assert!(args.contains(&"-an".to_string()));
    assert!(!args.iter().any(|a| a == "-c:a"));
}

#[test]
fn h264_quality_maps_to_crf() {
    let mut o = opts();
    o.quality = Some(0);
    o.codec = Some("libx264".to_string());
    let args = build_ffmpeg_command("/in.mp4", "/out.mp4", &o, None, None, None).unwrap();
    let crf_idx = args.iter().position(|a| a == "-crf").unwrap();
    assert_eq!(args.get(crf_idx + 1).unwrap(), "51");
}

#[test]
fn h265_quality_uses_different_crf_range() {
    let mut o = opts();
    o.quality = Some(100);
    o.codec = Some("libx265".to_string());
    let args = build_ffmpeg_command("/in.mp4", "/out.mp4", &o, None, None, None).unwrap();
    let crf_idx = args.iter().position(|a| a == "-crf").unwrap();
    assert_eq!(args.get(crf_idx + 1).unwrap(), "28");
}

#[test]
fn h265_adds_hvc1_tag_for_quicktime() {
    let mut o = opts();
    o.codec = Some("libx265".to_string());
    let args = build_ffmpeg_command("/in.mp4", "/out.mp4", &o, None, None, None).unwrap();
    assert!(args.contains(&"-tag:v".to_string()));
    let tag_idx = args.iter().position(|a| a == "-tag:v").unwrap();
    assert_eq!(args.get(tag_idx + 1).unwrap(), "hvc1");
}

#[test]
fn svtav1_preset_map() {
    let mut o = opts();
    o.codec = Some("libsvtav1".to_string());
    o.preset = Some("ultrafast".to_string());
    let args = build_ffmpeg_command("/in.mp4", "/out.mp4", &o, None, None, None).unwrap();
    assert!(args.contains(&"-preset".to_string()));
    let preset_idx = args.iter().position(|a| a == "-preset").unwrap();
    assert_eq!(args.get(preset_idx + 1).unwrap(), "12");
}

#[test]
fn max_bitrate_adds_maxrate_and_bufsize() {
    let mut o = opts();
    o.max_bitrate = Some(2000);
    let args = build_ffmpeg_command("/in.mp4", "/out.mp4", &o, None, None, None).unwrap();
    assert!(args.contains(&"-maxrate".to_string()));
    assert!(args.contains(&"-bufsize".to_string()));
    let maxrate_idx = args.iter().position(|a| a == "-maxrate").unwrap();
    assert_eq!(args.get(maxrate_idx + 1).unwrap(), "2000k");
    let bufsize_idx = args.iter().position(|a| a == "-bufsize").unwrap();
    assert_eq!(args.get(bufsize_idx + 1).unwrap(), "4000k");
}

#[test]
fn svtav1_quality_uses_linear_range() {
    let mut o = opts();
    o.codec = Some("libsvtav1".to_string());
    o.quality = Some(0);
    let args = build_ffmpeg_command("/in.mp4", "/out.mp4", &o, None, None, None).unwrap();
    let crf_idx = args.iter().position(|a| a == "-crf").unwrap();
    assert_eq!(args.get(crf_idx + 1).unwrap(), "63");
    o.quality = Some(100);
    let args = build_ffmpeg_command("/in.mp4", "/out.mp4", &o, None, None, None).unwrap();
    let crf_idx = args.iter().position(|a| a == "-crf").unwrap();
    assert_eq!(args.get(crf_idx + 1).unwrap(), "24");
}

#[test]
fn quality_75_maps_to_different_crf_per_codec() {
    let mut o = opts();
    o.quality = Some(75);
    o.codec = Some("libx264".to_string());
    let args_h264 = build_ffmpeg_command("/in.mp4", "/out.mp4", &o, None, None, None).unwrap();
    o.codec = Some("libsvtav1".to_string());
    let args_av1 = build_ffmpeg_command("/in.mp4", "/out.mp4", &o, None, None, None).unwrap();
    let crf_idx_h264 = args_h264.iter().position(|a| a == "-crf").unwrap();
    let crf_idx_av1 = args_av1.iter().position(|a| a == "-crf").unwrap();
    assert_eq!(args_h264.get(crf_idx_h264 + 1).unwrap(), "30");
    assert_eq!(args_av1.get(crf_idx_av1 + 1).unwrap(), "34");
}

#[test]
fn tune_added_for_x264() {
    let mut o = opts();
    o.tune = Some("film".to_string());
    let args = build_ffmpeg_command("/in.mp4", "/out.mp4", &o, None, None, None).unwrap();
    assert!(args.contains(&"-tune".to_string()));
    let tune_idx = args.iter().position(|a| a == "-tune").unwrap();
    assert_eq!(args.get(tune_idx + 1).unwrap(), "film");
}

#[test]
fn tune_skipped_for_svtav1() {
    let mut o = opts();
    o.codec = Some("libsvtav1".to_string());
    o.tune = Some("film".to_string());
    let args = build_ffmpeg_command("/in.mp4", "/out.mp4", &o, None, None, None).unwrap();
    assert!(!args.contains(&"-tune".to_string()));
}

#[test]
fn svtav1_adds_pix_fmt_and_av01_tag() {
    let mut o = opts();
    o.codec = Some("libsvtav1".to_string());
    let args = build_ffmpeg_command("/in.mp4", "/out.mp4", &o, None, None, None).unwrap();
    assert!(args.contains(&"-pix_fmt".to_string()));
    let pix_idx = args.iter().position(|a| a == "-pix_fmt").unwrap();
    assert_eq!(args.get(pix_idx + 1).unwrap(), "yuv420p");
    assert!(args.contains(&"-tag:v".to_string()));
    let tag_idx = args.iter().position(|a| a == "-tag:v").unwrap();
    assert_eq!(args.get(tag_idx + 1).unwrap(), "av01");
}

#[test]
fn tune_none_omitted() {
    let o = opts();
    let args = build_ffmpeg_command("/in.mp4", "/out.mp4", &o, None, None, None).unwrap();
    assert!(!args.contains(&"-tune".to_string()));
}

#[test]
fn svtav1_preset_map_all_entries() {
    let presets = [
        ("superfast", "11"),
        ("veryfast", "10"),
        ("faster", "9"),
        ("fast", "8"),
        ("medium", "6"),
        ("slow", "4"),
    ];
    for (preset_name, expected) in presets {
        let mut o = opts();
        o.codec = Some("libsvtav1".to_string());
        o.preset = Some(preset_name.to_string());
        let args = build_ffmpeg_command("/in.mp4", "/out.mp4", &o, None, None, None).unwrap();
        let preset_idx = args.iter().position(|a| a == "-preset").unwrap();
        assert_eq!(
            args.get(preset_idx + 1).unwrap(),
            expected,
            "preset {} should map to {}",
            preset_name,
            expected
        );
    }
}

#[test]
fn svtav1_unknown_preset_fallback() {
    let mut o = opts();
    o.codec = Some("libsvtav1".to_string());
    o.preset = Some("veryslow".to_string());
    let args = build_ffmpeg_command("/in.mp4", "/out.mp4", &o, None, None, None).unwrap();
    let preset_idx = args.iter().position(|a| a == "-preset").unwrap();
    assert_eq!(args.get(preset_idx + 1).unwrap(), "8");
}

#[test]
fn custom_fps_passthrough() {
    let mut o = opts();
    o.fps = Some(d(24.0));
    let args = build_ffmpeg_command("/in.mp4", "/out.mp4", &o, None, None, None).unwrap();
    let r_idx = args.iter().position(|a| a == "-r").unwrap();
    assert_eq!(args.get(r_idx + 1).unwrap(), "24");
    o.fps = Some(d(60.0));
    let args = build_ffmpeg_command("/in.mp4", "/out.mp4", &o, None, None, None).unwrap();
    let r_idx = args.iter().position(|a| a == "-r").unwrap();
    assert_eq!(args.get(r_idx + 1).unwrap(), "60");
}

#[test]
fn scale_one_no_vf() {
    let mut o = opts();
    o.scale = Some(d(1.0));
    let args = build_ffmpeg_command("/in.mp4", "/out.mp4", &o, None, None, None).unwrap();
    assert!(!args.contains(&"-vf".to_string()));
}

#[test]
fn webm_uses_libopus_no_movflags() {
    let mut o = opts();
    o.codec = Some("libsvtav1".to_string());
    o.output_format = Some("webm".to_string());
    o.remove_audio = Some(false);
    let args = build_ffmpeg_command("/in.mp4", "/out.webm", &o, None, None, None).unwrap();
    assert!(args.contains(&"libopus".to_string()));
    assert!(args.contains(&"-ac".to_string()), "WebM+Opus should downmix to stereo (-ac 2)");
    assert!(!args.contains(&"-movflags".to_string()));
    assert!(args.last() == Some(&"/out.webm".to_string()));
}

#[test]
fn webm_no_audio_uses_an() {
    let mut o = opts();
    o.codec = Some("libsvtav1".to_string());
    o.output_format = Some("webm".to_string());
    o.remove_audio = Some(true);
    let args = build_ffmpeg_command("/in.mp4", "/out.webm", &o, None, None, None).unwrap();
    assert!(args.contains(&"-an".to_string()));
    assert!(!args.contains(&"-ac".to_string()), "No audio: -an, not -ac");
    assert!(!args.contains(&"-movflags".to_string()));
}

#[test]
fn vp9_uses_deadline_cpu_used_bv0() {
    let mut o = opts();
    o.codec = Some("libvpx-vp9".to_string());
    o.output_format = Some("webm".to_string());
    o.preset = Some("fast".to_string());
    let args = build_ffmpeg_command("/in.mp4", "/out.webm", &o, None, None, None).unwrap();
    assert!(args.contains(&"libvpx-vp9".to_string()));
    assert!(args.contains(&"-deadline".to_string()));
    assert!(args.contains(&"-cpu-used".to_string()));
    assert!(args.contains(&"-b:v".to_string()));
    let bv_idx = args.iter().position(|a| a == "-b:v").unwrap();
    assert_eq!(args.get(bv_idx + 1).unwrap(), "0");
    assert!(!args.contains(&"-preset".to_string()));
    assert!(args.contains(&"libopus".to_string()));
}

#[test]
fn vp9_quality_maps_to_crf() {
    let mut o = opts();
    o.codec = Some("libvpx-vp9".to_string());
    o.output_format = Some("webm".to_string());
    o.quality = Some(0);
    let args = build_ffmpeg_command("/in.mp4", "/out.webm", &o, None, None, None).unwrap();
    let crf_idx = args.iter().position(|a| a == "-crf").unwrap();
    assert_eq!(args.get(crf_idx + 1).unwrap(), "63", "quality 0 -> worst CRF");
    o.quality = Some(100);
    let args2 = build_ffmpeg_command("/in.mp4", "/out.webm", &o, None, None, None).unwrap();
    let crf_idx2 = args2.iter().position(|a| a == "-crf").unwrap();
    assert_eq!(args2.get(crf_idx2 + 1).unwrap(), "20", "quality 100 -> best CRF");
}

#[test]
fn h264_videotoolbox_uses_qv_not_crf() {
    let mut o = opts();
    o.codec = Some("h264_videotoolbox".to_string());
    o.quality = Some(75);
    let args = build_ffmpeg_command("/in.mp4", "/out.mp4", &o, None, None, None).unwrap();
    assert!(args.contains(&"-q:v".to_string()), "VideoToolbox should use -q:v");
    let qv_idx = args.iter().position(|a| a == "-q:v").unwrap();
    assert_eq!(args.get(qv_idx + 1).unwrap(), "75", "quality 75 -> -q:v 75");
    assert!(!args.contains(&"-crf".to_string()), "VideoToolbox should not use -crf");
}

#[test]
fn h264_videotoolbox_no_preset_no_tune() {
    let mut o = opts();
    o.codec = Some("h264_videotoolbox".to_string());
    o.preset = Some("fast".to_string());
    o.tune = Some("film".to_string());
    let args = build_ffmpeg_command("/in.mp4", "/out.mp4", &o, None, None, None).unwrap();
    assert!(!args.contains(&"-preset".to_string()), "VideoToolbox should not use -preset");
    assert!(!args.contains(&"-tune".to_string()), "VideoToolbox should not use -tune");
}

#[test]
fn videotoolbox_quality_100_is_qv_100() {
    let mut o = opts();
    o.codec = Some("h264_videotoolbox".to_string());
    o.quality = Some(100);
    let args = build_ffmpeg_command("/in.mp4", "/out.mp4", &o, None, None, None).unwrap();
    let qv_idx = args.iter().position(|a| a == "-q:v").unwrap();
    assert_eq!(args.get(qv_idx + 1).unwrap(), "100", "quality 100 -> -q:v 100 (best)");
}

#[test]
fn videotoolbox_quality_0_is_qv_0() {
    let mut o = opts();
    o.codec = Some("h264_videotoolbox".to_string());
    o.quality = Some(0);
    let args = build_ffmpeg_command("/in.mp4", "/out.mp4", &o, None, None, None).unwrap();
    let qv_idx = args.iter().position(|a| a == "-q:v").unwrap();
    assert_eq!(args.get(qv_idx + 1).unwrap(), "0", "quality 0 -> -q:v 0 (worst)");
}

#[test]
fn mkv_uses_aac_no_movflags() {
    let mut o = opts();
    o.output_format = Some("mkv".to_string());
    o.codec = Some("libx264".to_string());
    o.remove_audio = Some(false);
    let args = build_ffmpeg_command("/in.mp4", "/out.mkv", &o, None, None, None).unwrap();
    assert!(args.contains(&"aac".to_string()));
    assert!(!args.contains(&"-movflags".to_string()));
    assert!(args.last() == Some(&"/out.mkv".to_string()));
}

#[test]
fn mkv_vp9_uses_opus() {
    let mut o = opts();
    o.output_format = Some("mkv".to_string());
    o.codec = Some("libvpx-vp9".to_string());
    o.remove_audio = Some(false);
    let args = build_ffmpeg_command("/in.mp4", "/out.mkv", &o, None, None, None).unwrap();
    assert!(args.contains(&"libopus".to_string()));
    assert!(!args.contains(&"-movflags".to_string()));
}

#[test]
fn preserve_additional_audio_streams_adds_map_and_per_track_codec() {
    let mut o = opts();
    o.preserve_additional_audio_streams = Some(true);
    o.audio_stream_count = Some(3);
    o.remove_audio = Some(false);
    o.output_format = Some("mp4".to_string());
    let args = build_ffmpeg_command("/in.mkv", "/out.mp4", &o, None, None, None).unwrap();
    assert!(args.contains(&"-map".to_string()));
    assert!(args.contains(&"0:v".to_string()));
    assert!(args.contains(&"0:a:0".to_string()));
    assert!(args.contains(&"0:a:1".to_string()));
    assert!(args.contains(&"0:a:2".to_string()));
    assert!(args.contains(&"-c:a:0".to_string()));
    assert!(args.contains(&"-c:a:1".to_string()));
    assert!(args.contains(&"-c:a:2".to_string()));
    assert!(args.contains(&"aac".to_string()));
}

#[test]
fn preserve_additional_audio_streams_ignored_for_preview() {
    let mut o = opts();
    o.preserve_additional_audio_streams = Some(true);
    o.audio_stream_count = Some(3);
    o.remove_audio = Some(false);
    let args = build_ffmpeg_command(
        "/in.mkv",
        "/out.mp4",
        &o,
        Some(d(3.0)),
        Some("mp4"),
        None,
    )
    .unwrap();
    assert!(!args.contains(&"0:a:1".to_string()), "Preview uses single audio");
}

#[test]
fn preserve_additional_audio_streams_ignored_for_webm() {
    let mut o = opts();
    o.preserve_additional_audio_streams = Some(true);
    o.audio_stream_count = Some(3);
    o.remove_audio = Some(false);
    o.output_format = Some("webm".to_string());
    o.codec = Some("libvpx-vp9".to_string());
    let args = build_ffmpeg_command("/in.mkv", "/out.webm", &o, None, None, None).unwrap();
    assert!(!args.contains(&"0:a:1".to_string()), "WebM supports single audio only");
}

#[test]
fn mkv_vp9_preserve_additional_audio_streams_downmixes_each_track() {
    let mut o = opts();
    o.preserve_additional_audio_streams = Some(true);
    o.audio_stream_count = Some(2);
    o.remove_audio = Some(false);
    o.output_format = Some("mkv".to_string());
    o.codec = Some("libvpx-vp9".to_string());
    let args = build_ffmpeg_command("/in.mkv", "/out.mkv", &o, None, None, None).unwrap();
    assert!(args.contains(&"-ac:a:0".to_string()));
    assert!(args.contains(&"-ac:a:1".to_string()));
    let ac0_idx = args.iter().position(|a| a == "-ac:a:0").unwrap();
    let ac1_idx = args.iter().position(|a| a == "-ac:a:1").unwrap();
    assert_eq!(args.get(ac0_idx + 1).unwrap(), "2");
    assert_eq!(args.get(ac1_idx + 1).unwrap(), "2");
}

#[test]
fn hevc_videotoolbox_same_as_h264_vt() {
    let mut o = opts();
    o.codec = Some("hevc_videotoolbox".to_string());
    o.quality = Some(50);
    o.preset = Some("fast".to_string());
    o.tune = Some("film".to_string());
    let args = build_ffmpeg_command("/in.mp4", "/out.mp4", &o, None, None, None).unwrap();
    assert!(args.contains(&"-q:v".to_string()));
    assert!(!args.contains(&"-preset".to_string()));
    assert!(!args.contains(&"-tune".to_string()));
    assert!(args.contains(&"-tag:v".to_string()));
    let tag_idx = args.iter().position(|a| a == "-tag:v").unwrap();
    assert_eq!(args.get(tag_idx + 1).unwrap(), "hvc1");
}

#[test]
fn audio_bitrate_used_in_args() {
    let mut o = opts();
    o.audio_bitrate = Some(192);
    o.remove_audio = Some(false);
    let args = build_ffmpeg_command("/in.mp4", "/out.mp4", &o, None, None, None).unwrap();
    let ba_idx = args.iter().position(|a| a == "-b:a").unwrap();
    assert_eq!(args.get(ba_idx + 1).unwrap(), "192k");
}

#[test]
fn downmix_to_stereo_adds_ac() {
    let mut o = opts();
    o.downmix_to_stereo = Some(true);
    o.remove_audio = Some(false);
    o.output_format = Some("mp4".to_string());
    let args = build_ffmpeg_command("/in.mp4", "/out.mp4", &o, None, None, None).unwrap();
    assert!(args.contains(&"-ac".to_string()));
    let ac_idx = args.iter().position(|a| a == "-ac").unwrap();
    assert_eq!(args.get(ac_idx + 1).unwrap(), "2");
}

#[test]
fn preserve_subtitles_adds_map_s() {
    let mut o = opts();
    o.preserve_subtitles = Some(true);
    o.subtitle_stream_count = Some(2);
    o.remove_audio = Some(false);
    let args = build_ffmpeg_command("/in.mkv", "/out.mp4", &o, None, None, None).unwrap();
    assert!(args.contains(&"-map".to_string()));
    assert!(args.contains(&"0:s?".to_string()));
}

#[test]
fn audio_passthrough_uses_copy() {
    let mut o = opts();
    o.audio_codec_name = Some("aac".to_string());
    o.audio_channels = Some(2);
    o.remove_audio = Some(false);
    let args = build_ffmpeg_command("/in.mp4", "/out.mp4", &o, None, None, None).unwrap();
    assert!(args.contains(&"-c:a".to_string()));
    let ca_idx = args.iter().position(|a| a == "-c:a").unwrap();
    assert_eq!(args.get(ca_idx + 1).unwrap(), "copy");
}

#[test]
fn preserve_metadata_adds_map_metadata() {
    let mut o = opts();
    o.preserve_metadata = Some(true);
    let args = build_ffmpeg_command("/in.mp4", "/out.mp4", &o, None, None, None).unwrap();
    assert!(args.contains(&"-map_metadata".to_string()));
    let mm_idx = args.iter().position(|a| a == "-map_metadata").unwrap();
    assert_eq!(args.get(mm_idx + 1).unwrap(), "0");
}

#[test]
fn two_pass_codecs_are_x264_x265_and_vp9() {
    assert!(supports_two_pass_codec("libx264"));
    assert!(supports_two_pass_codec("libx265"));
    assert!(supports_two_pass_codec("libvpx-vp9"));
    assert!(!supports_two_pass_codec("libsvtav1"));
    assert!(!supports_two_pass_codec("h264_videotoolbox"));
    assert!(!supports_two_pass_codec(""));
}

#[test]
fn kept_subtitles_map_first_audio_optionally() {
    let mut o = opts();
    o.preserve_subtitles = Some(true);
    o.subtitle_stream_count = Some(1);
    o.remove_audio = Some(false);
    let args = build_ffmpeg_command("/in.mkv", "/out.mkv", &o, None, None, None).unwrap();
    assert!(args.contains(&"0:a:0?".to_string()));
    assert!(args.contains(&"0:s?".to_string()));
    assert!(!args.contains(&"0:s".to_string()));
}

#[test]
fn crf_falls_linearly_with_quality() {
    assert_eq!(map_linear_crf(0, 23, 51), 51);
    assert_eq!(map_linear_crf(100, 23, 51), 23);
    assert_eq!(map_linear_crf(250, 20, 63), 20);
    assert_eq!(map_linear_crf(50, 23, 51), 37);
    assert!(map_linear_crf(60, 28, 51) <= map_linear_crf(40, 28, 51));
    assert_eq!(map_linear_crf(50, 100, 4_000_000_000), 2_000_000_050);
}

#[test]
fn command_starts_with_fixed_arguments() {
    let args = build_ffmpeg_command("/in.mp4", "/out.mp4", &opts(), None, None, Some(d(1.5))).unwrap();
    assert_eq!(
        &args[..7],
        &["-nostdin", "-threads", "0", "-thread_queue_size", "512", "-progress", "pipe:1"]
    );
    assert_eq!(&args[7..11], &["-ss", "1.5", "-i", "/in.mp4"]);
    let args = build_ffmpeg_command("/in.mp4", "/out.mp4", &opts(), None, None, Some(d(0.0))).unwrap();
    assert_eq!(&args[7..9], &["-i", "/in.mp4"]);
}
