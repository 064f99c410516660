use tiny_vid_core::decimal::{decimal_string, parse_decimal, Decimal};
use tiny_vid_core::ffmpeg::ffprobe::{
    metadata_from_probe, parse_bit_rate, parse_frame_rate, FfprobeFormat, FfprobeOutput,
    FfprobeStream, FrameRate, VideoMetadata,
};

fn d(x: f64) -> Decimal {
    parse_decimal(&x.to_string()).unwrap()
}

fn as_f64(x: Decimal) -> f64 {
    decimal_string(x).parse().unwrap()
}

fn fps_of(m: &VideoMetadata) -> f64 {
    match m.fps {
        Some(FrameRate { num, den }) => as_f64(num) / as_f64(den),
        None => 0.0,
    }
}

fn s(x: &str) -> Option<String> {
    Some(x.to_string())
}

fn format(duration: Option<String>, size: Option<String>) -> FfprobeFormat {
    FfprobeFormat {
        duration,
        start_time: None,
        size,
        bit_rate: None,
        format_name: None,
        format_long_name: None,
        nb_streams: None,
    }
}

fn stream(codec_type: &str) -> FfprobeStream {
    FfprobeStream {
        codec_type: s(codec_type),
        width: None,
        height: None,
        r_frame_rate: None,
        codec_name: None,
        codec_long_name: None,
        bit_rate: None,
        channels: None,
    }
}

#[test]
fn parse_ffprobe_json_extracts_metadata() {
    let mut v = stream("video");
    v.width = Some(1920);
    v.height = Some(1080);
    v.r_frame_rate = s("30/1");
    let probe = FfprobeOutput { format: Some(format(s("30.5"), s("12345678"))), streams: Some(vec![v]) };
    let meta = metadata_from_probe(&probe);
    assert_eq!(as_f64(meta.duration), 30.5);
    assert_eq!(meta.width, 1920);
    assert_eq!(meta.height, 1080);
    assert_eq!(meta.size, 12_345_678);
    assert!((fps_of(&meta) - 30.0).abs() < 0.01);
}

#[test]
fn parse_ffprobe_json_extracts_extended_metadata() {
    let mut f = format(s("60.0"), s("50000000"));
    f.bit_rate = s("6666666");
    f.format_name = s("mp4");
    f.format_long_name = s("QuickTime / MOV");
    f.nb_streams = Some(2);
    let mut v = stream("video");
    v.width = Some(1280);
    v.height = Some(720);
    v.r_frame_rate = s("24/1");
    v.codec_name = s("h264");
    v.codec_long_name = s("H.264 / AVC");
    v.bit_rate = s("5000000");
    let meta = metadata_from_probe(&FfprobeOutput { format: Some(f), streams: Some(vec![v]) });
    assert_eq!(meta.codec_name.as_deref(), Some("h264"));
    assert_eq!(meta.codec_long_name.as_deref(), Some("H.264 / AVC"));
    assert_eq!(meta.video_bit_rate, Some(5_000_000));
    assert_eq!(meta.format_bit_rate, Some(6_666_666));
    assert_eq!(meta.format_name.as_deref(), Some("mp4"));
    assert_eq!(meta.format_long_name.as_deref(), Some("QuickTime / MOV"));
    assert_eq!(meta.nb_streams, Some(2));
}

#[test]
fn parse_frame_rate_24000_1001() {
    let r = parse_frame_rate("24000/1001").unwrap();
    let fps = as_f64(r.num) / as_f64(r.den);
    assert!((fps - 23.976).abs() < 0.001);
}

#[test]
fn parse_ffprobe_json_handles_missing_video_stream() {
    let probe = FfprobeOutput {
        format: Some(format(s("10.0"), s("1000"))),
        streams: Some(vec![stream("audio")]),
    };
    let meta = metadata_from_probe(&probe);
    assert_eq!(as_f64(meta.duration), 10.0);
    assert_eq!(meta.width, 0);
    assert_eq!(meta.height, 0);
    assert_eq!(fps_of(&meta), 0.0);
}

#[test]
fn parse_ffprobe_json_handles_empty_output() {
    let probe = FfprobeOutput { format: Some(format(None, None)), streams: Some(vec![]) };
    let meta = metadata_from_probe(&probe);
    assert_eq!(as_f64(meta.duration), 0.0);
    assert_eq!(meta.size, 0);
    assert_eq!(meta.width, 0);
    assert_eq!(meta.height, 0);
    assert_eq!(fps_of(&meta), 0.0);
}

#[test]
fn parse_ffprobe_json_extracts_start_time() {
    let mut f = format(s("3.085"), s("4402439"));
    f.start_time = s("0.083000");
    let mut v = stream("video");
    v.width = Some(1920);
    v.height = Some(960);
    v.r_frame_rate = s("24000/1001");
    let meta = metadata_from_probe(&FfprobeOutput { format: Some(f), streams: Some(vec![v]) });
    assert_eq!(meta.start_time.map(as_f64), Some(0.083));
}

#[test]
fn non_positive_start_time_is_dropped() {
    let mut f = format(s("1"), None);
    f.start_time = s("0.000000");
    let meta = metadata_from_probe(&FfprobeOutput { format: Some(f), streams: None });
    assert_eq!(meta.start_time, None);
    let mut f = format(s("1"), None);
    f.start_time = s("-0.023000");
    let meta = metadata_from_probe(&FfprobeOutput { format: Some(f), streams: None });
    assert_eq!(meta.start_time, None);
}

#[test]
fn first_video_stream_is_used() {
    let mut a = stream("video");
    a.width = Some(640);
    let mut b = stream("video");
    b.width = Some(1280);
    let meta = metadata_from_probe(&FfprobeOutput {
        format: None,
        streams: Some(vec![stream("audio"), a, b]),
    });
    assert_eq!(meta.width, 640);
    assert_eq!(meta.duration, d(0.0));
}

#[test]
fn frame_rate_needs_one_slash_and_nonzero_denominator() {
    assert_eq!(parse_frame_rate("30"), None);
    assert_eq!(parse_frame_rate("30/1/1"), None);
    assert_eq!(parse_frame_rate("30/0"), None);
    assert_eq!(parse_frame_rate(" 30 / 2 "), Some(FrameRate { num: d(30.0), den: d(2.0) }));
}

#[test]
fn bit_rate_is_trimmed_u64() {
    assert_eq!(parse_bit_rate(" 128000 "), Some(128_000));
    assert_eq!(parse_bit_rate("+5"), Some(5));
    assert_eq!(parse_bit_rate("-5"), None);
    assert_eq!(parse_bit_rate("N/A"), None);
    assert_eq!(parse_bit_rate("18446744073709551616"), None);
}

#[test]
fn unreadable_size_is_zero() {
    let meta = metadata_from_probe(&FfprobeOutput { format: Some(format(s("x"), s(" 12"))), streams: None });
    assert_eq!(meta.size, 0);
    assert_eq!(meta.duration, d(0.0));
}

#[test]
fn audio_and_subtitle_streams_are_summarized() {
    let mut a1 = stream("audio");
    a1.codec_name = s("aac");
    a1.channels = Some(6);
    let mut a2 = stream("audio");
    a2.codec_name = s("opus");
    let probe = FfprobeOutput {
        format: None,
        streams: Some(vec![stream("video"), a1, stream("subtitle"), a2, stream("subtitle")]),
    };
    let meta = metadata_from_probe(&probe);
    assert_eq!(meta.audio_stream_count, 2);
    assert_eq!(meta.subtitle_stream_count, 2);
    assert_eq!(meta.audio_codec_name.as_deref(), Some("aac"));
    assert_eq!(meta.audio_channels, Some(6));
    let none = metadata_from_probe(&FfprobeOutput { format: None, streams: None });
    assert_eq!(none.audio_stream_count, 0);
    assert_eq!(none.audio_codec_name, None);
}
