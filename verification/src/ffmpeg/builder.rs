//! FFmpeg command lines from transcode options: quality and preset mapped per
//! codec (x264, x265, VP9, AV1, VideoToolbox), audio per output container.

use vstd::prelude::*;
use crate::decimal::{decimal_text, is_below_one, is_positive, Decimal};
use crate::error::AppError;
use crate::number::digits_value;
use crate::text::{
    contains_str, dec, has_prefix, has_sub, starts_with_str, owned, push_dec, push_owned, push_str, spec_lowercase, str_eq,
    to_lowercase, views,
};
use super::options::{
    eff_audio_bitrate, eff_audio_stream_count, eff_codec, eff_downmix_to_stereo, eff_fps,
    eff_output_format, eff_preserve_additional_audio_streams, eff_preserve_metadata,
    eff_preserve_subtitles, eff_preset, eff_quality, eff_remove_audio, eff_scale,
    eff_subtitle_stream_count, eff_tune, opt_text, TranscodeOptions,
};

verus! {

/// Codec variant for FFmpeg argument construction.
#[derive(Clone, Copy, Debug, PartialEq, Eq)]
pub enum CodecKind {
    X264,
    X265,
    VP9,
    SvtAv1,
    VideoToolboxH264,
    VideoToolboxHevc,
}

/// Encoder family of a codec name, by the substrings of its lowercase form.
pub open spec fn codec_kind_of(codec: Seq<char>) -> CodecKind {
    let l = spec_lowercase(codec);
    if has_sub(l, "hevc_videotoolbox"@) {
        CodecKind::VideoToolboxHevc
    } else if has_sub(l, "h264_videotoolbox"@) {
        CodecKind::VideoToolboxH264
    } else if has_sub(l, "vp9"@) || has_sub(l, "vpx"@) {
        CodecKind::VP9
    } else if has_sub(l, "svtav1"@) {
        CodecKind::SvtAv1
    } else if (has_sub(l, "x265"@) || has_sub(l, "hevc"@)) && !has_sub(l, "videotoolbox"@) {
        CodecKind::X265
    } else {
        CodecKind::X264
    }
}

pub open spec fn kind_encoder_name(k: CodecKind) -> Seq<char> {
    match k {
        CodecKind::X264 => "libx264"@,
        CodecKind::X265 => "libx265"@,
        CodecKind::VP9 => "libvpx-vp9"@,
        CodecKind::SvtAv1 => "libsvtav1"@,
        CodecKind::VideoToolboxH264 => "h264_videotoolbox"@,
        CodecKind::VideoToolboxHevc => "hevc_videotoolbox"@,
    }
}

/// libvpx-vp9 `-deadline` and `-cpu-used` for an x264-style preset name.
pub open spec fn vp9_speed(preset: Seq<char>) -> (Seq<char>, Seq<char>) {
    if preset == "ultrafast"@ || preset == "superfast"@ {
        ("good"@, "4"@)
    } else if preset == "veryfast"@ || preset == "faster"@ {
        ("good"@, "3"@)
    } else if preset == "medium"@ {
        ("good"@, "1"@)
    } else if preset == "slow"@ {
        ("best"@, "0"@)
    } else {
        ("good"@, "2"@)
    }
}

/// libsvtav1 `-preset` (0-13, higher is faster) for an x264-style preset name.
pub open spec fn svtav1_preset(preset: Seq<char>) -> Seq<char> {
    if preset == "ultrafast"@ {
        "12"@
    } else if preset == "superfast"@ {
        "11"@
    } else if preset == "veryfast"@ {
        "10"@
    } else if preset == "faster"@ {
        "9"@
    } else if preset == "medium"@ {
        "6"@
    } else if preset == "slow"@ {
        "4"@
    } else {
        "8"@
    }
}

/// Quality 0..=100 mapped linearly onto `low_crf..=high_crf` (quality 100 is
/// `high_crf`), rounded to the nearest integer with halves toward the better
/// end: `low - round(q * (low - high) / 100)`.
pub open spec fn linear_crf(quality: u32, high_crf: int, low_crf: int) -> int {
    let q = if quality > 100 { 100 } else { quality as int };
    low_crf - (q * (low_crf - high_crf) + 49) / 100
}

pub open spec fn kbit_text(b: nat) -> Seq<char> {
    dec(b) + "k"@
}

pub open spec fn maxrate_args(max_bitrate: Option<u32>) -> Seq<Seq<char>> {
    match max_bitrate {
        Some(b) => seq!["-maxrate"@, kbit_text(b as nat), "-bufsize"@, kbit_text(2 * b as nat)],
        None => Seq::empty(),
    }
}

pub open spec fn crf_for(k: CodecKind, quality: u32) -> int {
    match k {
        CodecKind::X265 => linear_crf(quality, 28, 51),
        CodecKind::SvtAv1 => linear_crf(quality, 24, 63),
        CodecKind::VP9 => linear_crf(quality, 20, 63),
        _ => linear_crf(quality, 23, 51),
    }
}

pub open spec fn uses_crf(k: CodecKind) -> bool {
    k is X264 || k is X265 || k is VP9 || k is SvtAv1
}

/// Codec-specific arguments: speed or preset, quality, tags, tune, rate limits.
#[verifier::opaque]
pub open spec fn codec_args(
    k: CodecKind,
    quality: u32,
    preset: Seq<char>,
    tune: Option<Seq<char>>,
    max_bitrate: Option<u32>,
) -> Seq<Seq<char>> {
    let head = match k {
        CodecKind::VP9 => seq![
            "-deadline"@,
            vp9_speed(preset).0,
            "-cpu-used"@,
            vp9_speed(preset).1,
            "-row-mt"@,
            "1"@,
            "-b:v"@,
            "0"@,
        ],
        CodecKind::SvtAv1 => seq![
            "-preset"@,
            svtav1_preset(preset),
            "-pix_fmt"@,
            "yuv420p"@,
            "-tag:v"@,
            "av01"@,
        ],
        CodecKind::VideoToolboxH264 => seq![
            "-q:v"@,
            dec(if quality > 100 { 100 } else { quality as nat }),
        ] + maxrate_args(max_bitrate),
        CodecKind::VideoToolboxHevc => seq![
            "-q:v"@,
            dec(if quality > 100 { 100 } else { quality as nat }),
        ] + maxrate_args(max_bitrate) + seq!["-tag:v"@, "hvc1"@],
        CodecKind::X264 => seq!["-preset"@, preset],
        CodecKind::X265 => seq!["-preset"@, preset, "-tag:v"@, "hvc1"@],
    };
    let tune_part = match tune {
        Some(t) => if k is X264 && t.len() > 0 && t != "none"@ {
            seq!["-tune"@, t]
        } else {
            Seq::empty()
        },
        None => Seq::empty(),
    };
    let crf_part = if uses_crf(k) {
        seq!["-crf"@, dec(crf_for(k, quality) as nat)] + maxrate_args(max_bitrate)
    } else {
        Seq::empty()
    };
    head + tune_part + crf_part
}

/// Appends an owned string as one argument.
pub fn push_arg(v: &mut Vec<String>, s: String)
    ensures
        views(final(v)@) == views(old(v)@).push(s@),
{
    v.push(s);
    assert(views(v@) =~= views(old(v)@).push(s@));
}

fn kbit_string(b: u64) -> (r: String)
    ensures
        r@ == kbit_text(b as nat),
{
    let mut s = String::new();
    push_dec(&mut s, b);
    push_str(&mut s, "k");
    assert(s@ =~= kbit_text(b as nat));
    s
}

fn push_maxrate(args: &mut Vec<String>, max_bitrate: Option<u32>)
    requires
        max_bitrate matches Some(b) ==> b <= 0x7fff_ffff,
    ensures
        views(final(args)@) == views(old(args)@) + maxrate_args(max_bitrate),
{
    match max_bitrate {
        Some(b) => {
            push_owned(args, "-maxrate");
            push_arg(args, kbit_string(b as u64));
            push_owned(args, "-bufsize");
            push_arg(args, kbit_string((b * 2) as u64));
        },
        None => {},
    }
    assert(views(args@) =~= views(old(args)@) + maxrate_args(max_bitrate));
}

fn linear_crf_exec(quality: u32, high_crf: u32, low_crf: u32) -> (r: u32)
    requires
        high_crf <= low_crf,
    ensures
        r == linear_crf(quality, high_crf as int, low_crf as int),
        high_crf <= r <= low_crf,
{
    let q: u64 = if quality > 100 { 100 } else { quality as u64 };
    let d: u64 = (low_crf - high_crf) as u64;
    proof {
        assert(q * d + 49 <= 100 * d + 49) by (nonlinear_arith)
            requires
                q <= 100,
                d >= 0,
        ;
        assert((q * d + 49) / 100 <= d) by (nonlinear_arith)
            requires
                q * d + 49 <= 100 * d + 49,
                d >= 0,
        ;
        assert(q * d <= 100 * 0xffff_ffff) by (nonlinear_arith)
            requires
                q <= 100,
                d <= 0xffff_ffff,
        ;
    }
    let cut: u64 = (q * d + 49) / 100;
    low_crf - (cut as u32)
}

impl CodecKind {
    pub fn from_codec_str(codec: &str) -> (k: CodecKind)
        ensures
            k == codec_kind_of(codec@),
    {
        let lower = to_lowercase(codec);
        let l = lower.as_str();
        if contains_str(l, "hevc_videotoolbox") {
            CodecKind::VideoToolboxHevc
        } else if contains_str(l, "h264_videotoolbox") {
            CodecKind::VideoToolboxH264
        } else if contains_str(l, "vp9") || contains_str(l, "vpx") {
            CodecKind::VP9
        } else if contains_str(l, "svtav1") {
            CodecKind::SvtAv1
        } else if (contains_str(l, "x265") || contains_str(l, "hevc")) && !contains_str(
            l,
            "videotoolbox",
        ) {
            CodecKind::X265
        } else {
            CodecKind::X264
        }
    }

    pub fn ffmpeg_name(&self) -> (r: &'static str)
        ensures
            r@ == kind_encoder_name(*self),
    {
        match self {
            CodecKind::X264 => "libx264",
            CodecKind::X265 => "libx265",
            CodecKind::VP9 => "libvpx-vp9",
            CodecKind::SvtAv1 => "libsvtav1",
            CodecKind::VideoToolboxH264 => "h264_videotoolbox",
            CodecKind::VideoToolboxHevc => "hevc_videotoolbox",
        }
    }

    pub fn supports_tune(&self) -> (r: bool)
        ensures
            r == (*self is X264),
    {
        match self {
            CodecKind::X264 => true,
            _ => false,
        }
    }

    /// Codec-specific arguments (see `codec_args`).
    pub fn build_codec_args(
        &self,
        quality: u32,
        preset: &str,
        tune: Option<&str>,
        max_bitrate: Option<u32>,
    ) -> (args: Vec<String>)
        requires
            max_bitrate matches Some(b) ==> b <= 0x7fff_ffff,
        ensures
            views(args@) == codec_args(
                *self,
                quality,
                preset@,
                match tune {
                    Some(t) => Some(t@),
                    None => None,
                },
                max_bitrate,
            ),
    {
        let mut args: Vec<String> = Vec::new();
        match self {
            CodecKind::VP9 => {
                let (deadline, cpu_used) = vp9_speed_exec(preset);
                push_owned(&mut args, "-deadline");
                push_owned(&mut args, deadline);
                push_owned(&mut args, "-cpu-used");
                push_owned(&mut args, cpu_used);
                push_owned(&mut args, "-row-mt");
                push_owned(&mut args, "1");
                push_owned(&mut args, "-b:v");
                push_owned(&mut args, "0");
            },
            CodecKind::SvtAv1 => {
                push_owned(&mut args, "-preset");
                push_owned(&mut args, svtav1_preset_exec(preset));
                push_owned(&mut args, "-pix_fmt");
                push_owned(&mut args, "yuv420p");
                push_owned(&mut args, "-tag:v");
                push_owned(&mut args, "av01");
            },
            CodecKind::VideoToolboxH264 | CodecKind::VideoToolboxHevc => {
                push_owned(&mut args, "-q:v");
                let q: u32 = if quality > 100 { 100 } else { quality };
                let mut qs = String::new();
                push_dec(&mut qs, q as u64);
                assert(qs@ =~= dec(q as nat));
                push_arg(&mut args, qs);
                push_maxrate(&mut args, max_bitrate);
                if matches!(self, CodecKind::VideoToolboxHevc) {
                    push_owned(&mut args, "-tag:v");
                    push_owned(&mut args, "hvc1");
                }
            },
            CodecKind::X264 | CodecKind::X265 => {
                push_owned(&mut args, "-preset");
                push_owned(&mut args, preset);
                if matches!(self, CodecKind::X265) {
                    push_owned(&mut args, "-tag:v");
                    push_owned(&mut args, "hvc1");
                }
            },
        }
        let ghost head = views(args@);
        if self.supports_tune() {
            match tune {
                Some(tune_val) => {
                    if !tune_val.is_empty() && !str_eq(tune_val, "none") {
                        push_owned(&mut args, "-tune");
                        push_owned(&mut args, tune_val);
                    }
                },
                None => {},
            }
        }
        let ghost with_tune = views(args@);
        match self {
            CodecKind::X264 | CodecKind::X265 | CodecKind::VP9 | CodecKind::SvtAv1 => {
                let crf = match self {
                    CodecKind::X265 => linear_crf_exec(quality, 28, 51),
                    CodecKind::SvtAv1 => linear_crf_exec(quality, 24, 63),
                    CodecKind::VP9 => linear_crf_exec(quality, 20, 63),
                    _ => linear_crf_exec(quality, 23, 51),
                };
                push_owned(&mut args, "-crf");
                let mut cs = String::new();
                push_dec(&mut cs, crf as u64);
                assert(cs@ =~= dec(crf as nat));
                push_arg(&mut args, cs);
                push_maxrate(&mut args, max_bitrate);
            },
            _ => {},
        }
        let ghost t = match tune {
            Some(t) => Some(t@),
            None => None,
        };
        reveal(codec_args);
        assert(views(args@) =~= codec_args(*self, quality, preset@, t, max_bitrate));
        args
    }
}

fn vp9_speed_exec(preset: &str) -> (r: (&'static str, &'static str))
    ensures
        (r.0@, r.1@) == vp9_speed(preset@),
{
    if str_eq(preset, "ultrafast") || str_eq(preset, "superfast") {
        ("good", "4")
    } else if str_eq(preset, "veryfast") || str_eq(preset, "faster") {
        ("good", "3")
    } else if str_eq(preset, "medium") {
        ("good", "1")
    } else if str_eq(preset, "slow") {
        ("best", "0")
    } else {
        ("good", "2")
    }
}

fn svtav1_preset_exec(preset: &str) -> (r: &'static str)
    ensures
        r@ == svtav1_preset(preset@),
{
    if str_eq(preset, "ultrafast") {
        "12"
    } else if str_eq(preset, "superfast") {
        "11"
    } else if str_eq(preset, "veryfast") {
        "10"
    } else if str_eq(preset, "faster") {
        "9"
    } else if str_eq(preset, "medium") {
        "6"
    } else if str_eq(preset, "slow") {
        "4"
    } else {
        "8"
    }
}

/// Quality maps onto the CRF range linearly: the result stays between the
/// two ends, quality 0 gives the low end, quality 100 and above the high
/// end, and higher quality never raises the CRF.
pub proof fn crf_falls_as_quality_rises(q1: u32, q2: u32, high_crf: int, low_crf: int)
    requires
        high_crf <= low_crf,
        q1 <= q2,
    ensures
        high_crf <= linear_crf(q1, high_crf, low_crf) <= low_crf,
        linear_crf(q2, high_crf, low_crf) <= linear_crf(q1, high_crf, low_crf),
        linear_crf(0, high_crf, low_crf) == low_crf,
        q2 >= 100 ==> linear_crf(q2, high_crf, low_crf) == high_crf,
{
    let d = low_crf - high_crf;
    let a: int = if q1 > 100 { 100 } else { q1 as int };
    let b: int = if q2 > 100 { 100 } else { q2 as int };
    assert(0 <= (a * d + 49) / 100 <= d) by (nonlinear_arith)
        requires
            0 <= a <= 100,
            d >= 0,
    ;
    assert((a * d + 49) / 100 <= (b * d + 49) / 100) by (nonlinear_arith)
        requires
            0 <= a <= b,
            d >= 0,
    ;
    assert((0 * d + 49) / 100 == 0) by (nonlinear_arith);
    assert((100 * d + 49) / 100 == d) by (nonlinear_arith)
        requires
            d >= 0,
    ;
}

pub fn map_linear_crf(quality: u32, high_crf: u32, low_crf: u32) -> (r: u32)
    requires
        high_crf <= low_crf,
    ensures
        r == linear_crf(quality, high_crf as int, low_crf as int),
        high_crf <= r <= low_crf,
{
    linear_crf_exec(quality, high_crf, low_crf)
}

/// Audio encoder of an output container.
#[derive(Clone, Copy, Debug, PartialEq, Eq)]
pub enum AudioCodec {
    Aac,
    Opus,
}

pub open spec fn audio_codec_text(a: AudioCodec) -> Seq<char> {
    match a {
        AudioCodec::Aac => "aac"@,
        AudioCodec::Opus => "libopus"@,
    }
}

/// Per-format audio and container settings (MP4, WebM, MKV).
#[derive(Clone, Copy, Debug, PartialEq, Eq)]
pub struct OutputFormatConfig {
    pub audio_codec: AudioCodec,
    pub requires_stereo_downmix: bool,
    pub use_movflags_faststart: bool,
    pub supports_multiple_audio: bool,
}

/// Settings of an output container: MP4 (and anything unknown) takes AAC with
/// faststart; WebM takes Opus in stereo, one audio stream; MKV takes Opus in
/// stereo for VP9 video and AAC otherwise.
pub open spec fn output_config(format: Seq<char>, video_codec: Seq<char>) -> OutputFormatConfig {
    let is_vp9 = has_sub(spec_lowercase(video_codec), "vp9"@);
    let f = spec_lowercase(format);
    if f == "mp4"@ {
        OutputFormatConfig {
            audio_codec: AudioCodec::Aac,
            requires_stereo_downmix: false,
            use_movflags_faststart: true,
            supports_multiple_audio: true,
        }
    } else if f == "webm"@ {
        OutputFormatConfig {
            audio_codec: AudioCodec::Opus,
            requires_stereo_downmix: true,
            use_movflags_faststart: false,
            supports_multiple_audio: false,
        }
    } else if f == "mkv"@ && is_vp9 {
        OutputFormatConfig {
            audio_codec: AudioCodec::Opus,
            requires_stereo_downmix: true,
            use_movflags_faststart: false,
            supports_multiple_audio: true,
        }
    } else if f == "mkv"@ {
        OutputFormatConfig {
            audio_codec: AudioCodec::Aac,
            requires_stereo_downmix: false,
            use_movflags_faststart: false,
            supports_multiple_audio: true,
        }
    } else {
        OutputFormatConfig {
            audio_codec: AudioCodec::Aac,
            requires_stereo_downmix: false,
            use_movflags_faststart: true,
            supports_multiple_audio: true,
        }
    }
}

/// Source audio can be copied: its codec (lowercased) is the container's own
/// (`aac`/`aac_latm` for AAC, `opus` for Opus), and when the output is stereo
/// the source has exactly two channels.
pub open spec fn passthrough_ok(
    c: OutputFormatConfig,
    source_codec: Option<Seq<char>>,
    source_channels: Option<u32>,
    downmix: bool,
) -> bool {
    match source_codec {
        None => false,
        Some(codec) => {
            let l = spec_lowercase(codec);
            let matches = match c.audio_codec {
                AudioCodec::Aac => l == "aac"@ || l == "aac_latm"@,
                AudioCodec::Opus => l == "opus"@,
            };
            matches && (if c.requires_stereo_downmix || downmix {
                source_channels == Some(2u32)
            } else {
                true
            })
        },
    }
}

impl OutputFormatConfig {
    /// Whether source audio can be passed through (copied) instead of re-encoded.
    pub fn can_passthrough_audio(
        &self,
        source_codec: Option<&str>,
        source_channels: Option<u32>,
        downmix: bool,
    ) -> (r: bool)
        ensures
            r == passthrough_ok(
                *self,
                match source_codec {
                    Some(c) => Some(c@),
                    None => None,
                },
                source_channels,
                downmix,
            ),
    {
        let codec = match source_codec {
            Some(c) => c,
            None => return false,
        };
        let lower = to_lowercase(codec);
        let l = lower.as_str();
        let codec_matches = match self.audio_codec {
            AudioCodec::Aac => str_eq(l, "aac") || str_eq(l, "aac_latm"),
            AudioCodec::Opus => str_eq(l, "opus"),
        };
        if !codec_matches {
            return false;
        }
        if self.requires_stereo_downmix || downmix {
            source_channels == Some(2u32)
        } else {
            true
        }
    }
}

pub fn get_output_config(format: &str, video_codec: &str) -> (c: OutputFormatConfig)
    ensures
        c == output_config(format@, video_codec@),
{
    let vc = to_lowercase(video_codec);
    let is_vp9 = contains_str(vc.as_str(), "vp9");
    let fl = to_lowercase(format);
    let f = fl.as_str();
    if str_eq(f, "mp4") {
        OutputFormatConfig {
            audio_codec: AudioCodec::Aac,
            requires_stereo_downmix: false,
            use_movflags_faststart: true,
            supports_multiple_audio: true,
        }
    } else if str_eq(f, "webm") {
        OutputFormatConfig {
            audio_codec: AudioCodec::Opus,
            requires_stereo_downmix: true,
            use_movflags_faststart: false,
            supports_multiple_audio: false,
        }
    } else if str_eq(f, "mkv") && is_vp9 {
        OutputFormatConfig {
            audio_codec: AudioCodec::Opus,
            requires_stereo_downmix: true,
            use_movflags_faststart: false,
            supports_multiple_audio: true,
        }
    } else if str_eq(f, "mkv") {
        OutputFormatConfig {
            audio_codec: AudioCodec::Aac,
            requires_stereo_downmix: false,
            use_movflags_faststart: false,
            supports_multiple_audio: true,
        }
    } else {
        OutputFormatConfig {
            audio_codec: AudioCodec::Aac,
            requires_stereo_downmix: false,
            use_movflags_faststart: true,
            supports_multiple_audio: true,
        }
    }
}

/// Codec names (lowercased) that browsers play: H.264, HEVC, VP9, AV1.
pub open spec fn browser_playable(codec_name: Seq<char>) -> bool {
    let l = spec_lowercase(codec_name);
    l == "h264"@ || l == "avc"@ || l == "avc1"@ || l == "hevc"@ || l == "h265"@ || l == "vp9"@
        || l == "av1"@
}

/// Returns true if the codec is widely playable in browsers (H.264, HEVC, VP9, AV1).
pub fn is_browser_playable_codec(codec_name: &str) -> (r: bool)
    ensures
        r == browser_playable(codec_name@),
{
    let lower = to_lowercase(codec_name);
    let l = lower.as_str();
    str_eq(l, "h264") || str_eq(l, "avc") || str_eq(l, "avc1") || str_eq(l, "hevc") || str_eq(
        l,
        "h265",
    ) || str_eq(l, "vp9") || str_eq(l, "av1")
}

/// Encoders that target-size mode can run in two passes.
pub open spec fn two_pass_codec(c: Seq<char>) -> bool {
    c == "libx264"@ || c == "libx265"@ || c == "libvpx-vp9"@
}

/// Whether target-size mode supports the codec: libx264, libx265 or libvpx-vp9.
pub fn supports_two_pass_codec(codec: &str) -> (r: bool)
    ensures
        r == two_pass_codec(codec@),
{
    str_eq(codec, "libx264") || str_eq(codec, "libx265") || str_eq(codec, "libvpx-vp9")
}

/// Arguments every FFmpeg invocation starts with.
pub open spec fn base_args() -> Seq<Seq<char>> {
    seq!["-nostdin"@, "-threads"@, "0"@, "-thread_queue_size"@, "512"@]
}

/// Base args shared by FFmpeg invocations: nostdin, threads, thread_queue_size.
pub fn ffmpeg_base_args() -> (r: Vec<String>)
    ensures
        views(r@) == base_args(),
{
    let mut r: Vec<String> = Vec::new();
    push_owned(&mut r, "-nostdin");
    push_owned(&mut r, "-threads");
    push_owned(&mut r, "0");
    push_owned(&mut r, "-thread_queue_size");
    push_owned(&mut r, "512");
    assert(views(r@) =~= base_args());
    r
}

/// Stream-copy extraction of `duration` seconds starting at `start`.
pub open spec fn extract_args(
    input: Seq<char>,
    start: Decimal,
    duration: Decimal,
    output: Seq<char>,
) -> Seq<Seq<char>> {
    base_args() + seq![
        "-ss"@,
        decimal_text(start),
        "-t"@,
        decimal_text(duration),
        "-progress"@,
        "pipe:1"@,
        "-i"@,
        input,
        "-c"@,
        "copy"@,
        "-avoid_negative_ts"@,
        "make_zero"@,
        "-movflags"@,
        "+faststart"@,
        output,
    ]
}

fn decimal_arg(d: Decimal) -> (r: String)
    ensures
        r@ == decimal_text(d),
{
    crate::decimal::decimal_string(d)
}

/// Build args for segment extraction (-ss -t -i -c copy).
pub fn build_extract_args(
    input_path: &str,
    start_secs: Decimal,
    duration_secs: Decimal,
    output_path: &str,
) -> (args: Vec<String>)
    ensures
        views(args@) == extract_args(input_path@, start_secs, duration_secs, output_path@),
{
    let mut args = ffmpeg_base_args();
    push_owned(&mut args, "-ss");
    push_arg(&mut args, decimal_arg(start_secs));
    push_owned(&mut args, "-t");
    push_arg(&mut args, decimal_arg(duration_secs));
    push_owned(&mut args, "-progress");
    push_owned(&mut args, "pipe:1");
    push_owned(&mut args, "-i");
    push_owned(&mut args, input_path);
    push_owned(&mut args, "-c");
    push_owned(&mut args, "copy");
    push_owned(&mut args, "-avoid_negative_ts");
    push_owned(&mut args, "make_zero");
    push_owned(&mut args, "-movflags");
    push_owned(&mut args, "+faststart");
    push_owned(&mut args, output_path);
    assert(views(args@) =~= extract_args(input_path@, start_secs, duration_secs, output_path@));
    args
}

pub open spec fn opt_view(o: Option<&str>) -> Option<Seq<char>> {
    match o {
        Some(s) => Some(s@),
        None => None,
    }
}

/// Output container of a command: the override (lowercased) when given, the
/// options' own otherwise.
pub open spec fn cmd_format(o: TranscodeOptions, fo: Option<Seq<char>>) -> Seq<char> {
    match fo {
        Some(f) => spec_lowercase(f),
        None => eff_output_format(o),
    }
}

pub open spec fn cmd_config(o: TranscodeOptions, fo: Option<Seq<char>>) -> OutputFormatConfig {
    output_config(cmd_format(o, fo), eff_codec(o))
}

/// Every audio stream is kept: only for exports (no format override), to a
/// container that holds several, when asked and there is more than one.
pub open spec fn keeps_all_audio(o: TranscodeOptions, fo: Option<Seq<char>>) -> bool {
    &&& fo is None
    &&& cmd_config(o, fo).supports_multiple_audio
    &&& eff_preserve_additional_audio_streams(o)
    &&& eff_audio_stream_count(o) > 1
}

pub open spec fn keeps_subtitles(o: TranscodeOptions) -> bool {
    eff_preserve_subtitles(o) && eff_subtitle_stream_count(o) > 0
}

pub open spec fn copies_audio(o: TranscodeOptions, fo: Option<Seq<char>>) -> bool {
    !keeps_all_audio(o, fo) && passthrough_ok(
        cmd_config(o, fo),
        opt_text(o.audio_codec_name),
        o.audio_channels,
        eff_downmix_to_stereo(o),
    )
}

pub open spec fn audio_map_args(n: nat) -> Seq<Seq<char>>
    decreases n,
{
    if n == 0 {
        Seq::empty()
    } else {
        audio_map_args((n - 1) as nat) + seq!["-map"@, "0:a:"@ + dec((n - 1) as nat)]
    }
}

/// Explicit stream selection, used when several audio streams or the
/// subtitles are kept. The first audio stream and the subtitles are mapped
/// optionally (`?`), so that inputs without them still transcode.
#[verifier::opaque]
pub open spec fn mapping_args(o: TranscodeOptions, fo: Option<Seq<char>>) -> Seq<Seq<char>> {
    if keeps_all_audio(o, fo) || keeps_subtitles(o) {
        seq!["-map"@, "0:v"@] + (if keeps_all_audio(o, fo) {
            audio_map_args(eff_audio_stream_count(o) as nat)
        } else {
            seq!["-map"@, "0:a:0?"@]
        }) + (if keeps_subtitles(o) {
            seq!["-map"@, "0:s?"@]
        } else {
            Seq::empty()
        })
    } else {
        Seq::empty()
    }
}

pub open spec fn audio_bitrate_text(o: TranscodeOptions) -> Seq<char> {
    kbit_text(eff_audio_bitrate(o) as nat)
}

pub open spec fn stream_audio_args(
    i: nat,
    c: OutputFormatConfig,
    copy: bool,
    bitrate: Seq<char>,
    downmix: bool,
) -> Seq<Seq<char>> {
    if copy {
        seq!["-c:a:"@ + dec(i), "copy"@]
    } else {
        seq!["-c:a:"@ + dec(i), audio_codec_text(c.audio_codec), "-b:a:"@ + dec(i), bitrate] + (
        if c.requires_stereo_downmix || downmix {
            seq!["-ac:a:"@ + dec(i), "2"@]
        } else {
            Seq::empty()
        })
    }
}

pub open spec fn all_streams_audio_args(
    n: nat,
    c: OutputFormatConfig,
    copy: bool,
    bitrate: Seq<char>,
    downmix: bool,
) -> Seq<Seq<char>>
    decreases n,
{
    if n == 0 {
        Seq::empty()
    } else {
        all_streams_audio_args((n - 1) as nat, c, copy, bitrate, downmix) + stream_audio_args(
            (n - 1) as nat,
            c,
            copy,
            bitrate,
            downmix,
        )
    }
}

/// Audio arguments: none kept, every stream per track, or the first stream
/// copied or re-encoded (in stereo where the container or the options ask).
#[verifier::opaque]
pub open spec fn audio_args(o: TranscodeOptions, fo: Option<Seq<char>>) -> Seq<Seq<char>> {
    let c = cmd_config(o, fo);
    let copy = copies_audio(o, fo);
    let br = audio_bitrate_text(o);
    let downmix = eff_downmix_to_stereo(o);
    if eff_remove_audio(o) {
        seq!["-an"@]
    } else if keeps_all_audio(o, fo) {
        all_streams_audio_args(eff_audio_stream_count(o) as nat, c, copy, br, downmix)
    } else if c.requires_stereo_downmix {
        if copy {
            seq!["-c:a"@, "copy"@]
        } else {
            seq!["-c:a"@, audio_codec_text(c.audio_codec), "-b:a"@, br, "-ac"@, "2"@]
        }
    } else if copy {
        seq!["-c:a"@, "copy"@]
    } else {
        seq!["-c:a"@, audio_codec_text(c.audio_codec), "-b:a"@, br] + (if downmix {
            seq!["-ac"@, "2"@]
        } else {
            Seq::empty()
        })
    }
}

/// Downscale filter, only for a scale below one.
#[verifier::opaque]
pub open spec fn scale_args(o: TranscodeOptions) -> Seq<Seq<char>> {
    if is_below_one(eff_scale(o)) {
        seq!["-vf"@, "scale=round(iw*"@ + decimal_text(eff_scale(o)) + "/2)*2:-2"@]
    } else {
        Seq::empty()
    }
}

pub open spec fn positive_arg(flag: Seq<char>, v: Option<Decimal>) -> Seq<Seq<char>> {
    match v {
        Some(d) => if is_positive(d) {
            seq![flag, decimal_text(d)]
        } else {
            Seq::empty()
        },
        None => Seq::empty(),
    }
}

/// Program setup, progress to stdout, optional seek, input.
#[verifier::opaque]
pub open spec fn head_args(input: Seq<char>, start_offset: Option<Decimal>) -> Seq<Seq<char>> {
    base_args() + seq!["-progress"@, "pipe:1"@] + positive_arg("-ss"@, start_offset) + seq![
        "-i"@,
        input,
    ]
}

/// Frame rate, faststart for MP4, optional duration, metadata, output.
#[verifier::opaque]
pub open spec fn tail_args(
    o: TranscodeOptions,
    c: OutputFormatConfig,
    output_duration: Option<Decimal>,
    output: Seq<char>,
) -> Seq<Seq<char>> {
    seq!["-r"@, decimal_text(eff_fps(o))] + (if c.use_movflags_faststart {
        seq!["-movflags"@, "+faststart"@]
    } else {
        Seq::empty()
    }) + positive_arg("-t"@, output_duration) + (if eff_preserve_metadata(o) {
        seq!["-map_metadata"@, "0"@]
    } else {
        Seq::empty()
    }) + seq![output]
}

/// The full transcode command line (without the program name).
pub open spec fn ffmpeg_command(
    input: Seq<char>,
    output: Seq<char>,
    o: TranscodeOptions,
    output_duration: Option<Decimal>,
    fo: Option<Seq<char>>,
    start_offset: Option<Decimal>,
) -> Seq<Seq<char>> {
    head_args(input, start_offset) + mapping_args(o, fo) + seq![
        "-c:v"@,
        kind_encoder_name(codec_kind_of(eff_codec(o))),
    ] + audio_args(o, fo) + scale_args(o) + codec_args(
        codec_kind_of(eff_codec(o)),
        eff_quality(o),
        eff_preset(o),
        eff_tune(o),
        o.max_bitrate,
    ) + tail_args(o, cmd_config(o, fo), output_duration, output)
}

fn indexed_flag(prefix: &str, i: u32) -> (r: String)
    ensures
        r@ == prefix@ + dec(i as nat),
{
    let mut s = owned(prefix);
    push_dec(&mut s, i as u64);
    s
}

fn push_audio_maps(args: &mut Vec<String>, n: u32)
    ensures
        views(final(args)@) == views(old(args)@) + audio_map_args(n as nat),
{
    let mut i: u32 = 0;
    while i < n
        invariant
            i <= n,
            views(args@) == views(old(args)@) + audio_map_args(i as nat),
        decreases n - i,
    {
        push_owned(args, "-map");
        push_arg(args, indexed_flag("0:a:", i));
        assert(views(args@) =~= views(old(args)@) + audio_map_args((i + 1) as nat));
        i = i + 1;
    }
}

fn push_stream_audio(
    args: &mut Vec<String>,
    n: u32,
    c: OutputFormatConfig,
    copy: bool,
    bitrate: &str,
    downmix: bool,
)
    ensures
        views(final(args)@) == views(old(args)@) + all_streams_audio_args(
            n as nat,
            c,
            copy,
            bitrate@,
            downmix,
        ),
{
    let mut i: u32 = 0;
    while i < n
        invariant
            i <= n,
            views(args@) == views(old(args)@) + all_streams_audio_args(
                i as nat,
                c,
                copy,
                bitrate@,
                downmix,
            ),
        decreases n - i,
    {
        let ghost before = views(args@);
        if copy {
            push_arg(args, indexed_flag("-c:a:", i));
            push_owned(args, "copy");
        } else {
            push_arg(args, indexed_flag("-c:a:", i));
            push_owned(args, audio_codec_name_str(c.audio_codec));
            push_arg(args, indexed_flag("-b:a:", i));
            push_owned(args, bitrate);
            if c.requires_stereo_downmix || downmix {
                push_arg(args, indexed_flag("-ac:a:", i));
                push_owned(args, "2");
            }
        }
        assert(views(args@) =~= before + stream_audio_args(i as nat, c, copy, bitrate@, downmix));
        assert(views(args@) =~= views(old(args)@) + all_streams_audio_args(
            (i + 1) as nat,
            c,
            copy,
            bitrate@,
            downmix,
        ));
        i = i + 1;
    }
}

fn audio_codec_name_str(a: AudioCodec) -> (r: &'static str)
    ensures
        r@ == audio_codec_text(a),
{
    match a {
        AudioCodec::Aac => "aac",
        AudioCodec::Opus => "libopus",
    }
}

fn opt_as_str(o: &Option<String>) -> (r: Option<&str>)
    ensures
        opt_view(r) == opt_text(*o),
{
    match o {
        Some(s) => Some(s.as_str()),
        None => None,
    }
}

fn push_mapping(
    args: &mut Vec<String>,
    options: &TranscodeOptions,
    format_override: Option<&str>,
    config: OutputFormatConfig,
)
    requires
        config == cmd_config(*options, opt_view(format_override)),
    ensures
        views(final(args)@) == views(old(args)@) + mapping_args(*options, opt_view(format_override)),
{
    let preserve_multi = format_override.is_none() && config.supports_multiple_audio
        && options.effective_preserve_additional_audio_streams()
        && options.effective_audio_stream_count() > 1;
    let preserve_subtitles = options.effective_preserve_subtitles()
        && options.effective_subtitle_stream_count() > 0;
    if preserve_multi || preserve_subtitles {
        push_owned(args, "-map");
        push_owned(args, "0:v");
        if preserve_multi {
            push_audio_maps(args, options.effective_audio_stream_count());
        } else {
            push_owned(args, "-map");
            push_owned(args, "0:a:0?");
        }
        if preserve_subtitles {
            push_owned(args, "-map");
            push_owned(args, "0:s?");
        }
    }
    reveal(mapping_args);
    assert(views(args@) =~= views(old(args)@) + mapping_args(*options, opt_view(format_override)));
}

fn push_audio(
    args: &mut Vec<String>,
    options: &TranscodeOptions,
    format_override: Option<&str>,
    config: OutputFormatConfig,
)
    requires
        config == cmd_config(*options, opt_view(format_override)),
    ensures
        views(final(args)@) == views(old(args)@) + audio_args(*options, opt_view(format_override)),
{
    let ghost fo = opt_view(format_override);
    let preserve_multi = format_override.is_none() && config.supports_multiple_audio
        && options.effective_preserve_additional_audio_streams()
        && options.effective_audio_stream_count() > 1;
    let audio_bitrate_k = kbit_string(options.effective_audio_bitrate() as u64);
    let downmix = options.effective_downmix_to_stereo();
    let passthrough = !preserve_multi && config.can_passthrough_audio(
        opt_as_str(&options.audio_codec_name),
        options.audio_channels,
        downmix,
    );
    assert(passthrough == copies_audio(*options, fo));
    if options.effective_remove_audio() {
        push_owned(args, "-an");
    } else if preserve_multi {
        let n = options.effective_audio_stream_count();
        push_stream_audio(args, n, config, passthrough, audio_bitrate_k.as_str(), downmix);
    } else if config.requires_stereo_downmix {
        if passthrough {
            push_owned(args, "-c:a");
            push_owned(args, "copy");
        } else {
            push_owned(args, "-c:a");
            push_owned(args, audio_codec_name_str(config.audio_codec));
            push_owned(args, "-b:a");
            push_owned(args, audio_bitrate_k.as_str());
            push_owned(args, "-ac");
            push_owned(args, "2");
        }
    } else if passthrough {
        push_owned(args, "-c:a");
        push_owned(args, "copy");
    } else {
        push_owned(args, "-c:a");
        push_owned(args, audio_codec_name_str(config.audio_codec));
        push_owned(args, "-b:a");
        push_owned(args, audio_bitrate_k.as_str());
        if downmix {
            push_owned(args, "-ac");
            push_owned(args, "2");
        }
    }
    reveal(audio_args);
    assert(views(args@) =~= views(old(args)@) + audio_args(*options, fo));
}

fn push_scale(args: &mut Vec<String>, options: &TranscodeOptions)
    ensures
        views(final(args)@) == views(old(args)@) + scale_args(*options),
{
    let scale = options.effective_scale();
    if scale.is_below_one() {
        let mut filter = owned("scale=round(iw*");
        scale.push_text(&mut filter);
        push_str(&mut filter, "/2)*2:-2");
        push_owned(args, "-vf");
        push_arg(args, filter);
        assert(filter@ =~= "scale=round(iw*"@ + decimal_text(scale) + "/2)*2:-2"@);
    }
    reveal(scale_args);
    assert(views(args@) =~= views(old(args)@) + scale_args(*options));
}

/// Appends copies of all the strings of `part`.
pub fn push_all(args: &mut Vec<String>, part: &Vec<String>)
    ensures
        views(final(args)@) == views(old(args)@) + views(part@),
{
    let mut k: usize = 0;
    while k < part.len()
        invariant
            k <= part@.len(),
            views(args@) == views(old(args)@) + views(part@).take(k as int),
        decreases part@.len() - k,
    {
        push_arg(args, part[k].clone());
        assert(views(part@).take(k + 1) =~= views(part@).take(k as int).push(part@[k as int]@));
        assert(views(args@) =~= views(old(args)@) + views(part@).take(k + 1));
        k = k + 1;
    }
    assert(views(part@).take(part@.len() as int) =~= views(part@));
}

fn push_positive(args: &mut Vec<String>, flag: &str, v: Option<Decimal>)
    ensures
        views(final(args)@) == views(old(args)@) + positive_arg(flag@, v),
{
    match v {
        Some(d) => {
            if d.is_positive() {
                push_owned(args, flag);
                push_arg(args, decimal_arg(d));
            }
        },
        None => {},
    }
    assert(views(args@) =~= views(old(args)@) + positive_arg(flag@, v));
}

fn push_tail(
    args: &mut Vec<String>,
    options: &TranscodeOptions,
    config: OutputFormatConfig,
    output_duration_secs: Option<Decimal>,
    output_path: &str,
)
    ensures
        views(final(args)@) == views(old(args)@) + tail_args(
            *options,
            config,
            output_duration_secs,
            output_path@,
        ),
{
    push_owned(args, "-r");
    push_arg(args, decimal_arg(options.effective_fps()));
    if config.use_movflags_faststart {
        push_owned(args, "-movflags");
        push_owned(args, "+faststart");
    }
    push_positive(args, "-t", output_duration_secs);
    if options.effective_preserve_metadata() {
        push_owned(args, "-map_metadata");
        push_owned(args, "0");
    }
    push_owned(args, output_path);
    reveal(tail_args);
    assert(views(args@) =~= views(old(args)@) + tail_args(
        *options,
        config,
        output_duration_secs,
        output_path@,
    ));
}

fn push_head(args: &mut Vec<String>, input_path: &str, start_offset_secs: Option<Decimal>)
    requires
        views(old(args)@) == base_args(),
    ensures
        views(final(args)@) == head_args(input_path@, start_offset_secs),
{
    push_owned(args, "-progress");
    push_owned(args, "pipe:1");
    push_positive(args, "-ss", start_offset_secs);
    push_owned(args, "-i");
    push_owned(args, input_path);
    reveal(head_args);
    assert(views(args@) =~= head_args(input_path@, start_offset_secs));
}

/// Build the FFmpeg transcode command (see `ffmpeg_command`). A maximum
/// bitrate must leave room for its doubled buffer size in `u32`.
pub fn build_ffmpeg_command(
    input_path: &str,
    output_path: &str,
    options: &TranscodeOptions,
    output_duration_secs: Option<Decimal>,
    format_override: Option<&str>,
    start_offset_secs: Option<Decimal>,
) -> (r: Result<Vec<String>, AppError>)
    requires
        options.max_bitrate matches Some(b) ==> b <= 0x7fff_ffff,
    ensures
        r matches Ok(args) && views(args@) == ffmpeg_command(
            input_path@,
            output_path@,
            *options,
            output_duration_secs,
            opt_view(format_override),
            start_offset_secs,
        ),
{
    let ghost fo = opt_view(format_override);
    let output_format = match format_override {
        Some(f) => to_lowercase(f),
        None => options.effective_output_format(),
    };
    let codec_str = options.effective_codec();
    let codec_kind = CodecKind::from_codec_str(codec_str);
    let config = get_output_config(output_format.as_str(), codec_str);

    let mut args = ffmpeg_base_args();
    push_head(&mut args, input_path, start_offset_secs);
    let ghost a1 = views(args@);
    push_mapping(&mut args, options, format_override, config);
    let ghost a2 = views(args@);
    push_owned(&mut args, "-c:v");
    push_owned(&mut args, codec_kind.ffmpeg_name());
    let ghost a3 = views(args@);
    push_audio(&mut args, options, format_override, config);
    let ghost a4 = views(args@);
    push_scale(&mut args, options);
    let ghost a5 = views(args@);
    let codec_part = codec_kind.build_codec_args(
        options.effective_quality(),
        options.effective_preset(),
        options.effective_tune(),
        options.max_bitrate,
    );
    push_all(&mut args, &codec_part);
    let ghost a6 = views(args@);
    push_tail(&mut args, options, config, output_duration_secs, output_path);
    assert(config == cmd_config(*options, fo));
    assert(codec_kind == codec_kind_of(eff_codec(*options)));
    assert(a3 == a2 + seq!["-c:v"@, kind_encoder_name(codec_kind_of(eff_codec(*options)))]);
    assert(views(args@) =~= ffmpeg_command(
        input_path@,
        output_path@,
        *options,
        output_duration_secs,
        fo,
        start_offset_secs,
    ));
    Ok(args)
}


pub open spec fn is_flag(a: Seq<char>) -> bool {
    has_prefix(a, "-"@)
}

/// Display lines of a command: an option and its value share a line when the
/// next argument does not itself start with `-`; every line is indented by two spaces.
pub open spec fn display_lines(a: Seq<Seq<char>>) -> Seq<Seq<char>>
    decreases a.len(),
{
    if a.len() == 0 {
        Seq::empty()
    } else if a.len() >= 2 && is_flag(a[0]) && !is_flag(a[1]) {
        seq!["  "@ + a[0] + " "@ + a[1]] + display_lines(a.skip(2))
    } else {
        seq!["  "@ + a[0]] + display_lines(a.skip(1))
    }
}

/// Lines joined with `\n`.
pub open spec fn join_lines(lines: Seq<Seq<char>>) -> Seq<char>
    decreases lines.len(),
{
    if lines.len() == 0 {
        Seq::empty()
    } else if lines.len() == 1 {
        lines[0]
    } else {
        join_lines(lines.drop_last()) + "\n"@ + lines.last()
    }
}

/// Formats args for readable display: option and value on the same line when
/// the next arg is a value.
pub fn format_args_for_display_multiline(args: &[String]) -> (r: String)
    ensures
        r@ == join_lines(display_lines(views(args@))),
{
    let ghost a = views(args@);
    let mut lines: Vec<String> = Vec::new();
    let mut i: usize = 0;
    assert(a.skip(0) =~= a);
    while i < args.len()
        invariant
            i <= args@.len(),
            a == views(args@),
            views(lines@) + display_lines(a.skip(i as int)) == display_lines(a),
        decreases args@.len() - i,
    {
        let ghost rest = a.skip(i as int);
        assert(rest[0] == args@[i as int]@);
        let arg = args[i].as_str();
        if i + 1 < args.len() && starts_with_str(arg, "-") && !starts_with_str(
            args[i + 1].as_str(),
            "-",
        ) {
            assert(rest[1] == args@[i + 1]@);
            let mut line = owned("  ");
            push_str(&mut line, arg);
            push_str(&mut line, " ");
            push_str(&mut line, args[i + 1].as_str());
            assert(rest.skip(2) =~= a.skip(i + 2));
            assert(line@ =~= "  "@ + rest[0] + " "@ + rest[1]);
            push_arg(&mut lines, line);
            assert(views(lines@) + display_lines(a.skip(i + 2)) =~= display_lines(a));
            i = i + 2;
        } else {
            let mut line = owned("  ");
            push_str(&mut line, arg);
            assert(rest.skip(1) =~= a.skip(i + 1));
            push_arg(&mut lines, line);
            assert(views(lines@) + display_lines(a.skip(i + 1)) =~= display_lines(a));
            i = i + 1;
        }
    }
    assert(a.skip(args@.len() as int) =~= Seq::<Seq<char>>::empty());
    assert(views(lines@) =~= display_lines(a));
    let mut r = String::new();
    let mut k: usize = 0;
    while k < lines.len()
        invariant
            k <= lines@.len(),
            r@ == join_lines(views(lines@).take(k as int)),
        decreases lines@.len() - k,
    {
        if k > 0 {
            push_str(&mut r, "\n");
        }
        push_str(&mut r, lines[k].as_str());
        proof {
            let t = views(lines@).take(k + 1);
            assert(t.drop_last() =~= views(lines@).take(k as int));
            if k == 0 {
                assert(r@ =~= join_lines(t));
            }
        }
        k = k + 1;
    }
    assert(views(lines@).take(lines@.len() as int) =~= views(lines@));
    r
}

/// Every transcode command starts with the fixed arguments
/// `-nostdin -threads 0 -thread_queue_size 512 -progress pipe:1`, then
/// `-ss` and the start only when the start is positive, then `-i` and the
/// input; the output path is always its last argument.
pub proof fn command_ends_with_output(
    input: Seq<char>,
    output: Seq<char>,
    o: TranscodeOptions,
    output_duration: Option<Decimal>,
    fo: Option<Seq<char>>,
    start_offset: Option<Decimal>,
)
    ensures
        ffmpeg_command(input, output, o, output_duration, fo, start_offset).len() > 0,
        ffmpeg_command(input, output, o, output_duration, fo, start_offset).last() == output,
        ffmpeg_command(input, output, o, output_duration, fo, start_offset).take(7) == seq![
            "-nostdin"@,
            "-threads"@,
            "0"@,
            "-thread_queue_size"@,
            "512"@,
            "-progress"@,
            "pipe:1"@,
        ],
        ({
            let c = ffmpeg_command(input, output, o, output_duration, fo, start_offset);
            match start_offset {
                Some(d) => if is_positive(d) {
                    c[7] == "-ss"@ && c[8] == decimal_text(d) && c[9] == "-i"@ && c[10] == input
                } else {
                    c[7] == "-i"@ && c[8] == input
                },
                None => c[7] == "-i"@ && c[8] == input,
            }
        }),
        ({
            let h = head_args(input, start_offset);
            let c = ffmpeg_command(input, output, o, output_duration, fo, start_offset);
            &&& h.len() >= 2
            &&& c[h.len() - 2] == "-i"@
            &&& c[h.len() - 1] == input
        }),
{
    reveal(tail_args);
    reveal(head_args);
    let c = cmd_config(o, fo);
    let t = tail_args(o, c, output_duration, output);
    let h = head_args(input, start_offset);
    assert(t.len() > 0 && t.last() == output);
    let front = h + mapping_args(o, fo) + seq![
        "-c:v"@,
        kind_encoder_name(codec_kind_of(eff_codec(o))),
    ] + audio_args(o, fo) + scale_args(o) + codec_args(
        codec_kind_of(eff_codec(o)),
        eff_quality(o),
        eff_preset(o),
        eff_tune(o),
        o.max_bitrate,
    );
    let full = ffmpeg_command(input, output, o, output_duration, fo, start_offset);
    assert(full == front + t);
    assert((front + t).last() == t.last());
    let a = base_args() + seq!["-progress"@, "pipe:1"@] + positive_arg("-ss"@, start_offset);
    assert(h == a + seq!["-i"@, input]);
    assert(h.len() == a.len() + 2);
    assert(h[a.len() as int] == "-i"@);
    assert(h[a.len() + 1int] == input);
    assert(full[h.len() - 2] == h[h.len() - 2]);
    assert(full[h.len() - 1] == h[h.len() - 1]);
    assert(forall|i: int| 0 <= i < h.len() ==> full[i] == h[i]);
    assert(full.take(7) =~= h.take(7));
    assert(h.take(7) =~= seq![
        "-nostdin"@,
        "-threads"@,
        "0"@,
        "-thread_queue_size"@,
        "512"@,
        "-progress"@,
        "pipe:1"@,
    ]);
}

/// The rest of a transcode command's layout: it ends with `-r` and the
/// effective frame rate, then `-movflags +faststart` for MP4-like outputs,
/// `-t` and the duration when a positive duration is given, and
/// `-map_metadata 0` when metadata is kept, before the output; and it holds
/// `-vf` with the downscale filter when the scale is below one.
pub proof fn command_layout(
    input: Seq<char>,
    output: Seq<char>,
    o: TranscodeOptions,
    output_duration: Option<Decimal>,
    fo: Option<Seq<char>>,
    start_offset: Option<Decimal>,
)
    ensures
        ({
            let c = ffmpeg_command(input, output, o, output_duration, fo, start_offset);
            let t = tail_args(o, cmd_config(o, fo), output_duration, output);
            &&& t.len() >= 3 && t.len() <= c.len()
            &&& c.subrange(c.len() - t.len(), c.len() as int) == t
            &&& t[0] == "-r"@ && t[1] == decimal_text(eff_fps(o))
            &&& eff_preserve_metadata(o) ==> t[t.len() - 3] == "-map_metadata"@ && t[t.len() - 2] == "0"@
            &&& (output_duration matches Some(d) && is_positive(d)) ==> exists|i: int|
                0 <= i < t.len() - 1 && t[i] == "-t"@ && #[trigger] t[i + 1] == decimal_text(output_duration->0)
            &&& is_below_one(eff_scale(o)) ==> exists|i: int|
                0 <= i < c.len() - 1 && c[i] == "-vf"@ && #[trigger] c[i + 1] == "scale=round(iw*"@ + decimal_text(
                    eff_scale(o),
                ) + "/2)*2:-2"@
        }),
{
    reveal(tail_args);
    reveal(scale_args);
    let cfg = cmd_config(o, fo);
    let t = tail_args(o, cfg, output_duration, output);
    let sc = scale_args(o);
    let front = head_args(input, start_offset) + mapping_args(o, fo) + seq![
        "-c:v"@,
        kind_encoder_name(codec_kind_of(eff_codec(o))),
    ] + audio_args(o, fo);
    let cod = codec_args(codec_kind_of(eff_codec(o)), eff_quality(o), eff_preset(o), eff_tune(o), o.max_bitrate);
    let c = ffmpeg_command(input, output, o, output_duration, fo, start_offset);
    assert(c == front + sc + cod + t);
    assert(c.subrange(c.len() - t.len(), c.len() as int) =~= t);
    let r = seq!["-r"@, decimal_text(eff_fps(o))];
    let mv: Seq<Seq<char>> = if cfg.use_movflags_faststart {
        seq!["-movflags"@, "+faststart"@]
    } else {
        Seq::empty()
    };
    let tt = positive_arg("-t"@, output_duration);
    let md: Seq<Seq<char>> = if eff_preserve_metadata(o) {
        seq!["-map_metadata"@, "0"@]
    } else {
        Seq::empty()
    };
    assert(t == r + mv + tt + md + seq![output]);
    assert(t[0] == r[0] && t[1] == r[1]);
    if eff_preserve_metadata(o) {
        assert(t[t.len() - 3] == md[0]);
        assert(t[t.len() - 2] == md[1]);
    }
    if output_duration matches Some(d) && is_positive(d) {
        let i = (r.len() + mv.len()) as int;
        assert(t[i] == tt[0] && t[i + 1] == tt[1]);
    }
    if is_below_one(eff_scale(o)) {
        let i = front.len() as int;
        assert(c[i] == sc[0] && c[i + 1] == sc[1]);
    }
}

/// The x264-style preset names the speed settings follow, from fastest to
/// slowest.
pub open spec fn preset_rank(p: Seq<char>) -> Option<int> {
    if p == "ultrafast"@ {
        Some(0)
    } else if p == "superfast"@ {
        Some(1)
    } else if p == "veryfast"@ {
        Some(2)
    } else if p == "faster"@ {
        Some(3)
    } else if p == "fast"@ {
        Some(4)
    } else if p == "medium"@ {
        Some(5)
    } else if p == "slow"@ {
        Some(6)
    } else {
        None
    }
}

proof fn lemma_vp9_cpu_by_rank(p: Seq<char>)
    ensures
        preset_rank(p) matches Some(r) ==> digits_value(vp9_speed(p).1) == (if r <= 1 {
            4int
        } else if r <= 3 {
            3int
        } else if r == 4 {
            2int
        } else if r == 5 {
            1int
        } else {
            0int
        }),
        p == "slow"@ ==> vp9_speed(p) == ("best"@, "0"@),
{
    reveal_strlit("ultrafast");
    reveal_strlit("superfast");
    reveal_strlit("veryfast");
    reveal_strlit("faster");
    reveal_strlit("fast");
    reveal_strlit("medium");
    reveal_strlit("slow");
    reveal_strlit("4");
    reveal_strlit("3");
    reveal_strlit("2");
    reveal_strlit("1");
    reveal_strlit("0");
    assert("ultrafast"@.len() == 9 && "ultrafast"@[0] == 'u');
    assert("superfast"@.len() == 9 && "superfast"@[0] == 's');
    assert("veryfast"@.len() == 8);
    assert("faster"@.len() == 6 && "faster"@[0] == 'f');
    assert("fast"@.len() == 4 && "fast"@[0] == 'f');
    assert("medium"@.len() == 6 && "medium"@[0] == 'm');
    assert("slow"@.len() == 4 && "slow"@[0] == 's');
    assert(seq!['4'].drop_last() =~= Seq::<char>::empty());
    assert(seq!['3'].drop_last() =~= Seq::<char>::empty());
    assert(seq!['2'].drop_last() =~= Seq::<char>::empty());
    assert(seq!['1'].drop_last() =~= Seq::<char>::empty());
    assert(seq!['0'].drop_last() =~= Seq::<char>::empty());
    assert(digits_value(Seq::<char>::empty()) == 0);
    assert(digits_value(seq!['4']) == 4);
    assert(digits_value(seq!['3']) == 3);
    assert(digits_value(seq!['2']) == 2);
    assert(digits_value(seq!['1']) == 1);
    assert(digits_value(seq!['0']) == 0);
    assert("4"@ =~= seq!['4']);
    assert("3"@ =~= seq!['3']);
    assert("2"@ =~= seq!['2']);
    assert("1"@ =~= seq!['1']);
    assert("0"@ =~= seq!['0']);
}

/// libvpx-vp9's speed follows the preset: the command carries `-deadline`
/// and `-cpu-used` with the preset's values; `slow` is the slowest, best
/// setting (`-deadline best -cpu-used 0`); and over the preset names, from
/// `ultrafast` to `slow`, `-cpu-used` never rises as the preset gets slower.
pub proof fn vp9_speed_follows_preset(
    input: Seq<char>,
    output: Seq<char>,
    o: TranscodeOptions,
    output_duration: Option<Decimal>,
    fo: Option<Seq<char>>,
    start_offset: Option<Decimal>,
    p: Seq<char>,
    q: Seq<char>,
)
    ensures
        codec_kind_of(eff_codec(o)) is VP9 ==> ({
            let c = ffmpeg_command(input, output, o, output_duration, fo, start_offset);
            exists|i: int|
                0 <= i && i + 3 < c.len() && c[i] == "-deadline"@ && #[trigger] c[i + 1] == vp9_speed(eff_preset(o)).0
                    && c[i + 2] == "-cpu-used"@ && c[i + 3] == vp9_speed(eff_preset(o)).1
        }),
        vp9_speed("slow"@) == ("best"@, "0"@),
        (preset_rank(p) matches Some(rp) && preset_rank(q) matches Some(rq) && rp <= rq) ==> digits_value(
            vp9_speed(p).1,
        ) >= digits_value(vp9_speed(q).1),
{
    lemma_vp9_cpu_by_rank(p);
    lemma_vp9_cpu_by_rank(q);
    lemma_vp9_cpu_by_rank("slow"@);
    if codec_kind_of(eff_codec(o)) is VP9 {
        reveal(codec_args);
        let k = codec_kind_of(eff_codec(o));
        let front = head_args(input, start_offset) + mapping_args(o, fo) + seq![
            "-c:v"@,
            kind_encoder_name(k),
        ] + audio_args(o, fo) + scale_args(o);
        let cod = codec_args(k, eff_quality(o), eff_preset(o), eff_tune(o), o.max_bitrate);
        let t = tail_args(o, cmd_config(o, fo), output_duration, output);
        let c = ffmpeg_command(input, output, o, output_duration, fo, start_offset);
        assert(c == front + cod + t);
        let i = front.len() as int;
        assert(c[i] == cod[0] && c[i + 1] == cod[1] && c[i + 2] == cod[2] && c[i + 3] == cod[3]);
    }
}

/// Audio is copied only when the output needs no channel change: when the
/// container requires stereo or a stereo downmix is asked for, a copy of the
/// (first) audio stream means the source has exactly two channels, and
/// otherwise the audio is re-encoded with `-ac 2`. The audio arguments stand
/// in the command right after the video encoder.
pub proof fn audio_copy_keeps_channels(
    input: Seq<char>,
    output: Seq<char>,
    o: TranscodeOptions,
    output_duration: Option<Decimal>,
    fo: Option<Seq<char>>,
    start_offset: Option<Decimal>,
)
    requires
        !eff_remove_audio(o),
        !keeps_all_audio(o, fo),
    ensures
        ({
            let a = audio_args(o, fo);
            let stereo = cmd_config(o, fo).requires_stereo_downmix || eff_downmix_to_stereo(o);
            &&& (a == seq!["-c:a"@, "copy"@] && stereo) ==> o.audio_channels == Some(2u32)
            &&& (stereo && a != seq!["-c:a"@, "copy"@]) ==> a.len() >= 2 && a[a.len() - 2] == "-ac"@ && a[a.len()
                - 1] == "2"@
        }),
        ({
            let a = audio_args(o, fo);
            let c = ffmpeg_command(input, output, o, output_duration, fo, start_offset);
            exists|i: int| 0 <= i && i + a.len() <= c.len() && #[trigger] c.subrange(i, i + a.len()) == a
        }),
{
    reveal(audio_args);
    let cfg = cmd_config(o, fo);
    let copy = copies_audio(o, fo);
    let a = audio_args(o, fo);
    if !copy {
        if cfg.requires_stereo_downmix {
            assert(a.len() == 6);
        } else {
            assert(a.len() >= 4);
        }
    }
    let k = codec_kind_of(eff_codec(o));
    let front = head_args(input, start_offset) + mapping_args(o, fo) + seq!["-c:v"@, kind_encoder_name(k)];
    let c = ffmpeg_command(input, output, o, output_duration, fo, start_offset);
    let rest = scale_args(o) + codec_args(k, eff_quality(o), eff_preset(o), eff_tune(o), o.max_bitrate)
        + tail_args(o, cfg, output_duration, output);
    assert(c =~= front + a + rest);
    let i = front.len() as int;
    assert(c.subrange(i, i + a.len()) =~= a);
}

} // verus!
