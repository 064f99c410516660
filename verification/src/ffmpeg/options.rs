//! Transcode options, their defaults, and the cache keys derived from them.

use vstd::prelude::*;
use crate::decimal::{decimal_text, fixed4_text, round_hundredths, Decimal};
use crate::text::{dec, owned, push_dec, push_str, str_eq, to_lowercase, spec_lowercase};

verus! {

/// Version token for estimate cache key invalidation.
pub open spec fn estimate_cache_version() -> Seq<char> {
    "estimate-sampled-bitrate"@
}

pub fn estimate_cache_version_text() -> (r: &'static str)
    ensures
        r@ == estimate_cache_version(),
{
    "estimate-sampled-bitrate"
}

/// Confidence bucket for a size estimate range.
#[derive(Clone, Copy, Debug, PartialEq, Eq)]
pub enum EstimateConfidence {
    High,
    Medium,
    Low,
}

/// A structured output size estimate: a best guess within a range, how
/// confident it is, and how it was sampled.
pub struct SizeEstimate {
    pub best_size: u64,
    pub low_size: u64,
    pub high_size: u64,
    pub confidence: EstimateConfidence,
    pub method: String,
    pub sample_count: u32,
    pub sample_seconds_total: Decimal,
}

pub struct EstimateModel {
    pub best_size: u64,
    pub low_size: u64,
    pub high_size: u64,
    pub confidence: EstimateConfidence,
    pub method: Seq<char>,
    pub sample_count: u32,
    pub sample_seconds_total: Decimal,
}

impl View for SizeEstimate {
    type V = EstimateModel;

    open spec fn view(&self) -> EstimateModel {
        EstimateModel {
            best_size: self.best_size,
            low_size: self.low_size,
            high_size: self.high_size,
            confidence: self.confidence,
            method: self.method@,
            sample_count: self.sample_count,
            sample_seconds_total: self.sample_seconds_total,
        }
    }
}

impl SizeEstimate {
    /// A copy of the estimate.
    pub fn duplicate(&self) -> (r: SizeEstimate)
        ensures
            r@ == self@,
    {
        SizeEstimate {
            best_size: self.best_size,
            low_size: self.low_size,
            high_size: self.high_size,
            confidence: self.confidence,
            method: owned(self.method.as_str()),
            sample_count: self.sample_count,
            sample_seconds_total: self.sample_seconds_total,
        }
    }
}

#[derive(Clone, Copy, Debug, PartialEq, Eq)]
pub enum RateControlMode {
    Quality,
    TargetSize,
}

/// Options of one transcode. Floating-point quantities are held as the
/// decimal numbers std prints them as.
#[derive(Debug)]
pub struct TranscodeOptions {
    pub codec: Option<String>,
    pub quality: Option<u32>,
    pub max_bitrate: Option<u32>,
    pub scale: Option<Decimal>,
    pub fps: Option<Decimal>,
    pub remove_audio: Option<bool>,
    pub preset: Option<String>,
    pub tune: Option<String>,
    pub output_format: Option<String>,
    pub rate_control_mode: Option<RateControlMode>,
    pub target_size_mb: Option<Decimal>,
    pub preview_duration: Option<u32>,
    pub duration_secs: Option<Decimal>,
    /// Include all audio streams in output (transcoded to AAC/Opus). Default false.
    pub preserve_additional_audio_streams: Option<bool>,
    /// From metadata; used when preserve_additional_audio_streams. Default 1.
    pub audio_stream_count: Option<u32>,
    /// Copy input metadata (title, creation date, etc.) to output via -map_metadata 0. Default false.
    pub preserve_metadata: Option<bool>,
    /// Audio bitrate in kbps. Default 128.
    pub audio_bitrate: Option<u32>,
    /// Downmix multichannel to stereo when output supports multichannel. Default false.
    pub downmix_to_stereo: Option<bool>,
    /// Include all subtitle streams in output. Default false.
    pub preserve_subtitles: Option<bool>,
    /// From metadata; used when preserve_subtitles. Default 0.
    pub subtitle_stream_count: Option<u32>,
    /// From metadata; first audio stream codec name for passthrough decision.
    pub audio_codec_name: Option<String>,
    /// From metadata; first audio stream channel count.
    pub audio_channels: Option<u32>,
}

pub open spec fn opt_text(o: Option<String>) -> Option<Seq<char>> {
    match o {
        Some(s) => Some(s@),
        None => None,
    }
}

/// The defaults: libx264 at quality 75, scale 1, 30 fps, audio kept, preset
/// `fast`, MP4 output, quality rate control, a three-second preview; every
/// other option unset.
pub open spec fn is_default_options(o: TranscodeOptions) -> bool {
    &&& opt_text(o.codec) == Some("libx264"@)
    &&& o.quality == Some(75u32)
    &&& o.max_bitrate is None
    &&& o.scale == Some(Decimal { negative: false, digits: 1, exp: 0 })
    &&& o.fps == Some(Decimal { negative: false, digits: 3, exp: 1 })
    &&& o.remove_audio == Some(false)
    &&& opt_text(o.preset) == Some("fast"@)
    &&& o.tune is None
    &&& opt_text(o.output_format) == Some("mp4"@)
    &&& o.rate_control_mode == Some(RateControlMode::Quality)
    &&& o.target_size_mb is None
    &&& o.preview_duration == Some(3u32)
    &&& o.duration_secs is None
    &&& o.preserve_additional_audio_streams is None
    &&& o.audio_stream_count is None
    &&& o.preserve_metadata is None
    &&& o.audio_bitrate is None
    &&& o.downmix_to_stereo is None
    &&& o.preserve_subtitles is None
    &&& o.subtitle_stream_count is None
    &&& o.audio_codec_name is None
    &&& o.audio_channels is None
}

impl Default for TranscodeOptions {
    fn default() -> (o: Self)
        ensures
            is_default_options(o),
    {
        TranscodeOptions {
            codec: Some(owned("libx264")),
            quality: Some(75),
            max_bitrate: None,
            scale: Some(Decimal { negative: false, digits: 1, exp: 0 }),
            fps: Some(Decimal { negative: false, digits: 3, exp: 1 }),
            remove_audio: Some(false),
            preset: Some(owned("fast")),
            tune: None,
            output_format: Some(owned("mp4")),
            rate_control_mode: Some(RateControlMode::Quality),
            target_size_mb: None,
            preview_duration: Some(3),
            duration_secs: None,
            preserve_additional_audio_streams: None,
            audio_stream_count: None,
            preserve_metadata: None,
            audio_bitrate: None,
            downmix_to_stereo: None,
            preserve_subtitles: None,
            subtitle_stream_count: None,
            audio_codec_name: None,
            audio_channels: None,
        }
    }
}

pub fn clone_opt_string(o: &Option<String>) -> (r: Option<String>)
    ensures
        opt_text(r) == opt_text(*o),
{
    match o {
        Some(s) => Some(s.clone()),
        None => None,
    }
}

/// The two option values agree on every field (strings by their text).
pub open spec fn same_options(a: TranscodeOptions, b: TranscodeOptions) -> bool {
    &&& opt_text(a.codec) == opt_text(b.codec)
    &&& a.quality == b.quality
    &&& a.max_bitrate == b.max_bitrate
    &&& a.scale == b.scale
    &&& a.fps == b.fps
    &&& a.remove_audio == b.remove_audio
    &&& opt_text(a.preset) == opt_text(b.preset)
    &&& opt_text(a.tune) == opt_text(b.tune)
    &&& opt_text(a.output_format) == opt_text(b.output_format)
    &&& a.rate_control_mode == b.rate_control_mode
    &&& a.target_size_mb == b.target_size_mb
    &&& a.preview_duration == b.preview_duration
    &&& a.duration_secs == b.duration_secs
    &&& a.preserve_additional_audio_streams == b.preserve_additional_audio_streams
    &&& a.audio_stream_count == b.audio_stream_count
    &&& a.preserve_metadata == b.preserve_metadata
    &&& a.audio_bitrate == b.audio_bitrate
    &&& a.downmix_to_stereo == b.downmix_to_stereo
    &&& a.preserve_subtitles == b.preserve_subtitles
    &&& a.subtitle_stream_count == b.subtitle_stream_count
    &&& opt_text(a.audio_codec_name) == opt_text(b.audio_codec_name)
    &&& a.audio_channels == b.audio_channels
}

// ---- effective values ------------------------------------------------------

pub open spec fn eff_codec(o: TranscodeOptions) -> Seq<char> {
    match o.codec {
        Some(c) => c@,
        None => "libx264"@,
    }
}

pub open spec fn eff_quality(o: TranscodeOptions) -> u32 {
    match o.quality {
        Some(q) => q,
        None => 75,
    }
}

pub open spec fn eff_scale(o: TranscodeOptions) -> Decimal {
    match o.scale {
        Some(s) => s,
        None => Decimal { negative: false, digits: 1, exp: 0 },
    }
}

/// Frame rate rounded to two decimal places.
pub open spec fn eff_fps(o: TranscodeOptions) -> Decimal {
    round_hundredths(
        match o.fps {
            Some(f) => f,
            None => Decimal { negative: false, digits: 3, exp: 1 },
        },
    )
}

pub open spec fn eff_remove_audio(o: TranscodeOptions) -> bool {
    match o.remove_audio {
        Some(b) => b,
        None => false,
    }
}

pub open spec fn eff_preset(o: TranscodeOptions) -> Seq<char> {
    match o.preset {
        Some(p) => p@,
        None => "fast"@,
    }
}

/// Tune, unless unset, empty or `none`.
pub open spec fn eff_tune(o: TranscodeOptions) -> Option<Seq<char>> {
    match o.tune {
        Some(t) => if t@.len() > 0 && t@ != "none"@ {
            Some(t@)
        } else {
            None
        },
        None => None,
    }
}

/// Output container, lowercased.
pub open spec fn eff_output_format(o: TranscodeOptions) -> Seq<char> {
    spec_lowercase(
        match o.output_format {
            Some(f) => f@,
            None => "mp4"@,
        },
    )
}

pub open spec fn eff_rate_control_mode(o: TranscodeOptions) -> RateControlMode {
    match o.rate_control_mode {
        Some(m) => m,
        None => RateControlMode::Quality,
    }
}

pub open spec fn eff_preview_duration(o: TranscodeOptions) -> u32 {
    match o.preview_duration {
        Some(d) => d,
        None => 3,
    }
}

pub open spec fn eff_preserve_additional_audio_streams(o: TranscodeOptions) -> bool {
    match o.preserve_additional_audio_streams {
        Some(b) => b,
        None => false,
    }
}

/// Audio stream count, at least one.
pub open spec fn eff_audio_stream_count(o: TranscodeOptions) -> u32 {
    let c = match o.audio_stream_count {
        Some(c) => c,
        None => 1,
    };
    if c >= 1 {
        c
    } else {
        1
    }
}

/// Audio streams that a target size has to leave room for: none when audio
/// is removed or the source has none, every stream when additional streams
/// are kept, otherwise one.
pub open spec fn target_audio_streams(o: TranscodeOptions) -> u32 {
    let c = match o.audio_stream_count {
        Some(c) => c,
        None => 1,
    };
    if eff_remove_audio(o) || c == 0 {
        0
    } else if eff_preserve_additional_audio_streams(o) {
        c
    } else {
        1
    }
}

pub open spec fn eff_preserve_metadata(o: TranscodeOptions) -> bool {
    match o.preserve_metadata {
        Some(b) => b,
        None => false,
    }
}

/// Audio bitrate in kbps, clamped to 64..=320.
pub open spec fn eff_audio_bitrate(o: TranscodeOptions) -> u32 {
    let b = match o.audio_bitrate {
        Some(b) => b,
        None => 128,
    };
    if b < 64 {
        64
    } else if b > 320 {
        320
    } else {
        b
    }
}

pub open spec fn eff_downmix_to_stereo(o: TranscodeOptions) -> bool {
    match o.downmix_to_stereo {
        Some(b) => b,
        None => false,
    }
}

pub open spec fn eff_preserve_subtitles(o: TranscodeOptions) -> bool {
    match o.preserve_subtitles {
        Some(b) => b,
        None => false,
    }
}

pub open spec fn eff_subtitle_stream_count(o: TranscodeOptions) -> u32 {
    match o.subtitle_stream_count {
        Some(c) => c,
        None => 0,
    }
}

impl TranscodeOptions {
    pub fn effective_codec(&self) -> (r: &str)
        ensures
            r@ == eff_codec(*self),
    {
        match &self.codec {
            Some(c) => c.as_str(),
            None => "libx264",
        }
    }

    pub fn effective_quality(&self) -> (r: u32)
        ensures
            r == eff_quality(*self),
    {
        match self.quality {
            Some(q) => q,
            None => 75,
        }
    }

    pub fn effective_scale(&self) -> (r: Decimal)
        ensures
            r == eff_scale(*self),
    {
        match self.scale {
            Some(s) => s,
            None => Decimal { negative: false, digits: 1, exp: 0 },
        }
    }

    pub fn effective_fps(&self) -> (r: Decimal)
        ensures
            r == eff_fps(*self),
    {
        let f = match self.fps {
            Some(f) => f,
            None => Decimal { negative: false, digits: 3, exp: 1 },
        };
        f.round_hundredths()
    }

    pub fn effective_remove_audio(&self) -> (r: bool)
        ensures
            r == eff_remove_audio(*self),
    {
        match self.remove_audio {
            Some(b) => b,
            None => false,
        }
    }

    pub fn effective_preset(&self) -> (r: &str)
        ensures
            r@ == eff_preset(*self),
    {
        match &self.preset {
            Some(p) => p.as_str(),
            None => "fast",
        }
    }

    pub fn effective_tune(&self) -> (r: Option<&str>)
        ensures
            match r {
                Some(t) => eff_tune(*self) == Some(t@),
                None => eff_tune(*self) is None,
            },
    {
        match &self.tune {
            Some(t) => {
                if t.as_str().is_empty() || str_eq(t.as_str(), "none") {
                    None
                } else {
                    Some(t.as_str())
                }
            },
            None => None,
        }
    }

    pub fn effective_output_format(&self) -> (r: String)
        ensures
            r@ == eff_output_format(*self),
    {
        match &self.output_format {
            Some(f) => to_lowercase(f.as_str()),
            None => to_lowercase("mp4"),
        }
    }

    pub fn effective_rate_control_mode(&self) -> (r: RateControlMode)
        ensures
            r == eff_rate_control_mode(*self),
    {
        match self.rate_control_mode {
            Some(m) => m,
            None => RateControlMode::Quality,
        }
    }

    pub fn effective_target_size_mb(&self) -> (r: Option<Decimal>)
        ensures
            r == self.target_size_mb,
    {
        self.target_size_mb
    }

    pub fn effective_preview_duration(&self) -> (r: u32)
        ensures
            r == eff_preview_duration(*self),
    {
        match self.preview_duration {
            Some(d) => d,
            None => 3,
        }
    }

    pub fn effective_preserve_additional_audio_streams(&self) -> (r: bool)
        ensures
            r == eff_preserve_additional_audio_streams(*self),
    {
        match self.preserve_additional_audio_streams {
            Some(b) => b,
            None => false,
        }
    }

    pub fn effective_audio_stream_count(&self) -> (r: u32)
        ensures
            r == eff_audio_stream_count(*self),
    {
        let c = match self.audio_stream_count {
            Some(c) => c,
            None => 1,
        };
        if c >= 1 {
            c
        } else {
            1
        }
    }

    /// Number of audio streams whose bitrate a target size has to hold.
    pub fn target_size_audio_streams(&self) -> (r: u32)
        ensures
            r == target_audio_streams(*self),
    {
        let c = match self.audio_stream_count {
            Some(c) => c,
            None => 1,
        };
        if self.effective_remove_audio() || c == 0 {
            0
        } else if self.effective_preserve_additional_audio_streams() {
            c
        } else {
            1
        }
    }

    pub fn effective_preserve_metadata(&self) -> (r: bool)
        ensures
            r == eff_preserve_metadata(*self),
    {
        match self.preserve_metadata {
            Some(b) => b,
            None => false,
        }
    }

    pub fn effective_audio_bitrate(&self) -> (r: u32)
        ensures
            r == eff_audio_bitrate(*self),
            64 <= r <= 320,
    {
        let b = match self.audio_bitrate {
            Some(b) => b,
            None => 128,
        };
        if b < 64 {
            64
        } else if b > 320 {
            320
        } else {
            b
        }
    }

    pub fn effective_downmix_to_stereo(&self) -> (r: bool)
        ensures
            r == eff_downmix_to_stereo(*self),
    {
        match self.downmix_to_stereo {
            Some(b) => b,
            None => false,
        }
    }

    pub fn effective_preserve_subtitles(&self) -> (r: bool)
        ensures
            r == eff_preserve_subtitles(*self),
    {
        match self.preserve_subtitles {
            Some(b) => b,
            None => false,
        }
    }

    pub fn effective_subtitle_stream_count(&self) -> (r: u32)
        ensures
            r == eff_subtitle_stream_count(*self),
    {
        match self.subtitle_stream_count {
            Some(c) => c,
            None => 0,
        }
    }

    /// A copy of the options, field by field.
    pub fn duplicate(&self) -> (r: TranscodeOptions)
        ensures
            same_options(r, *self),
    {
        TranscodeOptions {
            codec: clone_opt_string(&self.codec),
            quality: self.quality,
            max_bitrate: self.max_bitrate,
            scale: self.scale,
            fps: self.fps,
            remove_audio: self.remove_audio,
            preset: clone_opt_string(&self.preset),
            tune: clone_opt_string(&self.tune),
            output_format: clone_opt_string(&self.output_format),
            rate_control_mode: self.rate_control_mode,
            target_size_mb: self.target_size_mb,
            preview_duration: self.preview_duration,
            duration_secs: self.duration_secs,
            preserve_additional_audio_streams: self.preserve_additional_audio_streams,
            audio_stream_count: self.audio_stream_count,
            preserve_metadata: self.preserve_metadata,
            audio_bitrate: self.audio_bitrate,
            downmix_to_stereo: self.downmix_to_stereo,
            preserve_subtitles: self.preserve_subtitles,
            subtitle_stream_count: self.subtitle_stream_count,
            audio_codec_name: clone_opt_string(&self.audio_codec_name),
            audio_channels: self.audio_channels,
        }
    }
}

// ---- cache keys ------------------------------------------------------------

pub open spec fn bool_text(b: bool) -> Seq<char> {
    if b {
        "true"@
    } else {
        "false"@
    }
}

pub open spec fn rate_control_text(m: RateControlMode) -> Seq<char> {
    match m {
        RateControlMode::Quality => "quality"@,
        RateControlMode::TargetSize => "targetSize"@,
    }
}

pub open spec fn opt_u32_text(o: Option<u32>) -> Seq<char> {
    match o {
        Some(v) => dec(v as nat),
        None => Seq::empty(),
    }
}

pub open spec fn opt_string_text(o: Option<String>) -> Seq<char> {
    match o {
        Some(s) => s@,
        None => Seq::empty(),
    }
}

/// The option values that every cache key starts with, in order.
pub open spec fn key_fields(o: TranscodeOptions) -> Seq<Seq<char>> {
    seq![
        eff_codec(o),
        dec(eff_quality(o) as nat),
        opt_u32_text(o.max_bitrate),
        decimal_text(eff_scale(o)),
        decimal_text(eff_fps(o)),
        bool_text(eff_remove_audio(o)),
        eff_preset(o),
        opt_string_text(o.tune),
        rate_control_text(eff_rate_control_mode(o)),
        match o.target_size_mb {
            Some(v) => fixed4_text(v),
            None => Seq::empty(),
        },
        bool_text(eff_preserve_additional_audio_streams(o)),
        dec(eff_audio_stream_count(o) as nat),
        bool_text(eff_preserve_metadata(o)),
        dec(eff_audio_bitrate(o) as nat),
        bool_text(eff_downmix_to_stereo(o)),
        bool_text(eff_preserve_subtitles(o)),
        dec(eff_subtitle_stream_count(o) as nat),
        opt_string_text(o.audio_codec_name),
    ]
}

/// The fields joined with `|`.
pub open spec fn join_bar(fields: Seq<Seq<char>>) -> Seq<char>
    decreases fields.len(),
{
    if fields.len() == 0 {
        Seq::empty()
    } else if fields.len() == 1 {
        fields[0]
    } else {
        join_bar(fields.drop_last()) + "|"@ + fields.last()
    }
}

pub open spec fn key_common(o: TranscodeOptions) -> Seq<char> {
    join_bar(key_fields(o))
}

/// Key of a full transcode: the common fields and the output format.
pub open spec fn transcode_key(o: TranscodeOptions) -> Seq<char> {
    key_common(o) + "|"@ + eff_output_format(o)
}

/// Key of a preview: the common fields only.
pub open spec fn preview_key(o: TranscodeOptions) -> Seq<char> {
    key_common(o)
}

/// Key of an estimate: the version token, the common fields and the output format.
pub open spec fn estimate_key(o: TranscodeOptions) -> Seq<char> {
    estimate_cache_version() + "|"@ + key_common(o) + "|"@ + eff_output_format(o)
}

fn push_bool(s: &mut String, b: bool)
    ensures
        final(s)@ == old(s)@ + bool_text(b),
{
    if b {
        push_str(s, "true");
    } else {
        push_str(s, "false");
    }
}

impl TranscodeOptions {
    fn options_cache_key_common(&self) -> (r: String)
        ensures
            r@ == key_common(*self),
    {
        let ghost f = key_fields(*self);
        let mut s = String::new();
        push_str(&mut s, self.effective_codec());
        assert(s@ =~= join_bar(f.take(1)));
        push_str(&mut s, "|");
        push_dec(&mut s, self.effective_quality() as u64);
        assert(s@ =~= join_bar(f.take(2))) by {
            assert(f.take(2).drop_last() =~= f.take(1));
        }
        push_str(&mut s, "|");
        match self.max_bitrate {
            Some(b) => push_dec(&mut s, b as u64),
            None => {},
        }
        assert(s@ =~= join_bar(f.take(3))) by {
            assert(f.take(3).drop_last() =~= f.take(2));
        }
        push_str(&mut s, "|");
        self.effective_scale().push_text(&mut s);
        assert(s@ =~= join_bar(f.take(4))) by {
            assert(f.take(4).drop_last() =~= f.take(3));
        }
        push_str(&mut s, "|");
        self.effective_fps().push_text(&mut s);
        assert(s@ =~= join_bar(f.take(5))) by {
            assert(f.take(5).drop_last() =~= f.take(4));
        }
        push_str(&mut s, "|");
        push_bool(&mut s, self.effective_remove_audio());
        assert(s@ =~= join_bar(f.take(6))) by {
            assert(f.take(6).drop_last() =~= f.take(5));
        }
        push_str(&mut s, "|");
        push_str(&mut s, self.effective_preset());
        assert(s@ =~= join_bar(f.take(7))) by {
            assert(f.take(7).drop_last() =~= f.take(6));
        }
        push_str(&mut s, "|");
        match &self.tune {
            Some(t) => push_str(&mut s, t.as_str()),
            None => {},
        }
        assert(s@ =~= join_bar(f.take(8))) by {
            assert(f.take(8).drop_last() =~= f.take(7));
        }
        push_str(&mut s, "|");
        match self.effective_rate_control_mode() {
            RateControlMode::Quality => push_str(&mut s, "quality"),
            RateControlMode::TargetSize => push_str(&mut s, "targetSize"),
        }
        assert(s@ =~= join_bar(f.take(9))) by {
            assert(f.take(9).drop_last() =~= f.take(8));
        }
        push_str(&mut s, "|");
        match self.target_size_mb {
            Some(v) => v.push_fixed4(&mut s),
            None => {},
        }
        assert(s@ =~= join_bar(f.take(10))) by {
            assert(f.take(10).drop_last() =~= f.take(9));
        }
        push_str(&mut s, "|");
        push_bool(&mut s, self.effective_preserve_additional_audio_streams());
        assert(s@ =~= join_bar(f.take(11))) by {
            assert(f.take(11).drop_last() =~= f.take(10));
        }
        push_str(&mut s, "|");
        push_dec(&mut s, self.effective_audio_stream_count() as u64);
        assert(s@ =~= join_bar(f.take(12))) by {
            assert(f.take(12).drop_last() =~= f.take(11));
        }
        push_str(&mut s, "|");
        push_bool(&mut s, self.effective_preserve_metadata());
        assert(s@ =~= join_bar(f.take(13))) by {
            assert(f.take(13).drop_last() =~= f.take(12));
        }
        push_str(&mut s, "|");
        push_dec(&mut s, self.effective_audio_bitrate() as u64);
        assert(s@ =~= join_bar(f.take(14))) by {
            assert(f.take(14).drop_last() =~= f.take(13));
        }
        push_str(&mut s, "|");
        push_bool(&mut s, self.effective_downmix_to_stereo());
        assert(s@ =~= join_bar(f.take(15))) by {
            assert(f.take(15).drop_last() =~= f.take(14));
        }
        push_str(&mut s, "|");
        push_bool(&mut s, self.effective_preserve_subtitles());
        assert(s@ =~= join_bar(f.take(16))) by {
            assert(f.take(16).drop_last() =~= f.take(15));
        }
        push_str(&mut s, "|");
        push_dec(&mut s, self.effective_subtitle_stream_count() as u64);
        assert(s@ =~= join_bar(f.take(17))) by {
            assert(f.take(17).drop_last() =~= f.take(16));
        }
        push_str(&mut s, "|");
        match &self.audio_codec_name {
            Some(a) => push_str(&mut s, a.as_str()),
            None => {},
        }
        assert(s@ =~= join_bar(f.take(18))) by {
            assert(f.take(18).drop_last() =~= f.take(17));
        }
        assert(f.take(18) =~= f);
        s
    }

    /// Cache key for a full transcode (excludes duration_secs).
    pub fn options_cache_key(&self) -> (r: String)
        ensures
            r@ == transcode_key(*self),
    {
        let mut s = self.options_cache_key_common();
        push_str(&mut s, "|");
        let f = self.effective_output_format();
        push_str(&mut s, f.as_str());
        s
    }

    /// Cache key for a preview (excludes output_format).
    pub fn options_cache_key_for_preview(&self) -> (r: String)
        ensures
            r@ == preview_key(*self),
    {
        self.options_cache_key_common()
    }

    /// Cache key for an estimate (includes output_format and the estimate version).
    pub fn options_cache_key_for_estimate(&self) -> (r: String)
        ensures
            r@ == estimate_key(*self),
    {
        let mut s = owned(estimate_cache_version_text());
        push_str(&mut s, "|");
        let c = self.options_cache_key_common();
        push_str(&mut s, c.as_str());
        push_str(&mut s, "|");
        let f = self.effective_output_format();
        push_str(&mut s, f.as_str());
        s
    }
}

proof fn lemma_join_head(f: Seq<Seq<char>>)
    requires
        f.len() >= 3,
    ensures
        join_bar(f) == f[0] + "|"@ + f[1] + "|"@ + join_bar(f.skip(2)),
    decreases f.len(),
{
    let d = f.drop_last();
    if f.len() == 3 {
        assert(d.drop_last() =~= seq![f[0]]);
        assert(join_bar(d) == join_bar(d.drop_last()) + "|"@ + d.last());
        assert(f.skip(2) =~= seq![f[2]]);
        assert(join_bar(f) =~= f[0] + "|"@ + f[1] + "|"@ + join_bar(f.skip(2)));
    } else {
        lemma_join_head(d);
        assert(d.skip(2) =~= f.skip(2).drop_last());
        assert(f.skip(2).last() == f.last());
        assert(join_bar(f.skip(2)) == join_bar(f.skip(2).drop_last()) + "|"@ + f.skip(2).last());
        assert(join_bar(f) =~= f[0] + "|"@ + f[1] + "|"@ + join_bar(f.skip(2)));
    }
}

proof fn lemma_dec_injective(a: nat, b: nat)
    requires
        a != b,
    ensures
        dec(a) != dec(b),
{
    crate::number::lemma_dec_reads_back(a);
    crate::number::lemma_dec_reads_back(b);
}

/// Cache keys separate quality: two option values that differ only in
/// quality, with different effective qualities, have different preview,
/// transcode and estimate keys, so a preview or estimate made at one quality
/// is never served for another.
pub proof fn keys_separate_quality(a: TranscodeOptions, b: TranscodeOptions)
    requires
        b == (TranscodeOptions { quality: b.quality, ..a }),
        eff_quality(a) != eff_quality(b),
    ensures
        preview_key(a) != preview_key(b),
        transcode_key(a) != transcode_key(b),
        estimate_key(a) != estimate_key(b),
{
    let fa = key_fields(a);
    let fb = key_fields(b);
    lemma_join_head(fa);
    lemma_join_head(fb);
    assert(fa[0] == fb[0]);
    assert(fa.skip(2) =~= fb.skip(2));
    lemma_dec_injective(eff_quality(a) as nat, eff_quality(b) as nat);
    let p = fa[0] + "|"@;
    let r = "|"@ + join_bar(fa.skip(2));
    let ka = key_common(a);
    let kb = key_common(b);
    assert(ka =~= p + fa[1] + r);
    assert(kb =~= p + fb[1] + r);
    if ka == kb {
        assert(fa[1].len() == fb[1].len());
        assert(fa[1] =~= ka.subrange(p.len() as int, (p.len() + fa[1].len()) as int));
        assert(fb[1] =~= kb.subrange(p.len() as int, (p.len() + fb[1].len()) as int));
    }
    assert(eff_output_format(a) == eff_output_format(b));
    let fmt = "|"@ + eff_output_format(a);
    if transcode_key(a) == transcode_key(b) {
        assert(transcode_key(a) =~= ka + fmt);
        assert(transcode_key(b) =~= kb + fmt);
        assert(ka =~= transcode_key(a).take(ka.len() as int));
        assert(kb =~= transcode_key(b).take(kb.len() as int));
    }
    let v = estimate_cache_version() + "|"@;
    if estimate_key(a) == estimate_key(b) {
        assert(estimate_key(a) =~= v + ka + fmt);
        assert(estimate_key(b) =~= v + kb + fmt);
        assert(ka =~= estimate_key(a).subrange(v.len() as int, (v.len() + ka.len()) as int));
        assert(kb =~= estimate_key(b).subrange(v.len() as int, (v.len() + kb.len()) as int));
    }
}

/// The estimate key begins with the version token, so changing the token
/// invalidates every stored estimate.
pub proof fn estimate_key_is_versioned(o: TranscodeOptions)
    ensures
        estimate_key(o).take(estimate_cache_version().len() as int) == estimate_cache_version(),
{
    assert(estimate_key(o).take(estimate_cache_version().len() as int) =~= estimate_cache_version());
}

/// Two option values whose common fields agree have equal estimate keys
/// exactly when their effective output formats agree.
pub proof fn estimate_key_separates_output_formats(a: TranscodeOptions, b: TranscodeOptions)
    requires
        key_common(a) == key_common(b),
    ensures
        (estimate_key(a) == estimate_key(b)) <==> (eff_output_format(a) == eff_output_format(b)),
{
    let p = estimate_cache_version() + "|"@ + key_common(a) + "|"@;
    assert(estimate_key(a) =~= p + eff_output_format(a));
    assert(estimate_key(b) =~= p + eff_output_format(b));
    if estimate_key(a) == estimate_key(b) {
        assert(eff_output_format(a) =~= estimate_key(a).skip(p.len() as int));
        assert(eff_output_format(b) =~= estimate_key(b).skip(p.len() as int));
    }
}

/// The two option values agree on every field but the output format.
pub open spec fn same_except_output_format(a: TranscodeOptions, b: TranscodeOptions) -> bool {
    &&& opt_text(a.codec) == opt_text(b.codec)
    &&& a.quality == b.quality
    &&& a.max_bitrate == b.max_bitrate
    &&& a.scale == b.scale
    &&& a.fps == b.fps
    &&& a.remove_audio == b.remove_audio
    &&& opt_text(a.preset) == opt_text(b.preset)
    &&& opt_text(a.tune) == opt_text(b.tune)
    &&& a.rate_control_mode == b.rate_control_mode
    &&& a.target_size_mb == b.target_size_mb
    &&& a.preview_duration == b.preview_duration
    &&& a.duration_secs == b.duration_secs
    &&& a.preserve_additional_audio_streams == b.preserve_additional_audio_streams
    &&& a.audio_stream_count == b.audio_stream_count
    &&& a.preserve_metadata == b.preserve_metadata
    &&& a.audio_bitrate == b.audio_bitrate
    &&& a.downmix_to_stereo == b.downmix_to_stereo
    &&& a.preserve_subtitles == b.preserve_subtitles
    &&& a.subtitle_stream_count == b.subtitle_stream_count
    &&& opt_text(a.audio_codec_name) == opt_text(b.audio_codec_name)
    &&& a.audio_channels == b.audio_channels
}

/// The preview key does not depend on the output format: option values that
/// differ only there share their preview key.
pub proof fn preview_key_ignores_output_format(a: TranscodeOptions, b: TranscodeOptions)
    requires
        same_except_output_format(a, b),
    ensures
        preview_key(a) == preview_key(b),
{
    assert(eff_codec(a) == eff_codec(b));
    assert(eff_preset(a) == eff_preset(b));
    assert(opt_string_text(a.tune) == opt_string_text(b.tune));
    assert(opt_string_text(a.audio_codec_name) == opt_string_text(b.audio_codec_name));
    assert(key_fields(a) =~= key_fields(b));
}

} // verus!
