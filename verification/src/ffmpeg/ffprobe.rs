//! Video metadata from what `ffprobe -print_format json -show_format
//! -show_streams` reports. The caller reads the JSON into `FfprobeOutput`;
//! numbers arrive as the text ffprobe wrote.

use vstd::prelude::*;
use crate::decimal::{is_positive, Decimal};
use crate::ffmpeg::options::{clone_opt_string, opt_text};
use crate::number::{parse_plain_decimal, parse_u64, plain_decimal_value, unsigned_value};
use crate::text::{chars_of, push_range, str_eq, trim, trim_bounds};

verus! {

pub struct FfprobeFormat {
    pub duration: Option<String>,
    pub start_time: Option<String>,
    pub size: Option<String>,
    pub bit_rate: Option<String>,
    pub format_name: Option<String>,
    pub format_long_name: Option<String>,
    pub nb_streams: Option<u32>,
}

pub struct FfprobeStream {
    pub codec_type: Option<String>,
    pub width: Option<u32>,
    pub height: Option<u32>,
    pub r_frame_rate: Option<String>,
    pub codec_name: Option<String>,
    pub codec_long_name: Option<String>,
    pub bit_rate: Option<String>,
    pub channels: Option<u32>,
}

pub struct FfprobeOutput {
    pub format: Option<FfprobeFormat>,
    pub streams: Option<Vec<FfprobeStream>>,
}

/// A frame rate as the fraction ffprobe reports (`num/den`, `den` not zero).
#[derive(Clone, Copy, Debug, PartialEq, Eq)]
pub struct FrameRate {
    pub num: Decimal,
    pub den: Decimal,
}

pub struct VideoMetadata {
    pub duration: Decimal,
    /// The format's start time, when positive. Non-zero for stream-copied
    /// segments.
    pub start_time: Option<Decimal>,
    pub width: u32,
    pub height: u32,
    pub size: u64,
    /// Frames per second as a fraction; `None` when unknown (reported as 0).
    pub fps: Option<FrameRate>,
    pub codec_name: Option<String>,
    pub codec_long_name: Option<String>,
    pub video_bit_rate: Option<u64>,
    pub format_bit_rate: Option<u64>,
    pub format_name: Option<String>,
    pub format_long_name: Option<String>,
    pub nb_streams: Option<u32>,
    /// Number of audio streams.
    pub audio_stream_count: u32,
    /// Number of subtitle streams.
    pub subtitle_stream_count: u32,
    /// Codec and channel count of the first audio stream.
    pub audio_codec_name: Option<String>,
    pub audio_channels: Option<u32>,
}

/// `i` is the position of the only `/` in `s`.
pub open spec fn sole_slash(s: Seq<char>, i: int) -> bool {
    &&& 0 <= i < s.len()
    &&& s[i] == '/'
    &&& forall|j: int| 0 <= j < s.len() && j != i ==> s[j] != '/'
}

pub open spec fn frame_rate_value(s: Seq<char>) -> Option<FrameRate> {
    if exists|i: int| sole_slash(s, i) {
        let i = choose|i: int| sole_slash(s, i);
        match (plain_decimal_value(trim(s.take(i))), plain_decimal_value(trim(s.skip(i + 1)))) {
            (Some(n), Some(d)) => if d.digits != 0 {
                Some(FrameRate { num: n, den: d })
            } else {
                None
            },
            _ => None,
        }
    } else {
        None
    }
}

/// Reads a frame rate `num/den`: exactly one `/`, each side a number once
/// trimmed, the denominator not zero.
pub fn parse_frame_rate(s: &str) -> (r: Option<FrameRate>)
    ensures
        r == frame_rate_value(s@),
{
    let v = chars_of(s);
    let mut first: Option<usize> = None;
    let mut i: usize = 0;
    while i < v.len()
        invariant
            v@ == s@,
            i <= v.len(),
            match first {
                None => forall|j: int| 0 <= j < i ==> v@[j] != '/',
                Some(p) => p < i && v@[p as int] == '/' && forall|j: int|
                    0 <= j < i && j != p ==> v@[j] != '/',
            },
        decreases v.len() - i,
    {
        if v[i] == '/' {
            match first {
                None => {
                    first = Some(i);
                },
                Some(p) => {
                    assert(!exists|k: int| sole_slash(s@, k)) by {
                        if exists|k: int| sole_slash(s@, k) {
                            let k = choose|k: int| sole_slash(s@, k);
                            if k == p as int {
                                assert(v@[i as int] == '/');
                            } else {
                                assert(v@[p as int] == '/');
                            }
                        }
                    }
                    return None;
                },
            }
        }
        i = i + 1;
    }
    let p = match first {
        None => {
            assert(!exists|k: int| sole_slash(s@, k)) by {
                if exists|k: int| sole_slash(s@, k) {
                    let k = choose|k: int| sole_slash(s@, k);
                    assert(v@[k] == '/');
                }
            }
            return None;
        },
        Some(p) => p,
    };
    assert(sole_slash(s@, p as int));
    assert(forall|k: int| sole_slash(s@, k) ==> k == p as int);
    let (a, b) = trim_bounds(&v, 0, p);
    let mut num_text = String::new();
    push_range(&mut num_text, &v, a, b);
    let (c, d) = trim_bounds(&v, p + 1, v.len());
    let mut den_text = String::new();
    push_range(&mut den_text, &v, c, d);
    assert(num_text@ =~= trim(s@.take(p as int))) by {
        assert(v@.subrange(0, p as int) =~= s@.take(p as int));
    }
    assert(den_text@ =~= trim(s@.skip(p + 1))) by {
        assert(v@.subrange(p + 1, v.len() as int) =~= s@.skip(p + 1));
    }
    match (parse_plain_decimal(num_text.as_str()), parse_plain_decimal(den_text.as_str())) {
        (Some(n), Some(dn)) => {
            if dn.digits != 0 {
                Some(FrameRate { num: n, den: dn })
            } else {
                None
            }
        },
        _ => None,
    }
}

pub open spec fn bit_rate_value(s: Seq<char>) -> Option<u64> {
    match unsigned_value(trim(s), u64::MAX as nat) {
        Some(n) => Some(n as u64),
        None => None,
    }
}

/// `s.trim().parse::<u64>()`.
pub fn parse_bit_rate(s: &str) -> (r: Option<u64>)
    ensures
        r == bit_rate_value(s@),
{
    let v = chars_of(s);
    let (a, b) = trim_bounds(&v, 0, v.len());
    let mut t = String::new();
    push_range(&mut t, &v, a, b);
    assert(t@ =~= trim(s@)) by {
        assert(v@.subrange(0, v.len() as int) =~= s@);
    }
    parse_u64(t.as_str())
}

pub open spec fn zero_decimal() -> Decimal {
    Decimal { negative: false, digits: 0, exp: 0 }
}

/// A decimal field, zero when missing or unreadable.
pub open spec fn decimal_or_zero(o: Option<String>) -> Decimal {
    match o {
        Some(s) => match plain_decimal_value(s@) {
            Some(d) => d,
            None => zero_decimal(),
        },
        None => zero_decimal(),
    }
}

pub open spec fn positive_decimal(o: Option<String>) -> Option<Decimal> {
    match o {
        Some(s) => match plain_decimal_value(s@) {
            Some(d) => if is_positive(d) {
                Some(d)
            } else {
                None
            },
            None => None,
        },
        None => None,
    }
}

pub open spec fn size_or_zero(o: Option<String>) -> u64 {
    match o {
        Some(s) => match unsigned_value(s@, u64::MAX as nat) {
            Some(n) => n as u64,
            None => 0,
        },
        None => 0,
    }
}

pub open spec fn opt_bit_rate(o: Option<String>) -> Option<u64> {
    match o {
        Some(s) => bit_rate_value(s@),
        None => None,
    }
}

pub open spec fn opt_frame_rate(o: Option<String>) -> Option<FrameRate> {
    match o {
        Some(s) => frame_rate_value(s@),
        None => None,
    }
}

pub open spec fn is_video_stream(st: FfprobeStream) -> bool {
    opt_text(st.codec_type) == Some("video"@)
}

/// The first video stream.
pub open spec fn video_stream(o: FfprobeOutput) -> Option<FfprobeStream> {
    match o.streams {
        Some(v) => if exists|i: int| 0 <= i < v@.len() && is_video_stream(#[trigger] v@[i]) {
            let i = choose|i: int|
                0 <= i < v@.len() && is_video_stream(#[trigger] v@[i]) && forall|j: int|
                    0 <= j < i ==> !is_video_stream(#[trigger] v@[j]);
            Some(v@[i])
        } else {
            None
        },
        None => None,
    }
}

pub open spec fn is_stream_of_type(st: FfprobeStream, t: Seq<char>) -> bool {
    opt_text(st.codec_type) == Some(t)
}

/// Number of streams of type `t`.
pub open spec fn count_type(v: Seq<FfprobeStream>, t: Seq<char>) -> nat
    decreases v.len(),
{
    if v.len() == 0 {
        0
    } else {
        count_type(v.drop_last(), t) + if is_stream_of_type(v.last(), t) { 1nat } else { 0nat }
    }
}

/// A count as `u32`, at most `u32::MAX`.
pub open spec fn capped(n: nat) -> u32 {
    if n <= u32::MAX { n as u32 } else { u32::MAX }
}

pub open spec fn streams_of(o: FfprobeOutput) -> Seq<FfprobeStream> {
    match o.streams {
        Some(v) => v@,
        None => Seq::empty(),
    }
}

/// The first audio stream.
pub open spec fn audio_stream(o: FfprobeOutput) -> Option<FfprobeStream> {
    let v = streams_of(o);
    if exists|i: int| 0 <= i < v.len() && is_stream_of_type(#[trigger] v[i], "audio"@) {
        let i = choose|i: int|
            0 <= i < v.len() && is_stream_of_type(#[trigger] v[i], "audio"@) && forall|j: int|
                0 <= j < i ==> !is_stream_of_type(#[trigger] v[j], "audio"@);
        Some(v[i])
    } else {
        None
    }
}

/// The metadata ffprobe's report gives: numbers from their text, zero
/// where missing; the video fields from the first video stream.
pub open spec fn metadata_of(m: VideoMetadata, o: FfprobeOutput) -> bool {
    let f = o.format;
    let vs = video_stream(o);
    &&& m.duration == match f {
        Some(f) => decimal_or_zero(f.duration),
        None => zero_decimal(),
    }
    &&& m.start_time == match f {
        Some(f) => positive_decimal(f.start_time),
        None => None,
    }
    &&& m.size == match f {
        Some(f) => size_or_zero(f.size),
        None => 0,
    }
    &&& m.format_bit_rate == match f {
        Some(f) => opt_bit_rate(f.bit_rate),
        None => None,
    }
    &&& opt_text(m.format_name) == match f {
        Some(f) => opt_text(f.format_name),
        None => None,
    }
    &&& opt_text(m.format_long_name) == match f {
        Some(f) => opt_text(f.format_long_name),
        None => None,
    }
    &&& m.nb_streams == match f {
        Some(f) => f.nb_streams,
        None => None,
    }
    &&& m.width == match vs {
        Some(s) => match s.width {
            Some(w) => w,
            None => 0,
        },
        None => 0,
    }
    &&& m.height == match vs {
        Some(s) => match s.height {
            Some(h) => h,
            None => 0,
        },
        None => 0,
    }
    &&& m.fps == match vs {
        Some(s) => opt_frame_rate(s.r_frame_rate),
        None => None,
    }
    &&& opt_text(m.codec_name) == match vs {
        Some(s) => opt_text(s.codec_name),
        None => None,
    }
    &&& opt_text(m.codec_long_name) == match vs {
        Some(s) => opt_text(s.codec_long_name),
        None => None,
    }
    &&& m.video_bit_rate == match vs {
        Some(s) => opt_bit_rate(s.bit_rate),
        None => None,
    }
    &&& m.audio_stream_count == capped(count_type(streams_of(o), "audio"@))
    &&& m.subtitle_stream_count == capped(count_type(streams_of(o), "subtitle"@))
    &&& opt_text(m.audio_codec_name) == match audio_stream(o) {
        Some(s) => opt_text(s.codec_name),
        None => None,
    }
    &&& m.audio_channels == match audio_stream(o) {
        Some(s) => s.channels,
        None => None,
    }
}

fn has_type(st: &FfprobeStream, t: &str) -> (r: bool)
    ensures
        r == is_stream_of_type(*st, t@),
{
    match &st.codec_type {
        Some(c) => str_eq(c.as_str(), t),
        None => false,
    }
}

/// The number of streams of type `t` (capped at `u32::MAX`), and the
/// position of the first one.
fn count_streams(streams: &Vec<FfprobeStream>, t: &str) -> (r: (u32, Option<usize>))
    ensures
        r.0 == capped(count_type(streams@, t@)),
        match r.1 {
            Some(i) => i < streams@.len() && is_stream_of_type(streams@[i as int], t@) && forall|j: int|
                0 <= j < i ==> !is_stream_of_type(#[trigger] streams@[j], t@),
            None => forall|j: int| 0 <= j < streams@.len() ==> !is_stream_of_type(#[trigger] streams@[j], t@),
        },
{
    let mut n: u32 = 0;
    let mut first: Option<usize> = None;
    let mut i: usize = 0;
    while i < streams.len()
        invariant
            i <= streams.len(),
            n == capped(count_type(streams@.take(i as int), t@)),
            match first {
                Some(k) => k < i && is_stream_of_type(streams@[k as int], t@) && forall|j: int|
                    0 <= j < k ==> !is_stream_of_type(#[trigger] streams@[j], t@),
                None => forall|j: int| 0 <= j < i ==> !is_stream_of_type(#[trigger] streams@[j], t@),
            },
        decreases streams.len() - i,
    {
        assert(streams@.take(i + 1).drop_last() =~= streams@.take(i as int));
        assert(streams@.take(i + 1).last() == streams@[i as int]);
        if has_type(&streams[i], t) {
            if n < 0xffff_ffffu32 {
                n = n + 1;
            }
            if first.is_none() {
                first = Some(i);
            }
        }
        i = i + 1;
    }
    assert(streams@.take(streams.len() as int) =~= streams@);
    (n, first)
}

fn first_video_stream(streams: &Vec<FfprobeStream>) -> (r: Option<usize>)
    ensures
        match r {
            Some(i) => i < streams@.len() && is_video_stream(streams@[i as int]) && forall|j: int|
                0 <= j < i ==> !is_video_stream(#[trigger] streams@[j]),
            None => forall|j: int| 0 <= j < streams@.len() ==> !is_video_stream(#[trigger] streams@[j]),
        },
{
    let mut i: usize = 0;
    while i < streams.len()
        invariant
            i <= streams.len(),
            forall|j: int| 0 <= j < i ==> !is_video_stream(#[trigger] streams@[j]),
        decreases streams.len() - i,
    {
        let is_video = match &streams[i].codec_type {
            Some(t) => {
                proof {
                    reveal_strlit("video");
                }
                str_eq(t.as_str(), "video")
            },
            None => false,
        };
        if is_video {
            return Some(i);
        }
        i = i + 1;
    }
    None
}

fn opt_decimal_or_zero(o: &Option<String>) -> (r: Decimal)
    ensures
        r == decimal_or_zero(*o),
{
    match o {
        Some(s) => match parse_plain_decimal(s.as_str()) {
            Some(d) => d,
            None => Decimal { negative: false, digits: 0, exp: 0 },
        },
        None => Decimal { negative: false, digits: 0, exp: 0 },
    }
}

fn opt_positive_decimal(o: &Option<String>) -> (r: Option<Decimal>)
    ensures
        r == positive_decimal(*o),
{
    match o {
        Some(s) => match parse_plain_decimal(s.as_str()) {
            Some(d) => if d.is_positive() {
                Some(d)
            } else {
                None
            },
            None => None,
        },
        None => None,
    }
}

fn opt_size(o: &Option<String>) -> (r: u64)
    ensures
        r == size_or_zero(*o),
{
    match o {
        Some(s) => match parse_u64(s.as_str()) {
            Some(n) => n,
            None => 0,
        },
        None => 0,
    }
}

fn opt_parse_bit_rate(o: &Option<String>) -> (r: Option<u64>)
    ensures
        r == opt_bit_rate(*o),
{
    match o {
        Some(s) => parse_bit_rate(s.as_str()),
        None => None,
    }
}

fn opt_parse_frame_rate(o: &Option<String>) -> (r: Option<FrameRate>)
    ensures
        r == opt_frame_rate(*o),
{
    match o {
        Some(s) => parse_frame_rate(s.as_str()),
        None => None,
    }
}

/// The metadata in ffprobe's report (see `metadata_of`).
pub fn metadata_from_probe(output: &FfprobeOutput) -> (m: VideoMetadata)
    ensures
        metadata_of(m, *output),
{
    let (duration, start_time, size, format_bit_rate, format_name, format_long_name, nb_streams) =
        match &output.format {
        Some(f) => (
            opt_decimal_or_zero(&f.duration),
            opt_positive_decimal(&f.start_time),
            opt_size(&f.size),
            opt_parse_bit_rate(&f.bit_rate),
            clone_opt_string(&f.format_name),
            clone_opt_string(&f.format_long_name),
            f.nb_streams,
        ),
        None => (Decimal { negative: false, digits: 0, exp: 0 }, None, 0, None, None, None, None),
    };
    let mut width: u32 = 0;
    let mut height: u32 = 0;
    let mut fps: Option<FrameRate> = None;
    let mut codec_name: Option<String> = None;
    let mut codec_long_name: Option<String> = None;
    let mut video_bit_rate: Option<u64> = None;
    let mut audio_stream_count: u32 = 0;
    let mut subtitle_stream_count: u32 = 0;
    let mut audio_codec_name: Option<String> = None;
    let mut audio_channels: Option<u32> = None;
    match &output.streams {
        Some(streams) => {
            proof {
                reveal_strlit("audio");
                reveal_strlit("subtitle");
            }
            let (na, first_audio) = count_streams(streams, "audio");
            let (ns, _) = count_streams(streams, "subtitle");
            audio_stream_count = na;
            subtitle_stream_count = ns;
            match first_audio {
                Some(k) => {
                    proof {
                        assert(streams_of(*output) == streams@);
                        let a = choose|a: int|
                            0 <= a < streams@.len() && is_stream_of_type(#[trigger] streams@[a], "audio"@)
                                && forall|j: int|
                                0 <= j < a ==> !is_stream_of_type(#[trigger] streams@[j], "audio"@);
                        if a < k {
                            assert(!is_stream_of_type(streams@[a], "audio"@));
                        } else if a > k {
                            assert(!is_stream_of_type(streams@[k as int], "audio"@));
                        }
                        assert(audio_stream(*output) == Some(streams@[k as int]));
                    }
                    audio_codec_name = clone_opt_string(&streams[k].codec_name);
                    audio_channels = streams[k].channels;
                },
                None => {},
            }
        },
        None => {
            assert(streams_of(*output) =~= Seq::<FfprobeStream>::empty());
        },
    }
    match &output.streams {
        Some(streams) => match first_video_stream(streams) {
            Some(i) => {
                proof {
                    let k = choose|k: int|
                        0 <= k < streams@.len() && is_video_stream(#[trigger] streams@[k]) && forall|j: int|
                            0 <= j < k ==> !is_video_stream(#[trigger] streams@[j]);
                    if k < i {
                        assert(!is_video_stream(streams@[k]));
                    } else if k > i {
                        assert(!is_video_stream(streams@[i as int]));
                    }
                    assert(video_stream(*output) == Some(streams@[i as int]));
                }
                let s = &streams[i];
                width = match s.width {
                    Some(w) => w,
                    None => 0,
                };
                height = match s.height {
                    Some(h) => h,
                    None => 0,
                };
                fps = opt_parse_frame_rate(&s.r_frame_rate);
                codec_name = clone_opt_string(&s.codec_name);
                codec_long_name = clone_opt_string(&s.codec_long_name);
                video_bit_rate = opt_parse_bit_rate(&s.bit_rate);
            },
            None => {},
        },
        None => {},
    }
    VideoMetadata {
        duration,
        start_time,
        width,
        height,
        size,
        fps,
        codec_name,
        codec_long_name,
        video_bit_rate,
        format_bit_rate,
        format_name,
        format_long_name,
        nb_streams,
        audio_stream_count,
        subtitle_stream_count,
        audio_codec_name,
        audio_channels,
    }
}

} // verus!
