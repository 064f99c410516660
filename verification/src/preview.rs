//! The parts of preview generation that decide rather than compute times:
//! which options the preview encodes use, where the source side of a preview
//! comes from and with which command, how many progress steps there are, and
//! which temporary files a failed preview leaves to delete.

use vstd::prelude::*;
use crate::decimal::{is_positive, Decimal};
use crate::ffmpeg::builder::{build_extract_args, build_ffmpeg_command, extract_args, ffmpeg_command};
use crate::ffmpeg::options::{opt_text, same_options, RateControlMode, TranscodeOptions};
use crate::text::{owned, views};

verus! {

/// Progress steps of a preview: extract, then transcode.
pub const PREVIEW_STEPS: usize = 2;

/// Progress steps of an estimate over `segment_count` segments: an extract
/// and a transcode each.
pub fn estimate_step_count(segment_count: usize) -> (r: usize)
    requires
        segment_count * 2 <= usize::MAX,
    ensures
        r == segment_count * 2,
{
    segment_count * 2
}

/// The encoder the source side of a preview is transcoded with when its
/// video cannot be stream-copied.
pub open spec fn original_transcode_codec() -> Seq<char> {
    "libx264"@
}

pub fn preview_original_transcode_codec() -> (r: &'static str)
    ensures
        r@ == original_transcode_codec(),
{
    "libx264"
}

/// The options with audio removed, everything else kept.
pub open spec fn without_audio(r: TranscodeOptions, o: TranscodeOptions) -> bool {
    &&& r.remove_audio == Some(true)
    &&& same_options(
        TranscodeOptions { remove_audio: o.remove_audio, ..r },
        o,
    )
}

/// Options for a preview encode: the user's, with audio removed.
pub fn preview_transcode_options(options: &TranscodeOptions) -> (r: TranscodeOptions)
    ensures
        without_audio(r, *options),
{
    let mut r = options.duplicate();
    r.remove_audio = Some(true);
    r
}

/// The frame rate the source side of a preview is encoded at: the
/// source's when positive, else 30.
pub open spec fn original_fps(source_fps: Option<Decimal>) -> Decimal {
    match source_fps {
        Some(f) => if is_positive(f) {
            f
        } else {
            Decimal { negative: false, digits: 3, exp: 1 }
        },
        None => Decimal { negative: false, digits: 3, exp: 1 },
    }
}

/// Options for transcoding the source side of a preview when its video
/// cannot be stream-copied: H.264 at quality 90 with the fast preset into
/// MP4, at the source frame rate (30 when unknown), unscaled and without
/// audio; the other fields at their defaults.
pub open spec fn original_preview_options_spec(o: TranscodeOptions, source_fps: Option<Decimal>) -> bool {
    &&& opt_text(o.codec) == Some(original_transcode_codec())
    &&& o.quality == Some(90u32)
    &&& o.max_bitrate is None
    &&& o.scale is None
    &&& o.fps == Some(original_fps(source_fps))
    &&& o.remove_audio == Some(true)
    &&& opt_text(o.preset) == Some("fast"@)
    &&& o.tune is None
    &&& opt_text(o.output_format) == Some("mp4"@)
    &&& o.rate_control_mode == Some(RateControlMode::Quality)
    &&& o.target_size_mb is None
    &&& o.preview_duration == Some(3u32)
    &&& o.duration_secs is None
    &&& o.preserve_additional_audio_streams is None
    &&& o.audio_stream_count is None
    &&& o.preserve_metadata is None
    &&& o.audio_bitrate is None
    &&& o.downmix_to_stereo is None
    &&& o.preserve_subtitles is None
    &&& o.subtitle_stream_count is None
    &&& o.audio_codec_name is None
    &&& o.audio_channels is None
}

pub fn original_preview_options(remove_audio: bool, source_fps: Option<Decimal>) -> (r: TranscodeOptions)
    ensures
        original_preview_options_spec(r, source_fps),
{
    let fps = match source_fps {
        Some(f) => if f.is_positive() {
            f
        } else {
            Decimal { negative: false, digits: 3, exp: 1 }
        },
        None => Decimal { negative: false, digits: 3, exp: 1 },
    };
    let mut o = TranscodeOptions::default();
    o.codec = Some(owned(preview_original_transcode_codec()));
    o.quality = Some(90);
    o.preset = Some(owned("fast"));
    o.output_format = Some(owned("mp4"));
    o.remove_audio = Some(remove_audio);
    o.scale = None;
    o.fps = Some(fps);
    proof {
        reveal_strlit("fast");
        reveal_strlit("mp4");
    }
    preview_transcode_options(&o)
}

/// Temporary files of a preview in progress: deleted unless the preview
/// completes and keeps them.
pub struct TempCleanup {
    paths: Vec<String>,
    keep: bool,
}

impl TempCleanup {
    pub closed spec fn paths(&self) -> Seq<Seq<char>> {
        views(self.paths@)
    }

    pub closed spec fn kept(&self) -> bool {
        self.keep
    }

    pub fn new() -> (r: TempCleanup)
        ensures
            r.paths().len() == 0,
            !r.kept(),
    {
        let r = TempCleanup { paths: Vec::new(), keep: false };
        assert(r.paths() =~= Seq::<Seq<char>>::empty());
        r
    }

    pub fn add(&mut self, path: String)
        ensures
            final(self).paths() == old(self).paths().push(path@),
            final(self).kept() == old(self).kept(),
    {
        let ghost before = self.paths@;
        self.paths.push(path);
        assert(self.paths@ =~= before.push(path));
        assert(views(self.paths@) =~= views(before).push(path@));
    }

    /// The files are kept: nothing will be deleted.
    pub fn keep(&mut self)
        ensures
            final(self).kept(),
            final(self).paths() == old(self).paths(),
    {
        self.keep = true;
    }

    /// The files to delete when the preview ends: all of them, unless kept.
    pub fn paths_to_remove(&self) -> (r: Vec<String>)
        ensures
            views(r@) == if self.kept() {
                Seq::<Seq<char>>::empty()
            } else {
                self.paths()
            },
    {
        let mut r: Vec<String> = Vec::new();
        if self.keep {
            assert(views(r@) =~= Seq::<Seq<char>>::empty());
            return r;
        }
        let mut i: usize = 0;
        while i < self.paths.len()
            invariant
                i <= self.paths.len(),
                views(r@) == views(self.paths@).take(i as int),
            decreases self.paths.len() - i,
        {
            let ghost before = r@;
            let p = owned(self.paths[i].as_str());
            r.push(p);
            assert(r@ =~= before.push(p));
            assert(views(r@) =~= views(before).push(p@));
            assert(views(self.paths@).take(i + 1) =~= views(self.paths@).take(i as int).push(self.paths@[i as int]@));
            i = i + 1;
        }
        assert(views(self.paths@).take(self.paths.len() as int) =~= views(self.paths@));
        r
    }
}

/// Where the source side of a preview comes from.
pub enum SegmentSource {
    /// Segments stored by the preview cache, reused as they are.
    Cached(Vec<String>),
    /// Copied out of the input with this command into a new file.
    Extract { args: Vec<String>, path: String },
    /// Transcoded out of the input with this command into a new file.
    TranscodeOriginal { args: Vec<String>, path: String },
}

/// The command that transcodes the source side of a preview: `duration`
/// seconds from `start` of the input, with `original_preview_options`, into
/// MP4 at `path`.
pub open spec fn transcode_original_args(
    input: Seq<char>,
    path: Seq<char>,
    start: Decimal,
    duration: Decimal,
    o: TranscodeOptions,
) -> Seq<Seq<char>> {
    ffmpeg_command(input, path, o, Some(duration), Some("mp4"@), Some(start))
}

/// The source side of a preview from the input: copied out when its video
/// can be stream-copied, otherwise transcoded with `original_preview_options`.
pub fn source_segment_command(
    input: &str,
    stream_copy: bool,
    start: Decimal,
    duration: Decimal,
    source_fps: Option<Decimal>,
    path: &str,
) -> (r: SegmentSource)
    ensures
        stream_copy ==> (r matches SegmentSource::Extract { args, path: p } && p@ == path@ && views(args@)
            == extract_args(input@, start, duration, path@)),
        !stream_copy ==> (r matches SegmentSource::TranscodeOriginal { args, path: p } && p@ == path@
            && exists|o: TranscodeOptions|
            original_preview_options_spec(o, source_fps) && views(args@) == #[trigger] transcode_original_args(
                input@,
                path@,
                start,
                duration,
                o,
            )),
{
    if stream_copy {
        SegmentSource::Extract { args: build_extract_args(input, start, duration, path), path: owned(path) }
    } else {
        let o = original_preview_options(true, source_fps);
        proof {
            reveal_strlit("mp4");
        }
        let args = match build_ffmpeg_command(input, path, &o, Some(duration), Some("mp4"), Some(start)) {
            Ok(a) => a,
            Err(_) => Vec::new(),
        };
        assert(views(args@) == transcode_original_args(input@, path@, start, duration, o));
        SegmentSource::TranscodeOriginal { args, path: owned(path) }
    }
}

/// Where the source side of a preview comes from: the stored segments when
/// the cache has them, otherwise a new file at `path` made by
/// `source_segment_command`.
pub fn plan_preview_segment(
    cached: Option<Vec<String>>,
    input: &str,
    stream_copy: bool,
    start: Decimal,
    duration: Decimal,
    source_fps: Option<Decimal>,
    path: &str,
) -> (r: SegmentSource)
    ensures
        match cached {
            Some(c) => r matches SegmentSource::Cached(v) && views(v@) == views(c@),
            None => {
                &&& stream_copy ==> (r matches SegmentSource::Extract { args, path: p } && p@ == path@
                    && views(args@) == extract_args(input@, start, duration, path@))
                &&& !stream_copy ==> (r matches SegmentSource::TranscodeOriginal { args, path: p } && p@
                    == path@ && exists|o: TranscodeOptions|
                    original_preview_options_spec(o, source_fps) && views(args@)
                        == #[trigger] transcode_original_args(input@, path@, start, duration, o))
            },
        },
{
    match cached {
        Some(c) => SegmentSource::Cached(c),
        None => source_segment_command(input, stream_copy, start, duration, source_fps, path),
    }
}

/// The command that encodes the preview from its source segment: the user's
/// options without audio, into MP4.
pub fn preview_transcode_command(segment: &str, output: &str, options: &TranscodeOptions) -> (r: Vec<String>)
    requires
        options.max_bitrate matches Some(b) ==> b <= 0x7fff_ffff,
    ensures
        exists|o: TranscodeOptions|
            without_audio(o, *options) && views(r@) == #[trigger] ffmpeg_command(
                segment@,
                output@,
                o,
                None,
                Some("mp4"@),
                None,
            ),
{
    let o = preview_transcode_options(options);
    proof {
        reveal_strlit("mp4");
    }
    let r = match build_ffmpeg_command(segment, output, &o, None, Some("mp4"), None) {
        Ok(a) => a,
        Err(_) => Vec::new(),
    };
    assert(views(r@) == ffmpeg_command(segment@, output@, o, None, Some("mp4"@), None));
    r
}

/// What follows a try at getting the source side of a preview.
pub enum SourceStep {
    /// The source segments are ready; `created` when they are new files
    /// (to be deleted if the preview fails later).
    Ready { paths: Vec<String>, created: bool },
    /// The stream copy failed: delete `discard` and transcode the source
    /// side instead.
    RetryAsTranscode { discard: String },
    /// The transcode failed: delete `discard` and fail the preview.
    Fail { discard: String },
}

/// The step after running the command of `source` (or, for stored
/// segments, after nothing), given whether it succeeded: stored segments are
/// used as they are; a new file is used when its command succeeded; a failed
/// stream copy is retried as an H.264 transcode, and a failed transcode ends
/// the preview.
pub fn source_step(source: SegmentSource, succeeded: bool) -> (r: SourceStep)
    ensures
        match source {
            SegmentSource::Cached(v) => r matches SourceStep::Ready { paths, created } && views(paths@)
                == views(v@) && !created,
            SegmentSource::Extract { args, path } => if succeeded {
                r matches SourceStep::Ready { paths, created } && views(paths@) == seq![path@] && created
            } else {
                r matches SourceStep::RetryAsTranscode { discard } && discard@ == path@
            },
            SegmentSource::TranscodeOriginal { args, path } => if succeeded {
                r matches SourceStep::Ready { paths, created } && views(paths@) == seq![path@] && created
            } else {
                r matches SourceStep::Fail { discard } && discard@ == path@
            },
        },
{
    match source {
        SegmentSource::Cached(v) => SourceStep::Ready { paths: v, created: false },
        SegmentSource::Extract { args: _, path } => {
            if succeeded {
                let mut paths: Vec<String> = Vec::new();
                paths.push(path);
                assert(views(paths@) =~= seq![paths@[0]@]);
                SourceStep::Ready { paths, created: true }
            } else {
                SourceStep::RetryAsTranscode { discard: path }
            }
        },
        SegmentSource::TranscodeOriginal { args: _, path } => {
            if succeeded {
                let mut paths: Vec<String> = Vec::new();
                paths.push(path);
                assert(views(paths@) =~= seq![paths@[0]@]);
                SourceStep::Ready { paths, created: true }
            } else {
                SourceStep::Fail { discard: path }
            }
        },
    }
}

} // verus!
