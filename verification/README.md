# tiny_vid_core

The media core of Tiny Vid, a video compressor with a live preview, built on
FFmpeg. The library decides; a small program around it runs FFmpeg, touches
files and speaks JSON-RPC.

## Layout

- `src/` — the library, verified with Verus.
  - `ffmpeg/options.rs` — transcode options, their defaults and cache keys.
  - `ffmpeg/builder.rs` — FFmpeg command lines per codec and container.
  - `ffmpeg/cache.rs` — the preview cache: least recently used previews with
    reference-counted shared segments, and size estimates.
  - `ffmpeg/temp.rs` — temp file names and which temp files to delete when.
  - `ffmpeg/progress.rs`, `ffmpeg/runner.rs` — reading FFmpeg's progress and
    the end of a run.
  - `ffmpeg/error.rs` — user-facing summaries of FFmpeg failures.
  - `ffmpeg/ffprobe.rs` — metadata from ffprobe's report.
  - `ffmpeg/discovery.rs` — where FFmpeg and ffprobe are looked for, and
    which encoders FFmpeg offers.
  - `ffmpeg/verify.rs` — checking an output by decoding it.
  - `codec.rs` — the codec table and what is offered for display.
  - `sidecar.rs` — commit tokens for finished transcodes, the one-job-at-a-time
    rule, request routing and cleanup on startup and exit.
  - `preview.rs` — options, commands and bookkeeping of a preview.
  - `decimal.rs`, `number.rs`, `text.rs` — exact decimals, number reading and
    text helpers the rest is specified with.
- `app/` — the sidecar program: JSON-RPC on stdin/stdout, FFmpeg processes,
  files, and the floating-point parts (progress fractions, preview start
  clamping, size estimation, target-size bitrate).
- `tests/` — tests of the library.

Numbers that arrive as floats are held as the exact decimal their display
text denotes, so that the text put on a command line is stated exactly.
