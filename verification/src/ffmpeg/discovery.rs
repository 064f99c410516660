//! Where FFmpeg and ffprobe are looked for, and which encoders `ffmpeg -encoders` lists.

use vstd::prelude::*;
use crate::codec::{is_supported_codec, is_supported_codec_name};
use crate::error::{is_message_error, AppError};
use crate::text::{
    chars_of, has_prefix, is_whitespace, is_ws, line_end, owned, push_owned, push_range, push_str,
    starts_with_str, trim, trim_bounds, views,
};
use super::builder::push_arg;

verus! {

/// What std's `Path::parent` gives for a path, as text, on the platform the
/// library is built for.
pub uninterp spec fn spec_path_parent(p: Seq<char>) -> Option<Seq<char>>;

/// What std's `Path::file_stem` gives for a path (when it is valid UTF-8), as text.
pub uninterp spec fn spec_path_file_stem(p: Seq<char>) -> Option<Seq<char>>;

/// What std's `Path::join` gives for a directory and a file name, as text.
pub uninterp spec fn spec_path_join(dir: Seq<char>, name: Seq<char>) -> Seq<char>;

/// std `Path::parent`.
#[verifier::external_body]
fn path_parent(p: &str) -> (r: Option<String>)
    ensures
        match r {
            Some(q) => spec_path_parent(p@) == Some(q@),
            None => spec_path_parent(p@) is None,
        },
{
    std::path::Path::new(p).parent().map(|q| q.to_string_lossy().into_owned())
}

/// std `Path::file_stem`, kept only when it is valid UTF-8.
#[verifier::external_body]
fn path_file_stem(p: &str) -> (r: Option<String>)
    ensures
        match r {
            Some(q) => spec_path_file_stem(p@) == Some(q@),
            None => spec_path_file_stem(p@) is None,
        },
{
    std::path::Path::new(p).file_stem().and_then(|s| s.to_str()).map(String::from)
}

/// std `Path::join`.
#[verifier::external_body]
fn path_join(dir: &str, name: &str) -> (r: String)
    ensures
        r@ == spec_path_join(dir@, name@),
{
    std::path::Path::new(dir).join(name).to_string_lossy().into_owned()
}

/// ffprobe file name for a suffix (`ffprobe{suffix}`, with `.exe` on Windows).
pub open spec fn ffprobe_name(suffix: Seq<char>, windows: bool) -> Seq<char> {
    "ffprobe"@ + suffix + if windows { ".exe"@ } else { Seq::empty() }
}

/// Paths to try for ffprobe next to an ffmpeg binary: the one with the same
/// suffix as `ffmpeg{suffix}` first (when there is a suffix), then the plain one.
pub open spec fn ffprobe_candidate_paths(ffmpeg: Seq<char>, windows: bool) -> Seq<Seq<char>> {
    match spec_path_parent(ffmpeg) {
        None => Seq::empty(),
        Some(dir) => {
            let suffixed = match spec_path_file_stem(ffmpeg) {
                Some(stem) => if has_prefix(stem, "ffmpeg"@) && stem.len() > 6 {
                    seq![spec_path_join(dir, ffprobe_name(stem.skip(6), windows))]
                } else {
                    Seq::empty()
                },
                None => Seq::empty(),
            };
            suffixed + seq![spec_path_join(dir, ffprobe_name(Seq::empty(), windows))]
        },
    }
}

fn ffprobe_file_name(v: &Vec<char>, windows: bool) -> (r: String)
    ensures
        r@ == ffprobe_name(v@, windows),
{
    let mut s = owned("ffprobe");
    push_range(&mut s, v, 0, v.len());
    if windows {
        push_str(&mut s, ".exe");
    }
    assert(v@.subrange(0, v@.len() as int) =~= v@);
    assert(s@ =~= ffprobe_name(v@, windows));
    s
}

/// Paths to try for ffprobe given an ffmpeg binary path (suffixed first, then
/// plain). `windows` selects the `.exe` file names.
pub fn ffprobe_candidates(ffmpeg_path: &str, windows: bool) -> (r: Vec<String>)
    ensures
        views(r@) == ffprobe_candidate_paths(ffmpeg_path@, windows),
{
    let parent = match path_parent(ffmpeg_path) {
        Some(p) => p,
        None => {
            let r: Vec<String> = Vec::new();
            assert(views(r@) =~= Seq::<Seq<char>>::empty());
            return r;
        },
    };
    let mut candidates: Vec<String> = Vec::new();
    match path_file_stem(ffmpeg_path) {
        Some(stem) => {
            if starts_with_str(stem.as_str(), "ffmpeg") {
                let chars = chars_of(stem.as_str());
                if chars.len() > 6 {
                    let suffix = slice_from(&chars, 6);
                    let name = ffprobe_file_name(&suffix, windows);
                    push_arg(&mut candidates, path_join(parent.as_str(), name.as_str()));
                }
            }
        },
        None => {},
    }
    let plain: Vec<char> = Vec::new();
    let name = ffprobe_file_name(&plain, windows);
    push_arg(&mut candidates, path_join(parent.as_str(), name.as_str()));
    assert(plain@ =~= Seq::<char>::empty());
    assert(views(candidates@) =~= ffprobe_candidate_paths(ffmpeg_path@, windows));
    candidates
}

fn slice_from(v: &Vec<char>, start: usize) -> (r: Vec<char>)
    requires
        start <= v.len(),
    ensures
        r@ == v@.skip(start as int),
{
    let mut r: Vec<char> = Vec::new();
    let mut i = start;
    while i < v.len()
        invariant
            start <= i <= v.len(),
            r@ == v@.subrange(start as int, i as int),
        decreases v.len() - i,
    {
        r.push(v[i]);
        assert(r@ =~= v@.subrange(start as int, i + 1));
        i = i + 1;
    }
    assert(v@.subrange(start as int, v@.len() as int) =~= v@.skip(start as int));
    r
}

pub open spec fn no_parent_message() -> Seq<char> {
    "FFmpeg path has no parent directory"@
}

/// Message when none of the candidates exists: the last (plain) candidate and
/// the directory of ffmpeg.
pub open spec fn ffprobe_missing_message(last: Seq<char>, dir: Seq<char>) -> Seq<char> {
    "ffprobe not found at "@ + last + " (FFmpeg dir: "@ + dir + ")"@
}

/// Candidate `i` is reported present: `exists` has an entry for it and the
/// entry is true. A missing entry counts as absent.
pub open spec fn reported(exists: Seq<bool>, i: int) -> bool {
    0 <= i < exists.len() && exists[i]
}

/// ffprobe next to a given ffmpeg binary: the first candidate (see
/// `ffprobe_candidate_paths`) that exists. `candidate_exists[i]` tells whether
/// candidate `i` is present on disk.
pub fn get_ffprobe_path(ffmpeg_path: &str, windows: bool, candidate_exists: &[bool]) -> (r: Result<
    String,
    AppError,
>)
    ensures
        match spec_path_parent(ffmpeg_path@) {
            None => r matches Err(e) && is_message_error(e, no_parent_message()),
            Some(dir) => {
                let c = ffprobe_candidate_paths(ffmpeg_path@, windows);
                match r {
                    Ok(p) => exists|i: int|
                        0 <= i < c.len() && reported(candidate_exists@, i) && c[i] == p@ && forall|j: int|
                            0 <= j < i ==> !#[trigger] reported(candidate_exists@, j),
                    Err(e) => (forall|i: int| 0 <= i < c.len() ==> !#[trigger] reported(candidate_exists@, i))
                        && is_message_error(e, ffprobe_missing_message(c.last(), dir)),
                }
            },
        },
{
    let parent = match path_parent(ffmpeg_path) {
        Some(p) => p,
        None => return Err(AppError::from("FFmpeg path has no parent directory")),
    };
    let candidates = ffprobe_candidates(ffmpeg_path, windows);
    let ghost c = views(candidates@);
    assert(c.len() >= 1);
    let mut i: usize = 0;
    while i < candidates.len()
        invariant
            i <= candidates@.len(),
            c == views(candidates@),
            c == ffprobe_candidate_paths(ffmpeg_path@, windows),
            spec_path_parent(ffmpeg_path@) == Some(parent@),
            forall|j: int| 0 <= j < i ==> !#[trigger] reported(candidate_exists@, j),
        decreases candidates@.len() - i,
    {
        if i < candidate_exists.len() && candidate_exists[i] {
            assert(c[i as int] == candidates@[i as int]@);
            let found = candidates[i].clone();
            assert(0 <= i < c.len() && reported(candidate_exists@, i as int) && c[i as int] == found@);
            return Ok(found);
        }
        i = i + 1;
    }
    let n = candidates.len();
    let mut msg = owned("ffprobe not found at ");
    push_str(&mut msg, candidates[n - 1].as_str());
    push_str(&mut msg, " (FFmpeg dir: ");
    push_str(&mut msg, parent.as_str());
    push_str(&mut msg, ")");
    assert(c.last() == candidates@[n - 1]@);
    assert(msg@ =~= ffprobe_missing_message(c.last(), parent@));
    Err(AppError::from_message(msg))
}

// ---- `ffmpeg -encoders` ----------------------------------------------------

/// First index at or after `i` that is not whitespace.
pub open spec fn skip_ws(s: Seq<char>, i: int) -> int
    decreases s.len() - i,
{
    if i < s.len() && is_ws(s[i]) {
        skip_ws(s, i + 1)
    } else {
        i
    }
}

/// First index at or after `i` that is whitespace (or the length).
pub open spec fn token_end(s: Seq<char>, i: int) -> int
    decreases s.len() - i,
{
    if i < s.len() && !is_ws(s[i]) {
        token_end(s, i + 1)
    } else {
        i
    }
}

/// The second whitespace-separated word of a line (std `split_whitespace().nth(1)`).
pub open spec fn second_word(line: Seq<char>) -> Option<Seq<char>> {
    let a0 = skip_ws(line, 0);
    if a0 >= line.len() {
        None
    } else {
        let a1 = skip_ws(line, token_end(line, a0));
        if a1 >= line.len() {
            None
        } else {
            Some(line.subrange(a1, token_end(line, a1)))
        }
    }
}

/// The encoder a line lists: video lines start with ` V`; the name is the
/// second word, kept when it is a supported codec.
pub open spec fn listed_encoder(line: Seq<char>) -> Option<Seq<char>> {
    if has_prefix(line, " V"@) {
        match second_word(line) {
            Some(w) => if is_supported_codec(w) {
                Some(w)
            } else {
                None
            },
            None => None,
        }
    } else {
        None
    }
}

/// Supported video encoders listed from position `start` on, in order.
pub open spec fn encoders_from(s: Seq<char>, start: int) -> Seq<Seq<char>>
    decreases s.len() - start,
{
    if start < 0 || start >= s.len() {
        Seq::empty()
    } else {
        let e = line_end(s, start);
        let here = match listed_encoder(s.subrange(start, e)) {
            Some(w) => seq![w],
            None => Seq::empty(),
        };
        if e >= s.len() {
            here
        } else {
            proof {
                crate::text::lemma_line_end_bounds(s, start);
            }
            here + encoders_from(s, e + 1)
        }
    }
}

proof fn lemma_skip_ws_bounds(s: Seq<char>, i: int)
    requires
        0 <= i <= s.len(),
    ensures
        i <= skip_ws(s, i) <= s.len(),
        forall|j: int| i <= j < skip_ws(s, i) ==> is_ws(#[trigger] s[j]),
    decreases s.len() - i,
{
    if i < s.len() && is_ws(s[i]) {
        lemma_skip_ws_bounds(s, i + 1);
    }
}

proof fn lemma_token_end_bounds(s: Seq<char>, i: int)
    requires
        0 <= i <= s.len(),
    ensures
        i <= token_end(s, i) <= s.len(),
    decreases s.len() - i,
{
    if i < s.len() && !is_ws(s[i]) {
        lemma_token_end_bounds(s, i + 1);
    }
}

proof fn lemma_skip_ws_shift(v: Seq<char>, lo: int, hi: int, i: int)
    requires
        0 <= lo <= i <= hi <= v.len(),
    ensures
        skip_ws(v.subrange(lo, hi), i - lo) + lo == skip_ws_in(v, i, hi),
    decreases hi - i,
{
    if i < hi && is_ws(v[i]) {
        lemma_skip_ws_shift(v, lo, hi, i + 1);
    }
}

proof fn lemma_token_end_shift(v: Seq<char>, lo: int, hi: int, i: int)
    requires
        0 <= lo <= i <= hi <= v.len(),
    ensures
        token_end(v.subrange(lo, hi), i - lo) + lo == token_end_in(v, i, hi),
    decreases hi - i,
{
    if i < hi && !is_ws(v[i]) {
        lemma_token_end_shift(v, lo, hi, i + 1);
    }
}

pub open spec fn skip_ws_in(v: Seq<char>, i: int, hi: int) -> int
    decreases hi - i,
{
    if i < hi && is_ws(v[i]) {
        skip_ws_in(v, i + 1, hi)
    } else {
        i
    }
}

pub open spec fn token_end_in(v: Seq<char>, i: int, hi: int) -> int
    decreases hi - i,
{
    if i < hi && !is_ws(v[i]) {
        token_end_in(v, i + 1, hi)
    } else {
        i
    }
}

fn skip_ws_exec(v: &Vec<char>, i: usize, hi: usize) -> (r: usize)
    requires
        i <= hi <= v.len(),
    ensures
        r == skip_ws_in(v@, i as int, hi as int),
        i <= r <= hi,
{
    let mut k = i;
    while k < hi && is_whitespace(v[k])
        invariant
            i <= k <= hi <= v.len(),
            skip_ws_in(v@, i as int, hi as int) == skip_ws_in(v@, k as int, hi as int),
        decreases hi - k,
    {
        k = k + 1;
    }
    k
}

fn token_end_exec(v: &Vec<char>, i: usize, hi: usize) -> (r: usize)
    requires
        i <= hi <= v.len(),
    ensures
        r == token_end_in(v@, i as int, hi as int),
        i <= r <= hi,
{
    let mut k = i;
    while k < hi && !is_whitespace(v[k])
        invariant
            i <= k <= hi <= v.len(),
            token_end_in(v@, i as int, hi as int) == token_end_in(v@, k as int, hi as int),
        decreases hi - k,
    {
        k = k + 1;
    }
    k
}

/// The encoder listed on the line `v[lo..hi]`, if any.
fn listed_encoder_exec(v: &Vec<char>, lo: usize, hi: usize) -> (r: Option<String>)
    requires
        lo <= hi <= v.len(),
    ensures
        match r {
            Some(w) => listed_encoder(v@.subrange(lo as int, hi as int)) == Some(w@),
            None => listed_encoder(v@.subrange(lo as int, hi as int)) is None,
        },
{
    let ghost line = v@.subrange(lo as int, hi as int);
    let mut lstr = String::new();
    push_range(&mut lstr, v, lo, hi);
    if !starts_with_str(lstr.as_str(), " V") {
        return None;
    }
    let a0 = skip_ws_exec(v, lo, hi);
    proof {
        lemma_skip_ws_shift(v@, lo as int, hi as int, lo as int);
    }
    if a0 >= hi {
        return None;
    }
    let e0 = token_end_exec(v, a0, hi);
    let a1 = skip_ws_exec(v, e0, hi);
    proof {
        lemma_token_end_shift(v@, lo as int, hi as int, a0 as int);
        lemma_skip_ws_shift(v@, lo as int, hi as int, e0 as int);
    }
    if a1 >= hi {
        return None;
    }
    let e1 = token_end_exec(v, a1, hi);
    proof {
        lemma_token_end_shift(v@, lo as int, hi as int, a1 as int);
    }
    let mut w = String::new();
    push_range(&mut w, v, a1, e1);
    assert(w@ =~= line.subrange(a1 - lo, e1 - lo));
    if is_supported_codec_name(w.as_str()) {
        Some(w)
    } else {
        None
    }
}

/// Parses `ffmpeg -encoders` output into the supported video encoder names it
/// lists (see `listed_encoder`), in order.
pub fn parse_encoder_output(stdout: &str) -> (r: Vec<String>)
    ensures
        views(r@) == encoders_from(stdout@, 0),
{
    let v = chars_of(stdout);
    let mut codecs: Vec<String> = Vec::new();
    let mut start: usize = 0;
    while start < v.len()
        invariant
            start <= v.len(),
            v@ == stdout@,
            views(codecs@) + encoders_from(v@, start as int) == encoders_from(v@, 0),
        decreases v.len() - start,
    {
        let mut e = start;
        while e < v.len() && v[e] != '\n'
            invariant
                start <= e <= v.len(),
                line_end(v@, start as int) == line_end(v@, e as int),
            decreases v.len() - e,
        {
            e = e + 1;
        }
        let found = listed_encoder_exec(&v, start, e);
        let ghost before = views(codecs@);
        match found {
            Some(w) => push_arg(&mut codecs, w),
            None => {},
        }
        if e >= v.len() {
            assert(views(codecs@) =~= before + encoders_from(v@, start as int));
            assert(views(codecs@) + encoders_from(v@, v@.len() as int) =~= views(codecs@));
            start = v.len();
        } else {
            assert(views(codecs@) + encoders_from(v@, e + 1) =~= before + encoders_from(
                v@,
                start as int,
            ));
            start = e + 1;
        }
    }
    assert(views(codecs@) + encoders_from(v@, v@.len() as int) =~= views(codecs@));
    codecs
}

/// Every encoder listed is a supported one.
pub proof fn lemma_encoders_supported(s: Seq<char>, start: int)
    ensures
        forall|i: int|
            0 <= i < encoders_from(s, start).len() ==> is_supported_codec(#[trigger] encoders_from(s, start)[i]),
    decreases s.len() - start,
{
    if !(start < 0 || start >= s.len()) {
        let e = line_end(s, start);
        crate::text::lemma_line_end_bounds(s, start);
        let here = match listed_encoder(s.subrange(start, e)) {
            Some(w) => seq![w],
            None => Seq::<Seq<char>>::empty(),
        };
        if e < s.len() {
            lemma_encoders_supported(s, e + 1);
            let rest = encoders_from(s, e + 1);
            assert forall|i: int| 0 <= i < encoders_from(s, start).len() implies is_supported_codec(#[trigger] encoders_from(s, start)[i]) by {
                if i >= here.len() {
                    assert(encoders_from(s, start)[i] == rest[i - here.len()]);
                }
            }
        }
    }
}

/// The platform the library runs on, as far as where FFmpeg is looked for
/// depends on it.
#[derive(Clone, Copy, Debug, PartialEq, Eq)]
pub enum TargetOs {
    MacOs,
    Windows,
    OtherUnix,
    Other,
}

pub open spec fn common_paths_spec(os: TargetOs) -> Seq<Seq<char>> {
    match os {
        TargetOs::MacOs => seq!["/opt/homebrew/bin/ffmpeg"@, "/usr/local/bin/ffmpeg"@, "/opt/local/bin/ffmpeg"@],
        TargetOs::Windows => seq!["C:\\ffmpeg\\bin\\ffmpeg.exe"@, "C:\\Program Files\\ffmpeg\\bin\\ffmpeg.exe"@],
        TargetOs::OtherUnix => seq!["/usr/bin/ffmpeg"@, "/usr/local/bin/ffmpeg"@],
        TargetOs::Other => Seq::empty(),
    }
}

/// Where FFmpeg is usually installed on `os`, in the order they are tried.
pub fn common_paths(os: TargetOs) -> (r: Vec<String>)
    ensures
        views(r@) == common_paths_spec(os),
{
    let mut r: Vec<String> = Vec::new();
    match os {
        TargetOs::MacOs => {
            push_owned(&mut r, "/opt/homebrew/bin/ffmpeg");
            push_owned(&mut r, "/usr/local/bin/ffmpeg");
            push_owned(&mut r, "/opt/local/bin/ffmpeg");
        },
        TargetOs::Windows => {
            push_owned(&mut r, "C:\\ffmpeg\\bin\\ffmpeg.exe");
            push_owned(&mut r, "C:\\Program Files\\ffmpeg\\bin\\ffmpeg.exe");
        },
        TargetOs::OtherUnix => {
            push_owned(&mut r, "/usr/bin/ffmpeg");
            push_owned(&mut r, "/usr/local/bin/ffmpeg");
        },
        TargetOs::Other => {},
    }
    assert(views(r@) =~= common_paths_spec(os));
    r
}

/// The names a bundled FFmpeg may have next to the executable: the one for
/// the build target first, then the plain one.
pub fn bundled_sidecar_base_names(target: &str) -> (r: Vec<String>)
    ensures
        views(r@) == seq!["ffmpeg-"@ + target@, "ffmpeg"@],
{
    let mut r: Vec<String> = Vec::new();
    let mut first = owned("ffmpeg-");
    push_str(&mut first, target);
    push_arg(&mut r, first);
    push_owned(&mut r, "ffmpeg");
    assert(views(r@) =~= seq!["ffmpeg-"@ + target@, "ffmpeg"@]);
    r
}

/// The path `which`/`where` printed: its first line, trimmed, when not empty.
pub open spec fn first_path_line_spec(output: Seq<char>) -> Option<Seq<char>> {
    if output.len() == 0 {
        None
    } else {
        let t = trim(output.take(line_end(output, 0)));
        if t.len() == 0 {
            None
        } else {
            Some(t)
        }
    }
}

pub fn first_path_line(output: &str) -> (r: Option<String>)
    ensures
        match r {
            Some(p) => first_path_line_spec(output@) == Some(p@),
            None => first_path_line_spec(output@) is None,
        },
{
    let v = chars_of(output);
    if v.len() == 0 {
        return None;
    }
    let mut e: usize = 0;
    while e < v.len() && v[e] != '\n'
        invariant
            e <= v.len(),
            line_end(v@, 0) == line_end(v@, e as int),
        decreases v.len() - e,
    {
        e = e + 1;
    }
    let (a, b) = trim_bounds(&v, 0, e);
    if a == b {
        assert(v@.subrange(0, e as int) =~= output@.take(line_end(output@, 0)));
        return None;
    }
    let mut p = String::new();
    push_range(&mut p, &v, a, b);
    assert(v@.subrange(0, e as int) =~= output@.take(line_end(output@, 0)));
    assert(p@ =~= v@.subrange(a as int, b as int));
    Some(p)
}

pub open spec fn ffmpeg_not_found_message() -> Seq<char> {
    "FFmpeg not found. Please install FFmpeg on your system:\n  - macOS: brew install ffmpeg\n  - Linux: sudo apt install ffmpeg\n  - Windows: Download from https://ffmpeg.org/download.html"@
}

/// FFmpeg is the first of the candidate paths (in the order they are tried)
/// that exists; `exists[i]` tells whether candidate `i` does. With none,
/// FFmpeg is not found.
pub fn resolve_ffmpeg_path(candidates: &[String], exists: &[bool]) -> (r: Result<String, AppError>)
    requires
        exists@.len() == candidates@.len(),
    ensures
        match r {
            Ok(p) => exists|i: int|
                0 <= i < candidates@.len() && exists@[i] && candidates@[i]@ == p@ && forall|j: int|
                    0 <= j < i ==> !#[trigger] exists@[j],
            Err(e) => {
                &&& forall|i: int| 0 <= i < exists@.len() ==> !#[trigger] exists@[i]
                &&& e matches AppError::FfmpegNotFound(m) && m@ == ffmpeg_not_found_message()
            },
        },
{
    let mut i: usize = 0;
    while i < candidates.len()
        invariant
            exists@.len() == candidates@.len(),
            i <= candidates.len(),
            forall|j: int| 0 <= j < i ==> !#[trigger] exists@[j],
        decreases candidates.len() - i,
    {
        if exists[i] {
            return Ok(owned(candidates[i].as_str()));
        }
        i = i + 1;
    }
    Err(AppError::FfmpegNotFound(String::from_str(
        "FFmpeg not found. Please install FFmpeg on your system:\n  - macOS: brew install ffmpeg\n  - Linux: sudo apt install ffmpeg\n  - Windows: Download from https://ffmpeg.org/download.html",
    )))
}

} // verus!
