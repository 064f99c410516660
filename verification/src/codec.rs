//! Codec metadata and build variant for FFmpeg.

use vstd::prelude::*;
use crate::error::{is_message_error, AppError};
use crate::text::{has_sub, owned, push_owned, str_eq, views};

verus! {

pub struct CodecInfo {
    pub value: String,
    pub name: String,
    pub formats: Vec<String>,
    pub supports_tune: bool,
    pub preset_type: String,
}

pub struct BuildVariantResult {
    pub variant: String,
    pub codecs: Vec<CodecInfo>,
}

/// The supported encoders, in table order.
pub open spec fn codec_names() -> Seq<Seq<char>> {
    seq![
        "libx264"@,
        "libx265"@,
        "libsvtav1"@,
        "libvpx-vp9"@,
        "h264_videotoolbox"@,
        "hevc_videotoolbox"@,
    ]
}

pub open spec fn is_supported_codec(c: Seq<char>) -> bool {
    codec_names().contains(c)
}

/// Display name of a supported codec.
pub open spec fn codec_display_name(c: Seq<char>) -> Seq<char> {
    if c == "libx264"@ {
        "H.264 (Widest support)"@
    } else if c == "libx265"@ {
        "H.265 (Smaller files)"@
    } else if c == "libsvtav1"@ {
        "AV1 (Smallest files)"@
    } else if c == "libvpx-vp9"@ {
        "VP9 (Browser-friendly WebM)"@
    } else if c == "h264_videotoolbox"@ {
        "H.264 (VideoToolbox)"@
    } else {
        "H.265 (VideoToolbox)"@
    }
}

/// Output containers a supported codec can be written to.
pub open spec fn codec_formats(c: Seq<char>) -> Seq<Seq<char>> {
    if c == "libsvtav1"@ {
        seq!["mp4"@, "webm"@, "mkv"@]
    } else if c == "libvpx-vp9"@ {
        seq!["webm"@, "mkv"@]
    } else {
        seq!["mp4"@, "mkv"@]
    }
}

pub open spec fn codec_supports_tune(c: Seq<char>) -> bool {
    c == "libx264"@
}

pub open spec fn codec_preset_type(c: Seq<char>) -> Seq<char> {
    if c == "libx264"@ {
        "x264"@
    } else if c == "libx265"@ {
        "x265"@
    } else if c == "libsvtav1"@ {
        "av1"@
    } else if c == "libvpx-vp9"@ {
        "vp9"@
    } else {
        "vt"@
    }
}

/// `info` is the table row of codec `c`.
pub open spec fn is_codec_info(info: CodecInfo, c: Seq<char>) -> bool {
    &&& info.value@ == c
    &&& info.name@ == codec_display_name(c)
    &&& views(info.formats@) == codec_formats(c)
    &&& info.supports_tune == codec_supports_tune(c)
    &&& info.preset_type@ == codec_preset_type(c)
}

/// Supported codec names, in table order.
pub fn supported_codec_names() -> (r: Vec<String>)
    ensures
        views(r@) == codec_names(),
{
    let mut r: Vec<String> = Vec::new();
    push_owned(&mut r, "libx264");
    push_owned(&mut r, "libx265");
    push_owned(&mut r, "libsvtav1");
    push_owned(&mut r, "libvpx-vp9");
    push_owned(&mut r, "h264_videotoolbox");
    push_owned(&mut r, "hevc_videotoolbox");
    assert(views(r@) =~= codec_names());
    r
}

/// Whether `c` names a supported codec.
pub fn is_supported_codec_name(c: &str) -> (r: bool)
    ensures
        r == is_supported_codec(c@),
{
    let r = str_eq(c, "libx264") || str_eq(c, "libx265") || str_eq(c, "libsvtav1") || str_eq(
        c,
        "libvpx-vp9",
    ) || str_eq(c, "h264_videotoolbox") || str_eq(c, "hevc_videotoolbox");
    proof {
        if is_supported_codec(c@) {
            let i = choose|i: int| 0 <= i < codec_names().len() && codec_names()[i] == c@;
            assert(0 <= i < 6);
        }
        if r {
            if c@ == "libx264"@ { assert(codec_names()[0] == c@); }
            if c@ == "libx265"@ { assert(codec_names()[1] == c@); }
            if c@ == "libsvtav1"@ { assert(codec_names()[2] == c@); }
            if c@ == "libvpx-vp9"@ { assert(codec_names()[3] == c@); }
            if c@ == "h264_videotoolbox"@ { assert(codec_names()[4] == c@); }
            if c@ == "hevc_videotoolbox"@ { assert(codec_names()[5] == c@); }
        }
    }
    r
}

/// Table row of a supported codec. The codec must be supported (the table
/// lookup panics otherwise).
pub fn get_codec_info(codec: &str) -> (info: CodecInfo)
    requires
        is_supported_codec(codec@),
    ensures
        is_codec_info(info, codec@),
{
    proof {
        let i = choose|i: int| 0 <= i < codec_names().len() && codec_names()[i] == codec@;
        assert(0 <= i < 6);
    }
    let mut formats: Vec<String> = Vec::new();
    if str_eq(codec, "libsvtav1") {
        push_owned(&mut formats, "mp4");
        push_owned(&mut formats, "webm");
        push_owned(&mut formats, "mkv");
    } else if str_eq(codec, "libvpx-vp9") {
        push_owned(&mut formats, "webm");
        push_owned(&mut formats, "mkv");
    } else {
        push_owned(&mut formats, "mp4");
        push_owned(&mut formats, "mkv");
    }
    assert(views(formats@) =~= codec_formats(codec@));
    let (name, preset) = if str_eq(codec, "libx264") {
        ("H.264 (Widest support)", "x264")
    } else if str_eq(codec, "libx265") {
        ("H.265 (Smaller files)", "x265")
    } else if str_eq(codec, "libsvtav1") {
        ("AV1 (Smallest files)", "av1")
    } else if str_eq(codec, "libvpx-vp9") {
        ("VP9 (Browser-friendly WebM)", "vp9")
    } else if str_eq(codec, "h264_videotoolbox") {
        ("H.264 (VideoToolbox)", "vt")
    } else {
        ("H.265 (VideoToolbox)", "vt")
    };
    CodecInfo {
        value: owned(codec),
        name: owned(name),
        formats,
        supports_tune: str_eq(codec, "libx264"),
        preset_type: owned(preset),
    }
}

/// The whole codec table, in order.
pub fn codec_table() -> (r: Vec<CodecInfo>)
    ensures
        r@.len() == codec_names().len(),
        forall|i: int| 0 <= i < r@.len() ==> #[trigger] is_codec_info(r@[i], codec_names()[i]),
{
    let names = supported_codec_names();
    let mut r: Vec<CodecInfo> = Vec::new();
    let mut i: usize = 0;
    while i < names.len()
        invariant
            i <= names@.len(),
            views(names@) == codec_names(),
            r@.len() == i,
            forall|j: int| 0 <= j < i ==> #[trigger] is_codec_info(r@[j], codec_names()[j]),
        decreases names@.len() - i,
    {
        assert(views(names@)[i as int] == names@[i as int]@);
        assert(is_supported_codec(names@[i as int]@));
        r.push(get_codec_info(names[i].as_str()));
        i = i + 1;
    }
    r
}

pub open spec fn is_vt_codec(c: Seq<char>) -> bool {
    c == "h264_videotoolbox"@ || c == "hevc_videotoolbox"@
}

pub open spec fn is_non_vt_codec(c: Seq<char>) -> bool {
    c == "libx264"@ || c == "libx265"@ || c == "libsvtav1"@ || c == "libvpx-vp9"@
}

/// `s` without its VideoToolbox entries, order kept.
pub open spec fn without_vt(s: Seq<Seq<char>>) -> Seq<Seq<char>>
    decreases s.len(),
{
    if s.len() == 0 {
        s
    } else if is_vt_codec(s.last()) {
        without_vt(s.drop_last())
    } else {
        without_vt(s.drop_last()).push(s.last())
    }
}

/// Codecs offered for display: when any software codec is available the
/// VideoToolbox ones are hidden, otherwise the list is kept as it is.
pub open spec fn display_codecs(available: Seq<Seq<char>>) -> Seq<Seq<char>> {
    if exists|i: int| 0 <= i < available.len() && is_non_vt_codec(#[trigger] available[i]) {
        without_vt(available)
    } else {
        available
    }
}

fn is_vt_name(c: &str) -> (r: bool)
    ensures
        r == is_vt_codec(c@),
{
    str_eq(c, "h264_videotoolbox") || str_eq(c, "hevc_videotoolbox")
}

fn is_non_vt_name(c: &str) -> (r: bool)
    ensures
        r == is_non_vt_codec(c@),
{
    str_eq(c, "libx264") || str_eq(c, "libx265") || str_eq(c, "libsvtav1") || str_eq(
        c,
        "libvpx-vp9",
    )
}

/// When non-LGPL (software) codecs are available, filter out VideoToolbox so
/// libx264 and the other software encoders are preferred.
pub fn filter_codecs_for_display(available: &[String]) -> (r: Vec<String>)
    ensures
        views(r@) == display_codecs(views(available@)),
{
    let ghost av = views(available@);
    let mut has_non_vt = false;
    let mut i: usize = 0;
    while i < available.len()
        invariant
            i <= available@.len(),
            av == views(available@),
            has_non_vt <==> exists|j: int| 0 <= j < i && is_non_vt_codec(#[trigger] av[j]),
        decreases available@.len() - i,
    {
        if is_non_vt_name(available[i].as_str()) {
            has_non_vt = true;
        }
        proof {
            if is_non_vt_codec(av[i as int]) {
                assert(0 <= i < i + 1 && is_non_vt_codec(av[i as int]));
            }
        }
        i = i + 1;
    }
    let mut r: Vec<String> = Vec::new();
    let mut k: usize = 0;
    while k < available.len()
        invariant
            k <= available@.len(),
            av == views(available@),
            views(r@) == if has_non_vt { without_vt(av.take(k as int)) } else { av.take(k as int) },
        decreases available@.len() - k,
    {
        assert(av.take(k + 1).drop_last() =~= av.take(k as int));
        assert(av.take(k + 1).last() == available@[k as int]@);
        if !has_non_vt || !is_vt_name(available[k].as_str()) {
            r.push(available[k].clone());
        }
        assert(views(r@) =~= if has_non_vt { without_vt(av.take(k + 1)) } else { av.take(k + 1) });
        k = k + 1;
    }
    assert(av.take(available@.len() as int) =~= av);
    r
}

/// The build variant this library reports.
pub open spec fn build_variant_name() -> Seq<char> {
    "standalone"@
}

pub open spec fn no_codecs_message() -> Seq<char> {
    "No supported video codecs found in FFmpeg. Please ensure FFmpeg is properly installed with codec support."@
}

/// Build variant and the display codecs with their table rows. Every
/// available name must be a supported codec (its table lookup panics otherwise).
pub fn get_build_variant(available: Vec<String>) -> (r: Result<BuildVariantResult, AppError>)
    requires
        forall|i: int| 0 <= i < available@.len() ==> is_supported_codec(#[trigger] available@[i]@),
    ensures
        match r {
            Ok(res) => {
                &&& display_codecs(views(available@)).len() > 0
                &&& res.variant@ == build_variant_name()
                &&& res.codecs@.len() == display_codecs(views(available@)).len()
                &&& forall|i: int|
                    0 <= i < res.codecs@.len() ==> #[trigger] is_codec_info(
                        res.codecs@[i],
                        display_codecs(views(available@))[i],
                    )
            },
            Err(e) => display_codecs(views(available@)).len() == 0 && is_message_error(
                e,
                no_codecs_message(),
            ),
        },
{
    let codecs = filter_codecs_for_display(available.as_slice());
    if codecs.len() == 0 {
        return Err(AppError::from(
            "No supported video codecs found in FFmpeg. Please ensure FFmpeg is properly installed with codec support.",
        ));
    }
    proof {
        lemma_display_codecs_supported(views(available@));
    }
    let mut infos: Vec<CodecInfo> = Vec::new();
    let mut i: usize = 0;
    while i < codecs.len()
        invariant
            i <= codecs@.len(),
            views(codecs@) == display_codecs(views(available@)),
            forall|j: int| 0 <= j < codecs@.len() ==> is_supported_codec(#[trigger] views(codecs@)[j]),
            infos@.len() == i,
            forall|j: int| 0 <= j < i ==> #[trigger] is_codec_info(infos@[j], views(codecs@)[j]),
        decreases codecs@.len() - i,
    {
        assert(views(codecs@)[i as int] == codecs@[i as int]@);
        infos.push(get_codec_info(codecs[i].as_str()));
        i = i + 1;
    }
    Ok(BuildVariantResult { variant: owned("standalone"), codecs: infos })
}

proof fn lemma_without_vt_subset(s: Seq<Seq<char>>)
    ensures
        forall|i: int| 0 <= i < without_vt(s).len() ==> s.contains(#[trigger] without_vt(s)[i]),
    decreases s.len(),
{
    if s.len() > 0 {
        lemma_without_vt_subset(s.drop_last());
        let w = without_vt(s.drop_last());
        assert forall|i: int| 0 <= i < without_vt(s).len() implies s.contains(
            #[trigger] without_vt(s)[i],
        ) by {
            if i < w.len() {
                let j = choose|j: int| 0 <= j < s.drop_last().len() && s.drop_last()[j] == w[i];
                assert(s[j] == w[i]);
            } else {
                assert(s[s.len() - 1] == s.last());
            }
        }
    }
}

proof fn lemma_display_codecs_supported(s: Seq<Seq<char>>)
    requires
        forall|i: int| 0 <= i < s.len() ==> is_supported_codec(#[trigger] s[i]),
    ensures
        forall|i: int|
            0 <= i < display_codecs(s).len() ==> is_supported_codec(#[trigger] display_codecs(s)[i]),
{
    lemma_without_vt_subset(s);
    assert forall|i: int| 0 <= i < display_codecs(s).len() implies is_supported_codec(
        #[trigger] display_codecs(s)[i],
    ) by {
        if display_codecs(s) != s {
            let j = choose|j: int| 0 <= j < s.len() && s[j] == without_vt(s)[i];
            assert(is_supported_codec(s[j]));
        }
    }
}

proof fn lemma_without_vt_has_none(s: Seq<Seq<char>>)
    ensures
        forall|i: int| 0 <= i < without_vt(s).len() ==> !is_vt_codec(#[trigger] without_vt(s)[i]),
    decreases s.len(),
{
    if s.len() > 0 {
        lemma_without_vt_has_none(s.drop_last());
        let w = without_vt(s.drop_last());
        assert forall|i: int| 0 <= i < without_vt(s).len() implies !is_vt_codec(#[trigger] without_vt(s)[i]) by {
            if i < w.len() {
                assert(without_vt(s)[i] == w[i]);
            }
        }
    }
}

proof fn lemma_kinds_disjoint(c: Seq<char>)
    ensures
        is_non_vt_codec(c) ==> !is_vt_codec(c),
{
    reveal_strlit("libx264");
    reveal_strlit("libx265");
    reveal_strlit("libsvtav1");
    reveal_strlit("libvpx-vp9");
    reveal_strlit("h264_videotoolbox");
    reveal_strlit("hevc_videotoolbox");
    assert("libx264"@.len() == 7 && "libx265"@.len() == 7 && "libsvtav1"@.len() == 9 && "libvpx-vp9"@.len() == 10);
    assert("h264_videotoolbox"@.len() == 17 && "hevc_videotoolbox"@.len() == 17);
}

/// VideoToolbox encoders are shown only when no software encoder is
/// available: the displayed list never holds both kinds.
pub proof fn display_never_mixes_encoder_kinds(available: Seq<Seq<char>>)
    ensures
        forall|i: int, j: int|
            0 <= i < display_codecs(available).len() && 0 <= j < display_codecs(available).len()
                ==> !(is_vt_codec(#[trigger] display_codecs(available)[i]) && is_non_vt_codec(
                #[trigger] display_codecs(available)[j],
            )),
{
    lemma_without_vt_has_none(available);
    assert forall|c: Seq<char>| is_non_vt_codec(c) implies !is_vt_codec(c) by {
        lemma_kinds_disjoint(c);
    }
    if !(exists|k: int| 0 <= k < available.len() && is_non_vt_codec(#[trigger] available[k])) {
        assert forall|i: int, j: int|
            0 <= i < display_codecs(available).len() && 0 <= j < display_codecs(available).len()
                implies !(is_vt_codec(#[trigger] display_codecs(available)[i]) && is_non_vt_codec(
            #[trigger] display_codecs(available)[j],
        )) by {
            assert(!is_non_vt_codec(available[j]));
        }
    }
}

/// A software encoder that is available is always shown.
pub proof fn software_encoders_are_shown(available: Seq<Seq<char>>, c: Seq<char>)
    requires
        available.contains(c),
        is_non_vt_codec(c),
    ensures
        display_codecs(available).contains(c),
    decreases available.len(),
{
    let k = choose|k: int| 0 <= k < available.len() && available[k] == c;
    assert(is_non_vt_codec(available[k]));
    lemma_kinds_disjoint(c);
    lemma_without_vt_keeps(available, c);
}

/// Filtering for display twice gives what filtering once gives.
pub proof fn display_filter_is_idempotent(available: Seq<Seq<char>>)
    ensures
        display_codecs(display_codecs(available)) == display_codecs(available),
{
    if exists|k: int| 0 <= k < available.len() && is_non_vt_codec(#[trigger] available[k]) {
        let k = choose|k: int| 0 <= k < available.len() && is_non_vt_codec(#[trigger] available[k]);
        let c = available[k];
        lemma_kinds_disjoint(c);
        assert(available.contains(c));
        lemma_without_vt_keeps(available, c);
        let d = without_vt(available);
        let j = choose|j: int| 0 <= j < d.len() && d[j] == c;
        assert(is_non_vt_codec(d[j]));
        lemma_without_vt_has_none(available);
        lemma_without_vt_clean(d);
    }
}

proof fn lemma_without_vt_clean(s: Seq<Seq<char>>)
    requires
        forall|i: int| 0 <= i < s.len() ==> !is_vt_codec(#[trigger] s[i]),
    ensures
        without_vt(s) == s,
    decreases s.len(),
{
    if s.len() > 0 {
        assert(!is_vt_codec(s[s.len() - 1]));
        lemma_without_vt_clean(s.drop_last());
        assert(s.drop_last().push(s.last()) =~= s);
    } else {
        assert(without_vt(s) =~= s);
    }
}

proof fn lemma_without_vt_keeps(s: Seq<Seq<char>>, c: Seq<char>)
    requires
        s.contains(c),
        !is_vt_codec(c),
    ensures
        without_vt(s).contains(c),
    decreases s.len(),
{
    let w = without_vt(s.drop_last());
    if s.last() == c {
        assert(without_vt(s)[w.len() as int] == c);
    } else {
        let k = choose|k: int| 0 <= k < s.len() && s[k] == c;
        assert(s.drop_last()[k] == c);
        lemma_without_vt_keeps(s.drop_last(), c);
        let j = choose|j: int| 0 <= j < w.len() && w[j] == c;
        if !is_vt_codec(s.last()) {
            assert(without_vt(s)[j] == c);
        }
    }
}

/// Each table row's preset family is its encoder's own: a software
/// encoder's preset type names its encoder (it occurs in the encoder's name,
/// `vp9` in `libvpx-vp9`), the VideoToolbox encoders share the type `vt`,
/// and encoders of different families never share a preset type.
pub proof fn preset_family_is_the_encoders(info: CodecInfo, c: Seq<char>, c2: Seq<char>)
    requires
        is_codec_info(info, c),
        is_supported_codec(c),
        is_supported_codec(c2),
    ensures
        !is_vt_codec(c) ==> has_sub(c, info.preset_type@),
        is_vt_codec(c) ==> info.preset_type@ == "vt"@,
        c == "libvpx-vp9"@ ==> info.preset_type@ == "vp9"@,
        (codec_preset_type(c) == codec_preset_type(c2)) <==> (c == c2 || (is_vt_codec(c) && is_vt_codec(c2))),
{
    reveal_strlit("libx264");
    reveal_strlit("libx265");
    reveal_strlit("libsvtav1");
    reveal_strlit("libvpx-vp9");
    reveal_strlit("h264_videotoolbox");
    reveal_strlit("hevc_videotoolbox");
    reveal_strlit("x264");
    reveal_strlit("x265");
    reveal_strlit("av1");
    reveal_strlit("vp9");
    reveal_strlit("vt");
    lemma_supported_cases(c);
    lemma_supported_cases(c2);
    let t = info.preset_type@;
    if c == "libx264"@ || c == "libx265"@ {
        let i = 3int;
        assert(c.subrange(i, i + t.len()) =~= t);
    } else if c == "libsvtav1"@ {
        let i = 6int;
        assert(c.subrange(i, i + t.len()) =~= t);
    } else if c == "libvpx-vp9"@ {
        let i = 7int;
        assert(c.subrange(i, i + t.len()) =~= t);
    }
    assert("av1"@ != "vp9"@) by {
        assert("av1"@[0] != "vp9"@[0]);
    }
    assert("libx264"@.len() == 7 && "libx265"@.len() == 7 && "libsvtav1"@.len() == 9);
    assert("libvpx-vp9"@.len() == 10 && "h264_videotoolbox"@.len() == 17 && "hevc_videotoolbox"@.len() == 17);
    assert("x264"@.len() == 4 && "x265"@.len() == 4 && "av1"@.len() == 3 && "vp9"@.len() == 3);
    assert("vt"@.len() == 2);
    assert("x264"@ != "x265"@) by {
        assert("x264"@[3] != "x265"@[3]);
    }
    assert("h264_videotoolbox"@ != "hevc_videotoolbox"@) by {
        assert("h264_videotoolbox"@[1] != "hevc_videotoolbox"@[1]);
    }
    assert("libx264"@ != "libx265"@) by {
        assert("libx264"@[6] != "libx265"@[6]);
    }
}

proof fn lemma_supported_cases(c: Seq<char>)
    requires
        is_supported_codec(c),
    ensures
        c == "libx264"@ || c == "libx265"@ || c == "libsvtav1"@ || c == "libvpx-vp9"@ || c
            == "h264_videotoolbox"@ || c == "hevc_videotoolbox"@,
{
    let i = choose|i: int| 0 <= i < codec_names().len() && codec_names()[i] == c;
    assert(0 <= i < 6);
}

} // verus!
