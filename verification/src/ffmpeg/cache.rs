//! Preview cache: the most recent previews (at most `PREVIEW_CACHE_MAX_ENTRIES`,
//! least recently used first) with a store of extracted segments that previews
//! of the same input, duration and start share, counted by reference.
//!
//! The cache holds paths only. The methods say which files are no longer
//! needed; the caller deletes them and tells the cache which files it found
//! missing.
//!
//! All three stores are `Vec`s. The previews are looked up by key as well as
//! taken from the front, and their keys are strings, so a list with the
//! invariant that each key occurs once (and the least recently used first)
//! serves as the LRU queue and as the maps for segments and estimates.

use vstd::prelude::*;
use crate::ffmpeg::options::{
    eff_output_format, estimate_key, estimate_key_separates_output_formats, key_common, preview_key, EstimateModel,
    SizeEstimate, TranscodeOptions,
};
use crate::text::{concat_strings, owned, str_eq, views};

verus! {

pub const PREVIEW_CACHE_MAX_ENTRIES: usize = 16;

/// Size and modification time (milliseconds since the epoch) of an input file,
/// so that a changed file does not hit stale entries.
#[derive(Clone, Copy, Debug, PartialEq, Eq, Structural)]
pub struct FileSignature {
    pub size: u64,
    pub modified_ms: u128,
}

/// What identifies a set of extracted segments.
pub struct SegKey {
    pub input: Seq<char>,
    pub duration: u32,
    pub start_ms: u64,
    pub sig: FileSignature,
}

/// What identifies a preview: its segments and the options it was made with.
pub struct PreviewKey {
    pub seg: SegKey,
    pub options: Seq<char>,
}

/// What identifies a size estimate.
pub struct EstKey {
    pub input: Seq<char>,
    pub duration: u32,
    pub options: Seq<char>,
    pub sig: FileSignature,
}

pub struct CachedPreview {
    pub key: PreviewKey,
    pub output: Seq<char>,
}

pub struct CachedSegments {
    pub key: SegKey,
    pub paths: Seq<Seq<char>>,
    pub ref_count: u32,
}

pub struct CachedEstimate {
    pub key: EstKey,
    pub estimate: EstimateModel,
}

/// The contents of a preview cache: previews from least to most recently
/// used, segment sets, and estimates.
#[verifier::ext_equal]
pub struct CacheModel {
    pub lru: Seq<CachedPreview>,
    pub segments: Seq<CachedSegments>,
    pub estimates: Seq<CachedEstimate>,
}

pub open spec fn seg_key(input: Seq<char>, duration: u32, start_ms: u64, sig: FileSignature) -> SegKey {
    SegKey { input, duration, start_ms, sig }
}

pub open spec fn preview_key_of(
    input: Seq<char>,
    duration: u32,
    start_ms: u64,
    options: TranscodeOptions,
    sig: FileSignature,
) -> PreviewKey {
    PreviewKey { seg: seg_key(input, duration, start_ms, sig), options: preview_key(options) }
}

/// Estimates are keyed by the estimate text of the options, which carries
/// the estimate version and the output format.
pub open spec fn est_key_of(input: Seq<char>, duration: u32, options: TranscodeOptions, sig: FileSignature) -> EstKey {
    EstKey { input, duration, options: estimate_key(options), sig }
}

pub open spec fn has_preview(lru: Seq<CachedPreview>, k: PreviewKey) -> bool {
    exists|i: int| 0 <= i < lru.len() && (#[trigger] lru[i]).key == k
}

pub open spec fn preview_at(lru: Seq<CachedPreview>, k: PreviewKey) -> int {
    choose|i: int| 0 <= i < lru.len() && (#[trigger] lru[i]).key == k
}

pub open spec fn has_seg(segs: Seq<CachedSegments>, k: SegKey) -> bool {
    exists|i: int| 0 <= i < segs.len() && (#[trigger] segs[i]).key == k
}

pub open spec fn seg_at(segs: Seq<CachedSegments>, k: SegKey) -> int {
    choose|i: int| 0 <= i < segs.len() && (#[trigger] segs[i]).key == k
}

pub open spec fn has_est(ests: Seq<CachedEstimate>, k: EstKey) -> bool {
    exists|i: int| 0 <= i < ests.len() && (#[trigger] ests[i]).key == k
}

pub open spec fn est_at(ests: Seq<CachedEstimate>, k: EstKey) -> int {
    choose|i: int| 0 <= i < ests.len() && (#[trigger] ests[i]).key == k
}

/// Number of cached previews that use the segments `k`.
pub open spec fn uses(lru: Seq<CachedPreview>, k: SegKey) -> nat
    decreases lru.len(),
{
    if lru.len() == 0 {
        0
    } else {
        uses(lru.drop_last(), k) + if lru.last().key.seg == k { 1nat } else { 0nat }
    }
}

pub open spec fn lru_keys_distinct(lru: Seq<CachedPreview>) -> bool {
    forall|i: int, j: int| 0 <= i < j < lru.len() ==> (#[trigger] lru[i]).key != (#[trigger] lru[j]).key
}

pub open spec fn seg_keys_distinct(segs: Seq<CachedSegments>) -> bool {
    forall|i: int, j: int|
        0 <= i < j < segs.len() ==> (#[trigger] segs[i]).key != (#[trigger] segs[j]).key
}

pub open spec fn est_keys_distinct(ests: Seq<CachedEstimate>) -> bool {
    forall|i: int, j: int|
        0 <= i < j < ests.len() ==> (#[trigger] ests[i]).key != (#[trigger] ests[j]).key
}

/// What every reachable cache satisfies: at most sixteen previews, each key
/// once, and every segment set held by at least one reference and (when it
/// has paths) by no more references than previews that use it.
pub open spec fn model_wf(m: CacheModel) -> bool {
    &&& m.lru.len() <= PREVIEW_CACHE_MAX_ENTRIES
    &&& lru_keys_distinct(m.lru)
    &&& seg_keys_distinct(m.segments)
    &&& est_keys_distinct(m.estimates)
    &&& forall|i: int| 0 <= i < m.segments.len() ==> seg_counted(#[trigger] m.segments[i], m.lru)
}

/// A segment set is held by at least one reference and, when it has paths,
/// by no more references than previews that use it.
pub open spec fn seg_counted(e: CachedSegments, lru: Seq<CachedPreview>) -> bool {
    1 <= e.ref_count && (e.paths.len() > 0 ==> e.ref_count <= uses(lru, e.key))
}

pub open spec fn empty_model() -> CacheModel {
    CacheModel { lru: Seq::empty(), segments: Seq::empty(), estimates: Seq::empty() }
}

/// One reference to the segments `k` is given up: the set is forgotten, and
/// its paths are to be deleted, when it was the last one.
pub open spec fn release(segs: Seq<CachedSegments>, k: SegKey) -> (Seq<CachedSegments>, Seq<Seq<char>>) {
    if has_seg(segs, k) {
        let i = seg_at(segs, k);
        let e = segs[i];
        if e.ref_count <= 1 {
            (segs.remove(i), e.paths)
        } else {
            (
                segs.update(i, CachedSegments { key: e.key, paths: e.paths, ref_count: (e.ref_count - 1) as u32 }),
                Seq::empty(),
            )
        }
    } else {
        (segs, Seq::empty())
    }
}

/// The preview at position `i` leaves the cache: its output is to be deleted
/// and its reference to its segments is given up.
pub open spec fn drop_at(m: CacheModel, i: int) -> (CacheModel, Seq<Seq<char>>) {
    let e = m.lru[i];
    let (segs, freed) = release(m.segments, e.key.seg);
    (CacheModel { lru: m.lru.remove(i), segments: segs, estimates: m.estimates }, seq![e.output] + freed)
}

/// Least recently used previews leave until fewer than the limit remain.
pub open spec fn make_room(m: CacheModel) -> (CacheModel, Seq<Seq<char>>)
    decreases m.lru.len(),
{
    if m.lru.len() >= PREVIEW_CACHE_MAX_ENTRIES && m.lru.len() > 0 {
        let (m1, d1) = drop_at(m, 0);
        let (m2, d2) = make_room(m1);
        (m2, d1 + d2)
    } else {
        (m, Seq::empty())
    }
}

/// A new preview takes a reference to the segments `k`: to the set already
/// stored (the given paths are then redundant, and to be deleted unless they
/// are the stored ones), or to a new set of the given paths.
pub open spec fn acquire(segs: Seq<CachedSegments>, k: SegKey, paths: Seq<Seq<char>>) -> (
    Seq<CachedSegments>,
    Seq<Seq<char>>,
) {
    if has_seg(segs, k) {
        let i = seg_at(segs, k);
        let e = segs[i];
        let rc = if e.ref_count < u32::MAX { (e.ref_count + 1) as u32 } else { e.ref_count };
        (
            segs.update(i, CachedSegments { key: e.key, paths: e.paths, ref_count: rc }),
            if paths == e.paths { Seq::empty() } else { paths },
        )
    } else {
        (segs.push(CachedSegments { key: k, paths, ref_count: 1 }), Seq::empty())
    }
}

/// Storing a preview: an entry of the same key leaves first, then room is
/// made, then the preview becomes the most recently used.
pub open spec fn set_preview(m: CacheModel, k: PreviewKey, paths: Seq<Seq<char>>, out: Seq<char>) -> (
    CacheModel,
    Seq<Seq<char>>,
) {
    let (m1, d1) = if has_preview(m.lru, k) {
        drop_at(m, preview_at(m.lru, k))
    } else {
        (m, Seq::empty())
    };
    let (m2, d2) = make_room(m1);
    let (segs, d3) = acquire(m2.segments, k.seg, paths);
    (
        CacheModel {
            lru: m2.lru.push(CachedPreview { key: k, output: out }),
            segments: segs,
            estimates: m2.estimates,
        },
        d1 + d2 + d3,
    )
}

/// Looking a preview up, given whether its output file and its segment files
/// are all present: a hit returns the first segment path and the output and
/// makes the preview the most recently used; a preview whose files are gone
/// leaves the cache.
pub open spec fn get_preview(m: CacheModel, k: PreviewKey, output_exists: bool, segments_exist: bool) -> (
    CacheModel,
    Option<(Seq<char>, Seq<char>)>,
    Seq<Seq<char>>,
) {
    if !has_preview(m.lru, k) {
        (m, None, Seq::empty())
    } else {
        let i = preview_at(m.lru, k);
        let e = m.lru[i];
        if !output_exists || !has_seg(m.segments, k.seg) || !segments_exist {
            let (m1, d) = drop_at(m, i);
            (m1, None, d)
        } else {
            let paths = m.segments[seg_at(m.segments, k.seg)].paths;
            if paths.len() == 0 {
                (CacheModel { lru: m.lru.remove(i), segments: m.segments, estimates: m.estimates }, None, Seq::empty())
            } else {
                (
                    CacheModel { lru: m.lru.remove(i).push(e), segments: m.segments, estimates: m.estimates },
                    Some((paths[0], e.output)),
                    Seq::empty(),
                )
            }
        }
    }
}

/// Looking segments up, given whether their files are all present; a set
/// whose files are gone is forgotten.
pub open spec fn get_segments(m: CacheModel, k: SegKey, all_exist: bool) -> (CacheModel, Option<Seq<Seq<char>>>) {
    if !has_seg(m.segments, k) {
        (m, None)
    } else {
        let i = seg_at(m.segments, k);
        if all_exist {
            (m, Some(m.segments[i].paths))
        } else {
            (CacheModel { lru: m.lru, segments: m.segments.remove(i), estimates: m.estimates }, None)
        }
    }
}

pub open spec fn get_estimate(m: CacheModel, k: EstKey) -> Option<EstimateModel> {
    if has_est(m.estimates, k) {
        Some(m.estimates[est_at(m.estimates, k)].estimate)
    } else {
        None
    }
}

pub open spec fn set_estimate(m: CacheModel, k: EstKey, e: EstimateModel) -> CacheModel {
    let ests = if has_est(m.estimates, k) {
        m.estimates.update(est_at(m.estimates, k), CachedEstimate { key: k, estimate: e })
    } else {
        m.estimates.push(CachedEstimate { key: k, estimate: e })
    };
    CacheModel { lru: m.lru, segments: m.segments, estimates: ests }
}

/// All segment paths, set after set, in store order.
pub open spec fn segment_paths(segs: Seq<CachedSegments>) -> Seq<Seq<char>>
    decreases segs.len(),
{
    if segs.len() == 0 {
        Seq::empty()
    } else {
        segment_paths(segs.drop_last()) + segs.last().paths
    }
}

pub open spec fn outputs(lru: Seq<CachedPreview>) -> Seq<Seq<char>> {
    lru.map_values(|e: CachedPreview| e.output)
}

struct SegmentKey {
    input_path: String,
    preview_duration: u32,
    preview_start_ms: u64,
    file_signature: FileSignature,
}

impl View for SegmentKey {
    type V = SegKey;

    closed spec fn view(&self) -> SegKey {
        seg_key(self.input_path@, self.preview_duration, self.preview_start_ms, self.file_signature)
    }
}

struct PreviewCacheKey {
    input_path: String,
    preview_duration: u32,
    preview_start_ms: u64,
    options_key: String,
    file_signature: FileSignature,
}

impl View for PreviewCacheKey {
    type V = PreviewKey;

    closed spec fn view(&self) -> PreviewKey {
        PreviewKey {
            seg: seg_key(self.input_path@, self.preview_duration, self.preview_start_ms, self.file_signature),
            options: self.options_key@,
        }
    }
}

struct EstimateKey {
    input_path: String,
    preview_duration: u32,
    options_key: String,
    file_signature: FileSignature,
}

impl View for EstimateKey {
    type V = EstKey;

    closed spec fn view(&self) -> EstKey {
        EstKey {
            input: self.input_path@,
            duration: self.preview_duration,
            options: self.options_key@,
            sig: self.file_signature,
        }
    }
}

struct PreviewEntry {
    key: PreviewCacheKey,
    output_path: String,
}

impl View for PreviewEntry {
    type V = CachedPreview;

    closed spec fn view(&self) -> CachedPreview {
        CachedPreview { key: self.key@, output: self.output_path@ }
    }
}

struct SegmentEntry {
    key: SegmentKey,
    segment_paths: Vec<String>,
    ref_count: u32,
}

impl View for SegmentEntry {
    type V = CachedSegments;

    closed spec fn view(&self) -> CachedSegments {
        CachedSegments { key: self.key@, paths: views(self.segment_paths@), ref_count: self.ref_count }
    }
}

struct EstimateEntry {
    key: EstimateKey,
    estimate: SizeEstimate,
}

impl View for EstimateEntry {
    type V = CachedEstimate;

    closed spec fn view(&self) -> CachedEstimate {
        CachedEstimate { key: self.key@, estimate: self.estimate@ }
    }
}

/// The preview cache. Its contents are `self@` (see `CacheModel`).
pub struct PreviewCache {
    lru: Vec<PreviewEntry>,
    segments: Vec<SegmentEntry>,
    estimates: Vec<EstimateEntry>,
}

impl View for PreviewCache {
    type V = CacheModel;

    closed spec fn view(&self) -> CacheModel {
        CacheModel {
            lru: self.lru@.map_values(|e: PreviewEntry| e@),
            segments: self.segments@.map_values(|e: SegmentEntry| e@),
            estimates: self.estimates@.map_values(|e: EstimateEntry| e@),
        }
    }
}

fn same_seg_key(a: &SegmentKey, b: &SegmentKey) -> (r: bool)
    ensures
        r == (a@ == b@),
{
    str_eq(a.input_path.as_str(), b.input_path.as_str()) && a.preview_duration == b.preview_duration
        && a.preview_start_ms == b.preview_start_ms && a.file_signature == b.file_signature
}

fn same_preview_key(a: &PreviewCacheKey, b: &PreviewCacheKey) -> (r: bool)
    ensures
        r == (a@ == b@),
{
    str_eq(a.input_path.as_str(), b.input_path.as_str()) && a.preview_duration == b.preview_duration
        && a.preview_start_ms == b.preview_start_ms && str_eq(a.options_key.as_str(), b.options_key.as_str())
        && a.file_signature == b.file_signature
}

fn same_est_key(a: &EstimateKey, b: &EstimateKey) -> (r: bool)
    ensures
        r == (a@ == b@),
{
    str_eq(a.input_path.as_str(), b.input_path.as_str()) && a.preview_duration == b.preview_duration
        && str_eq(a.options_key.as_str(), b.options_key.as_str()) && a.file_signature == b.file_signature
}

/// Paths compared one by one as text.
fn same_paths(a: &Vec<String>, b: &Vec<String>) -> (r: bool)
    ensures
        r == (views(a@) == views(b@)),
{
    if a.len() != b.len() {
        assert(views(a@).len() != views(b@).len());
        return false;
    }
    let mut i: usize = 0;
    while i < a.len()
        invariant
            a.len() == b.len(),
            i <= a.len(),
            forall|j: int| 0 <= j < i ==> a@[j]@ == b@[j]@,
        decreases a.len() - i,
    {
        if !str_eq(a[i].as_str(), b[i].as_str()) {
            assert(views(a@)[i as int] != views(b@)[i as int]);
            return false;
        }
        i = i + 1;
    }
    assert(views(a@) =~= views(b@));
    true
}

fn clone_paths(v: &Vec<String>) -> (r: Vec<String>)
    ensures
        views(r@) == views(v@),
{
    let mut r: Vec<String> = Vec::new();
    let mut i: usize = 0;
    while i < v.len()
        invariant
            i <= v.len(),
            views(r@) == views(v@).take(i as int),
        decreases v.len() - i,
    {
        let ghost before = r@;
        let c = owned(v[i].as_str());
        r.push(c);
        assert(r@ =~= before.push(c));
        assert(views(r@) =~= views(before).push(v@[i as int]@));
        assert(views(v@).take(i + 1) =~= views(v@).take(i as int).push(v@[i as int]@));
        i = i + 1;
    }
    assert(views(v@).take(v.len() as int) =~= views(v@));
    r
}

proof fn lemma_preview_at(lru: Seq<CachedPreview>, i: int)
    requires
        lru_keys_distinct(lru),
        0 <= i < lru.len(),
    ensures
        has_preview(lru, lru[i].key),
        preview_at(lru, lru[i].key) == i,
{
    let k = lru[i].key;
    assert(has_preview(lru, k));
    let j = preview_at(lru, k);
    if j != i {
        if j < i {
            assert(lru[j].key != lru[i].key);
        } else {
            assert(lru[i].key != lru[j].key);
        }
    }
}

proof fn lemma_seg_at(segs: Seq<CachedSegments>, i: int)
    requires
        seg_keys_distinct(segs),
        0 <= i < segs.len(),
    ensures
        has_seg(segs, segs[i].key),
        seg_at(segs, segs[i].key) == i,
{
    let k = segs[i].key;
    assert(has_seg(segs, k));
    let j = seg_at(segs, k);
    if j != i {
        if j < i {
            assert(segs[j].key != segs[i].key);
        } else {
            assert(segs[i].key != segs[j].key);
        }
    }
}

proof fn lemma_est_at(ests: Seq<CachedEstimate>, i: int)
    requires
        est_keys_distinct(ests),
        0 <= i < ests.len(),
    ensures
        has_est(ests, ests[i].key),
        est_at(ests, ests[i].key) == i,
{
    let k = ests[i].key;
    assert(has_est(ests, k));
    let j = est_at(ests, k);
    if j != i {
        if j < i {
            assert(ests[j].key != ests[i].key);
        } else {
            assert(ests[i].key != ests[j].key);
        }
    }
}

impl PreviewCache {
    pub open spec fn wf(&self) -> bool {
        model_wf(self@)
    }

    pub fn new() -> (c: PreviewCache)
        ensures
            c.wf(),
            c@ == empty_model(),
    {
        let c = PreviewCache { lru: Vec::new(), segments: Vec::new(), estimates: Vec::new() };
        assert(c@ =~= empty_model());
        c
    }

    fn find_preview(&self, k: &PreviewCacheKey) -> (r: Option<usize>)
        ensures
            match r {
                Some(i) => i < self@.lru.len() && self@.lru[i as int].key == k@,
                None => !has_preview(self@.lru, k@),
            },
    {
        let mut i: usize = 0;
        while i < self.lru.len()
            invariant
                i <= self.lru.len(),
                forall|j: int| 0 <= j < i ==> self@.lru[j].key != k@,
            decreases self.lru.len() - i,
        {
            if same_preview_key(&self.lru[i].key, k) {
                return Some(i);
            }
            i = i + 1;
        }
        None
    }

    fn find_seg(&self, k: &SegmentKey) -> (r: Option<usize>)
        ensures
            match r {
                Some(i) => i < self@.segments.len() && self@.segments[i as int].key == k@,
                None => !has_seg(self@.segments, k@),
            },
    {
        let mut i: usize = 0;
        while i < self.segments.len()
            invariant
                i <= self.segments.len(),
                forall|j: int| 0 <= j < i ==> self@.segments[j].key != k@,
            decreases self.segments.len() - i,
        {
            if same_seg_key(&self.segments[i].key, k) {
                return Some(i);
            }
            i = i + 1;
        }
        None
    }

    fn find_est(&self, k: &EstimateKey) -> (r: Option<usize>)
        ensures
            match r {
                Some(i) => i < self@.estimates.len() && self@.estimates[i as int].key == k@,
                None => !has_est(self@.estimates, k@),
            },
    {
        let mut i: usize = 0;
        while i < self.estimates.len()
            invariant
                i <= self.estimates.len(),
                forall|j: int| 0 <= j < i ==> self@.estimates[j].key != k@,
            decreases self.estimates.len() - i,
        {
            if same_est_key(&self.estimates[i].key, k) {
                return Some(i);
            }
            i = i + 1;
        }
        None
    }

    /// Gives up one reference to the segments `k`.
    fn release(&mut self, k: &SegmentKey) -> (freed: Vec<String>)
        requires
            seg_keys_distinct(old(self)@.segments),
        ensures
            final(self)@.segments == release(old(self)@.segments, k@).0,
            views(freed@) == release(old(self)@.segments, k@).1,
            final(self)@.lru == old(self)@.lru,
            final(self)@.estimates == old(self)@.estimates,
    {
        let ghost segs = self@.segments;
        match self.find_seg(k) {
            None => {
                let r: Vec<String> = Vec::new();
                assert(views(r@) =~= Seq::<Seq<char>>::empty());
                r
            },
            Some(i) => {
                proof {
                    lemma_seg_at(segs, i as int);
                }
                let mut e = self.segments.remove(i);
                if e.ref_count <= 1 {
                    assert(self@.segments =~= segs.remove(i as int));
                    e.segment_paths
                } else {
                    e.ref_count = e.ref_count - 1;
                    self.segments.insert(i, e);
                    assert(self@.segments =~= segs.update(
                        i as int,
                        CachedSegments {
                            key: segs[i as int].key,
                            paths: segs[i as int].paths,
                            ref_count: (segs[i as int].ref_count - 1) as u32,
                        },
                    ));
                    let r: Vec<String> = Vec::new();
                    assert(views(r@) =~= Seq::<Seq<char>>::empty());
                    r
                }
            },
        }
    }
}

fn segment_key_of(k: &PreviewCacheKey) -> (r: SegmentKey)
    ensures
        r@ == k@.seg,
{
    SegmentKey {
        input_path: owned(k.input_path.as_str()),
        preview_duration: k.preview_duration,
        preview_start_ms: k.preview_start_ms,
        file_signature: k.file_signature,
    }
}

proof fn lemma_release_distinct(segs: Seq<CachedSegments>, k: SegKey)
    requires
        seg_keys_distinct(segs),
    ensures
        seg_keys_distinct(release(segs, k).0),
{
    if has_seg(segs, k) {
        let i = seg_at(segs, k);
        let r = release(segs, k).0;
        if segs[i].ref_count <= 1 {
            assert forall|a: int, b: int| 0 <= a < b < r.len() implies (#[trigger] r[a]).key != (#[trigger] r[b]).key by {
                let a0 = if a < i { a } else { a + 1 };
                let b0 = if b < i { b } else { b + 1 };
                assert(r[a] == segs[a0] && r[b] == segs[b0]);
                assert(segs[a0].key != segs[b0].key);
            }
        } else {
            assert forall|a: int, b: int| 0 <= a < b < r.len() implies (#[trigger] r[a]).key != (#[trigger] r[b]).key by {
                assert(r[a].key == segs[a].key && r[b].key == segs[b].key);
            }
        }
    }
}

impl PreviewCache {
    /// The preview at position `i` leaves the cache.
    fn drop_at(&mut self, i: usize) -> (deleted: Vec<String>)
        requires
            i < old(self)@.lru.len(),
            seg_keys_distinct(old(self)@.segments),
        ensures
            final(self)@ == drop_at(old(self)@, i as int).0,
            views(deleted@) == drop_at(old(self)@, i as int).1,
            seg_keys_distinct(final(self)@.segments),
    {
        let ghost m = self@;
        proof {
            lemma_release_distinct(m.segments, m.lru[i as int].key.seg);
        }
        let e = self.lru.remove(i);
        assert(self@.lru =~= m.lru.remove(i as int));
        let sk = segment_key_of(&e.key);
        let freed = self.release(&sk);
        let mut first: Vec<String> = Vec::new();
        first.push(e.output_path);
        assert(views(first@) =~= seq![m.lru[i as int].output]);
        let deleted = concat_strings(first, freed);
        assert(self@ =~= drop_at(m, i as int).0);
        deleted
    }

    /// Least recently used previews leave until fewer than the limit remain.
    fn make_room(&mut self) -> (deleted: Vec<String>)
        requires
            seg_keys_distinct(old(self)@.segments),
        ensures
            final(self)@ == make_room(old(self)@).0,
            views(deleted@) == make_room(old(self)@).1,
            seg_keys_distinct(final(self)@.segments),
    {
        let mut deleted: Vec<String> = Vec::new();
        assert(views(deleted@) =~= Seq::<Seq<char>>::empty());
        while self.lru.len() >= PREVIEW_CACHE_MAX_ENTRIES
            invariant
                seg_keys_distinct(self@.segments),
                make_room(old(self)@).0 == make_room(self@).0,
                make_room(old(self)@).1 == views(deleted@) + make_room(self@).1,
            decreases self@.lru.len(),
        {
            let ghost cur = self@;
            let d = self.drop_at(0);
            let ghost d1 = views(d@);
            let ghost before = views(deleted@);
            deleted = concat_strings(deleted, d);
            assert(before + (d1 + make_room(self@).1) =~= views(deleted@) + make_room(self@).1);
        }
        assert(views(deleted@) + make_room(self@).1 =~= views(deleted@));
        deleted
    }

    /// A new preview takes a reference to the segments `k`.
    fn acquire(&mut self, k: SegmentKey, paths: Vec<String>) -> (redundant: Vec<String>)
        requires
            seg_keys_distinct(old(self)@.segments),
        ensures
            final(self)@.segments == acquire(old(self)@.segments, k@, views(paths@)).0,
            views(redundant@) == acquire(old(self)@.segments, k@, views(paths@)).1,
            final(self)@.lru == old(self)@.lru,
            final(self)@.estimates == old(self)@.estimates,
    {
        let ghost segs = self@.segments;
        match self.find_seg(&k) {
            Some(i) => {
                proof {
                    lemma_seg_at(segs, i as int);
                }
                let mut e = self.segments.remove(i);
                if e.ref_count < u32::MAX {
                    e.ref_count = e.ref_count + 1;
                }
                let same = same_paths(&paths, &e.segment_paths);
                self.segments.insert(i, e);
                assert(self@.segments =~= acquire(segs, k@, views(paths@)).0);
                if same {
                    let r: Vec<String> = Vec::new();
                    assert(views(r@) =~= Seq::<Seq<char>>::empty());
                    r
                } else {
                    paths
                }
            },
            None => {
                self.segments.push(SegmentEntry { key: k, segment_paths: paths, ref_count: 1 });
                assert(self@.segments =~= acquire(segs, k@, views(paths@)).0);
                let r: Vec<String> = Vec::new();
                assert(views(r@) =~= Seq::<Seq<char>>::empty());
                r
            },
        }
    }
}

proof fn lemma_uses_push(lru: Seq<CachedPreview>, e: CachedPreview, k: SegKey)
    ensures
        uses(lru.push(e), k) == uses(lru, k) + if e.key.seg == k { 1nat } else { 0nat },
{
    assert(lru.push(e).drop_last() =~= lru);
}

proof fn lemma_uses_remove(lru: Seq<CachedPreview>, i: int, k: SegKey)
    requires
        0 <= i < lru.len(),
    ensures
        uses(lru.remove(i), k) + (if lru[i].key.seg == k { 1nat } else { 0nat }) == uses(lru, k),
    decreases lru.len(),
{
    if i == lru.len() - 1 {
        assert(lru.remove(i) =~= lru.drop_last());
    } else {
        lemma_uses_remove(lru.drop_last(), i, k);
        assert(lru.remove(i).drop_last() =~= lru.drop_last().remove(i));
        assert(lru.remove(i).last() == lru.last());
    }
}

proof fn lemma_remove_distinct(lru: Seq<CachedPreview>, i: int)
    requires
        lru_keys_distinct(lru),
        0 <= i < lru.len(),
    ensures
        lru_keys_distinct(lru.remove(i)),
{
    let r = lru.remove(i);
    assert forall|a: int, b: int| 0 <= a < b < r.len() implies (#[trigger] r[a]).key != (#[trigger] r[b]).key by {
        let a0 = if a < i { a } else { a + 1 };
        let b0 = if b < i { b } else { b + 1 };
        assert(r[a] == lru[a0] && r[b] == lru[b0]);
        assert(lru[a0].key != lru[b0].key);
    }
}

/// Dropping a preview keeps the cache well formed.
proof fn lemma_drop_at_wf(m: CacheModel, i: int)
    requires
        model_wf(m),
        0 <= i < m.lru.len(),
    ensures
        model_wf(drop_at(m, i).0),
{
    let k0 = m.lru[i].key.seg;
    let m1 = drop_at(m, i).0;
    lemma_remove_distinct(m.lru, i);
    lemma_release_distinct(m.segments, k0);
    assert forall|j: int| 0 <= j < m1.segments.len() implies seg_counted(#[trigger] m1.segments[j], m1.lru) by {
        let e = m1.segments[j];
        lemma_uses_remove(m.lru, i, e.key);
        if has_seg(m.segments, k0) {
            let s = seg_at(m.segments, k0);
            if m.segments[s].ref_count <= 1 {
                let j0 = if j < s { j } else { j + 1 };
                assert(e == m.segments[j0]);
                assert(seg_counted(m.segments[j0], m.lru));
                assert(m.segments[j0].key != k0) by {
                    if j0 < s {
                        assert(m.segments[j0].key != m.segments[s].key);
                    } else {
                        assert(m.segments[s].key != m.segments[j0].key);
                    }
                }
            } else {
                assert(seg_counted(m.segments[j], m.lru));
                if j != s {
                    assert(m.segments[j].key != k0) by {
                        if j < s {
                            assert(m.segments[j].key != m.segments[s].key);
                        } else {
                            assert(m.segments[s].key != m.segments[j].key);
                        }
                    }
                }
            }
        } else {
            assert(e == m.segments[j]);
            assert(seg_counted(m.segments[j], m.lru));
            assert(e.key != k0);
        }
    }
}

proof fn lemma_make_room_wf(m: CacheModel)
    requires
        model_wf(m),
    ensures
        model_wf(make_room(m).0),
        make_room(m).0.lru.len() < PREVIEW_CACHE_MAX_ENTRIES,
        make_room(m).0.estimates == m.estimates,
    decreases m.lru.len(),
{
    if m.lru.len() >= PREVIEW_CACHE_MAX_ENTRIES && m.lru.len() > 0 {
        lemma_drop_at_wf(m, 0);
        lemma_make_room_wf(drop_at(m, 0).0);
    }
}

proof fn lemma_make_room_keys(m: CacheModel, k: PreviewKey)
    ensures
        has_preview(make_room(m).0.lru, k) ==> has_preview(m.lru, k),
    decreases m.lru.len(),
{
    if m.lru.len() >= PREVIEW_CACHE_MAX_ENTRIES && m.lru.len() > 0 {
        let m1 = drop_at(m, 0).0;
        lemma_make_room_keys(m1, k);
        if has_preview(m1.lru, k) {
            let j = preview_at(m1.lru, k);
            assert(m1.lru[j] == m.lru[j + 1]);
        }
    }
}

proof fn lemma_acquire_wf(m: CacheModel, k: PreviewKey, paths: Seq<Seq<char>>, out: Seq<char>)
    requires
        model_wf(m),
        m.lru.len() < PREVIEW_CACHE_MAX_ENTRIES,
        !has_preview(m.lru, k),
    ensures
        model_wf(
            CacheModel {
                lru: m.lru.push(CachedPreview { key: k, output: out }),
                segments: acquire(m.segments, k.seg, paths).0,
                estimates: m.estimates,
            },
        ),
{
    let e = CachedPreview { key: k, output: out };
    let lru = m.lru.push(e);
    let segs = acquire(m.segments, k.seg, paths).0;
    assert forall|a: int, b: int| 0 <= a < b < lru.len() implies (#[trigger] lru[a]).key != (#[trigger] lru[b]).key by {
        if b == m.lru.len() {
            assert(lru[a] == m.lru[a]);
        } else {
            assert(lru[a] == m.lru[a] && lru[b] == m.lru[b]);
        }
    }
    if has_seg(m.segments, k.seg) {
        let s = seg_at(m.segments, k.seg);
        assert forall|a: int, b: int| 0 <= a < b < segs.len() implies (#[trigger] segs[a]).key != (#[trigger] segs[b]).key by {
            assert(segs[a].key == m.segments[a].key && segs[b].key == m.segments[b].key);
        }
        assert forall|j: int| 0 <= j < segs.len() implies seg_counted(#[trigger] segs[j], lru) by {
            lemma_uses_push(m.lru, e, segs[j].key);
            assert(seg_counted(m.segments[j], m.lru));
        }
    } else {
        assert forall|a: int, b: int| 0 <= a < b < segs.len() implies (#[trigger] segs[a]).key != (#[trigger] segs[b]).key by {
            if b == m.segments.len() {
                assert(segs[a] == m.segments[a]);
            } else {
                assert(segs[a] == m.segments[a] && segs[b] == m.segments[b]);
            }
        }
        assert forall|j: int| 0 <= j < segs.len() implies seg_counted(#[trigger] segs[j], lru) by {
            lemma_uses_push(m.lru, e, segs[j].key);
            if j < m.segments.len() {
                assert(segs[j] == m.segments[j]);
                assert(seg_counted(m.segments[j], m.lru));
            }
        }
    }
}

/// Storing a preview keeps the cache well formed.
proof fn lemma_set_preview_wf(m: CacheModel, k: PreviewKey, paths: Seq<Seq<char>>, out: Seq<char>)
    requires
        model_wf(m),
    ensures
        model_wf(set_preview(m, k, paths, out).0),
{
    let m1 = if has_preview(m.lru, k) {
        drop_at(m, preview_at(m.lru, k)).0
    } else {
        m
    };
    if has_preview(m.lru, k) {
        let i = preview_at(m.lru, k);
        lemma_drop_at_wf(m, i);
        if has_preview(m1.lru, k) {
            let j = preview_at(m1.lru, k);
            let j0 = if j < i { j } else { j + 1 };
            assert(m1.lru[j] == m.lru[j0]);
            if j0 < i {
                assert(m.lru[j0].key != m.lru[i].key);
            } else {
                assert(m.lru[i].key != m.lru[j0].key);
            }
        }
    }
    lemma_make_room_wf(m1);
    lemma_make_room_keys(m1, k);
    lemma_acquire_wf(make_room(m1).0, k, paths, out);
}

/// Looking a preview up keeps the cache well formed.
proof fn lemma_get_preview_wf(m: CacheModel, k: PreviewKey, output_exists: bool, segments_exist: bool)
    requires
        model_wf(m),
    ensures
        model_wf(get_preview(m, k, output_exists, segments_exist).0),
{
    if has_preview(m.lru, k) {
        let i = preview_at(m.lru, k);
        let e = m.lru[i];
        if !output_exists || !has_seg(m.segments, k.seg) || !segments_exist {
            lemma_drop_at_wf(m, i);
        } else {
            let s = seg_at(m.segments, k.seg);
            let r = m.lru.remove(i);
            lemma_remove_distinct(m.lru, i);
            if m.segments[s].paths.len() == 0 {
                assert forall|j: int| 0 <= j < m.segments.len() implies seg_counted(#[trigger] m.segments[j], r) by {
                    assert(seg_counted(m.segments[j], m.lru));
                    lemma_uses_remove(m.lru, i, m.segments[j].key);
                    if j != s {
                        assert(m.segments[j].key != k.seg) by {
                            if j < s {
                                assert(m.segments[j].key != m.segments[s].key);
                            } else {
                                assert(m.segments[s].key != m.segments[j].key);
                            }
                        }
                    }
                }
            } else {
                let lru = r.push(e);
                assert forall|a: int, b: int| 0 <= a < b < lru.len() implies (#[trigger] lru[a]).key != (#[trigger] lru[b]).key by {
                    if b == r.len() {
                        assert(lru[a] == r[a]);
                        let a0 = if a < i { a } else { a + 1 };
                        assert(r[a] == m.lru[a0]);
                        if a0 < i {
                            assert(m.lru[a0].key != m.lru[i].key);
                        } else {
                            assert(m.lru[i].key != m.lru[a0].key);
                        }
                    } else {
                        assert(lru[a] == r[a] && lru[b] == r[b]);
                    }
                }
                assert forall|j: int| 0 <= j < m.segments.len() implies seg_counted(#[trigger] m.segments[j], lru) by {
                    assert(seg_counted(m.segments[j], m.lru));
                    lemma_uses_remove(m.lru, i, m.segments[j].key);
                    lemma_uses_push(r, e, m.segments[j].key);
                }
            }
        }
    }
}

proof fn lemma_get_segments_wf(m: CacheModel, k: SegKey, all_exist: bool)
    requires
        model_wf(m),
    ensures
        model_wf(get_segments(m, k, all_exist).0),
{
    if has_seg(m.segments, k) && !all_exist {
        let i = seg_at(m.segments, k);
        let r = m.segments.remove(i);
        assert forall|a: int, b: int| 0 <= a < b < r.len() implies (#[trigger] r[a]).key != (#[trigger] r[b]).key by {
            let a0 = if a < i { a } else { a + 1 };
            let b0 = if b < i { b } else { b + 1 };
            assert(r[a] == m.segments[a0] && r[b] == m.segments[b0]);
            assert(m.segments[a0].key != m.segments[b0].key);
        }
        assert forall|j: int| 0 <= j < r.len() implies seg_counted(#[trigger] r[j], m.lru) by {
            let j0 = if j < i { j } else { j + 1 };
            assert(r[j] == m.segments[j0]);
            assert(seg_counted(m.segments[j0], m.lru));
        }
    }
}

proof fn lemma_set_estimate_wf(m: CacheModel, k: EstKey, e: EstimateModel)
    requires
        model_wf(m),
    ensures
        model_wf(set_estimate(m, k, e)),
{
    let r = set_estimate(m, k, e).estimates;
    if has_est(m.estimates, k) {
        assert forall|a: int, b: int| 0 <= a < b < r.len() implies (#[trigger] r[a]).key != (#[trigger] r[b]).key by {
            assert(r[a].key == m.estimates[a].key && r[b].key == m.estimates[b].key);
        }
    } else {
        assert forall|a: int, b: int| 0 <= a < b < r.len() implies (#[trigger] r[a]).key != (#[trigger] r[b]).key by {
            if b == m.estimates.len() {
                assert(r[a] == m.estimates[a]);
            } else {
                assert(r[a] == m.estimates[a] && r[b] == m.estimates[b]);
            }
        }
    }
}

pub open spec fn opt_paths(o: Option<Vec<String>>) -> Option<Seq<Seq<char>>> {
    match o {
        Some(v) => Some(views(v@)),
        None => None,
    }
}

pub open spec fn opt_pair(o: Option<(String, String)>) -> Option<(Seq<char>, Seq<char>)> {
    match o {
        Some((a, b)) => Some((a@, b@)),
        None => None,
    }
}

fn make_segment_key(input_path: &str, preview_duration: u32, preview_start_ms: u64, sig: FileSignature) -> (r: SegmentKey)
    ensures
        r@ == seg_key(input_path@, preview_duration, preview_start_ms, sig),
{
    SegmentKey { input_path: owned(input_path), preview_duration, preview_start_ms, file_signature: sig }
}

fn make_preview_key(
    input_path: &str,
    preview_duration: u32,
    preview_start_ms: u64,
    options: &TranscodeOptions,
    sig: FileSignature,
) -> (r: PreviewCacheKey)
    ensures
        r@ == preview_key_of(input_path@, preview_duration, preview_start_ms, *options, sig),
{
    PreviewCacheKey {
        input_path: owned(input_path),
        preview_duration,
        preview_start_ms,
        options_key: options.options_cache_key_for_preview(),
        file_signature: sig,
    }
}

fn make_estimate_key(input_path: &str, preview_duration: u32, options: &TranscodeOptions, sig: FileSignature) -> (r: EstimateKey)
    ensures
        r@ == est_key_of(input_path@, preview_duration, *options, sig),
{
    EstimateKey {
        input_path: owned(input_path),
        preview_duration,
        options_key: options.options_cache_key_for_estimate(),
        file_signature: sig,
    }
}

fn no_paths() -> (r: Vec<String>)
    ensures
        views(r@) == Seq::<Seq<char>>::empty(),
{
    let r: Vec<String> = Vec::new();
    assert(views(r@) =~= Seq::<Seq<char>>::empty());
    r
}

impl PreviewCache {
    /// Stores a preview made from `segment_paths` into `output_path`. Returns
    /// the files no longer needed: the output of an entry of the same key,
    /// the outputs of evicted entries, segments that lost their last
    /// reference, and `segment_paths` themselves when stored segments of the
    /// same input, duration and start are reused. Without a file signature
    /// nothing is stored.
    pub fn set_cached_preview(
        &mut self,
        input_path: &str,
        preview_duration: u32,
        preview_start_ms: u64,
        options: &TranscodeOptions,
        segment_paths: Vec<String>,
        output_path: String,
        file_signature: Option<&FileSignature>,
    ) -> (deleted: Vec<String>)
        requires
            old(self).wf(),
        ensures
            final(self).wf(),
            match file_signature {
                None => final(self)@ == old(self)@ && deleted@.len() == 0,
                Some(sig) => {
                    let r = set_preview(
                        old(self)@,
                        preview_key_of(input_path@, preview_duration, preview_start_ms, *options, *sig),
                        views(segment_paths@),
                        output_path@,
                    );
                    final(self)@ == r.0 && views(deleted@) == r.1
                },
            },
    {
        let sig = match file_signature {
            None => {
                return Vec::new();
            },
            Some(s) => *s,
        };
        let ghost m = self@;
        let key = make_preview_key(input_path, preview_duration, preview_start_ms, options, sig);
        let ghost k = key@;
        proof {
            lemma_set_preview_wf(m, k, views(segment_paths@), output_path@);
        }
        let seg = segment_key_of(&key);
        let d1 = match self.find_preview(&key) {
            Some(i) => {
                proof {
                    lemma_preview_at(m.lru, i as int);
                }
                self.drop_at(i)
            },
            None => no_paths(),
        };
        let d2 = self.make_room();
        let d3 = self.acquire(seg, segment_paths);
        self.lru.push(PreviewEntry { key, output_path });
        let ghost m1 = if has_preview(m.lru, k) {
            drop_at(m, preview_at(m.lru, k)).0
        } else {
            m
        };
        assert(self@.lru =~= make_room(m1).0.lru.push(CachedPreview { key: k, output: output_path@ }));
        assert(self@ =~= set_preview(m, k, views(segment_paths@), output_path@).0);
        let d12 = concat_strings(d1, d2);
        concat_strings(d12, d3)
    }

    /// Looks a preview up; the caller says whether its output file and its
    /// segment files (see `preview_files`) are all present. A hit returns
    /// the first segment path and the output path. Also returns the files no
    /// longer needed.
    pub fn get_cached_preview(
        &mut self,
        input_path: &str,
        preview_duration: u32,
        preview_start_ms: u64,
        options: &TranscodeOptions,
        file_signature: Option<&FileSignature>,
        output_exists: bool,
        segments_exist: bool,
    ) -> (r: (Option<(String, String)>, Vec<String>))
        requires
            old(self).wf(),
        ensures
            final(self).wf(),
            match file_signature {
                None => final(self)@ == old(self)@ && r.0 is None && r.1@.len() == 0,
                Some(sig) => {
                    let g = get_preview(
                        old(self)@,
                        preview_key_of(input_path@, preview_duration, preview_start_ms, *options, *sig),
                        output_exists,
                        segments_exist,
                    );
                    final(self)@ == g.0 && opt_pair(r.0) == g.1 && views(r.1@) == g.2
                },
            },
    {
        let sig = match file_signature {
            None => {
                return (None, Vec::new());
            },
            Some(s) => *s,
        };
        let ghost m = self@;
        let key = make_preview_key(input_path, preview_duration, preview_start_ms, options, sig);
        let ghost k = key@;
        proof {
            lemma_get_preview_wf(m, k, output_exists, segments_exist);
        }
        let i = match self.find_preview(&key) {
            None => {
                return (None, no_paths());
            },
            Some(i) => i,
        };
        proof {
            lemma_preview_at(m.lru, i as int);
        }
        if !output_exists {
            let d = self.drop_at(i);
            return (None, d);
        }
        let seg = segment_key_of(&key);
        let j = match self.find_seg(&seg) {
            None => {
                let d = self.drop_at(i);
                return (None, d);
            },
            Some(j) => j,
        };
        proof {
            lemma_seg_at(m.segments, j as int);
        }
        if !segments_exist {
            let d = self.drop_at(i);
            return (None, d);
        }
        if self.segments[j].segment_paths.len() == 0 {
            self.lru.remove(i);
            assert(self@ =~= get_preview(m, k, output_exists, segments_exist).0);
            return (None, no_paths());
        }
        let first = owned(self.segments[j].segment_paths[0].as_str());
        let e = self.lru.remove(i);
        let out = owned(e.output_path.as_str());
        self.lru.push(e);
        assert(self@ =~= get_preview(m, k, output_exists, segments_exist).0);
        (Some((first, out)), no_paths())
    }

    /// The files of a cached preview, for the caller to check: its output
    /// path and, when its segments are stored, their paths.
    pub fn preview_files(
        &self,
        input_path: &str,
        preview_duration: u32,
        preview_start_ms: u64,
        options: &TranscodeOptions,
        file_signature: Option<&FileSignature>,
    ) -> (r: Option<(String, Option<Vec<String>>)>)
        requires
            self.wf(),
        ensures
            match file_signature {
                None => r is None,
                Some(sig) => {
                    let k = preview_key_of(input_path@, preview_duration, preview_start_ms, *options, *sig);
                    match r {
                        None => !has_preview(self@.lru, k),
                        Some((out, segs)) => {
                            &&& has_preview(self@.lru, k)
                            &&& out@ == self@.lru[preview_at(self@.lru, k)].output
                            &&& opt_paths(segs) == get_segments(self@, k.seg, true).1
                        },
                    }
                },
            },
    {
        let sig = match file_signature {
            None => {
                return None;
            },
            Some(s) => *s,
        };
        let key = make_preview_key(input_path, preview_duration, preview_start_ms, options, sig);
        match self.find_preview(&key) {
            None => None,
            Some(i) => {
                proof {
                    lemma_preview_at(self@.lru, i as int);
                }
                let out = owned(self.lru[i].output_path.as_str());
                let seg = segment_key_of(&key);
                let segs = match self.find_seg(&seg) {
                    None => None,
                    Some(j) => {
                        proof {
                            lemma_seg_at(self@.segments, j as int);
                        }
                        Some(clone_paths(&self.segments[j].segment_paths))
                    },
                };
                Some((out, segs))
            },
        }
    }

    /// The stored segment paths of an input, duration and start, for the
    /// caller to check.
    pub fn segment_files(
        &self,
        input_path: &str,
        preview_duration: u32,
        preview_start_ms: u64,
        file_signature: Option<&FileSignature>,
    ) -> (r: Option<Vec<String>>)
        requires
            self.wf(),
        ensures
            match file_signature {
                None => r is None,
                Some(sig) => opt_paths(r) == get_segments(
                    self@,
                    seg_key(input_path@, preview_duration, preview_start_ms, *sig),
                    true,
                ).1,
            },
    {
        let sig = match file_signature {
            None => {
                return None;
            },
            Some(s) => *s,
        };
        let seg = make_segment_key(input_path, preview_duration, preview_start_ms, sig);
        match self.find_seg(&seg) {
            None => None,
            Some(j) => {
                proof {
                    lemma_seg_at(self@.segments, j as int);
                }
                Some(clone_paths(&self.segments[j].segment_paths))
            },
        }
    }

    /// Cached segments of an input, duration and start, to reuse the
    /// extraction when only the options change; the caller says whether the
    /// files (see `segment_files`) are all present.
    pub fn get_cached_segments(
        &mut self,
        input_path: &str,
        preview_duration: u32,
        preview_start_ms: u64,
        file_signature: Option<&FileSignature>,
        all_exist: bool,
    ) -> (r: Option<Vec<String>>)
        requires
            old(self).wf(),
        ensures
            final(self).wf(),
            match file_signature {
                None => final(self)@ == old(self)@ && r is None,
                Some(sig) => {
                    let g = get_segments(
                        old(self)@,
                        seg_key(input_path@, preview_duration, preview_start_ms, *sig),
                        all_exist,
                    );
                    final(self)@ == g.0 && opt_paths(r) == g.1
                },
            },
    {
        let sig = match file_signature {
            None => {
                return None;
            },
            Some(s) => *s,
        };
        let ghost m = self@;
        let seg = make_segment_key(input_path, preview_duration, preview_start_ms, sig);
        proof {
            lemma_get_segments_wf(m, seg@, all_exist);
        }
        match self.find_seg(&seg) {
            None => None,
            Some(j) => {
                proof {
                    lemma_seg_at(m.segments, j as int);
                }
                if all_exist {
                    Some(clone_paths(&self.segments[j].segment_paths))
                } else {
                    self.segments.remove(j);
                    assert(self@ =~= get_segments(m, seg@, all_exist).0);
                    None
                }
            },
        }
    }

    /// Cached size estimate for an input, duration and options.
    pub fn get_cached_estimate(
        &self,
        input_path: &str,
        preview_duration: u32,
        options: &TranscodeOptions,
        file_signature: Option<&FileSignature>,
    ) -> (r: Option<SizeEstimate>)
        requires
            self.wf(),
        ensures
            match file_signature {
                None => r is None,
                Some(sig) => {
                    let g = get_estimate(self@, est_key_of(input_path@, preview_duration, *options, *sig));
                    match r {
                        Some(e) => g == Some(e@),
                        None => g is None,
                    }
                },
            },
    {
        let sig = match file_signature {
            None => {
                return None;
            },
            Some(s) => *s,
        };
        let key = make_estimate_key(input_path, preview_duration, options, sig);
        match self.find_est(&key) {
            None => None,
            Some(i) => {
                proof {
                    lemma_est_at(self@.estimates, i as int);
                }
                Some(self.estimates[i].estimate.duplicate())
            },
        }
    }

    /// Stores a size estimate for an input, duration and options (replacing
    /// an earlier one). Without a file signature nothing is stored.
    pub fn set_cached_estimate(
        &mut self,
        input_path: &str,
        preview_duration: u32,
        options: &TranscodeOptions,
        estimate: SizeEstimate,
        file_signature: Option<&FileSignature>,
    )
        requires
            old(self).wf(),
        ensures
            final(self).wf(),
            final(self)@ == match file_signature {
                None => old(self)@,
                Some(sig) => set_estimate(
                    old(self)@,
                    est_key_of(input_path@, preview_duration, *options, *sig),
                    estimate@,
                ),
            },
    {
        let sig = match file_signature {
            None => {
                return ;
            },
            Some(s) => *s,
        };
        let ghost m = self@;
        let ghost ev = estimate@;
        let key = make_estimate_key(input_path, preview_duration, options, sig);
        let ghost k = key@;
        proof {
            lemma_set_estimate_wf(m, k, ev);
        }
        match self.find_est(&key) {
            None => {
                self.estimates.push(EstimateEntry { key, estimate });
            },
            Some(i) => {
                proof {
                    lemma_est_at(m.estimates, i as int);
                }
                self.estimates.remove(i);
                self.estimates.insert(i, EstimateEntry { key, estimate });
            },
        }
        assert(self@ =~= set_estimate(m, k, ev));
    }

    /// Every path the cache holds: segment paths, then preview outputs.
    /// The caller keeps those of them that exist.
    pub fn get_all_cached_paths(&self) -> (r: Vec<String>)
        ensures
            views(r@) == segment_paths(self@.segments) + outputs(self@.lru),
    {
        let mut r: Vec<String> = Vec::new();
        let mut i: usize = 0;
        while i < self.segments.len()
            invariant
                i <= self.segments.len(),
                views(r@) == segment_paths(self@.segments.take(i as int)),
            decreases self.segments.len() - i,
        {
            let p = clone_paths(&self.segments[i].segment_paths);
            r = concat_strings(r, p);
            assert(self@.segments.take(i + 1).drop_last() =~= self@.segments.take(i as int));
            i = i + 1;
        }
        assert(self@.segments.take(self.segments.len() as int) =~= self@.segments);
        let mut j: usize = 0;
        while j < self.lru.len()
            invariant
                j <= self.lru.len(),
                views(r@) == segment_paths(self@.segments) + outputs(self@.lru.take(j as int)),
            decreases self.lru.len() - j,
        {
            let ghost before = r@;
            let o = owned(self.lru[j].output_path.as_str());
            r.push(o);
            assert(r@ =~= before.push(o));
            assert(views(r@) =~= views(before).push(o@));
            assert(outputs(self@.lru.take(j + 1)) =~= outputs(self@.lru.take(j as int)).push(o@));
            j = j + 1;
        }
        assert(self@.lru.take(self.lru.len() as int) =~= self@.lru);
        r
    }

    /// Empties the cache; returns every file it held: preview outputs, then
    /// segment paths.
    pub fn cleanup_preview_transcode_cache(&mut self) -> (deleted: Vec<String>)
        ensures
            final(self).wf(),
            final(self)@ == empty_model(),
            views(deleted@) == outputs(old(self)@.lru) + segment_paths(old(self)@.segments),
    {
        let ghost m = self@;
        let mut outs: Vec<String> = Vec::new();
        let mut j: usize = 0;
        while j < self.lru.len()
            invariant
                self@ == m,
                j <= self.lru.len(),
                views(outs@) == outputs(m.lru.take(j as int)),
            decreases self.lru.len() - j,
        {
            let ghost before = outs@;
            let o = owned(self.lru[j].output_path.as_str());
            outs.push(o);
            assert(outs@ =~= before.push(o));
            assert(views(outs@) =~= views(before).push(o@));
            assert(outputs(m.lru.take(j + 1)) =~= outputs(m.lru.take(j as int)).push(o@));
            j = j + 1;
        }
        assert(m.lru.take(self.lru.len() as int) =~= m.lru);
        let mut segs: Vec<String> = Vec::new();
        let mut i: usize = 0;
        while i < self.segments.len()
            invariant
                self@ == m,
                i <= self.segments.len(),
                views(segs@) == segment_paths(m.segments.take(i as int)),
            decreases self.segments.len() - i,
        {
            let p = clone_paths(&self.segments[i].segment_paths);
            segs = concat_strings(segs, p);
            assert(m.segments.take(i + 1).drop_last() =~= m.segments.take(i as int));
            i = i + 1;
        }
        assert(m.segments.take(self.segments.len() as int) =~= m.segments);
        self.lru = Vec::new();
        self.segments = Vec::new();
        self.estimates = Vec::new();
        assert(self@ =~= empty_model());
        concat_strings(outs, segs)
    }
}

proof fn lemma_release_keys(segs: Seq<CachedSegments>, k0: SegKey, k: SegKey)
    ensures
        has_seg(release(segs, k0).0, k) ==> has_seg(segs, k),
{
    let r = release(segs, k0).0;
    if has_seg(r, k) && has_seg(segs, k0) {
        let i = seg_at(segs, k0);
        let j = seg_at(r, k);
        if segs[i].ref_count <= 1 {
            let j0 = if j < i { j } else { j + 1 };
            assert(r[j] == segs[j0]);
        } else {
            assert(r[j].key == segs[j].key);
        }
    }
}

proof fn lemma_make_room_seg_keys(m: CacheModel, k: SegKey)
    ensures
        has_seg(make_room(m).0.segments, k) ==> has_seg(m.segments, k),
    decreases m.lru.len(),
{
    if m.lru.len() >= PREVIEW_CACHE_MAX_ENTRIES && m.lru.len() > 0 {
        lemma_make_room_seg_keys(drop_at(m, 0).0, k);
        lemma_release_keys(m.segments, m.lru[0].key.seg, k);
    }
}

/// A stored preview is found again: looking it up with its files present
/// returns its output and the first path of the segments stored for it,
/// which are the given segment paths unless segments of the same input,
/// duration and start were already stored.
pub proof fn set_then_get_preview(m: CacheModel, k: PreviewKey, paths: Seq<Seq<char>>, out: Seq<char>)
    requires
        model_wf(m),
    ensures
        ({
            let m1 = set_preview(m, k, paths, out).0;
            &&& has_seg(m1.segments, k.seg)
            &&& !has_seg(m.segments, k.seg) ==> m1.segments[seg_at(m1.segments, k.seg)].paths == paths
            &&& m1.segments[seg_at(m1.segments, k.seg)].paths.len() > 0 ==> get_preview(m1, k, true, true).1
                == Some((m1.segments[seg_at(m1.segments, k.seg)].paths[0], out))
        }),
{
    let m1 = if has_preview(m.lru, k) {
        drop_at(m, preview_at(m.lru, k)).0
    } else {
        m
    };
    let m2 = make_room(m1).0;
    let r = set_preview(m, k, paths, out).0;
    lemma_set_preview_wf(m, k, paths, out);
    let last = r.lru.len() - 1;
    lemma_preview_at(r.lru, last);
    assert(r.lru[last].key == k);
    if has_seg(m2.segments, k.seg) {
        let i = seg_at(m2.segments, k.seg);
        assert(r.segments[i].key == k.seg);
        lemma_seg_at(r.segments, i);
        if !has_seg(m.segments, k.seg) {
            lemma_make_room_seg_keys(m1, k.seg);
            if has_preview(m.lru, k) {
                lemma_release_keys(m.segments, m.lru[preview_at(m.lru, k)].key.seg, k.seg);
            }
        }
    } else {
        let i = m2.segments.len() as int;
        assert(r.segments[i].key == k.seg);
        lemma_seg_at(r.segments, i);
    }
}

/// Stored segments are found again: after a preview is stored, looking its
/// segments up (with their files present) returns the segments stored for it,
/// which are the given paths unless segments of the same input, duration and
/// start were already stored.
pub proof fn set_then_get_segments(m: CacheModel, k: PreviewKey, paths: Seq<Seq<char>>, out: Seq<char>)
    requires
        model_wf(m),
    ensures
        ({
            let m1 = set_preview(m, k, paths, out).0;
            &&& get_segments(m1, k.seg, true) == (m1, Some(m1.segments[seg_at(m1.segments, k.seg)].paths))
            &&& !has_seg(m.segments, k.seg) ==> get_segments(m1, k.seg, true).1 == Some(paths)
        }),
{
    set_then_get_preview(m, k, paths, out);
}

/// Segments extracted again for segments already stored are redundant:
/// storing a new preview (in a cache with room) whose segments are stored
/// under other paths keeps the stored ones and deletes exactly the given
/// paths.
pub proof fn redundant_segments_are_deleted(m: CacheModel, k: PreviewKey, paths: Seq<Seq<char>>, out: Seq<char>)
    requires
        model_wf(m),
        !has_preview(m.lru, k),
        m.lru.len() < PREVIEW_CACHE_MAX_ENTRIES,
        has_seg(m.segments, k.seg),
        m.segments[seg_at(m.segments, k.seg)].paths != paths,
    ensures
        set_preview(m, k, paths, out).1 == paths,
        ({
            let m1 = set_preview(m, k, paths, out).0;
            m1.segments[seg_at(m1.segments, k.seg)].paths == m.segments[seg_at(m.segments, k.seg)].paths
        }),
{
    assert(make_room(m) == (m, Seq::<Seq<char>>::empty()));
    let i = seg_at(m.segments, k.seg);
    let r = set_preview(m, k, paths, out);
    assert(Seq::<Seq<char>>::empty() + Seq::<Seq<char>>::empty() + paths =~= paths);
    lemma_set_preview_wf(m, k, paths, out);
    assert(r.0.segments[i].key == k.seg);
    lemma_seg_at(r.0.segments, i);
}

/// Every path `get_all_cached_paths` lists is one the cache holds, as a
/// segment path or a preview output, and every one it holds is listed.
pub proof fn cached_paths_are_registered(m: CacheModel, p: Seq<char>)
    ensures
        (segment_paths(m.segments) + outputs(m.lru)).contains(p) <==> ((exists|i: int, j: int|
            0 <= i < m.segments.len() && 0 <= j < m.segments[i].paths.len() && #[trigger] m.segments[i].paths[j]
                == p) || (exists|i: int| 0 <= i < m.lru.len() && #[trigger] m.lru[i].output == p)),
{
    lemma_segment_paths_contains(m.segments, p);
    let a = segment_paths(m.segments);
    let o = outputs(m.lru);
    if (a + o).contains(p) {
        let x = choose|x: int| 0 <= x < (a + o).len() && (a + o)[x] == p;
        if x < a.len() {
            assert(a[x] == p);
        } else {
            assert(o[x - a.len()] == p);
            assert(m.lru[x - a.len()].output == p);
        }
    }
    if exists|i: int| 0 <= i < m.lru.len() && #[trigger] m.lru[i].output == p {
        let i = choose|i: int| 0 <= i < m.lru.len() && #[trigger] m.lru[i].output == p;
        assert((a + o)[a.len() + i] == p);
    }
    if a.contains(p) {
        let x = choose|x: int| 0 <= x < a.len() && a[x] == p;
        assert((a + o)[x] == p);
    }
}

proof fn lemma_segment_paths_contains(segs: Seq<CachedSegments>, p: Seq<char>)
    ensures
        segment_paths(segs).contains(p) <==> exists|i: int, j: int|
            0 <= i < segs.len() && 0 <= j < segs[i].paths.len() && #[trigger] segs[i].paths[j] == p,
    decreases segs.len(),
{
    if segs.len() > 0 {
        let d = segs.drop_last();
        let l = segs.last();
        lemma_segment_paths_contains(d, p);
        let a = segment_paths(d);
        assert(segment_paths(segs) == a + l.paths);
        if segment_paths(segs).contains(p) {
            let x = choose|x: int| 0 <= x < (a + l.paths).len() && (a + l.paths)[x] == p;
            if x < a.len() {
                assert(a[x] == p);
                let (i, j) = choose|i: int, j: int|
                    0 <= i < d.len() && 0 <= j < d[i].paths.len() && #[trigger] d[i].paths[j] == p;
                assert(segs[i] == d[i]);
                assert(segs[i].paths[j] == p);
            } else {
                assert(l.paths[x - a.len()] == p);
                assert(segs[segs.len() - 1].paths[x - a.len()] == p);
            }
        }
        if exists|i: int, j: int| 0 <= i < segs.len() && 0 <= j < segs[i].paths.len() && #[trigger] segs[i].paths[j] == p {
            let (i, j) = choose|i: int, j: int|
                0 <= i < segs.len() && 0 <= j < segs[i].paths.len() && #[trigger] segs[i].paths[j] == p;
            if i < d.len() {
                assert(d[i] == segs[i]);
                assert(d[i].paths[j] == p);
                let x = choose|x: int| 0 <= x < a.len() && a[x] == p;
                assert((a + l.paths)[x] == p);
            } else {
                assert((a + l.paths)[a.len() + j] == p);
            }
        }
    }
}

/// A segment set held by exactly as many references as previews use it, and
/// with at least one path.
pub open spec fn seg_exact(e: CachedSegments, lru: Seq<CachedPreview>) -> bool {
    e.ref_count == uses(lru, e.key) && e.paths.len() > 0
}

/// Reference counts are exact: every stored segment set is counted exactly
/// and not empty, and every cached preview's segments are stored. Storing
/// and looking up previews keep this; looking up segments whose files are
/// gone forgets them while previews may still name them, and then counts
/// only bound the uses (`seg_counted`).
pub open spec fn counts_exact(m: CacheModel) -> bool {
    &&& forall|i: int| 0 <= i < m.segments.len() ==> seg_exact(#[trigger] m.segments[i], m.lru)
    &&& forall|j: int| 0 <= j < m.lru.len() ==> has_seg(m.segments, (#[trigger] m.lru[j]).key.seg)
}

proof fn lemma_uses_bound(lru: Seq<CachedPreview>, k: SegKey)
    ensures
        uses(lru, k) <= lru.len(),
        uses(lru, k) > 0 ==> exists|j: int| 0 <= j < lru.len() && (#[trigger] lru[j]).key.seg == k,
    decreases lru.len(),
{
    if lru.len() > 0 {
        lemma_uses_bound(lru.drop_last(), k);
        if uses(lru.drop_last(), k) > 0 {
            let j = choose|j: int| 0 <= j < lru.drop_last().len() && (#[trigger] lru.drop_last()[j]).key.seg == k;
            assert(lru[j] == lru.drop_last()[j]);
        } else if uses(lru, k) > 0 {
            assert(lru[lru.len() - 1].key.seg == k);
        }
    }
}

proof fn lemma_uses_pos(lru: Seq<CachedPreview>, j: int)
    requires
        0 <= j < lru.len(),
    ensures
        uses(lru, lru[j].key.seg) >= 1,
{
    lemma_uses_remove(lru, j, lru[j].key.seg);
}

proof fn lemma_seg_index_distinct(segs: Seq<CachedSegments>, a: int, b: int)
    requires
        seg_keys_distinct(segs),
        0 <= a < segs.len(),
        0 <= b < segs.len(),
        a != b,
    ensures
        segs[a].key != segs[b].key,
{
    if a < b {
        assert(segs[a].key != segs[b].key);
    } else {
        assert(segs[b].key != segs[a].key);
    }
}

proof fn lemma_drop_at_exact(m: CacheModel, i: int)
    requires
        model_wf(m),
        counts_exact(m),
        0 <= i < m.lru.len(),
    ensures
        counts_exact(drop_at(m, i).0),
{
    let k0 = m.lru[i].key.seg;
    let m1 = drop_at(m, i).0;
    assert(has_seg(m.segments, m.lru[i].key.seg));
    let s = seg_at(m.segments, k0);
    assert(seg_exact(m.segments[s], m.lru));
    lemma_uses_pos(m.lru, i);
    lemma_uses_remove(m.lru, i, k0);
    if m.segments[s].ref_count <= 1 {
        assert(uses(m1.lru, k0) == 0);
        assert forall|j: int| 0 <= j < m1.segments.len() implies seg_exact(#[trigger] m1.segments[j], m1.lru) by {
            let j0 = if j < s { j } else { j + 1 };
            assert(m1.segments[j] == m.segments[j0]);
            assert(seg_exact(m.segments[j0], m.lru));
            lemma_seg_index_distinct(m.segments, j0, s);
            lemma_uses_remove(m.lru, i, m.segments[j0].key);
        }
        assert forall|j: int| 0 <= j < m1.lru.len() implies has_seg(m1.segments, (#[trigger] m1.lru[j]).key.seg) by {
            let ks = m1.lru[j].key.seg;
            lemma_uses_pos(m1.lru, j);
            let j1 = if j < i { j } else { j + 1 };
            assert(m1.lru[j] == m.lru[j1]);
            assert(has_seg(m.segments, m.lru[j1].key.seg));
            let t = seg_at(m.segments, ks);
            assert(t != s);
            let t1 = if t < s { t } else { t - 1 };
            assert(m1.segments[t1] == m.segments[t]);
        }
    } else {
        assert forall|j: int| 0 <= j < m1.segments.len() implies seg_exact(#[trigger] m1.segments[j], m1.lru) by {
            assert(seg_exact(m.segments[j], m.lru));
            if j != s {
                lemma_seg_index_distinct(m.segments, j, s);
                lemma_uses_remove(m.lru, i, m.segments[j].key);
            }
        }
        assert forall|j: int| 0 <= j < m1.lru.len() implies has_seg(m1.segments, (#[trigger] m1.lru[j]).key.seg) by {
            let ks = m1.lru[j].key.seg;
            let j1 = if j < i { j } else { j + 1 };
            assert(m1.lru[j] == m.lru[j1]);
            assert(has_seg(m.segments, m.lru[j1].key.seg));
            let t = seg_at(m.segments, ks);
            assert(m1.segments[t].key == ks);
        }
    }
}

proof fn lemma_make_room_exact(m: CacheModel)
    requires
        model_wf(m),
        counts_exact(m),
    ensures
        counts_exact(make_room(m).0),
    decreases m.lru.len(),
{
    if m.lru.len() >= PREVIEW_CACHE_MAX_ENTRIES && m.lru.len() > 0 {
        lemma_drop_at_exact(m, 0);
        lemma_drop_at_wf(m, 0);
        lemma_make_room_exact(drop_at(m, 0).0);
    }
}

proof fn lemma_acquire_exact(m: CacheModel, k: PreviewKey, paths: Seq<Seq<char>>, out: Seq<char>)
    requires
        model_wf(m),
        counts_exact(m),
        m.lru.len() < PREVIEW_CACHE_MAX_ENTRIES,
        paths.len() > 0,
    ensures
        counts_exact(
            CacheModel {
                lru: m.lru.push(CachedPreview { key: k, output: out }),
                segments: acquire(m.segments, k.seg, paths).0,
                estimates: m.estimates,
            },
        ),
{
    let e = CachedPreview { key: k, output: out };
    let lru = m.lru.push(e);
    let segs = acquire(m.segments, k.seg, paths).0;
    if has_seg(m.segments, k.seg) {
        let s = seg_at(m.segments, k.seg);
        assert(seg_exact(m.segments[s], m.lru));
        lemma_uses_bound(m.lru, k.seg);
        assert forall|j: int| 0 <= j < segs.len() implies seg_exact(#[trigger] segs[j], lru) by {
            assert(seg_exact(m.segments[j], m.lru));
            lemma_uses_push(m.lru, e, m.segments[j].key);
        }
        assert forall|j: int| 0 <= j < lru.len() implies has_seg(segs, (#[trigger] lru[j]).key.seg) by {
            if j < m.lru.len() {
                assert(lru[j] == m.lru[j]);
                assert(has_seg(m.segments, m.lru[j].key.seg));
                let t = seg_at(m.segments, lru[j].key.seg);
                assert(segs[t].key == m.segments[t].key);
            } else {
                assert(segs[s].key == k.seg);
            }
        }
    } else {
        lemma_uses_bound(m.lru, k.seg);
        if uses(m.lru, k.seg) > 0 {
            let j = choose|j: int| 0 <= j < m.lru.len() && (#[trigger] m.lru[j]).key.seg == k.seg;
            assert(has_seg(m.segments, m.lru[j].key.seg));
        }
        assert forall|j: int| 0 <= j < segs.len() implies seg_exact(#[trigger] segs[j], lru) by {
            lemma_uses_push(m.lru, e, segs[j].key);
            if j < m.segments.len() {
                assert(segs[j] == m.segments[j]);
                assert(seg_exact(m.segments[j], m.lru));
                assert(m.segments[j].key != k.seg);
            }
        }
        assert forall|j: int| 0 <= j < lru.len() implies has_seg(segs, (#[trigger] lru[j]).key.seg) by {
            if j < m.lru.len() {
                assert(lru[j] == m.lru[j]);
                assert(has_seg(m.segments, m.lru[j].key.seg));
                let t = seg_at(m.segments, lru[j].key.seg);
                assert(segs[t] == m.segments[t]);
            } else {
                assert(segs[m.segments.len() as int].key == k.seg);
            }
        }
    }
}

/// Segments are kept exactly as long as a preview uses them. A new cache has
/// exact counts; in a cache whose counts are exact, a segment set is stored if and only if some cached
/// preview uses it; storing a preview (with at least one segment path) and
/// looking one up keep the counts exact, so a set's files are given up for
/// deletion exactly when the last preview using them leaves.
pub proof fn segments_kept_while_used(
    m: CacheModel,
    k: PreviewKey,
    paths: Seq<Seq<char>>,
    out: Seq<char>,
    output_exists: bool,
    segments_exist: bool,
    sk: SegKey,
)
    requires
        model_wf(m),
        counts_exact(m),
        paths.len() > 0,
    ensures
        counts_exact(empty_model()),
        has_seg(m.segments, sk) <==> uses(m.lru, sk) > 0,
        counts_exact(set_preview(m, k, paths, out).0),
        counts_exact(get_preview(m, k, output_exists, segments_exist).0),
        counts_exact(get_segments(m, sk, true).0),
{
    if has_seg(m.segments, sk) {
        assert(seg_exact(m.segments[seg_at(m.segments, sk)], m.lru));
        assert(seg_counted(m.segments[seg_at(m.segments, sk)], m.lru));
    }
    lemma_uses_bound(m.lru, sk);
    if uses(m.lru, sk) > 0 {
        let j = choose|j: int| 0 <= j < m.lru.len() && (#[trigger] m.lru[j]).key.seg == sk;
        assert(has_seg(m.segments, m.lru[j].key.seg));
    }
    // storing
    let m1 = if has_preview(m.lru, k) {
        drop_at(m, preview_at(m.lru, k)).0
    } else {
        m
    };
    if has_preview(m.lru, k) {
        let i = preview_at(m.lru, k);
        lemma_drop_at_wf(m, i);
        lemma_drop_at_exact(m, i);
    }
    lemma_make_room_wf(m1);
    lemma_make_room_exact(m1);
    lemma_acquire_exact(make_room(m1).0, k, paths, out);
    // looking up
    if has_preview(m.lru, k) {
        let i = preview_at(m.lru, k);
        let e = m.lru[i];
        if !output_exists || !has_seg(m.segments, k.seg) || !segments_exist {
            lemma_drop_at_exact(m, i);
        } else {
            let s = seg_at(m.segments, k.seg);
            assert(seg_exact(m.segments[s], m.lru));
            let r = m.lru.remove(i);
            let lru = r.push(e);
            let m2 = get_preview(m, k, output_exists, segments_exist).0;
            assert(m2.lru == lru);
            assert forall|j: int| 0 <= j < m.segments.len() implies seg_exact(#[trigger] m.segments[j], lru) by {
                assert(seg_exact(m.segments[j], m.lru));
                lemma_uses_remove(m.lru, i, m.segments[j].key);
                lemma_uses_push(r, e, m.segments[j].key);
            }
            assert forall|j: int| 0 <= j < lru.len() implies has_seg(m.segments, (#[trigger] lru[j]).key.seg) by {
                if j < r.len() {
                    let j1 = if j < i { j } else { j + 1 };
                    assert(lru[j] == m.lru[j1]);
                } else {
                    assert(lru[j] == m.lru[i]);
                }
            }
        }
    }
}

proof fn lemma_drop_at_keys(m: CacheModel, i: int, k: PreviewKey)
    requires
        0 <= i < m.lru.len(),
    ensures
        has_preview(drop_at(m, i).0.lru, k) ==> has_preview(m.lru, k),
{
    let r = drop_at(m, i).0.lru;
    if has_preview(r, k) {
        let j = preview_at(r, k);
        let j0 = if j < i { j } else { j + 1 };
        assert(r[j] == m.lru[j0]);
    }
}

/// Storing a preview makes no other key a hit: a key that was not cached
/// before, and differs from the stored one (in input, duration, start,
/// options or file signature), still misses afterwards.
pub proof fn other_keys_still_miss(
    m: CacheModel,
    k: PreviewKey,
    paths: Seq<Seq<char>>,
    out: Seq<char>,
    k2: PreviewKey,
    output_exists: bool,
    segments_exist: bool,
)
    requires
        k2 != k,
        !has_preview(m.lru, k2),
    ensures
        !has_preview(set_preview(m, k, paths, out).0.lru, k2),
        get_preview(set_preview(m, k, paths, out).0, k2, output_exists, segments_exist).1 is None,
{
    let m1 = if has_preview(m.lru, k) {
        drop_at(m, preview_at(m.lru, k)).0
    } else {
        m
    };
    if has_preview(m.lru, k) {
        lemma_drop_at_keys(m, preview_at(m.lru, k), k2);
    }
    lemma_make_room_keys(m1, k2);
    let m2 = make_room(m1).0;
    let lru = set_preview(m, k, paths, out).0.lru;
    if has_preview(lru, k2) {
        let j = preview_at(lru, k2);
        if j < m2.lru.len() {
            assert(lru[j] == m2.lru[j]);
        }
    }
}

/// Storing a preview stores no segments under another key: segments of
/// another input, duration, start or file signature that were not stored
/// before are still not found.
pub proof fn other_segments_still_miss(m: CacheModel, k: PreviewKey, paths: Seq<Seq<char>>, out: Seq<char>, sk: SegKey)
    requires
        sk != k.seg,
        !has_seg(m.segments, sk),
    ensures
        get_segments(set_preview(m, k, paths, out).0, sk, true).1 is None,
{
    let m1 = if has_preview(m.lru, k) {
        drop_at(m, preview_at(m.lru, k)).0
    } else {
        m
    };
    if has_preview(m.lru, k) {
        lemma_release_keys(m.segments, m.lru[preview_at(m.lru, k)].key.seg, sk);
    }
    lemma_make_room_seg_keys(m1, sk);
    let m2 = make_room(m1).0;
    let segs = set_preview(m, k, paths, out).0.segments;
    if has_seg(segs, sk) {
        let j = seg_at(segs, sk);
        if has_seg(m2.segments, k.seg) {
            assert(segs[j].key == m2.segments[j].key);
        } else if j < m2.segments.len() {
            assert(segs[j] == m2.segments[j]);
        }
    }
}

/// Storing an estimate leaves every other key as it was; in particular an
/// estimate stored for one output format is not found for another.
pub proof fn other_estimates_unchanged(m: CacheModel, k: EstKey, e: EstimateModel, k2: EstKey)
    requires
        model_wf(m),
        k2 != k,
    ensures
        get_estimate(set_estimate(m, k, e), k2) == get_estimate(m, k2),
{
    let m1 = set_estimate(m, k, e);
    lemma_set_estimate_wf(m, k, e);
    if has_est(m.estimates, k2) {
        let i = est_at(m.estimates, k2);
        assert(m1.estimates[i] == m.estimates[i]) by {
            if has_est(m.estimates, k) {
                let t = est_at(m.estimates, k);
                assert(t != i);
            }
        }
        lemma_est_at(m1.estimates, i);
    }
    if has_est(m1.estimates, k2) {
        let i = est_at(m1.estimates, k2);
        if i < m.estimates.len() {
            assert(m1.estimates[i].key == m.estimates[i].key || m1.estimates[i].key == k);
        }
    }
}

/// Options that differ only in output format key different estimates.
pub proof fn estimate_keys_separate_formats(
    input: Seq<char>,
    duration: u32,
    a: TranscodeOptions,
    b: TranscodeOptions,
    sig: FileSignature,
)
    requires
        key_common(a) == key_common(b),
        eff_output_format(a) != eff_output_format(b),
    ensures
        est_key_of(input, duration, a, sig) != est_key_of(input, duration, b, sig),
{
    estimate_key_separates_output_formats(a, b);
}

/// A lookup hit makes the preview the most recently used: afterwards it is
/// the last entry of the LRU order, the other previews keep their order, and
/// so the next eviction takes the oldest of the others.
pub proof fn hit_becomes_most_recent(m: CacheModel, k: PreviewKey)
    requires
        model_wf(m),
        get_preview(m, k, true, true).1 is Some,
    ensures
        ({
            let m1 = get_preview(m, k, true, true).0;
            &&& has_preview(m.lru, k)
            &&& m1.lru.len() == m.lru.len()
            &&& m1.lru.last().key == k
            &&& m1.lru.last() == m.lru[preview_at(m.lru, k)]
            &&& m1.lru.drop_last() == m.lru.remove(preview_at(m.lru, k))
            &&& m.lru.len() >= 2 ==> m1.lru[0] == if m.lru[0].key == k {
                m.lru[1]
            } else {
                m.lru[0]
            }
        }),
{
    let i = preview_at(m.lru, k);
    let m1 = get_preview(m, k, true, true).0;
    assert(m1.lru.drop_last() =~= m.lru.remove(i));
    if m.lru.len() >= 2 {
        if m.lru[0].key == k {
            lemma_preview_at(m.lru, 0);
            assert(i == 0);
            assert(m1.lru[0] == m.lru.remove(0)[0]);
        } else {
            assert(i != 0);
            assert(m1.lru[0] == m.lru.remove(i)[0]);
        }
    }
}

/// The least recently used preview is the one evicted: storing a new key in
/// a full cache deletes the oldest preview's output first and forgets it.
pub proof fn full_cache_evicts_oldest(m: CacheModel, k: PreviewKey, paths: Seq<Seq<char>>, out: Seq<char>)
    requires
        model_wf(m),
        m.lru.len() == PREVIEW_CACHE_MAX_ENTRIES,
        !has_preview(m.lru, k),
    ensures
        set_preview(m, k, paths, out).1[0] == m.lru[0].output,
        !has_preview(set_preview(m, k, paths, out).0.lru, m.lru[0].key),
{
    let m1 = drop_at(m, 0).0;
    lemma_drop_at_wf(m, 0);
    assert(m1.lru.len() < PREVIEW_CACHE_MAX_ENTRIES);
    assert(make_room(m) == (make_room(m1).0, drop_at(m, 0).1 + make_room(m1).1));
    assert(make_room(m1) == (m1, Seq::<Seq<char>>::empty()));
    let r = set_preview(m, k, paths, out);
    assert(r.1[0] == drop_at(m, 0).1[0]);
    let old_key = m.lru[0].key;
    if has_preview(r.0.lru, old_key) {
        let j = preview_at(r.0.lru, old_key);
        if j < m1.lru.len() {
            assert(r.0.lru[j] == m.lru[j + 1]);
            assert(m.lru[0].key != m.lru[j + 1].key);
        } else {
            assert(r.0.lru[j].key == k);
            assert(m.lru[0].key == m.lru[0].key);
            assert(has_preview(m.lru, k));
        }
    }
}

/// A stored estimate is read back.
pub proof fn set_then_get_estimate(m: CacheModel, k: EstKey, e: EstimateModel)
    requires
        model_wf(m),
    ensures
        get_estimate(set_estimate(m, k, e), k) == Some(e),
{
    let r = set_estimate(m, k, e);
    lemma_set_estimate_wf(m, k, e);
    if has_est(m.estimates, k) {
        let i = est_at(m.estimates, k);
        assert(r.estimates[i].key == k);
        lemma_est_at(r.estimates, i);
    } else {
        let i = m.estimates.len() as int;
        assert(r.estimates[i].key == k);
        lemma_est_at(r.estimates, i);
    }
}

} // verus!
