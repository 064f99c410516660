//! Temporary files: their names, and which of them are deleted when.
//!
//! The paths of the current transcode output and of the previous preview are
//! held here; the methods say which files to delete, the caller deletes them.

use vstd::prelude::*;
use crate::number::{lemma_dec_reads_back, parse_u128, unsigned_value};
use crate::text::{chars_of, dec, push_char, push_dec_u128, push_str, string_of, str_eq, views};

verus! {

/// Every temporary file name starts with this.
pub open spec fn temp_prefix() -> Seq<char> {
    seq!['t', 'i', 'n', 'y', '-', 'v', 'i', 'd', '-']
}

pub fn temp_prefix_text() -> (r: &'static str)
    ensures
        r@ == temp_prefix(),
{
    proof {
        reveal_strlit("tiny-vid-");
    }
    "tiny-vid-"
}

/// The letters and digits a random suffix is made of, in order.
pub open spec fn alnum(i: nat) -> char {
    if i < 26 {
        (97 + i) as char
    } else {
        (48 + (i - 26)) as char
    }
}

fn alnum_char(i: u64) -> (c: char)
    requires
        i < 36,
    ensures
        c == alnum(i as nat),
{
    if i < 26 {
        ((97 + i) as u8) as char
    } else {
        ((48 + (i - 26)) as u8) as char
    }
}

/// The suffix counter `n` steps after `s` (it wraps around).
pub open spec fn counter_after(s: u64, n: nat) -> u64 {
    ((s + n) % 0x1_0000_0000_0000_0000) as u64
}

/// The suffix of `len` characters drawn from the counter `s`: one character
/// per step, chosen by the counter's value modulo 36.
pub open spec fn suffix_text(s: u64, len: nat) -> Seq<char> {
    Seq::new(len, |j: int| alnum((counter_after(s, j as nat) % 36) as nat))
}

/// A short suffix for temp file names, drawn from a counter that each
/// character advances by one.
pub fn random_alphanumeric_suffix(state: &mut u64, len: usize) -> (r: String)
    ensures
        r@ == suffix_text(*old(state), len as nat),
        *final(state) == counter_after(*old(state), len as nat),
{
    let ghost s0 = *state;
    let mut r = String::new();
    let mut i: usize = 0;
    while i < len
        invariant
            i <= len,
            r@ == suffix_text(s0, i as nat),
            *state == counter_after(s0, i as nat),
        decreases len - i,
    {
        let c = alnum_char(*state % 36);
        push_char(&mut r, c);
        *state = if *state == 0xffff_ffff_ffff_ffffu64 {
            0
        } else {
            *state + 1
        };
        assert(r@ =~= suffix_text(s0, (i + 1) as nat));
        i = i + 1;
    }
    r
}

/// The name of a temp file made at `timestamp_ms` with the random part
/// `random` for the caller's `suffix`: `tiny-vid-{timestamp}-{random}-{suffix}`.
pub open spec fn temp_name(timestamp_ms: u128, random: Seq<char>, suffix: Seq<char>) -> Seq<char> {
    temp_prefix() + dec(timestamp_ms as nat) + seq!['-'] + random + seq!['-'] + suffix
}

pub fn temp_file_name(timestamp_ms: u128, random: &str, suffix: &str) -> (r: String)
    ensures
        r@ == temp_name(timestamp_ms, random@, suffix@),
{
    let mut r = String::new();
    push_str(&mut r, temp_prefix_text());
    push_dec_u128(&mut r, timestamp_ms);
    push_char(&mut r, '-');
    push_str(&mut r, random);
    push_char(&mut r, '-');
    push_str(&mut r, suffix);
    assert(r@ =~= temp_name(timestamp_ms, random@, suffix@));
    r
}

/// Stateless factory for temp file names. Paths must be handed to
/// `set_transcode_temp` or `store_preview_paths_for_cleanup` for cleanup.
pub struct TempFileManager;

impl Default for TempFileManager {
    fn default() -> (r: Self)
        ensures
            r == TempFileManager,
    {
        TempFileManager
    }
}

impl TempFileManager {
    /// The name of a new temp file for `suffix`, made at `timestamp_ms`,
    /// with a random part of nine characters drawn from `state`.
    pub fn file_name(&self, timestamp_ms: u128, state: &mut u64, suffix: &str) -> (r: String)
        ensures
            r@ == temp_name(timestamp_ms, suffix_text(*old(state), 9), suffix@),
            *final(state) == counter_after(*old(state), 9),
    {
        let random = random_alphanumeric_suffix(state, 9);
        temp_file_name(timestamp_ms, random.as_str(), suffix)
    }
}

/// End of the `-`-separated field that starts at `i`.
pub open spec fn field_end(s: Seq<char>, i: int) -> int
    decreases s.len() - i,
{
    if i >= s.len() || s[i] == '-' {
        i
    } else {
        field_end(s, i + 1)
    }
}

/// The timestamp of a temp file name: the first `-`-separated field after the
/// prefix, read as a 128-bit integer.
pub open spec fn name_timestamp(name: Seq<char>) -> Option<nat> {
    let p = temp_prefix();
    if p.len() <= name.len() && name.take(p.len() as int) == p {
        let rest = name.skip(p.len() as int);
        unsigned_value(rest.take(field_end(rest, 0)), u128::MAX as nat)
    } else {
        None
    }
}

pub fn parse_timestamp_from_name(name: &str) -> (r: Option<u128>)
    ensures
        match r {
            Some(t) => name_timestamp(name@) == Some(t as nat),
            None => name_timestamp(name@) is None,
        },
{
    let v = chars_of(name);
    let p = chars_of(temp_prefix_text());
    if v.len() < p.len() {
        return None;
    }
    let mut i: usize = 0;
    while i < p.len()
        invariant
            p@ == temp_prefix(),
            v@ == name@,
            p.len() <= v.len(),
            i <= p.len(),
            v@.take(i as int) == p@.take(i as int),
        decreases p.len() - i,
    {
        if v[i] != p[i] {
            assert(v@.take(p.len() as int)[i as int] != p@[i as int]);
            assert(v@.take(p.len() as int) != temp_prefix());
            return None;
        }
        assert(v@.take(i + 1) =~= v@.take(i as int).push(v@[i as int]));
        assert(p@.take(i + 1) =~= p@.take(i as int).push(p@[i as int]));
        i = i + 1;
    }
    assert(p@.take(p.len() as int) =~= p@);
    let ghost rest = v@.skip(p.len() as int);
    let mut j: usize = p.len();
    while j < v.len() && v[j] != '-'
        invariant
            p.len() <= j <= v.len(),
            field_end(rest, (j - p.len()) as int) == field_end(rest, 0),
            rest == v@.skip(p.len() as int),
        decreases v.len() - j,
    {
        j = j + 1;
    }
    let mut fv: Vec<char> = Vec::new();
    let mut k: usize = p.len();
    while k < j
        invariant
            p.len() <= k <= j <= v.len(),
            fv@ == v@.subrange(p.len() as int, k as int),
        decreases j - k,
    {
        fv.push(v[k]);
        assert(fv@ =~= v@.subrange(p.len() as int, k + 1));
        k = k + 1;
    }
    let field = string_of(fv.as_slice());
    assert(field@ =~= rest.take(field_end(rest, 0)));
    parse_u128(field.as_str())
}

/// A file whose name carries a timestamp more than `max_age_ms` before
/// `now_ms` is stale (an age never goes below zero).
pub open spec fn is_stale(name: Seq<char>, now_ms: u128, max_age_ms: u128) -> bool {
    match name_timestamp(name) {
        Some(t) => (if now_ms >= t { now_ms - t } else { 0 }) > max_age_ms,
        None => false,
    }
}

/// Whether a file in the temp directory is an old temp file to delete at
/// startup.
pub fn is_stale_temp_file(name: &str, now_ms: u128, max_age_ms: u128) -> (r: bool)
    ensures
        r == is_stale(name@, now_ms, max_age_ms),
{
    match parse_timestamp_from_name(name) {
        Some(ts) => now_ms.saturating_sub(ts) > max_age_ms,
        None => false,
    }
}

/// A temp file name reads back its timestamp.
pub proof fn temp_name_timestamp(timestamp_ms: u128, random: Seq<char>, suffix: Seq<char>)
    ensures
        name_timestamp(temp_name(timestamp_ms, random, suffix)) == Some(timestamp_ms as nat),
{
    let name = temp_name(timestamp_ms, random, suffix);
    let d = dec(timestamp_ms as nat);
    lemma_dec_reads_back(timestamp_ms as nat);
    assert(name.take(9) =~= temp_prefix());
    let rest = name.skip(9);
    assert(rest =~= d + seq!['-'] + random + seq!['-'] + suffix);
    assert forall|i: int| 0 <= i <= d.len() implies field_end(rest, i) == d.len() by {
        lemma_field_end(rest, i, d.len() as int);
    }
    assert(rest.take(d.len() as int) =~= d);
}

proof fn lemma_field_end(s: Seq<char>, i: int, e: int)
    requires
        0 <= i <= e < s.len(),
        s[e] == '-',
        forall|j: int| 0 <= j < e ==> s[j] != '-',
    ensures
        field_end(s, i) == e,
    decreases e - i,
{
    if i < e {
        lemma_field_end(s, i + 1, e);
    }
}

/// Two suffixes drawn one after the other differ.
pub proof fn successive_suffixes_differ(s: u64)
    ensures
        suffix_text(s, 9) != suffix_text(counter_after(s, 9), 9),
{
    let t = counter_after(s, 9);
    assert(counter_after(s, 0) == s);
    assert(counter_after(t, 0) == t);
    let a = (s % 36) as nat;
    let b = (t % 36) as nat;
    if s as int + 9 < 0x1_0000_0000_0000_0000 {
        assert(t == s + 9);
    } else {
        assert(t == s + 9 - 0x1_0000_0000_0000_0000);
    }
    assert(a != b);
    assert(alnum(a) != alnum(b));
    assert(suffix_text(s, 9)[0] != suffix_text(t, 9)[0]);
}

/// The temp paths held for later deletion.
pub struct TempModel {
    pub previous_preview: Seq<Seq<char>>,
    pub transcode: Option<Seq<char>>,
}

pub open spec fn opt_view(o: Option<String>) -> Option<Seq<char>> {
    match o {
        Some(s) => Some(s@),
        None => None,
    }
}

/// The paths of `paths` that are not in `keep`, in order.
pub open spec fn not_kept(paths: Seq<Seq<char>>, keep: Seq<Seq<char>>) -> Seq<Seq<char>>
    decreases paths.len(),
{
    if paths.len() == 0 {
        Seq::empty()
    } else if keep.contains(paths.last()) {
        not_kept(paths.drop_last(), keep)
    } else {
        not_kept(paths.drop_last(), keep).push(paths.last())
    }
}

/// The output of the current transcode, and the files of the previous
/// preview, to delete later.
pub struct TempPaths {
    previous_preview_paths: Vec<String>,
    transcode_temp_path: Option<String>,
}

impl View for TempPaths {
    type V = TempModel;

    closed spec fn view(&self) -> TempModel {
        TempModel { previous_preview: views(self.previous_preview_paths@), transcode: opt_view(self.transcode_temp_path) }
    }
}

fn contains_path(v: &[String], p: &str) -> (r: bool)
    ensures
        r == views(v@).contains(p@),
{
    let mut i: usize = 0;
    while i < v.len()
        invariant
            i <= v.len(),
            forall|j: int| 0 <= j < i ==> v@[j]@ != p@,
        decreases v.len() - i,
    {
        if str_eq(v[i].as_str(), p) {
            assert(views(v@)[i as int] == p@);
            return true;
        }
        i = i + 1;
    }
    assert forall|j: int| 0 <= j < views(v@).len() implies views(v@)[j] != p@ by {
        assert(views(v@)[j] == v@[j]@);
    }
    false
}

fn extend_paths(v: &mut Vec<String>, more: &[String])
    ensures
        views(final(v)@) == views(old(v)@) + views(more@),
{
    let ghost v0 = views(v@);
    let mut i: usize = 0;
    while i < more.len()
        invariant
            i <= more.len(),
            views(v@) == v0 + views(more@).take(i as int),
        decreases more.len() - i,
    {
        let ghost before = v@;
        let c = more[i].clone();
        v.push(c);
        assert(v@ =~= before.push(c));
        assert(views(v@) =~= views(before).push(c@));
        assert(views(more@).take(i + 1) =~= views(more@).take(i as int).push(more@[i as int]@));
        i = i + 1;
    }
    assert(views(more@).take(more.len() as int) =~= views(more@));
}

impl TempPaths {
    pub fn new() -> (t: TempPaths)
        ensures
            t@.previous_preview.len() == 0,
            t@.transcode is None,
    {
        let t = TempPaths { previous_preview_paths: Vec::new(), transcode_temp_path: None };
        assert(t@.previous_preview =~= Seq::<Seq<char>>::empty());
        t
    }

    /// Sets the current transcode output (deleted on exit or when the user
    /// cancels saving it).
    pub fn set_transcode_temp(&mut self, path: Option<String>)
        ensures
            final(self)@.transcode == opt_view(path),
            final(self)@.previous_preview == old(self)@.previous_preview,
    {
        self.transcode_temp_path = path;
    }

    /// Forgets the current transcode output and returns it, to be deleted.
    pub fn cleanup_transcode_temp(&mut self) -> (r: Option<String>)
        ensures
            opt_view(r) == old(self)@.transcode,
            final(self)@.transcode is None,
            final(self)@.previous_preview == old(self)@.previous_preview,
    {
        self.transcode_temp_path.take()
    }

    /// Holds the files of a preview, to be deleted when the next one starts.
    pub fn store_preview_paths_for_cleanup(&mut self, originals: &[String], compresseds: &[String])
        ensures
            final(self)@.previous_preview == old(self)@.previous_preview + views(originals@) + views(
                compresseds@,
            ),
            final(self)@.transcode == old(self)@.transcode,
    {
        extend_paths(&mut self.previous_preview_paths, originals);
        extend_paths(&mut self.previous_preview_paths, compresseds);
    }

    /// At the start of a new preview: forgets the previous preview's files
    /// and returns those to delete, which are all but the ones in `cached`
    /// (the paths the preview cache still uses).
    pub fn cleanup_previous_preview_paths(
        &mut self,
        new_input_path: &str,
        new_preview_duration: u32,
        cached: &[String],
    ) -> (r: Vec<String>)
        ensures
            views(r@) == not_kept(old(self)@.previous_preview, views(cached@)),
            final(self)@.previous_preview.len() == 0,
            final(self)@.transcode == old(self)@.transcode,
    {
        let ghost prev = self@.previous_preview;
        let mut paths: Vec<String> = Vec::new();
        std::mem::swap(&mut paths, &mut self.previous_preview_paths);
        assert(self@.previous_preview =~= Seq::<Seq<char>>::empty());
        let mut r: Vec<String> = Vec::new();
        let mut i: usize = 0;
        while i < paths.len()
            invariant
                views(paths@) == prev,
                i <= paths.len(),
                views(r@) == not_kept(prev.take(i as int), views(cached@)),
            decreases paths.len() - i,
        {
            assert(prev.take(i + 1).drop_last() =~= prev.take(i as int));
            assert(prev.take(i + 1).last() == paths@[i as int]@);
            if !contains_path(cached, paths[i].as_str()) {
                let ghost before = r@;
                let c = paths[i].clone();
                r.push(c);
                assert(r@ =~= before.push(c));
                assert(views(r@) =~= views(before).push(c@));
            }
            i = i + 1;
        }
        assert(prev.take(paths.len() as int) =~= prev);
        r
    }
}

proof fn lemma_not_kept(paths: Seq<Seq<char>>, keep: Seq<Seq<char>>)
    ensures
        forall|p: Seq<char>| #[trigger] not_kept(paths, keep).contains(p) <==> (paths.contains(p) && !keep.contains(p)),
    decreases paths.len(),
{
    if paths.len() > 0 {
        lemma_not_kept(paths.drop_last(), keep);
        let r0 = not_kept(paths.drop_last(), keep);
        assert forall|p: Seq<char>| #[trigger] not_kept(paths, keep).contains(p) <==> (paths.contains(p) && !keep.contains(p)) by {
            if paths.contains(p) && !keep.contains(p) {
                let i = choose|i: int| 0 <= i < paths.len() && paths[i] == p;
                if i < paths.len() - 1 {
                    assert(paths.drop_last()[i] == p);
                    assert(r0.contains(p));
                    let j = choose|j: int| 0 <= j < r0.len() && r0[j] == p;
                    if !keep.contains(paths.last()) {
                        assert(r0.push(paths.last())[j] == p);
                    }
                } else {
                    assert(r0.push(paths.last())[r0.len() as int] == p);
                }
            }
            if not_kept(paths, keep).contains(p) {
                let j = choose|j: int| 0 <= j < not_kept(paths, keep).len() && not_kept(paths, keep)[j] == p;
                if j < r0.len() {
                    if !keep.contains(paths.last()) {
                        assert(r0.push(paths.last())[j] == r0[j]);
                    }
                    assert(r0.contains(p));
                    let i = choose|i: int| 0 <= i < paths.drop_last().len() && paths.drop_last()[i] == p;
                    assert(paths[i] == p);
                } else {
                    assert(p == paths.last());
                    assert(paths[paths.len() - 1] == p);
                }
            }
        }
    }
}

/// Cleaning up after a preview deletes exactly the stored files that the
/// cache does not use: none that it uses, all that it does not.
pub proof fn previous_cleanup_spares_cached(paths: Seq<Seq<char>>, keep: Seq<Seq<char>>)
    ensures
        forall|p: Seq<char>| #[trigger] not_kept(paths, keep).contains(p) ==> !keep.contains(p),
        forall|p: Seq<char>| paths.contains(p) && !keep.contains(p) ==> #[trigger] not_kept(paths, keep).contains(p),
{
    lemma_not_kept(paths, keep);
}

} // verus!
