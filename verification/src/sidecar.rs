//! The sidecar's commands that keep state: transcode outputs waiting for the
//! user to save or discard them (each behind a commit token), capability
//! reporting, and cleanup on startup and exit.
//!
//! Time is given in milliseconds since the epoch; files are deleted and moved
//! by the caller, which the methods tell what to delete.

use vstd::prelude::*;
use crate::codec::{
    build_variant_name, display_codecs, get_build_variant, is_codec_info, BuildVariantResult, CodecInfo,
};
use crate::decimal::Decimal;
use crate::error::{is_message_error, message_spec, AppError};
use crate::ffmpeg::builder::{
    build_ffmpeg_command, display_lines, ffmpeg_command, format_args_for_display_multiline, join_lines,
};
use crate::ffmpeg::cache::{empty_model, outputs, segment_paths, PreviewCache};
use crate::ffmpeg::discovery::{encoders_from, lemma_encoders_supported, parse_encoder_output};
use crate::ffmpeg::error::{parse_ffmpeg_error, summary_spec};
use crate::ffmpeg::options::TranscodeOptions;
use crate::ffmpeg::temp::{is_stale, is_stale_temp_file, TempPaths};
use crate::text::{
    concat_strings, dec, owned, push_char, push_dec, push_dec_u128, push_str, str_eq, trim, views,
};

verus! {

/// How old a commit token may get, in milliseconds (a day).
pub const COMMIT_TOKEN_MAX_AGE_MS: u128 = 86_400_000;

/// Version of the sidecar's protocol.
pub const PROTOCOL_VERSION: u8 = 2;

/// A transcode output waiting to be saved or discarded.
pub struct PendingTranscode {
    pub path: String,
    pub created_at_ms: u128,
}

pub struct PendingModel {
    pub token: Seq<char>,
    pub path: Seq<char>,
    pub created_at_ms: u128,
}

/// The pending outputs, each token once, and the id of the next token.
pub struct RegistryModel {
    pub entries: Seq<PendingModel>,
    pub next_id: u64,
}

pub open spec fn age_ms(created_at_ms: u128, now_ms: u128) -> nat {
    if now_ms >= created_at_ms {
        (now_ms - created_at_ms) as nat
    } else {
        0
    }
}

pub open spec fn is_expired(e: PendingModel, now_ms: u128, max_age_ms: u128) -> bool {
    age_ms(e.created_at_ms, now_ms) > max_age_ms
}

/// The entries that have not expired, in order.
pub open spec fn fresh(s: Seq<PendingModel>, now_ms: u128, max_age_ms: u128) -> Seq<PendingModel>
    decreases s.len(),
{
    if s.len() == 0 {
        Seq::empty()
    } else if is_expired(s.last(), now_ms, max_age_ms) {
        fresh(s.drop_last(), now_ms, max_age_ms)
    } else {
        fresh(s.drop_last(), now_ms, max_age_ms).push(s.last())
    }
}

/// The paths of the entries that have expired, in order.
pub open spec fn expired_paths(s: Seq<PendingModel>, now_ms: u128, max_age_ms: u128) -> Seq<Seq<char>>
    decreases s.len(),
{
    if s.len() == 0 {
        Seq::empty()
    } else if is_expired(s.last(), now_ms, max_age_ms) {
        expired_paths(s.drop_last(), now_ms, max_age_ms).push(s.last().path)
    } else {
        expired_paths(s.drop_last(), now_ms, max_age_ms)
    }
}

pub open spec fn has_token(s: Seq<PendingModel>, t: Seq<char>) -> bool {
    exists|i: int| 0 <= i < s.len() && (#[trigger] s[i]).token == t
}

pub open spec fn token_at(s: Seq<PendingModel>, t: Seq<char>) -> int {
    choose|i: int| 0 <= i < s.len() && (#[trigger] s[i]).token == t
}

pub open spec fn tokens_distinct(s: Seq<PendingModel>) -> bool {
    forall|i: int, j: int| 0 <= i < j < s.len() ==> (#[trigger] s[i]).token != (#[trigger] s[j]).token
}

/// An entry stored under `t`: it replaces the entry of that token, or is
/// added last.
pub open spec fn put(s: Seq<PendingModel>, e: PendingModel) -> Seq<PendingModel> {
    if has_token(s, e.token) {
        s.update(token_at(s, e.token), e)
    } else {
        s.push(e)
    }
}

/// The commit token made at `now_ms` with counter value `id`:
/// `commit-{now_ms}-{id}`.
pub open spec fn commit_token(now_ms: u128, id: u64) -> Seq<char> {
    seq!['c', 'o', 'm', 'm', 'i', 't', '-'] + dec(now_ms as nat) + seq!['-'] + dec(id as nat)
}

pub open spec fn next_counter(id: u64) -> u64 {
    if id == u64::MAX {
        0
    } else {
        (id + 1) as u64
    }
}

pub open spec fn missing_output_message(path: Seq<char>) -> Seq<char> {
    "Transcode output does not exist: "@ + path
}

pub open spec fn unknown_token_message(token: Seq<char>) -> Seq<char> {
    "Unknown commitToken: "@ + token
}

struct PendingEntry {
    token: String,
    path: String,
    created_at_ms: u128,
}

impl View for PendingEntry {
    type V = PendingModel;

    closed spec fn view(&self) -> PendingModel {
        PendingModel { token: self.token@, path: self.path@, created_at_ms: self.created_at_ms }
    }
}

/// Transcode outputs waiting to be saved or discarded, by commit token.
pub struct PendingTranscodes {
    entries: Vec<PendingEntry>,
    next_id: u64,
}

impl View for PendingTranscodes {
    type V = RegistryModel;

    closed spec fn view(&self) -> RegistryModel {
        RegistryModel { entries: self.entries@.map_values(|e: PendingEntry| e@), next_id: self.next_id }
    }
}

/// `commit-{now_ms}-{id}`.
pub fn make_commit_token(now_ms: u128, id: u64) -> (r: String)
    ensures
        r@ == commit_token(now_ms, id),
{
    let mut r = String::new();
    proof {
        reveal_strlit("commit-");
    }
    push_str(&mut r, "commit-");
    push_dec_u128(&mut r, now_ms);
    push_char(&mut r, '-');
    push_dec(&mut r, id);
    assert(r@ =~= commit_token(now_ms, id));
    r
}

fn message_error(prefix: &str, text: &str) -> (e: AppError)
    ensures
        is_message_error(e, prefix@ + text@),
{
    let mut m = owned(prefix);
    push_str(&mut m, text);
    AppError::from(m)
}

proof fn lemma_not_aborted(prefix: Seq<char>, text: Seq<char>)
    requires
        prefix.len() > 7,
    ensures
        prefix + text != "Aborted"@,
{
    reveal_strlit("Aborted");
    assert((prefix + text).len() > 7);
}

proof fn lemma_fresh_parts(s: Seq<PendingModel>, now_ms: u128, max_age_ms: u128)
    ensures
        forall|i: int|
            0 <= i < fresh(s, now_ms, max_age_ms).len() ==> !is_expired(
                #[trigger] fresh(s, now_ms, max_age_ms)[i],
                now_ms,
                max_age_ms,
            ) && s.contains(fresh(s, now_ms, max_age_ms)[i]),
        forall|i: int|
            0 <= i < s.len() && !is_expired(#[trigger] s[i], now_ms, max_age_ms) ==> fresh(
                s,
                now_ms,
                max_age_ms,
            ).contains(s[i]),
    decreases s.len(),
{
    if s.len() > 0 {
        let p = s.drop_last();
        lemma_fresh_parts(p, now_ms, max_age_ms);
        let f0 = fresh(p, now_ms, max_age_ms);
        let f = fresh(s, now_ms, max_age_ms);
        assert forall|i: int| 0 <= i < f.len() implies !is_expired(#[trigger] f[i], now_ms, max_age_ms) && s.contains(f[i]) by {
            if i < f0.len() {
                assert(f[i] == f0[i]);
                assert(p.contains(f0[i]));
                let j = choose|j: int| 0 <= j < p.len() && p[j] == f0[i];
                assert(s[j] == p[j]);
            } else {
                assert(f[i] == s.last());
                assert(s[s.len() - 1] == s.last());
            }
        }
        assert forall|i: int| 0 <= i < s.len() && !is_expired(#[trigger] s[i], now_ms, max_age_ms) implies f.contains(s[i]) by {
            if i < s.len() - 1 {
                assert(p[i] == s[i]);
                assert(f0.contains(s[i]));
                let j = choose|j: int| 0 <= j < f0.len() && f0[j] == s[i];
                if !is_expired(s.last(), now_ms, max_age_ms) {
                    assert(f[j] == f0[j]);
                }
            } else {
                assert(f[f0.len() as int] == s.last());
            }
        }
    }
}

proof fn lemma_fresh_distinct(s: Seq<PendingModel>, now_ms: u128, max_age_ms: u128)
    requires
        tokens_distinct(s),
    ensures
        tokens_distinct(fresh(s, now_ms, max_age_ms)),
    decreases s.len(),
{
    if s.len() > 0 {
        let p = s.drop_last();
        assert(tokens_distinct(p)) by {
            assert forall|i: int, j: int| 0 <= i < j < p.len() implies (#[trigger] p[i]).token != (#[trigger] p[j]).token by {
                assert(p[i] == s[i] && p[j] == s[j]);
            }
        }
        lemma_fresh_distinct(p, now_ms, max_age_ms);
        lemma_fresh_parts(p, now_ms, max_age_ms);
        let f0 = fresh(p, now_ms, max_age_ms);
        let f = fresh(s, now_ms, max_age_ms);
        if !is_expired(s.last(), now_ms, max_age_ms) {
            assert forall|i: int, j: int| 0 <= i < j < f.len() implies (#[trigger] f[i]).token != (#[trigger] f[j]).token by {
                if j == f0.len() {
                    assert(f[i] == f0[i]);
                    assert(p.contains(f0[i]));
                    let k = choose|k: int| 0 <= k < p.len() && p[k] == f0[i];
                    assert(s[k] == p[k]);
                    assert(s[k].token != s[s.len() - 1].token);
                } else {
                    assert(f[i] == f0[i] && f[j] == f0[j]);
                }
            }
        }
    }
}

proof fn lemma_put_distinct(s: Seq<PendingModel>, e: PendingModel)
    requires
        tokens_distinct(s),
    ensures
        tokens_distinct(put(s, e)),
        has_token(put(s, e), e.token),
        put(s, e)[token_at(put(s, e), e.token)] == e,
{
    let r = put(s, e);
    if has_token(s, e.token) {
        let k = token_at(s, e.token);
        assert forall|i: int, j: int| 0 <= i < j < r.len() implies (#[trigger] r[i]).token != (#[trigger] r[j]).token by {
            assert(r[i].token == s[i].token && r[j].token == s[j].token);
        }
        assert(r[k] == e);
        lemma_token_at(r, k);
    } else {
        assert forall|i: int, j: int| 0 <= i < j < r.len() implies (#[trigger] r[i]).token != (#[trigger] r[j]).token by {
            if j == s.len() {
                assert(r[i] == s[i]);
            } else {
                assert(r[i] == s[i] && r[j] == s[j]);
            }
        }
        assert(r[s.len() as int] == e);
        lemma_token_at(r, s.len() as int);
    }
}

proof fn lemma_token_at(s: Seq<PendingModel>, i: int)
    requires
        tokens_distinct(s),
        0 <= i < s.len(),
    ensures
        has_token(s, s[i].token),
        token_at(s, s[i].token) == i,
{
    let t = s[i].token;
    assert(has_token(s, t));
    let j = token_at(s, t);
    if j != i {
        if j < i {
            assert(s[j].token != s[i].token);
        } else {
            assert(s[i].token != s[j].token);
        }
    }
}

proof fn lemma_remove_distinct(s: Seq<PendingModel>, i: int)
    requires
        tokens_distinct(s),
        0 <= i < s.len(),
    ensures
        tokens_distinct(s.remove(i)),
        !has_token(s.remove(i), s[i].token),
{
    let r = s.remove(i);
    assert forall|a: int, b: int| 0 <= a < b < r.len() implies (#[trigger] r[a]).token != (#[trigger] r[b]).token by {
        let a0 = if a < i { a } else { a + 1 };
        let b0 = if b < i { b } else { b + 1 };
        assert(r[a] == s[a0] && r[b] == s[b0]);
        assert(s[a0].token != s[b0].token);
    }
    if has_token(r, s[i].token) {
        let j = token_at(r, s[i].token);
        let j0 = if j < i { j } else { j + 1 };
        assert(r[j] == s[j0]);
        if j0 < i {
            assert(s[j0].token != s[i].token);
        } else {
            assert(s[i].token != s[j0].token);
        }
    }
}

impl PendingTranscodes {
    pub open spec fn wf(&self) -> bool {
        tokens_distinct(self@.entries)
    }

    /// No pending output; the first token gets id 1.
    pub fn new() -> (r: PendingTranscodes)
        ensures
            r.wf(),
            r@.entries.len() == 0,
            r@.next_id == 1,
    {
        let r = PendingTranscodes { entries: Vec::new(), next_id: 1 };
        assert(r@.entries =~= Seq::<PendingModel>::empty());
        r
    }

    fn find(&self, token: &str) -> (r: Option<usize>)
        ensures
            match r {
                Some(i) => i < self@.entries.len() && self@.entries[i as int].token == token@,
                None => !has_token(self@.entries, token@),
            },
    {
        let mut i: usize = 0;
        while i < self.entries.len()
            invariant
                i <= self.entries.len(),
                forall|j: int| 0 <= j < i ==> self@.entries[j].token != token@,
            decreases self.entries.len() - i,
        {
            if str_eq(self.entries[i].token.as_str(), token) {
                return Some(i);
            }
            i = i + 1;
        }
        None
    }

    fn put(&mut self, e: PendingEntry)
        requires
            old(self).wf(),
        ensures
            final(self).wf(),
            final(self)@.entries == put(old(self)@.entries, e@),
            final(self)@.next_id == old(self)@.next_id,
    {
        let ghost s = self@.entries;
        let ghost ev = e@;
        proof {
            lemma_put_distinct(s, ev);
        }
        match self.find(e.token.as_str()) {
            Some(i) => {
                proof {
                    lemma_token_at(s, i as int);
                }
                self.entries.remove(i);
                self.entries.insert(i, e);
            },
            None => {
                self.entries.push(e);
            },
        }
        assert(self@.entries =~= put(s, ev));
    }

    /// Forgets the entries older than `max_age_ms` and returns their paths,
    /// to be deleted.
    pub fn cleanup_pending_transcodes(&mut self, now_ms: u128, max_age_ms: u128) -> (deleted: Vec<String>)
        requires
            old(self).wf(),
        ensures
            final(self).wf(),
            final(self)@.entries == fresh(old(self)@.entries, now_ms, max_age_ms),
            views(deleted@) == expired_paths(old(self)@.entries, now_ms, max_age_ms),
            final(self)@.next_id == old(self)@.next_id,
    {
        let ghost s = self@.entries;
        proof {
            lemma_fresh_distinct(s, now_ms, max_age_ms);
        }
        let mut old_entries: Vec<PendingEntry> = Vec::new();
        std::mem::swap(&mut old_entries, &mut self.entries);
        let mut kept: Vec<PendingEntry> = Vec::new();
        let mut deleted: Vec<String> = Vec::new();
        let mut i: usize = 0;
        while i < old_entries.len()
            invariant
                old_entries@.map_values(|e: PendingEntry| e@) == s,
                i <= old_entries.len(),
                kept@.map_values(|e: PendingEntry| e@) == fresh(s.take(i as int), now_ms, max_age_ms),
                views(deleted@) == expired_paths(s.take(i as int), now_ms, max_age_ms),
            decreases old_entries.len() - i,
        {
            assert(s.take(i + 1).drop_last() =~= s.take(i as int));
            assert(s.take(i + 1).last() == old_entries@[i as int]@);
            let created = old_entries[i].created_at_ms;
            let age = now_ms.saturating_sub(created);
            let e = PendingEntry {
                token: owned(old_entries[i].token.as_str()),
                path: owned(old_entries[i].path.as_str()),
                created_at_ms: created,
            };
            if age > max_age_ms {
                let ghost before = deleted@;
                let p = e.path;
                deleted.push(p);
                assert(deleted@ =~= before.push(p));
                assert(views(deleted@) =~= views(before).push(p@));
            } else {
                let ghost before = kept@;
                kept.push(e);
                assert(kept@ =~= before.push(e));
                assert(kept@.map_values(|e: PendingEntry| e@) =~= before.map_values(|e: PendingEntry| e@).push(e@));
            }
            i = i + 1;
        }
        assert(s.take(old_entries.len() as int) =~= s);
        self.entries = kept;
        deleted
    }

    /// Registers a finished transcode output for a later save or discard and
    /// returns its commit token (`commit-{now_ms}-{id}`). Expired entries are
    /// forgotten first (their paths are returned, to be deleted), and the
    /// output stops being the current transcode output. An output that does
    /// not exist is refused, and nothing changes.
    pub fn register_transcode_commit(
        &mut self,
        temp: &mut TempPaths,
        output_path: &str,
        output_exists: bool,
        now_ms: u128,
    ) -> (r: (Result<String, AppError>, Vec<String>))
        requires
            old(self).wf(),
        ensures
            final(self).wf(),
            !output_exists ==> {
                &&& r.0 matches Err(e) && is_message_error(e, missing_output_message(output_path@))
                &&& r.1@.len() == 0
                &&& final(self)@ == old(self)@
                &&& final(temp)@ == old(temp)@
            },
            output_exists ==> {
                let token = commit_token(now_ms, old(self)@.next_id);
                let kept = fresh(old(self)@.entries, now_ms, COMMIT_TOKEN_MAX_AGE_MS);
                &&& r.0 matches Ok(t) && t@ == token
                &&& views(r.1@) == expired_paths(old(self)@.entries, now_ms, COMMIT_TOKEN_MAX_AGE_MS)
                &&& final(self)@.entries == put(
                    kept,
                    PendingModel { token, path: output_path@, created_at_ms: now_ms },
                )
                &&& final(self)@.next_id == next_counter(old(self)@.next_id)
                &&& final(temp)@.transcode is None
                &&& final(temp)@.previous_preview == old(temp)@.previous_preview
            },
    {
        if !output_exists {
            proof {
                reveal_strlit("Transcode output does not exist: ");
                lemma_not_aborted("Transcode output does not exist: "@, output_path@);
            }
            return (Err(message_error("Transcode output does not exist: ", output_path)), Vec::new());
        }
        let id = self.next_id;
        self.next_id = if id == 0xffff_ffff_ffff_ffffu64 {
            0
        } else {
            id + 1
        };
        let token = make_commit_token(now_ms, id);
        let deleted = self.cleanup_pending_transcodes(now_ms, COMMIT_TOKEN_MAX_AGE_MS);
        self.put(PendingEntry { token: owned(token.as_str()), path: owned(output_path), created_at_ms: now_ms });
        temp.set_transcode_temp(None);
        (Ok(token), deleted)
    }

    /// Takes the output behind `commit_token` for saving: the caller moves
    /// it, then reports with `finish_commit`. Expired entries are forgotten
    /// first (their paths are returned, to be deleted). An unknown token is
    /// refused.
    pub fn commit_transcode_output(&mut self, commit_token: &str, now_ms: u128) -> (r: (
        Result<PendingTranscode, AppError>,
        Vec<String>,
    ))
        requires
            old(self).wf(),
        ensures
            final(self).wf(),
            ({
                let kept = fresh(old(self)@.entries, now_ms, COMMIT_TOKEN_MAX_AGE_MS);
                &&& views(r.1@) == expired_paths(old(self)@.entries, now_ms, COMMIT_TOKEN_MAX_AGE_MS)
                &&& final(self)@.next_id == old(self)@.next_id
                &&& if has_token(kept, commit_token@) {
                    let i = token_at(kept, commit_token@);
                    &&& r.0 matches Ok(p) && p.path@ == kept[i].path && p.created_at_ms == kept[i].created_at_ms
                    &&& final(self)@.entries == kept.remove(i)
                } else {
                    &&& r.0 matches Err(e) && is_message_error(e, unknown_token_message(commit_token@))
                    &&& final(self)@.entries == kept
                }
            }),
    {
        let deleted = self.cleanup_pending_transcodes(now_ms, COMMIT_TOKEN_MAX_AGE_MS);
        let ghost kept = self@.entries;
        match self.find(commit_token) {
            Some(i) => {
                proof {
                    lemma_token_at(kept, i as int);
                    lemma_remove_distinct(kept, i as int);
                }
                let e = self.entries.remove(i);
                assert(self@.entries =~= kept.remove(i as int));
                (Ok(PendingTranscode { path: e.path, created_at_ms: e.created_at_ms }), deleted)
            },
            None => {
                proof {
                    reveal_strlit("Unknown commitToken: ");
                    lemma_not_aborted("Unknown commitToken: "@, commit_token@);
                }
                (Err(message_error("Unknown commitToken: ", commit_token)), deleted)
            },
        }
    }

    /// Reports how moving a taken output to `dest` went: on success the
    /// saved path; on failure the output is pending again under its token,
    /// so that saving can be retried.
    pub fn finish_commit(
        &mut self,
        commit_token: &str,
        entry: PendingTranscode,
        dest: &str,
        moved: Result<(), AppError>,
    ) -> (r: Result<String, AppError>)
        requires
            old(self).wf(),
        ensures
            final(self).wf(),
            final(self)@.next_id == old(self)@.next_id,
            match moved {
                Ok(()) => r matches Ok(s) && s@ == dest@ && final(self)@ == old(self)@,
                Err(e) => r == Err::<String, AppError>(e) && final(self)@.entries == put(
                    old(self)@.entries,
                    PendingModel { token: commit_token@, path: entry.path@, created_at_ms: entry.created_at_ms },
                ),
            },
    {
        match moved {
            Ok(()) => Ok(owned(dest)),
            Err(e) => {
                self.put(PendingEntry { token: owned(commit_token), path: entry.path, created_at_ms: entry.created_at_ms });
                Err(e)
            },
        }
    }

    /// Takes the output behind `commit_token` for deletion and returns its
    /// path. Expired entries are forgotten first (their paths are returned
    /// too). An unknown token is refused.
    pub fn discard_transcode_output(&mut self, commit_token: &str, now_ms: u128) -> (r: (
        Result<String, AppError>,
        Vec<String>,
    ))
        requires
            old(self).wf(),
        ensures
            final(self).wf(),
            ({
                let kept = fresh(old(self)@.entries, now_ms, COMMIT_TOKEN_MAX_AGE_MS);
                &&& views(r.1@) == expired_paths(old(self)@.entries, now_ms, COMMIT_TOKEN_MAX_AGE_MS)
                &&& final(self)@.next_id == old(self)@.next_id
                &&& if has_token(kept, commit_token@) {
                    let i = token_at(kept, commit_token@);
                    &&& r.0 matches Ok(p) && p@ == kept[i].path
                    &&& final(self)@.entries == kept.remove(i)
                } else {
                    &&& r.0 matches Err(e) && is_message_error(e, unknown_token_message(commit_token@))
                    &&& final(self)@.entries == kept
                }
            }),
    {
        let (taken, deleted) = self.commit_transcode_output(commit_token, now_ms);
        match taken {
            Ok(p) => (Ok(p.path), deleted),
            Err(e) => (Err(e), deleted),
        }
    }

    /// Forgets every pending output and returns their paths, to be deleted.
    pub fn cleanup_all_pending_transcodes(&mut self) -> (deleted: Vec<String>)
        requires
            old(self).wf(),
        ensures
            final(self).wf(),
            final(self)@.entries.len() == 0,
            final(self)@.next_id == old(self)@.next_id,
            views(deleted@) == old(self)@.entries.map_values(|e: PendingModel| e.path),
    {
        let ghost s = self@.entries;
        let mut deleted: Vec<String> = Vec::new();
        let mut i: usize = 0;
        while i < self.entries.len()
            invariant
                self@.entries == s,
                i <= self.entries.len(),
                views(deleted@) == s.take(i as int).map_values(|e: PendingModel| e.path),
            decreases self.entries.len() - i,
        {
            let ghost before = deleted@;
            let p = owned(self.entries[i].path.as_str());
            deleted.push(p);
            assert(deleted@ =~= before.push(p));
            assert(views(deleted@) =~= views(before).push(p@));
            assert(s.take(i + 1).map_values(|e: PendingModel| e.path) =~= s.take(i as int).map_values(
                |e: PendingModel| e.path,
            ).push(s[i as int].path));
            i = i + 1;
        }
        assert(s.take(self.entries.len() as int) =~= s);
        self.entries = Vec::new();
        assert(self@.entries =~= Seq::<PendingModel>::empty());
        deleted
    }
}

/// What the application deletes on exit: the current transcode output, every
/// pending output, and every file of the preview cache; all of them are
/// forgotten.
pub fn cleanup_on_exit(temp: &mut TempPaths, pending: &mut PendingTranscodes, cache: &mut PreviewCache) -> (r: Vec<String>)
    requires
        old(pending).wf(),
    ensures
        final(pending).wf(),
        final(temp)@.transcode is None,
        final(pending)@.entries.len() == 0,
        final(cache)@ == empty_model(),
        views(r@) == (match old(temp)@.transcode {
            Some(p) => seq![p],
            None => Seq::empty(),
        }) + old(pending)@.entries.map_values(|e: PendingModel| e.path) + outputs(old(cache)@.lru)
            + segment_paths(old(cache)@.segments),
{
    let mut r: Vec<String> = Vec::new();
    match temp.cleanup_transcode_temp() {
        Some(p) => r.push(p),
        None => {},
    }
    assert(views(r@) =~= match old(temp)@.transcode {
        Some(p) => seq![p],
        None => Seq::<Seq<char>>::empty(),
    });
    let a = pending.cleanup_all_pending_transcodes();
    let b = cache.cleanup_preview_transcode_cache();
    let r = concat_strings(r, a);
    concat_strings(r, b)
}

proof fn lemma_fresh_keeps(s: Seq<PendingModel>, e: PendingModel, now_ms: u128, max_age_ms: u128)
    requires
        tokens_distinct(s),
        has_token(s, e.token),
        s[token_at(s, e.token)] == e,
        !is_expired(e, now_ms, max_age_ms),
    ensures
        has_token(fresh(s, now_ms, max_age_ms), e.token),
        fresh(s, now_ms, max_age_ms)[token_at(fresh(s, now_ms, max_age_ms), e.token)] == e,
{
    let f = fresh(s, now_ms, max_age_ms);
    lemma_fresh_parts(s, now_ms, max_age_ms);
    lemma_fresh_distinct(s, now_ms, max_age_ms);
    let i = token_at(s, e.token);
    assert(f.contains(s[i]));
    let j = choose|j: int| 0 <= j < f.len() && f[j] == s[i];
    lemma_token_at(f, j);
}

/// A registered output can be saved with its token until it expires: taking
/// it back (at a time no more than the maximum age after registering) finds
/// the registered path and time.
pub proof fn register_then_commit(
    s: Seq<PendingModel>,
    id: u64,
    path: Seq<char>,
    now_ms: u128,
    later_ms: u128,
)
    requires
        tokens_distinct(s),
        age_ms(now_ms, later_ms) <= COMMIT_TOKEN_MAX_AGE_MS,
    ensures
        ({
            let e = PendingModel { token: commit_token(now_ms, id), path, created_at_ms: now_ms };
            let s1 = put(fresh(s, now_ms, COMMIT_TOKEN_MAX_AGE_MS), e);
            let kept = fresh(s1, later_ms, COMMIT_TOKEN_MAX_AGE_MS);
            has_token(kept, e.token) && kept[token_at(kept, e.token)] == e
        }),
{
    let e = PendingModel { token: commit_token(now_ms, id), path, created_at_ms: now_ms };
    let s0 = fresh(s, now_ms, COMMIT_TOKEN_MAX_AGE_MS);
    lemma_fresh_distinct(s, now_ms, COMMIT_TOKEN_MAX_AGE_MS);
    lemma_put_distinct(s0, e);
    lemma_fresh_keeps(put(s0, e), e, later_ms, COMMIT_TOKEN_MAX_AGE_MS);
}

/// A save whose move failed can be retried: the output taken for it is
/// found again under the same token at the same time.
pub proof fn failed_commit_can_be_retried(s: Seq<PendingModel>, token: Seq<char>, now_ms: u128)
    requires
        tokens_distinct(s),
        has_token(fresh(s, now_ms, COMMIT_TOKEN_MAX_AGE_MS), token),
    ensures
        ({
            let kept = fresh(s, now_ms, COMMIT_TOKEN_MAX_AGE_MS);
            let e = kept[token_at(kept, token)];
            let s2 = put(kept.remove(token_at(kept, token)), e);
            let again = fresh(s2, now_ms, COMMIT_TOKEN_MAX_AGE_MS);
            has_token(again, token) && again[token_at(again, token)] == e
        }),
{
    let kept = fresh(s, now_ms, COMMIT_TOKEN_MAX_AGE_MS);
    lemma_fresh_distinct(s, now_ms, COMMIT_TOKEN_MAX_AGE_MS);
    lemma_fresh_parts(s, now_ms, COMMIT_TOKEN_MAX_AGE_MS);
    let i = token_at(kept, token);
    let e = kept[i];
    assert(!is_expired(e, now_ms, COMMIT_TOKEN_MAX_AGE_MS));
    lemma_remove_distinct(kept, i);
    lemma_put_distinct(kept.remove(i), e);
    lemma_fresh_keeps(put(kept.remove(i), e), e, now_ms, COMMIT_TOKEN_MAX_AGE_MS);
}

/// Expiry forgets exactly the entries older than the maximum age: none that
/// is younger, and every one that is older.
pub proof fn expiry_forgets_exactly_old_entries(s: Seq<PendingModel>, now_ms: u128, max_age_ms: u128)
    ensures
        forall|i: int|
            0 <= i < fresh(s, now_ms, max_age_ms).len() ==> !is_expired(
                #[trigger] fresh(s, now_ms, max_age_ms)[i],
                now_ms,
                max_age_ms,
            ),
        forall|i: int|
            0 <= i < s.len() && !is_expired(#[trigger] s[i], now_ms, max_age_ms) ==> fresh(
                s,
                now_ms,
                max_age_ms,
            ).contains(s[i]),
{
    lemma_fresh_parts(s, now_ms, max_age_ms);
}

/// What the sidecar reports it can do.
pub struct AppCapabilitiesResult {
    pub protocol_version: u8,
    pub variant: String,
    pub codecs: Vec<CodecInfo>,
}

/// The codecs the sidecar reports, from the output of `ffmpeg -encoders`:
/// the supported encoders it lists, as `get_build_variant` shows them.
pub open spec fn reported_codecs(encoders_output: Seq<char>) -> Seq<Seq<char>> {
    display_codecs(encoders_from(encoders_output, 0))
}

pub open spec fn no_codecs_error(e: AppError) -> bool {
    is_message_error(
        e,
        "No supported video codecs found in FFmpeg. Please ensure FFmpeg is properly installed with codec support."@,
    )
}

/// The build variant and codecs, from the output of `ffmpeg -encoders`.
pub fn detect_build_variant(encoders_output: &str) -> (r: Result<BuildVariantResult, AppError>)
    ensures
        match r {
            Ok(res) => {
                &&& reported_codecs(encoders_output@).len() > 0
                &&& res.variant@ == build_variant_name()
                &&& res.codecs@.len() == reported_codecs(encoders_output@).len()
                &&& forall|i: int|
                    0 <= i < res.codecs@.len() ==> #[trigger] is_codec_info(
                        res.codecs@[i],
                        reported_codecs(encoders_output@)[i],
                    )
            },
            Err(e) => reported_codecs(encoders_output@).len() == 0 && no_codecs_error(e),
        },
{
    let available = parse_encoder_output(encoders_output);
    proof {
        lemma_encoders_supported(encoders_output@, 0);
        assert forall|i: int| 0 <= i < available@.len() implies crate::codec::is_supported_codec(#[trigger] available@[i]@) by {
            assert(views(available@)[i] == available@[i]@);
        }
    }
    get_build_variant(available)
}

/// The protocol version, build variant and codecs of this sidecar, from the
/// output of `ffmpeg -encoders`.
pub fn app_capabilities(encoders_output: &str) -> (r: Result<AppCapabilitiesResult, AppError>)
    ensures
        match r {
            Ok(res) => {
                &&& res.protocol_version == PROTOCOL_VERSION
                &&& reported_codecs(encoders_output@).len() > 0
                &&& res.variant@ == build_variant_name()
                &&& res.codecs@.len() == reported_codecs(encoders_output@).len()
                &&& forall|i: int|
                    0 <= i < res.codecs@.len() ==> #[trigger] is_codec_info(
                        res.codecs@[i],
                        reported_codecs(encoders_output@)[i],
                    )
            },
            Err(e) => reported_codecs(encoders_output@).len() == 0 && no_codecs_error(e),
        },
{
    match detect_build_variant(encoders_output) {
        Ok(v) => Ok(AppCapabilitiesResult { protocol_version: PROTOCOL_VERSION, variant: v.variant, codecs: v.codecs }),
        Err(e) => Err(e),
    }
}

/// Capabilities as integration tests read them.
pub struct AppCapabilitiesForTest {
    pub protocol_version: u8,
    pub variant: String,
    pub codecs: Vec<CodecInfo>,
}

/// `app_capabilities` with the error as its display text.
pub fn app_capabilities_for_test(encoders_output: &str) -> (r: Result<AppCapabilitiesForTest, String>)
    ensures
        match r {
            Ok(res) => {
                &&& res.protocol_version == 2
                &&& reported_codecs(encoders_output@).len() > 0
                &&& res.variant@ == build_variant_name()
                &&& res.codecs@.len() == reported_codecs(encoders_output@).len()
                &&& forall|i: int|
                    0 <= i < res.codecs@.len() ==> #[trigger] is_codec_info(
                        res.codecs@[i],
                        reported_codecs(encoders_output@)[i],
                    )
            },
            Err(m) => reported_codecs(encoders_output@).len() == 0 && exists|e: AppError|
                no_codecs_error(e) && #[trigger] message_spec(e) == m@,
        },
{
    match detect_build_variant(encoders_output) {
        Ok(v) => Ok(AppCapabilitiesForTest { protocol_version: 2, variant: v.variant, codecs: v.codecs }),
        Err(e) => {
            let m = e.message();
            Err(m)
        },
    }
}

/// The transcode command shown to the user: `ffmpeg` on its own line, then
/// the arguments as `format_args_for_display_multiline` lays them out, for
/// `input_path` (or `<input>`) and the output `<output>`.
pub fn preview_ffmpeg_command(options: &TranscodeOptions, input_path: Option<&str>) -> (r: String)
    requires
        options.max_bitrate matches Some(b) ==> b <= 0x7fff_ffff,
    ensures
        r@ == "ffmpeg\n"@ + join_lines(
            display_lines(
                ffmpeg_command(
                    match input_path {
                        Some(p) => p@,
                        None => "<input>"@,
                    },
                    "<output>"@,
                    *options,
                    None::<Decimal>,
                    None::<Seq<char>>,
                    None::<Decimal>,
                ),
            ),
        ),
{
    let input = match input_path {
        Some(p) => p,
        None => "<input>",
    };
    let args = match build_ffmpeg_command(input, "<output>", options, None, None, None) {
        Ok(a) => a,
        Err(e) => {
            let mut a: Vec<String> = Vec::new();
            a.push(String::from_str("# error"));
            a.push(e.message());
            a
        },
    };
    let mut r = String::from_str("ffmpeg\n");
    let shown = format_args_for_display_multiline(args.as_slice());
    push_str(&mut r, shown.as_str());
    r
}

/// What is deleted at startup: the old temp files (by name, among the names
/// found in the temp directory) and the expired pending outputs, which are
/// forgotten.
pub fn cleanup_startup_temp(
    pending: &mut PendingTranscodes,
    temp_dir_names: &[String],
    now_ms: u128,
    max_age_ms: u128,
) -> (r: (Vec<String>, Vec<String>))
    requires
        old(pending).wf(),
    ensures
        final(pending).wf(),
        final(pending)@.entries == fresh(old(pending)@.entries, now_ms, max_age_ms),
        views(r.1@) == expired_paths(old(pending)@.entries, now_ms, max_age_ms),
        views(r.0@) == stale_names(views(temp_dir_names@), now_ms, max_age_ms),
{
    let mut stale: Vec<String> = Vec::new();
    let mut i: usize = 0;
    while i < temp_dir_names.len()
        invariant
            i <= temp_dir_names.len(),
            views(stale@) == stale_names(views(temp_dir_names@).take(i as int), now_ms, max_age_ms),
        decreases temp_dir_names.len() - i,
    {
        let ghost names = views(temp_dir_names@);
        assert(names.take(i + 1).drop_last() =~= names.take(i as int));
        assert(names.take(i + 1).last() == temp_dir_names@[i as int]@);
        if is_stale_temp_file(temp_dir_names[i].as_str(), now_ms, max_age_ms) {
            let ghost before = stale@;
            let n = owned(temp_dir_names[i].as_str());
            stale.push(n);
            assert(stale@ =~= before.push(n));
            assert(views(stale@) =~= views(before).push(n@));
        }
        i = i + 1;
    }
    assert(views(temp_dir_names@).take(temp_dir_names.len() as int) =~= views(temp_dir_names@));
    let expired = pending.cleanup_pending_transcodes(now_ms, max_age_ms);
    (stale, expired)
}

/// The names among `names` of old temp files, in order.
pub open spec fn stale_names(names: Seq<Seq<char>>, now_ms: u128, max_age_ms: u128) -> Seq<Seq<char>>
    decreases names.len(),
{
    if names.len() == 0 {
        Seq::empty()
    } else if is_stale(names.last(), now_ms, max_age_ms) {
        stale_names(names.drop_last(), now_ms, max_age_ms).push(names.last())
    } else {
        stale_names(names.drop_last(), now_ms, max_age_ms)
    }
}

/// Startup cleanup deletes exactly the old temp files: a name is chosen for
/// deletion if and only if it is in the directory and is stale (a
/// `tiny-vid-` name whose timestamp is more than the maximum age ago); every
/// other name is left alone.
pub proof fn startup_cleanup_takes_exactly_stale(names: Seq<Seq<char>>, now_ms: u128, max_age_ms: u128, n: Seq<char>)
    ensures
        stale_names(names, now_ms, max_age_ms).contains(n) <==> (names.contains(n) && is_stale(
            n,
            now_ms,
            max_age_ms,
        )),
    decreases names.len(),
{
    if names.len() > 0 {
        let d = names.drop_last();
        startup_cleanup_takes_exactly_stale(d, now_ms, max_age_ms, n);
        let r = stale_names(d, now_ms, max_age_ms);
        if names.contains(n) && !d.contains(n) {
            assert(names.last() == n) by {
                let k = choose|k: int| 0 <= k < names.len() && names[k] == n;
                if k < d.len() {
                    assert(d[k] == n);
                }
            }
        }
        if d.contains(n) {
            let k = choose|k: int| 0 <= k < d.len() && d[k] == n;
            assert(names[k] == n);
        }
        if is_stale(names.last(), now_ms, max_age_ms) {
            let r2 = r.push(names.last());
            if r.contains(n) {
                let k = choose|k: int| 0 <= k < r.len() && r[k] == n;
                assert(r2[k] == n);
            }
            if r2.contains(n) && !r.contains(n) {
                let k = choose|k: int| 0 <= k < r2.len() && r2[k] == n;
                if k < r.len() {
                    assert(r[k] == n);
                }
            }
            if names.last() == n {
                assert(r2[r.len() as int] == n);
            }
        }
    }
}

/// The two kinds of long-running job.
#[derive(Clone, Copy, Debug, PartialEq, Eq)]
pub enum JobKind {
    Preview,
    Transcode,
}

#[derive(Clone, Copy, Debug, PartialEq, Eq)]
pub struct ActiveJob {
    pub job_id: u64,
    pub kind: JobKind,
}

/// At most one job runs at a time; jobs are numbered from 1, and each job
/// gets the next number (the counter wraps after `u64::MAX`).
pub struct JobState {
    active_job: Option<ActiveJob>,
    next_job_id: u64,
}

pub open spec fn kind_text(k: JobKind) -> Seq<char> {
    match k {
        JobKind::Preview => "Preview"@,
        JobKind::Transcode => "Transcode"@,
    }
}

pub open spec fn busy_message(job: ActiveJob) -> Seq<char> {
    "Another job is already running (jobId="@ + dec(job.job_id as nat) + ", kind="@ + kind_text(job.kind)
        + ")"@
}

impl JobState {
    /// The job running now.
    pub closed spec fn active(&self) -> Option<ActiveJob> {
        self.active_job
    }

    /// The number the next job gets.
    pub closed spec fn next_id(&self) -> u64 {
        self.next_job_id
    }

    pub fn new() -> (r: JobState)
        ensures
            r.active() is None,
            r.next_id() == 1,
    {
        JobState { active_job: None, next_job_id: 1 }
    }

    /// Starts a job of `kind` under the next id, unless one is running.
    pub fn begin_job(&mut self, kind: JobKind) -> (r: Result<ActiveJob, AppError>)
        ensures
            match old(self).active() {
                Some(existing) => {
                    &&& r matches Err(e) && is_message_error(e, busy_message(existing))
                    &&& final(self).active() == old(self).active()
                    &&& final(self).next_id() == old(self).next_id()
                },
                None => {
                    let job = ActiveJob { job_id: old(self).next_id(), kind };
                    &&& r == Ok::<ActiveJob, AppError>(job)
                    &&& final(self).active() == Some(job)
                    &&& final(self).next_id() == next_counter(old(self).next_id())
                },
            },
    {
        match self.active_job {
            Some(existing) => {
                let mut m = String::from_str("Another job is already running (jobId=");
                push_dec(&mut m, existing.job_id);
                push_str(&mut m, ", kind=");
                match existing.kind {
                    JobKind::Preview => push_str(&mut m, "Preview"),
                    JobKind::Transcode => push_str(&mut m, "Transcode"),
                }
                push_str(&mut m, ")");
                proof {
                    let rest = dec(existing.job_id as nat) + ", kind="@ + kind_text(existing.kind) + ")"@;
                    reveal_strlit("Another job is already running (jobId=");
                    lemma_not_aborted("Another job is already running (jobId="@, rest);
                    assert(m@ =~= busy_message(existing));
                    assert(busy_message(existing) =~= "Another job is already running (jobId="@ + rest);
                }
                Err(AppError::from(m))
            },
            None => {
                let job = ActiveJob { job_id: self.next_job_id, kind };
                self.next_job_id = if self.next_job_id == 0xffff_ffff_ffff_ffffu64 {
                    0
                } else {
                    self.next_job_id + 1
                };
                self.active_job = Some(job);
                Ok(job)
            },
        }
    }

    /// Ends the job `job_id` if it is the one running.
    pub fn finish_job(&mut self, job_id: u64)
        ensures
            final(self).next_id() == old(self).next_id(),
            final(self).active() == match old(self).active() {
                Some(a) => if a.job_id == job_id {
                    None
                } else {
                    Some(a)
                },
                None => None,
            },
    {
        match self.active_job {
            Some(a) => {
                if a.job_id == job_id {
                    self.active_job = None;
                }
            },
            None => {},
        }
    }

    pub fn current_job(&self) -> (r: Option<ActiveJob>)
        ensures
            r == self.active(),
    {
        self.active_job
    }
}

/// The error an RPC reply carries.
pub struct RpcErrorPayload {
    pub summary: String,
    pub detail: String,
}

/// The reply to an error: a cancellation says `Aborted`; a plain message
/// (exit code -1) is both summary and detail; another FFmpeg failure is
/// summarized from its exit code and stderr; anything else is its text.
pub fn parse_error_payload(err: &AppError) -> (r: RpcErrorPayload)
    ensures
        match err {
            AppError::Aborted => r.summary@ == "Aborted"@ && r.detail@ == "Aborted"@,
            AppError::FfmpegFailed { code, stderr } => if *code == -1 {
                r.summary@ == stderr@ && r.detail@ == stderr@
            } else {
                r.summary@ == summary_spec(stderr@, Some(*code)) && r.detail@ == trim(stderr@)
            },
            AppError::FfmpegNotFound(s) => r.summary@ == s@ && r.detail@ == s@,
            AppError::Io(_) => r.summary@ == r.detail@,
        },
{
    match err {
        AppError::Aborted => RpcErrorPayload { summary: String::from_str("Aborted"), detail: String::from_str("Aborted") },
        AppError::FfmpegFailed { code, stderr } => {
            if *code == -1 {
                RpcErrorPayload { summary: stderr.clone(), detail: stderr.clone() }
            } else {
                let p = parse_ffmpeg_error(stderr.as_str(), Some(*code));
                RpcErrorPayload { summary: p.summary, detail: p.detail }
            }
        },
        _ => {
            let text = err.message();
            RpcErrorPayload { summary: text.clone(), detail: text }
        },
    }
}

/// One call on a `JobState` moves its next id from `ns[i]` to `ns[i + 1]`:
/// `begin_job` advances it (`next_counter`), every other call keeps it.
pub open spec fn counter_step(ns: Seq<u64>, i: int) -> bool {
    ns[i + 1] == ns[i] || ns[i + 1] == next_counter(ns[i])
}

pub open spec fn counter_run(ns: Seq<u64>) -> bool {
    forall|i: int| 0 <= i < ns.len() - 1 ==> #[trigger] counter_step(ns, i)
}

/// Job ids only grow: along any run of calls on one `JobState` the next id
/// never goes down while it stays below `u64::MAX` (where it wraps). A job is
/// issued the next id and issuing advances it, so a later job gets a greater
/// id than an earlier one.
pub proof fn job_ids_only_grow(ns: Seq<u64>, i: int, j: int)
    requires
        counter_run(ns),
        forall|k: int| 0 <= k < ns.len() - 1 ==> #[trigger] ns[k] < u64::MAX,
        0 <= i <= j < ns.len(),
    ensures
        ns[i] <= ns[j],
        i < j && counter_step(ns, i) && ns[i + 1] == next_counter(ns[i]) ==> ns[i] < ns[j],
    decreases j - i,
{
    if i < j {
        assert(counter_step(ns, i));
        assert(ns[i] < u64::MAX);
        job_ids_only_grow(ns, i + 1, j);
    }
}

/// `media.process` of kind `preview` or `transcode` runs as a job; every
/// other request is answered at once.
pub open spec fn is_async(method: Seq<char>, kind: Option<Seq<char>>) -> bool {
    method == "media.process"@ && (kind == Some("preview"@) || kind == Some("transcode"@))
}

pub fn is_async_request(method: &str, kind: Option<&str>) -> (r: bool)
    ensures
        r == is_async(method@, match kind {
            Some(k) => Some(k@),
            None => None,
        }),
{
    if !str_eq(method, "media.process") {
        return false;
    }
    match kind {
        Some(k) => str_eq(k, "preview") || str_eq(k, "transcode"),
        None => false,
    }
}

/// The job kind of an asynchronous `media.process` request.
pub fn async_job_kind(kind: &str) -> (r: Option<JobKind>)
    ensures
        r == if kind@ == "preview"@ {
            Some(JobKind::Preview)
        } else if kind@ == "transcode"@ {
            Some(JobKind::Transcode)
        } else {
            None::<JobKind>
        },
{
    if str_eq(kind, "preview") {
        Some(JobKind::Preview)
    } else if str_eq(kind, "transcode") {
        Some(JobKind::Transcode)
    } else {
        None
    }
}

/// The answer to `media.cancel`.
pub enum CancelDecision {
    /// No job runs and none was named.
    NothingToCancel,
    /// Stop the running job with this id.
    Cancel(u64),
    /// The named job is not the running one.
    Unknown(u64),
}

pub fn cancel_decision(current: Option<ActiveJob>, requested: Option<u64>) -> (r: CancelDecision)
    ensures
        r == match (current, requested) {
            (None, Some(id)) => CancelDecision::Unknown(id),
            (None, None) => CancelDecision::NothingToCancel,
            (Some(a), Some(id)) => if a.job_id != id {
                CancelDecision::Unknown(id)
            } else {
                CancelDecision::Cancel(a.job_id)
            },
            (Some(a), None) => CancelDecision::Cancel(a.job_id),
        },
{
    match (current, requested) {
        (None, Some(id)) => CancelDecision::Unknown(id),
        (None, None) => CancelDecision::NothingToCancel,
        (Some(a), Some(id)) => if a.job_id != id {
            CancelDecision::Unknown(id)
        } else {
            CancelDecision::Cancel(a.job_id)
        },
        (Some(a), None) => CancelDecision::Cancel(a.job_id),
    }
}

/// The requests the sidecar answers.
#[derive(Clone, Copy, Debug, PartialEq, Eq)]
pub enum RpcMethod {
    AppCapabilities,
    MediaInspect,
    MediaProcess,
    MediaCancel,
}

pub fn rpc_method(method: &str) -> (r: Option<RpcMethod>)
    ensures
        r == if method@ == "app.capabilities"@ {
            Some(RpcMethod::AppCapabilities)
        } else if method@ == "media.inspect"@ {
            Some(RpcMethod::MediaInspect)
        } else if method@ == "media.process"@ {
            Some(RpcMethod::MediaProcess)
        } else if method@ == "media.cancel"@ {
            Some(RpcMethod::MediaCancel)
        } else {
            None::<RpcMethod>
        },
{
    if str_eq(method, "app.capabilities") {
        Some(RpcMethod::AppCapabilities)
    } else if str_eq(method, "media.inspect") {
        Some(RpcMethod::MediaInspect)
    } else if str_eq(method, "media.process") {
        Some(RpcMethod::MediaProcess)
    } else if str_eq(method, "media.cancel") {
        Some(RpcMethod::MediaCancel)
    } else {
        None
    }
}

/// The error for a method the sidecar does not know.
pub fn unknown_method_error(method: &str) -> (e: AppError)
    ensures
        is_message_error(e, "Unknown method: "@ + method@),
{
    proof {
        reveal_strlit("Unknown method: ");
        lemma_not_aborted("Unknown method: "@, method@);
    }
    message_error("Unknown method: ", method)
}

/// The error for cancelling a job that is not running.
pub fn unknown_job_error(job_id: u64) -> (e: AppError)
    ensures
        is_message_error(e, "Unknown jobId: "@ + dec(job_id as nat)),
{
    let mut m = String::from_str("Unknown jobId: ");
    push_dec(&mut m, job_id);
    proof {
        reveal_strlit("Unknown jobId: ");
        lemma_not_aborted("Unknown jobId: "@, dec(job_id as nat));
    }
    AppError::from(m)
}

/// The OS error a rename across file systems fails with (`EXDEV`, 18, on
/// Unix; `ERROR_NOT_SAME_DEVICE`, 17, on Windows); such a move is done by
/// copying instead.
pub fn is_cross_device_rename_error(raw_os_error: Option<i32>, windows: bool) -> (r: bool)
    ensures
        r == (raw_os_error == Some(if windows { 17i32 } else { 18i32 })),
{
    match raw_os_error {
        Some(c) => if windows {
            c == 17
        } else {
            c == 18
        },
        None => false,
    }
}

} // verus!
