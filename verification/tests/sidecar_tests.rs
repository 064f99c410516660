use tiny_vid_core::error::AppError;
use tiny_vid_core::ffmpeg::cache::{FileSignature, PreviewCache};
use tiny_vid_core::ffmpeg::options::TranscodeOptions;
use tiny_vid_core::ffmpeg::temp::TempPaths;
use tiny_vid_core::sidecar::{
    app_capabilities, app_capabilities_for_test, async_job_kind, cancel_decision, cleanup_on_exit,
    cleanup_startup_temp, is_async_request, make_commit_token, parse_error_payload,
    preview_ffmpeg_command, rpc_method, unknown_job_error, unknown_method_error, ActiveJob,
    CancelDecision, JobKind, JobState, PendingTranscodes, RpcMethod, COMMIT_TOKEN_MAX_AGE_MS,
};

const NOW: u128 = 1_700_000_000_000;

fn message_of(e: AppError) -> String {
    e.message()
}

#[test]
fn commit_token_unknown_returns_error() {
    let mut pending = PendingTranscodes::new();
    let (result, deleted) = pending.commit_transcode_output("missing-token", NOW);
    assert!(deleted.is_empty());
    let error = result.err().expect("should fail");
    assert!(
        message_of(error).contains("Unknown commitToken"),
        "unexpected error"
    );
}

#[test]
fn commit_token_commit_moves_file() {
    let mut pending = PendingTranscodes::new();
    let mut temp = TempPaths::new();
    temp.set_transcode_temp(Some("/tmp/source.mp4".to_string()));
    let (token, _) = pending.register_transcode_commit(&mut temp, "/tmp/source.mp4", true, NOW);
    let token = token.expect("register token");
    assert_eq!(temp.cleanup_transcode_temp(), None, "output is no longer the current transcode");
    let (taken, _) = pending.commit_transcode_output(&token, NOW + 1);
    let entry = taken.expect("commit");
    assert_eq!(entry.path, "/tmp/source.mp4");
    let saved = pending.finish_commit(&token, entry, "/tmp/dest.mp4", Ok(())).unwrap();
    assert_eq!(saved, "/tmp/dest.mp4");
    let (again, _) = pending.commit_transcode_output(&token, NOW + 2);
    assert!(again.is_err(), "a saved output cannot be saved twice");
}

#[test]
fn commit_token_discard_removes_file() {
    let mut pending = PendingTranscodes::new();
    let mut temp = TempPaths::new();
    let (token, _) = pending.register_transcode_commit(&mut temp, "/tmp/source.mp4", true, NOW);
    let (path, _) = pending.discard_transcode_output(&token.unwrap(), NOW);
    assert_eq!(path.unwrap(), "/tmp/source.mp4");
}

#[test]
fn cleanup_pending_transcodes_removes_expired_entries() {
    let mut pending = PendingTranscodes::new();
    let mut temp = TempPaths::new();
    let (token, _) = pending.register_transcode_commit(&mut temp, "/tmp/source.mp4", true, NOW - 120_000);
    let deleted = pending.cleanup_pending_transcodes(NOW, 1_000);
    assert_eq!(deleted, vec!["/tmp/source.mp4".to_string()]);
    let (result, _) = pending.commit_transcode_output(&token.unwrap(), NOW);
    assert!(result.is_err(), "expired token should be removed");
}

#[test]
fn commit_token_format_and_ids() {
    assert_eq!(make_commit_token(1234, 7), "commit-1234-7");
    let mut pending = PendingTranscodes::new();
    let mut temp = TempPaths::new();
    let (t1, _) = pending.register_transcode_commit(&mut temp, "/tmp/a.mp4", true, 99);
    let (t2, _) = pending.register_transcode_commit(&mut temp, "/tmp/b.mp4", true, 99);
    assert_eq!(t1.unwrap(), "commit-99-1");
    assert_eq!(t2.unwrap(), "commit-99-2");
}

#[test]
fn register_refuses_missing_output() {
    let mut pending = PendingTranscodes::new();
    let mut temp = TempPaths::new();
    let (r, deleted) = pending.register_transcode_commit(&mut temp, "/tmp/nope.mp4", false, NOW);
    assert!(deleted.is_empty());
    assert_eq!(message_of(r.err().unwrap()), "FFmpeg failed (code -1): Transcode output does not exist: /tmp/nope.mp4");
    let (t, _) = pending.register_transcode_commit(&mut temp, "/tmp/yes.mp4", true, NOW);
    assert_eq!(t.unwrap(), format!("commit-{}-1", NOW), "a refused output uses no id");
}

#[test]
fn failed_move_keeps_token_for_retry() {
    let mut pending = PendingTranscodes::new();
    let mut temp = TempPaths::new();
    let token = pending.register_transcode_commit(&mut temp, "/tmp/src.mp4", true, NOW).0.unwrap();
    let entry = pending.commit_transcode_output(&token, NOW).0.unwrap();
    let r = pending.finish_commit(&token, entry, "/readonly/dest.mp4", Err(AppError::from("permission denied")));
    assert!(r.is_err());
    let retried = pending.commit_transcode_output(&token, NOW).0.unwrap();
    assert_eq!(retried.path, "/tmp/src.mp4");
    assert_eq!(retried.created_at_ms, NOW);
}

#[test]
fn token_expires_after_a_day() {
    let mut pending = PendingTranscodes::new();
    let mut temp = TempPaths::new();
    let token = pending.register_transcode_commit(&mut temp, "/tmp/src.mp4", true, NOW).0.unwrap();
    let (r, deleted) = pending.commit_transcode_output(&token, NOW + COMMIT_TOKEN_MAX_AGE_MS + 1);
    assert!(r.is_err());
    assert_eq!(deleted, vec!["/tmp/src.mp4".to_string()]);
}

#[test]
fn job_state_allows_one_job_at_a_time() {
    let mut jobs = JobState::new();
    let job = jobs.begin_job(JobKind::Preview).unwrap();
    assert_eq!(job, ActiveJob { job_id: 1, kind: JobKind::Preview });
    let err = jobs.begin_job(JobKind::Transcode).err().unwrap();
    assert_eq!(
        message_of(err),
        "FFmpeg failed (code -1): Another job is already running (jobId=1, kind=Preview)"
    );
    jobs.finish_job(2);
    assert_eq!(jobs.current_job(), Some(job));
    jobs.finish_job(1);
    assert_eq!(jobs.current_job(), None);
    assert_eq!(jobs.begin_job(JobKind::Transcode).unwrap().job_id, 2);
}

#[test]
fn cancel_decisions() {
    let active = ActiveJob { job_id: 4, kind: JobKind::Transcode };
    assert!(matches!(cancel_decision(None, Some(3)), CancelDecision::Unknown(3)));
    assert!(matches!(cancel_decision(None, None), CancelDecision::NothingToCancel));
    assert!(matches!(cancel_decision(Some(active), Some(3)), CancelDecision::Unknown(3)));
    assert!(matches!(cancel_decision(Some(active), Some(4)), CancelDecision::Cancel(4)));
    assert!(matches!(cancel_decision(Some(active), None), CancelDecision::Cancel(4)));
    assert_eq!(message_of(unknown_job_error(3)), "FFmpeg failed (code -1): Unknown jobId: 3");
}

#[test]
fn request_routing() {
    assert!(is_async_request("media.process", Some("preview")));
    assert!(is_async_request("media.process", Some("transcode")));
    assert!(!is_async_request("media.process", Some("commit")));
    assert!(!is_async_request("media.process", None));
    assert!(!is_async_request("media.inspect", Some("preview")));
    assert_eq!(async_job_kind("preview"), Some(JobKind::Preview));
    assert_eq!(async_job_kind("discard"), None);
    assert_eq!(rpc_method("app.capabilities"), Some(RpcMethod::AppCapabilities));
    assert_eq!(rpc_method("media.cancel"), Some(RpcMethod::MediaCancel));
    assert_eq!(rpc_method("media.unknown"), None);
    assert_eq!(message_of(unknown_method_error("x.y")), "FFmpeg failed (code -1): Unknown method: x.y");
}

#[test]
fn error_payloads() {
    let p = parse_error_payload(&AppError::Aborted);
    assert_eq!((p.summary.as_str(), p.detail.as_str()), ("Aborted", "Aborted"));
    let p = parse_error_payload(&AppError::from("plain message"));
    assert_eq!((p.summary.as_str(), p.detail.as_str()), ("plain message", "plain message"));
    let p = parse_error_payload(&AppError::ffmpeg_failed(1, " boom \n".to_string()));
    assert_eq!((p.summary.as_str(), p.detail.as_str()), ("FFmpeg failed.", "boom"));
    let p = parse_error_payload(&AppError::FfmpegNotFound("missing".to_string()));
    assert_eq!((p.summary.as_str(), p.detail.as_str()), ("missing", "missing"));
}

#[test]
fn capabilities_from_encoder_list() {
    let out = " V..... libx264 H.264\n V..... h264_videotoolbox VT\n";
    let caps = app_capabilities(out).unwrap();
    assert_eq!(caps.protocol_version, 2);
    assert_eq!(caps.variant, "standalone");
    assert_eq!(caps.codecs.len(), 1);
    assert_eq!(caps.codecs[0].value, "libx264");
    let err = app_capabilities_for_test(" A..... aac AAC\n").err().unwrap();
    assert!(err.contains("No supported video codecs found in FFmpeg"));
}

#[test]
fn command_preview_uses_placeholders() {
    let text = preview_ffmpeg_command(&TranscodeOptions::default(), None);
    assert!(text.starts_with("ffmpeg\n"));
    assert!(text.contains("<input>"));
    assert!(text.ends_with("<output>"));
    let text = preview_ffmpeg_command(&TranscodeOptions::default(), Some("/videos/in.mov"));
    assert!(text.contains("/videos/in.mov"));
}

#[test]
fn exit_cleanup_returns_every_file() {
    let mut temp = TempPaths::new();
    let mut pending = PendingTranscodes::new();
    let mut cache = PreviewCache::new();
    let sig = FileSignature { size: 1, modified_ms: 2 };
    cache.set_cached_preview("/in.mp4", 3, 0, &TranscodeOptions::default(), vec!["/tmp/s.mp4".into()], "/tmp/o.mp4".into(), Some(&sig));
    pending.register_transcode_commit(&mut temp, "/tmp/p.mp4", true, NOW).0.unwrap();
    temp.set_transcode_temp(Some("/tmp/t.mp4".to_string()));
    let all = cleanup_on_exit(&mut temp, &mut pending, &mut cache);
    assert_eq!(all, vec!["/tmp/t.mp4", "/tmp/p.mp4", "/tmp/o.mp4", "/tmp/s.mp4"]);
    assert!(cleanup_on_exit(&mut temp, &mut pending, &mut cache).is_empty());
}

#[test]
fn startup_cleanup_picks_stale_temp_files() {
    let mut pending = PendingTranscodes::new();
    let names = vec![
        "tiny-vid-1000-abc-x.mp4".to_string(),
        "notes.txt".to_string(),
        format!("tiny-vid-{}-abc-y.mp4", NOW),
    ];
    let (stale, expired) = cleanup_startup_temp(&mut pending, &names, NOW, 86_400_000);
    assert_eq!(stale, vec!["tiny-vid-1000-abc-x.mp4".to_string()]);
    assert!(expired.is_empty());
}
