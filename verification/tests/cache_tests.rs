use tiny_vid_core::ffmpeg::cache::{FileSignature, PreviewCache, PREVIEW_CACHE_MAX_ENTRIES};
use tiny_vid_core::decimal::Decimal;
use tiny_vid_core::ffmpeg::options::{EstimateConfidence, SizeEstimate, TranscodeOptions};

fn sig() -> FileSignature {
    FileSignature { size: 4, modified_ms: 1_700_000_000_000 }
}

fn estimate(best: u64) -> SizeEstimate {
    SizeEstimate {
        best_size: best,
        low_size: best / 2,
        high_size: best * 2,
        confidence: EstimateConfidence::Medium,
        method: "sampled_bitrate".to_string(),
        sample_count: 3,
        sample_seconds_total: Decimal::from_int(4),
    }
}

fn opts_with_preset(p: &str) -> TranscodeOptions {
    let mut o = TranscodeOptions::default();
    o.preset = Some(p.to_string());
    o
}

#[test]
fn lru_evicts_oldest_when_over_limit() {
    let mut cache = PreviewCache::new();
    let s = sig();
    let mut deleted = Vec::new();
    for i in 0..PREVIEW_CACHE_MAX_ENTRIES + 1 {
        let opts = opts_with_preset(&format!("preset_{}", i));
        deleted.extend(cache.set_cached_preview(
            "/in.mp4",
            3,
            0,
            &opts,
            vec![format!("/tmp/lru-seg-{}.mp4", i)],
            format!("/tmp/lru-out-{}.mp4", i),
            Some(&s),
        ));
    }
    assert!(
        deleted.contains(&"/tmp/lru-out-0.mp4".to_string()),
        "LRU should have evicted the first entry's output"
    );
    // Every later call reuses the segments stored first, so its own are redundant.
    assert_eq!(deleted.len(), PREVIEW_CACHE_MAX_ENTRIES + 1);
    assert_eq!(
        &deleted[deleted.len() - 2..],
        &["/tmp/lru-out-0.mp4".to_string(), "/tmp/lru-seg-16.mp4".to_string()]
    );
    let kept = cache.get_all_cached_paths();
    assert!(!kept.contains(&"/tmp/lru-out-0.mp4".to_string()));
    assert!(kept.contains(&"/tmp/lru-out-16.mp4".to_string()));
    assert!(kept.contains(&"/tmp/lru-seg-0.mp4".to_string()));
}

#[test]
fn get_all_cached_paths_returns_matching_paths() {
    let mut cache = PreviewCache::new();
    let s = sig();
    let seg = "/tmp/paths-seg.mp4".to_string();
    let path1 = "/tmp/paths-out-1.mp4".to_string();
    let path2 = "/tmp/paths-out-2.mp4".to_string();
    cache.set_cached_preview("/in.mp4", 3, 0, &opts_with_preset("p1"), vec![seg.clone()], path1.clone(), Some(&s));
    cache.set_cached_preview("/in.mp4", 3, 0, &opts_with_preset("p2"), vec![seg.clone()], path2.clone(), Some(&s));
    let kept = cache.get_all_cached_paths();
    assert!(kept.contains(&seg));
    assert!(kept.contains(&path1));
    assert!(kept.contains(&path2));
    assert_eq!(kept, vec![seg, path1, path2]);
}

#[test]
fn get_cached_preview_returns_both_paths() {
    let mut cache = PreviewCache::new();
    let s = sig();
    let opts = TranscodeOptions::default();
    let seg = "/tmp/preview-seg.mp4".to_string();
    let out = "/tmp/preview-out.mp4".to_string();
    cache.set_cached_preview("/in.mp4", 3, 0, &opts, vec![seg.clone()], out.clone(), Some(&s));
    let (result, deleted) = cache.get_cached_preview("/in.mp4", 3, 0, &opts, Some(&s), true, true);
    let result = result.unwrap();
    assert_eq!(result.0, seg);
    assert_eq!(result.1, out);
    assert!(deleted.is_empty());
}

#[test]
fn estimate_cache_round_trip() {
    let mut cache = PreviewCache::new();
    let s = sig();
    let opts = opts_with_preset("fast");
    cache.set_cached_estimate("/in.mp4", 3, &opts, estimate(123), Some(&s));
    let cached = cache.get_cached_estimate("/in.mp4", 3, &opts, Some(&s)).map(|e| e.best_size);
    assert_eq!(cached, Some(123));
    cache.set_cached_estimate("/in.mp4", 3, &opts, estimate(456), Some(&s));
    let e = cache.get_cached_estimate("/in.mp4", 3, &opts, Some(&s)).unwrap();
    assert_eq!((e.best_size, e.low_size, e.high_size), (456, 228, 912));
    assert_eq!(e.confidence, EstimateConfidence::Medium);
    assert_eq!(e.method, "sampled_bitrate");
    assert!(cache.get_cached_estimate("/in.mp4", 4, &opts, Some(&s)).is_none());
    assert!(cache.get_cached_estimate("/in.mp4", 3, &opts, None).is_none());
    let mut webm = opts_with_preset("fast");
    webm.output_format = Some("webm".into());
    assert!(cache.get_cached_estimate("/in.mp4", 3, &webm, Some(&s)).is_none());
}

#[test]
fn preview_cache_distinguishes_start_offsets() {
    let mut cache = PreviewCache::new();
    let s = sig();
    let opts = TranscodeOptions::default();
    cache.set_cached_preview("/in.mp4", 3, 0, &opts, vec!["/tmp/a-seg.mp4".into()], "/tmp/a-out.mp4".into(), Some(&s));
    cache.set_cached_preview("/in.mp4", 3, 1000, &opts, vec!["/tmp/b-seg.mp4".into()], "/tmp/b-out.mp4".into(), Some(&s));
    let a = cache.get_cached_preview("/in.mp4", 3, 0, &opts, Some(&s), true, true).0.unwrap();
    let b = cache.get_cached_preview("/in.mp4", 3, 1000, &opts, Some(&s), true, true).0.unwrap();
    assert_eq!(a.1, "/tmp/a-out.mp4");
    assert_eq!(b.1, "/tmp/b-out.mp4");
}

#[test]
fn set_cached_preview_deletes_redundant_segments_when_reusing() {
    let mut cache = PreviewCache::new();
    let s = sig();
    let seg1 = "/tmp/redundant-seg-1.mp4".to_string();
    let seg2 = "/tmp/redundant-seg-2.mp4".to_string();
    let d1 = cache.set_cached_preview("/in.mp4", 3, 0, &opts_with_preset("p1"), vec![seg1.clone()], "/tmp/o1.mp4".into(), Some(&s));
    assert!(d1.is_empty());
    let d2 = cache.set_cached_preview("/in.mp4", 3, 0, &opts_with_preset("p2"), vec![seg2.clone()], "/tmp/o2.mp4".into(), Some(&s));
    assert!(d2.contains(&seg2), "redundant segment files should be deleted");
    assert!(!d2.contains(&seg1), "the stored segment files should remain");
    assert!(cache.get_all_cached_paths().contains(&seg1));
}

#[test]
fn missing_output_drops_entry_and_releases_segments() {
    let mut cache = PreviewCache::new();
    let s = sig();
    let opts = TranscodeOptions::default();
    cache.set_cached_preview("/in.mp4", 3, 0, &opts, vec!["/tmp/s.mp4".into()], "/tmp/o.mp4".into(), Some(&s));
    let (result, deleted) = cache.get_cached_preview("/in.mp4", 3, 0, &opts, Some(&s), false, true);
    assert!(result.is_none());
    assert_eq!(deleted, vec!["/tmp/o.mp4".to_string(), "/tmp/s.mp4".to_string()]);
    assert!(cache.get_all_cached_paths().is_empty());
}

#[test]
fn shared_segments_outlive_one_preview() {
    let mut cache = PreviewCache::new();
    let s = sig();
    let seg = "/tmp/shared.mp4".to_string();
    cache.set_cached_preview("/in.mp4", 3, 0, &opts_with_preset("p1"), vec![seg.clone()], "/tmp/o1.mp4".into(), Some(&s));
    cache.set_cached_preview("/in.mp4", 3, 0, &opts_with_preset("p2"), vec![seg.clone()], "/tmp/o2.mp4".into(), Some(&s));
    let (_, deleted) = cache.get_cached_preview("/in.mp4", 3, 0, &opts_with_preset("p1"), Some(&s), false, true);
    assert_eq!(deleted, vec!["/tmp/o1.mp4".to_string()]);
    assert_eq!(cache.segment_files("/in.mp4", 3, 0, Some(&s)), Some(vec![seg.clone()]));
    let (_, deleted) = cache.get_cached_preview("/in.mp4", 3, 0, &opts_with_preset("p2"), Some(&s), false, true);
    assert_eq!(deleted, vec!["/tmp/o2.mp4".to_string(), seg]);
}

#[test]
fn segments_with_missing_files_are_forgotten() {
    let mut cache = PreviewCache::new();
    let s = sig();
    cache.set_cached_preview("/in.mp4", 3, 0, &TranscodeOptions::default(), vec!["/tmp/s.mp4".into()], "/tmp/o.mp4".into(), Some(&s));
    assert_eq!(cache.get_cached_segments("/in.mp4", 3, 0, Some(&s), true), Some(vec!["/tmp/s.mp4".to_string()]));
    assert_eq!(cache.get_cached_segments("/in.mp4", 3, 0, Some(&s), false), None);
    assert_eq!(cache.segment_files("/in.mp4", 3, 0, Some(&s)), None);
}

#[test]
fn nothing_is_stored_without_signature() {
    let mut cache = PreviewCache::new();
    let deleted = cache.set_cached_preview("/in.mp4", 3, 0, &TranscodeOptions::default(), vec!["/tmp/s.mp4".into()], "/tmp/o.mp4".into(), None);
    assert!(deleted.is_empty());
    assert!(cache.get_all_cached_paths().is_empty());
}

#[test]
fn changed_file_signature_misses() {
    let mut cache = PreviewCache::new();
    let s = sig();
    let opts = TranscodeOptions::default();
    cache.set_cached_preview("/in.mp4", 3, 0, &opts, vec!["/tmp/s.mp4".into()], "/tmp/o.mp4".into(), Some(&s));
    let other = FileSignature { size: 5, modified_ms: s.modified_ms };
    assert!(cache.get_cached_preview("/in.mp4", 3, 0, &opts, Some(&other), true, true).0.is_none());
}

#[test]
fn cleanup_returns_everything_and_empties() {
    let mut cache = PreviewCache::new();
    let s = sig();
    cache.set_cached_preview("/in.mp4", 3, 0, &TranscodeOptions::default(), vec!["/tmp/s.mp4".into()], "/tmp/o.mp4".into(), Some(&s));
    cache.set_cached_estimate("/in.mp4", 3, &TranscodeOptions::default(), estimate(9), Some(&s));
    let deleted = cache.cleanup_preview_transcode_cache();
    assert_eq!(deleted, vec!["/tmp/o.mp4".to_string(), "/tmp/s.mp4".to_string()]);
    assert!(cache.get_all_cached_paths().is_empty());
    assert!(cache.get_cached_estimate("/in.mp4", 3, &TranscodeOptions::default(), Some(&s)).is_none());
}
