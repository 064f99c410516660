use tiny_vid_core::ffmpeg::temp::{
    is_stale_temp_file, parse_timestamp_from_name, random_alphanumeric_suffix, temp_file_name,
    TempFileManager, TempPaths,
};

#[test]
fn create_yields_different_paths() {
    let manager = TempFileManager::default();
    let mut state = 0u64;
    let path1 = manager.file_name(1_700_000_000_000, &mut state, "x");
    let path2 = manager.file_name(1_700_000_000_000, &mut state, "x");
    assert_ne!(path1, path2, "two create calls should yield different paths");
}

#[test]
fn file_name_has_prefix_timestamp_random_and_suffix() {
    let manager = TempFileManager::default();
    let mut state = 0u64;
    let name = manager.file_name(42, &mut state, "suffix.mp4");
    assert_eq!(name, "tiny-vid-42-abcdefghi-suffix.mp4");
    assert_eq!(state, 9);
    assert!(name.ends_with("suffix.mp4"));
}

#[test]
fn suffix_wraps_letters_then_digits() {
    let mut state = 24u64;
    assert_eq!(random_alphanumeric_suffix(&mut state, 4), "yz01");
    assert_eq!(state, 28);
    let mut state = u64::MAX;
    let s = random_alphanumeric_suffix(&mut state, 2);
    assert_eq!(state, 1);
    // u64::MAX % 36 == 15 ('p'); the counter then wraps to 0 ('a').
    assert_eq!(s, "pa");
}

#[test]
fn timestamp_reads_back() {
    let name = temp_file_name(1_712_345_678_901, "abc", "preview-output.mp4");
    assert_eq!(parse_timestamp_from_name(&name), Some(1_712_345_678_901));
    assert_eq!(parse_timestamp_from_name("tiny-vid-123"), Some(123));
    assert_eq!(parse_timestamp_from_name("tiny-vid--x"), None);
    assert_eq!(parse_timestamp_from_name("other-123-x"), None);
    assert_eq!(parse_timestamp_from_name("tiny-vid-12a-x"), None);
}

#[test]
fn stale_files_are_older_than_max_age() {
    assert!(is_stale_temp_file("tiny-vid-1000-abc-x.mp4", 5000, 3000));
    assert!(!is_stale_temp_file("tiny-vid-1000-abc-x.mp4", 4000, 3000));
    assert!(!is_stale_temp_file("tiny-vid-9000-abc-x.mp4", 4000, 3000));
    assert!(!is_stale_temp_file("unrelated.mp4", 5000, 0));
}

#[test]
fn transcode_temp_is_taken_once() {
    let mut t = TempPaths::new();
    t.set_transcode_temp(Some("/tmp/out.mp4".to_string()));
    assert_eq!(t.cleanup_transcode_temp(), Some("/tmp/out.mp4".to_string()));
    assert_eq!(t.cleanup_transcode_temp(), None);
}

#[test]
fn previous_preview_cleanup_spares_cached_paths() {
    let mut t = TempPaths::new();
    t.store_preview_paths_for_cleanup(
        &["/tmp/seg.mp4".to_string()],
        &["/tmp/out.mp4".to_string()],
    );
    let deleted = t.cleanup_previous_preview_paths("/in.mp4", 3, &["/tmp/seg.mp4".to_string()]);
    assert_eq!(deleted, vec!["/tmp/out.mp4".to_string()]);
    assert!(t.cleanup_previous_preview_paths("/in.mp4", 3, &[]).is_empty());
}
