use syno_media_organizer::no_date_cache::{CacheEntry, NoDateCache};

fn cache(ttl_days: u32) -> NoDateCache {
    NoDateCache::new("/config/no_date_cache.json".to_string(), true, ttl_days)
}

#[test]
fn recorded_file_is_skipped_while_unchanged() {
    let mut c = cache(0);
    assert!(!c.should_skip_at("/in/a.jpg", 100, 1000));
    c.insert_at("/in/a.jpg".to_string(), 100, 1000);
    assert!(c.should_skip_at("/in/a.jpg", 100, 1000));
    assert!(c.should_skip_at("/in/a.jpg", 100, u64::MAX));
    assert!(c.needs_save());
}

#[test]
fn modified_file_is_not_skipped() {
    let mut c = cache(0);
    c.insert_at("/in/a.jpg".to_string(), 100, 1000);
    assert!(!c.should_skip_at("/in/a.jpg", 101, 1000));
}

#[test]
fn expired_record_is_not_skipped() {
    let mut c = cache(1);
    c.insert_at("/in/a.jpg".to_string(), 100, 1000);
    assert!(c.should_skip_at("/in/a.jpg", 100, 1000 + 86400));
    assert!(!c.should_skip_at("/in/a.jpg", 100, 1000 + 86401));
}

#[test]
fn removed_file_is_not_skipped() {
    let mut c = cache(0);
    c.insert_at("/in/a.jpg".to_string(), 100, 1000);
    c.mark_saved();
    assert!(!c.needs_save());
    c.remove("/in/a.jpg");
    assert!(!c.should_skip_at("/in/a.jpg", 100, 1000));
    assert!(c.needs_save());
    assert_eq!(c.len(), 0);
}

#[test]
fn removing_an_unknown_file_changes_nothing() {
    let mut c = cache(0);
    c.remove("/in/none.jpg");
    assert!(!c.needs_save());
}

#[test]
fn disabled_cache_never_records() {
    let mut c = NoDateCache::new("/config/c.json".to_string(), false, 0);
    c.insert_at("/in/a.jpg".to_string(), 100, 1000);
    assert!(!c.should_skip_at("/in/a.jpg", 100, 1000));
    assert!(!c.needs_save());
    assert_eq!(c.len(), 0);
}

#[test]
fn paths_compare_by_components() {
    let mut c = cache(0);
    c.insert_at("/in//sub/./a.jpg".to_string(), 7, 1);
    assert!(c.should_skip_at("/in/sub/a.jpg", 7, 1));
    c.insert_at("/in/sub/a.jpg".to_string(), 8, 2);
    assert_eq!(c.len(), 1);
    assert!(c.should_skip_at("/in/sub/a.jpg", 8, 2));
    assert!(!c.should_skip_at("/in/sub/b.jpg", 8, 2));
}

#[test]
fn records_come_back_out() {
    let mut c = cache(0);
    c.insert_at("/in/a.jpg".to_string(), 5, 9);
    let (p, e) = c.record_at(0);
    assert_eq!(p, "/in/a.jpg");
    assert_eq!(e, CacheEntry { mtime: 5, cached_at: 9 });
    assert_eq!(c.path(), "/config/no_date_cache.json");
}

#[test]
fn stored_records_later_one_wins() {
    let raw = vec![
        ("/in/a.jpg".to_string(), CacheEntry { mtime: 1, cached_at: 10 }),
        ("/in/b.jpg".to_string(), CacheEntry { mtime: 2, cached_at: 20 }),
        ("/in/./a.jpg".to_string(), CacheEntry { mtime: 3, cached_at: 30 }),
    ];
    let c = NoDateCache::from_records("/c.json".to_string(), true, 0, &raw);
    assert_eq!(c.len(), 2);
    assert!(c.should_skip_at("/in/a.jpg", 3, 0));
    assert!(!c.should_skip_at("/in/a.jpg", 1, 0));
    assert!(c.should_skip_at("/in/b.jpg", 2, 0));
    assert!(!c.needs_save());
    let off = NoDateCache::from_records("/c.json".to_string(), false, 0, &raw);
    assert_eq!(off.len(), 0);
}

#[test]
fn pruning_drops_missing_and_expired() {
    let raw = vec![
        ("/in/a.jpg".to_string(), CacheEntry { mtime: 1, cached_at: 1000 }),
        ("/in/b.jpg".to_string(), CacheEntry { mtime: 2, cached_at: 1000 }),
        ("/in/c.jpg".to_string(), CacheEntry { mtime: 3, cached_at: 100 }),
    ];
    let mut c = NoDateCache::from_records("/c.json".to_string(), true, 1, &raw);
    let present = vec![true, false, true];
    assert!(!c.prune_would_overflow(&present));
    c.prune(&present, 100 + 86401);
    assert_eq!(c.len(), 1);
    assert!(c.should_skip_at("/in/a.jpg", 1, 1000));
    assert!(!c.should_skip_at("/in/b.jpg", 2, 1000));
    assert!(!c.should_skip_at("/in/c.jpg", 3, 100));
}

#[test]
fn pruning_overflow_is_detected() {
    let raw = vec![("/in/a.jpg".to_string(), CacheEntry { mtime: 1, cached_at: u64::MAX })];
    let c = NoDateCache::from_records("/c.json".to_string(), true, 1, &raw);
    assert!(c.prune_would_overflow(&vec![true]));
    assert!(!c.prune_would_overflow(&vec![false]));
    let no_ttl = NoDateCache::from_records("/c.json".to_string(), true, 0, &raw);
    assert!(!no_ttl.prune_would_overflow(&vec![true]));
}

#[test]
fn loading_keeps_existing_files_only() {
    let dir = tempfile::TempDir::new().unwrap();
    let here_file = tempfile::Builder::new().prefix("here").suffix(".jpg").rand_bytes(0).tempfile_in(dir.path()).unwrap();
    let here = here_file.path().to_path_buf();
    let gone = dir.path().join("gone.jpg");
    let raw = vec![
        (here.to_str().unwrap().to_string(), CacheEntry { mtime: 1, cached_at: 5 }),
        (gone.to_str().unwrap().to_string(), CacheEntry { mtime: 2, cached_at: 5 }),
    ];
    let c = NoDateCache::load_records("/c.json".to_string(), true, 0, &raw).unwrap();
    assert_eq!(c.len(), 1);
    assert!(c.should_skip_at(here.to_str().unwrap(), 1, 5));
    assert!(!c.should_skip_at(gone.to_str().unwrap(), 2, 5));
    let off = NoDateCache::load_records("/c.json".to_string(), false, 0, &raw).unwrap();
    assert_eq!(off.len(), 0);
}

#[test]
fn skip_overflow_is_detected() {
    let mut c = cache(1);
    c.insert_at("/in/a.jpg".to_string(), 1, u64::MAX);
    assert!(c.skip_would_overflow("/in/a.jpg", 1));
    assert!(!c.skip_would_overflow("/in/a.jpg", 2));
    assert!(!c.skip_would_overflow("/in/b.jpg", 1));
}

#[test]
fn insert_now_is_skipped_now() {
    let mut c = cache(0);
    c.insert("/in/a.jpg".to_string(), 42);
    assert!(c.should_skip("/in/a.jpg", 42));
    assert!(!c.should_skip("/in/a.jpg", 43));
}

#[test]
fn saved_records_load_back() {
    let mut c = cache(0);
    c.insert_at("/in/a.jpg".to_string(), 1, 10);
    c.insert_at("/in/b.jpg".to_string(), 2, 20);
    let saved = c.records();
    assert_eq!(
        saved,
        vec![
            ("/in/a.jpg".to_string(), CacheEntry { mtime: 1, cached_at: 10 }),
            ("/in/b.jpg".to_string(), CacheEntry { mtime: 2, cached_at: 20 }),
        ]
    );
    let back = NoDateCache::from_records("/config/no_date_cache.json".to_string(), true, 0, &saved);
    assert_eq!(back.records(), saved);
    assert!(back.should_skip_at("/in/a.jpg", 1, 10));
    assert!(back.should_skip_at("/in/b.jpg", 2, 20));
}
