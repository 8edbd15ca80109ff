use agenticgen::cache::CacheEngine;
use agenticgen::cache::CacheEntry;

#[test]
fn test_basic_cache_operations() {
    let mut cache = CacheEngine::new();

    let key = "test_key";
    let value = b"test_value".to_vec();

    cache.set_at(key, value.clone(), 3600, 100);
    let retrieved = cache.get_at(key, 101);

    assert_eq!(retrieved, Some(value));
}

#[test]
fn test_ttl_expiration() {
    let mut cache = CacheEngine::new();

    let key = "expire_key";
    let value = b"expire_value".to_vec();

    // One-second TTL, written at second 100.
    cache.set_at(key, value.clone(), 1, 100);

    // Available while the TTL has not elapsed.
    let retrieved = cache.get_at(key, 100);
    assert_eq!(retrieved, Some(value));

    // Two seconds later the entry has expired.
    let retrieved = cache.get_at(key, 102);
    assert_eq!(retrieved, None);
}

#[test]
fn test_cache_stats() {
    let mut cache = CacheEngine::new();

    let key = "stats_key";
    let value = b"stats_value".to_vec();

    for _ in 0..5 {
        cache.set_at(key, value.clone(), 3600, 50);
        let _ = cache.get_at(key, 51);
    }

    let stats = cache.get_stats();
    assert_eq!(stats.l1_size, 1);
}

#[test]
fn hits_and_misses_are_counted() {
    let mut cache = CacheEngine::new();
    cache.set_at("k", b"v".to_vec(), 10, 100);
    assert_eq!(cache.get_at("k", 101), Some(b"v".to_vec()));
    assert_eq!(cache.get_at("absent", 101), None);
    let stats = cache.get_stats();
    assert_eq!(stats.l1_hits, 1);
    assert_eq!(stats.l1_misses, 1);
    assert_eq!(stats.total_operations, 2);
}

#[test]
fn expired_entry_is_dropped_on_lookup() {
    let mut cache = CacheEngine::new();
    cache.set_at("old", b"stale".to_vec(), 1, 100);
    // The expired lookup is a miss and removes the entry.
    assert_eq!(cache.get_at("old", 200), None);
    let stats = cache.get_stats();
    assert_eq!(stats.l1_misses, 1);
    // A later write sees the slot gone: size grows back to one.
    cache.set_at("other", b"fresh".to_vec(), 1, 200);
    assert_eq!(cache.get_stats().l1_size, 1);
}

#[test]
fn zero_ttl_never_expires() {
    let mut cache = CacheEngine::new();
    cache.set_at("forever", b"keep".to_vec(), 0, 100);
    assert_eq!(cache.get_at("forever", u64::MAX), Some(b"keep".to_vec()));
}

#[test]
fn delete_reports_presence_and_updates_size() {
    let mut cache = CacheEngine::new();
    cache.set_at("a", b"1".to_vec(), 60, 100);
    cache.set_at("b", b"2".to_vec(), 60, 100);
    assert_eq!(cache.get_stats().l1_size, 2);
    assert!(cache.delete("a"));
    assert!(!cache.delete("a"));
    assert_eq!(cache.get_stats().l1_size, 1);
    assert_eq!(cache.get_at("a", 101), None);
    assert_eq!(cache.get_at("b", 101), Some(b"2".to_vec()));
}

#[test]
fn clear_empties_the_store_but_keeps_history() {
    let mut cache = CacheEngine::new();
    cache.set_at("a", b"1".to_vec(), 60, 100);
    let _ = cache.get_at("a", 101);
    cache.clear();
    let stats = cache.get_stats();
    assert_eq!(stats.l1_size, 0);
    assert_eq!(stats.l1_hits, 1);
    assert_eq!(stats.total_operations, 1);
    assert_eq!(cache.get_at("a", 102), None);
}

#[test]
fn entries_report_expiry_against_a_reading() {
    let entry = CacheEntry::new_at(b"x".to_vec(), 5, 100);
    assert!(!entry.is_expired_at(100));
    assert!(!entry.is_expired_at(105));
    assert!(entry.is_expired_at(106));
    // A clock that stepped backwards leaves the entry alive.
    assert!(!entry.is_expired_at(50));
}

#[test]
fn live_clock_paths_behave_like_the_explicit_ones() {
    let mut cache = CacheEngine::new();
    cache.set("now_key", b"now_value".to_vec(), 3600);
    assert_eq!(cache.get("now_key"), Some(b"now_value".to_vec()));
    let entry = CacheEntry::new(b"y".to_vec(), 3600);
    assert!(!entry.is_expired());
}
