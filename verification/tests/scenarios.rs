//! End-to-end scenarios over the cache, driven with explicit times.

use typed_cache::cache::Cache;

#[test]
fn scenario_capacity_two_evicts_oldest() {
    let mut cache: Cache<i32> = Cache::new(2, 0);
    cache.set_at("a".to_string(), 1, 10);
    cache.set_at("b".to_string(), 2, 11);
    cache.set_at("c".to_string(), 3, 12);
    assert_eq!(cache.get_at("a", 13), None);
    assert_eq!(cache.get_at("b", 13), Some(2));
    assert_eq!(cache.get_at("c", 13), Some(3));
    let stats = cache.get_stats();
    assert_eq!(stats.evictions, 1);
    assert_eq!(stats.total_entries, 2);
}

#[test]
fn scenario_default_ttl_one_second() {
    let mut cache: Cache<String> = Cache::new(10, 1);
    cache.set_at("x".to_string(), "v".to_string(), 100);
    assert_eq!(cache.get_at("x", 100), Some("v".to_string()));
    let before = cache.get_stats();
    // 1.1 seconds after insertion: strictly past the expiry second.
    assert_eq!(cache.get_at("x", 102), None);
    let after = cache.get_stats();
    assert_eq!(after.misses, before.misses + 1);
    assert_eq!(after.evictions, before.evictions + 1);
    assert_eq!(after.hits, before.hits);
    assert_eq!(after.total_entries, 0);
}

#[test]
fn scenario_fresh_cache_reports_zeroes() {
    let cache: Cache<u8> = Cache::new(16, 60);
    let stats = cache.get_stats();
    assert_eq!(stats.hits, 0);
    assert_eq!(stats.misses, 0);
    assert_eq!(stats.evictions, 0);
    assert_eq!(stats.hit_rate_hundredths, 0);
    assert_eq!(stats.total_entries, 0);
    assert_eq!(stats.memory_size_bytes, 0);
}

#[test]
fn scenario_remove_absent_key_changes_nothing() {
    let mut cache: Cache<u8> = Cache::new(4, 0);
    cache.set_at("k".to_string(), 7, 1);
    let _ = cache.get_at("k", 2);
    let _ = cache.get_at("missing", 2);
    let before = cache.get_stats();
    assert_eq!(cache.remove("absent"), None);
    let after = cache.get_stats();
    assert_eq!(before, after);
}
