//! Behavioural tests of the cache: expiry, capacity, accounting,
//! removal and the configuration edge cases.

use typed_cache::cache::Cache;
use typed_cache::stats::ENTRY_FOOTPRINT_BYTES;

#[test]
fn expiry_is_strictly_after_the_expiry_second() {
    let mut cache: Cache<i32> = Cache::new(8, 0);
    cache.set_with_ttl_at("k".to_string(), 42, Some(5), 100);
    assert_eq!(cache.get_at("k", 104), Some(42));
    // The record expires strictly after creation time plus TTL.
    assert_eq!(cache.get_at("k", 105), Some(42));
    assert_eq!(cache.get_at("k", 106), None);
}

#[test]
fn expiry_holds_with_and_without_batch_cleanup() {
    let mut with_cleanup: Cache<i32> = Cache::new(8, 0);
    with_cleanup.set_with_ttl_at("k".to_string(), 1, Some(5), 100);
    with_cleanup.cleanup_expired_at(103);
    assert_eq!(with_cleanup.get_at("k", 104), Some(1));
    with_cleanup.cleanup_expired_at(106);
    assert_eq!(with_cleanup.get_at("k", 106), None);

    let mut without_cleanup: Cache<i32> = Cache::new(8, 0);
    without_cleanup.set_with_ttl_at("k".to_string(), 1, Some(5), 100);
    assert_eq!(without_cleanup.get_at("k", 104), Some(1));
    assert_eq!(without_cleanup.get_at("k", 106), None);
}

#[test]
fn ttl_zero_never_expires() {
    let mut cache: Cache<i32> = Cache::new(8, 30);
    cache.set_with_ttl_at("forever".to_string(), 9, Some(0), 0);
    cache.cleanup_expired_at(u64::MAX);
    assert_eq!(cache.get_at("forever", u64::MAX), Some(9));
}

#[test]
fn default_ttl_zero_never_expires() {
    let mut cache: Cache<i32> = Cache::new(8, 0);
    cache.set_at("forever".to_string(), 9, 0);
    cache.cleanup_expired_at(u64::MAX);
    assert_eq!(cache.get_at("forever", u64::MAX), Some(9));
}

#[test]
fn default_ttl_applies_when_no_override_is_given() {
    let mut cache: Cache<i32> = Cache::new(8, 50);
    cache.set_at("k".to_string(), 5, 100);
    assert_eq!(cache.get_at("k", 150), Some(5));
    assert_eq!(cache.get_at("k", 151), None);
}

#[test]
fn ttl_override_beats_the_default() {
    let mut cache: Cache<i32> = Cache::new(8, 50);
    cache.set_with_ttl_at("k".to_string(), 5, Some(2), 100);
    assert_eq!(cache.get_at("k", 102), Some(5));
    assert_eq!(cache.get_at("k", 103), None);
}

#[test]
fn capacity_is_never_exceeded() {
    let mut cache: Cache<usize> = Cache::new(3, 0);
    for i in 0..10usize {
        cache.set_at(format!("key{}", i), i, i as u64);
        assert!(cache.get_stats().total_entries <= 3);
    }
    let stats = cache.get_stats();
    assert_eq!(stats.total_entries, 3);
    assert_eq!(stats.evictions, 7);
    // The three youngest-by-creation keys survive.
    assert_eq!(cache.get_at("key7", 20), Some(7));
    assert_eq!(cache.get_at("key8", 20), Some(8));
    assert_eq!(cache.get_at("key9", 20), Some(9));
    assert_eq!(cache.get_at("key6", 20), None);
}

#[test]
fn eviction_ignores_access_recency() {
    let mut cache: Cache<i32> = Cache::new(2, 0);
    cache.set_at("old".to_string(), 1, 10);
    cache.set_at("young".to_string(), 2, 11);
    // Reading the oldest record does not protect it: eviction goes by
    // creation time, not access time.
    assert_eq!(cache.get_at("old", 12), Some(1));
    cache.set_at("newest".to_string(), 3, 13);
    assert_eq!(cache.get_at("old", 14), None);
    assert_eq!(cache.get_at("young", 14), Some(2));
}

#[test]
fn eviction_tie_break_is_first_inserted() {
    let mut cache: Cache<i32> = Cache::new(2, 0);
    cache.set_at("first".to_string(), 1, 10);
    cache.set_at("second".to_string(), 2, 10);
    cache.set_at("third".to_string(), 3, 10);
    assert_eq!(cache.get_at("first", 11), None);
    assert_eq!(cache.get_at("second", 11), Some(2));
    assert_eq!(cache.get_at("third", 11), Some(3));
}

#[test]
fn overwrite_never_evicts_nor_grows() {
    let mut cache: Cache<i32> = Cache::new(2, 0);
    cache.set_at("a".to_string(), 1, 10);
    cache.set_at("b".to_string(), 2, 11);
    cache.set_at("a".to_string(), 100, 12);
    let stats = cache.get_stats();
    assert_eq!(stats.total_entries, 2);
    assert_eq!(stats.evictions, 0);
    assert_eq!(cache.get_at("a", 13), Some(100));
    assert_eq!(cache.get_at("b", 13), Some(2));
}

#[test]
fn hit_and_miss_counters_are_exact() {
    let mut cache: Cache<i32> = Cache::new(8, 0);
    cache.set_at("present".to_string(), 1, 0);
    assert_eq!(cache.get_at("present", 1), Some(1));
    assert_eq!(cache.get_at("present", 2), Some(1));
    assert_eq!(cache.get_at("absent", 3), None);
    assert_eq!(cache.get_at("gone", 4), None);
    assert_eq!(cache.get_at("lost", 5), None);
    let stats = cache.get_stats();
    assert_eq!(stats.hits, 2);
    assert_eq!(stats.misses, 3);
    // 2 / 5 of the requests hit: 40%, reported in hundredths of a percent.
    assert_eq!(stats.hit_rate_hundredths, 4000);
}

#[test]
fn hit_rate_rounds_down() {
    let mut cache: Cache<i32> = Cache::new(8, 0);
    cache.set_at("k".to_string(), 1, 0);
    assert_eq!(cache.get_at("k", 1), Some(1));
    assert_eq!(cache.get_at("miss1", 1), None);
    assert_eq!(cache.get_at("miss2", 1), None);
    // 1 / 3 of the requests hit: 33.33%, rounded down.
    assert_eq!(cache.get_stats().hit_rate_hundredths, 3333);
}

#[test]
fn expired_read_counts_miss_and_eviction_once() {
    let mut cache: Cache<i32> = Cache::new(8, 0);
    cache.set_with_ttl_at("k".to_string(), 1, Some(1), 100);
    assert_eq!(cache.get_at("k", 200), None);
    let stats = cache.get_stats();
    assert_eq!(stats.misses, 1);
    assert_eq!(stats.evictions, 1);
    assert_eq!(stats.total_entries, 0);
    // The record is gone: a second read is a plain miss, not another
    // eviction.
    assert_eq!(cache.get_at("k", 201), None);
    let stats = cache.get_stats();
    assert_eq!(stats.misses, 2);
    assert_eq!(stats.evictions, 1);
}

#[test]
fn batch_cleanup_counts_one_eviction_per_removal() {
    let mut cache: Cache<i32> = Cache::new(8, 0);
    cache.set_with_ttl_at("a".to_string(), 1, Some(1), 100);
    cache.set_with_ttl_at("b".to_string(), 2, Some(2), 100);
    cache.set_with_ttl_at("keep".to_string(), 3, Some(0), 100);
    cache.cleanup_expired_at(103);
    let stats = cache.get_stats();
    assert_eq!(stats.evictions, 2);
    assert_eq!(stats.total_entries, 1);
    assert_eq!(cache.get_at("keep", 104), Some(3));
    // Nothing expired is left: running the cleanup again counts nothing.
    cache.cleanup_expired_at(200);
    assert_eq!(cache.get_stats().evictions, 2);
}

#[test]
fn remove_returns_the_stored_value_without_counting() {
    let mut cache: Cache<String> = Cache::new(4, 0);
    cache.set_at("k".to_string(), "stored".to_string(), 1);
    assert_eq!(cache.remove("k"), Some("stored".to_string()));
    let stats = cache.get_stats();
    assert_eq!(stats.total_entries, 0);
    assert_eq!(stats.hits, 0);
    assert_eq!(stats.misses, 0);
    assert_eq!(stats.evictions, 0);
}

#[test]
fn clear_empties_the_store_but_keeps_counters() {
    let mut cache: Cache<i32> = Cache::new(4, 0);
    cache.set_at("a".to_string(), 1, 1);
    cache.set_at("b".to_string(), 2, 2);
    assert_eq!(cache.get_at("a", 3), Some(1));
    assert_eq!(cache.get_at("zzz", 3), None);
    cache.clear();
    let stats = cache.get_stats();
    assert_eq!(stats.total_entries, 0);
    assert_eq!(stats.hits, 1);
    assert_eq!(stats.misses, 1);
    assert_eq!(cache.get_at("a", 4), None);
}

#[test]
fn zero_capacity_cache_is_disabled() {
    let mut cache: Cache<i32> = Cache::new(0, 0);
    cache.set_at("k".to_string(), 1, 1);
    assert_eq!(cache.get_at("k", 2), None);
    let stats = cache.get_stats();
    assert_eq!(stats.total_entries, 0);
    assert_eq!(stats.evictions, 0);
}

#[test]
fn ttl_addition_saturates_instead_of_wrapping() {
    let mut cache: Cache<i32> = Cache::new(4, 0);
    cache.set_with_ttl_at("k".to_string(), 1, Some(u64::MAX), u64::MAX - 1);
    // The expiry saturates at the largest second, which no reading is
    // strictly after: the record stays reachable.
    assert_eq!(cache.get_at("k", u64::MAX), Some(1));
}

#[test]
fn memory_size_is_count_times_footprint() {
    let mut cache: Cache<i32> = Cache::new(8, 0);
    cache.set_at("a".to_string(), 1, 1);
    cache.set_at("b".to_string(), 2, 2);
    cache.set_at("c".to_string(), 3, 3);
    assert_eq!(cache.get_stats().memory_size_bytes, 3 * ENTRY_FOOTPRINT_BYTES);
}

#[test]
fn wall_clock_operations_behave_like_timed_ones() {
    let mut cache: Cache<i32> = Cache::new(5, 0);
    cache.set("k".to_string(), 7);
    assert_eq!(cache.get("k"), Some(7));
    cache.set_with_ttl("other".to_string(), 8, Some(0));
    cache.cleanup_expired();
    assert_eq!(cache.get("other"), Some(8));
    let stats = cache.get_stats();
    assert_eq!(stats.hits, 2);
    assert_eq!(stats.misses, 0);
    assert_eq!(stats.total_entries, 2);
}

#[test]
fn returned_value_is_an_independent_copy() {
    let mut cache: Cache<Vec<i32>> = Cache::new(4, 0);
    cache.set_at("k".to_string(), vec![1, 2, 3], 1);
    let mut copy = cache.get_at("k", 2).unwrap();
    copy.push(4);
    // Mutating the returned copy leaves the stored value untouched.
    assert_eq!(cache.get_at("k", 3), Some(vec![1, 2, 3]));
}
