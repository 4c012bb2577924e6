//! Tests for the two-generation paragraph cache.

use loki_layout::para_cache::{CACHE_CAP, GENERATION_BYTE_CAP, ParaCache};
use loki_layout::para_cache_bytes::parley_bytes;

#[test]
fn a_put_is_served_by_the_next_get() {
    let mut c: ParaCache<u64> = ParaCache::new();
    assert_eq!(c.get(7), None);
    c.put(7, 70, 100);
    assert_eq!(c.get(7), Some(70));
    assert_eq!(c.stats(), (1, 100));
}

#[test]
fn stats_track_entries_and_drop_to_zero_on_clear_in_the_cache() {
    let mut c: ParaCache<u64> = ParaCache::new();
    assert_eq!(c.stats(), (0, 0));
    c.put(1, 10, 40);
    c.put(2, 20, 60);
    assert_eq!(c.stats(), (2, 100));
    assert_eq!(c.len(), 2);
    c.clear();
    assert_eq!(c.stats(), (0, 0));
    assert_eq!(c.get(1), None);
}

#[test]
fn replacing_a_key_credits_the_old_bytes_back() {
    let mut c: ParaCache<u64> = ParaCache::new();
    c.put(5, 1, 300);
    c.put(5, 2, 200);
    assert_eq!(c.stats(), (1, 200));
    assert_eq!(c.get(5), Some(2));
}

#[test]
fn the_byte_cap_rotates_and_promotion_keeps_the_working_set() {
    let mut c: ParaCache<u64> = ParaCache::new();
    let big = GENERATION_BYTE_CAP / 2 + 1;
    c.put(1, 11, big);
    // The second entry would push the generation past the cap: rotate first.
    c.put(2, 22, big);
    assert_eq!(c.stats(), (2, 2 * big));
    // Key 1 now lives in the older generation; a hit promotes it.
    assert_eq!(c.get(1), Some(11));
    assert_eq!(c.stats(), (2, 2 * big));
    // A third rotation drops whatever was not promoted: key 2 was in the
    // current generation, so it survives into the older one; nothing is lost.
    c.put(3, 33, big);
    assert_eq!(c.get(2), Some(22));
    assert_eq!(c.get(3), Some(33));
}

#[test]
fn an_untouched_entry_is_dropped_after_two_rotations() {
    let mut c: ParaCache<u64> = ParaCache::new();
    let big = GENERATION_BYTE_CAP;
    c.put(1, 1, big);
    c.put(2, 2, big);
    c.put(3, 3, big);
    assert_eq!(c.get(1), None);
    assert_eq!(c.get(2), Some(2));
    assert_eq!(c.get(3), Some(3));
}

#[test]
fn the_entry_cap_rotates_the_generation() {
    let mut c: ParaCache<u64> = ParaCache::new();
    for k in 0..CACHE_CAP as u64 {
        c.put(k, k, 1);
    }
    assert_eq!(c.stats(), (CACHE_CAP, CACHE_CAP));
    c.put(9999, 0, 1);
    // Rotated: the old generation holds the first CACHE_CAP entries.
    assert_eq!(c.stats(), (CACHE_CAP + 1, CACHE_CAP + 1));
    c.put(10000, 0, 1);
    assert_eq!(c.get(0), Some(0));
}

#[test]
fn an_oversized_entry_still_caches_alone() {
    let mut c: ParaCache<u64> = ParaCache::new();
    c.put(1, 1, GENERATION_BYTE_CAP * 2);
    assert_eq!(c.get(1), Some(1));
    assert_eq!(c.stats(), (1, GENERATION_BYTE_CAP * 2));
}

#[test]
fn retained_layout_bytes_follow_the_record_sizes() {
    assert_eq!(parley_bytes(0, 0, 0), 296);
    assert_eq!(parley_bytes(10, 2, 3), 296 + 240 + 208 + 144);
}

#[test]
fn puts_within_a_generation_keep_both_generations_under_the_byte_cap() {
    let mut c: ParaCache<u64> = ParaCache::new();
    let big = GENERATION_BYTE_CAP / 3;
    for key in 0..10u64 {
        c.put(key, key * 10, big);
        assert_eq!(c.get(key), Some(key * 10));
        let (_, bytes) = c.stats();
        assert!(bytes <= 2 * GENERATION_BYTE_CAP);
    }
    // The last rotation left three entries of the current generation in the
    // older one and started a new one.
    assert_eq!(c.stats(), (4, 4 * big));
}
