//! The cache of blocks.

use f4kvs_lsm::block_cache::BlockCache;

#[test]
fn test_block_cache_basic() {
    let mut cache = BlockCache::new(1000);

    cache.put("key1".to_string(), vec![1, 2, 3]);
    assert_eq!(cache.get("key1"), Some(&[1, 2, 3][..]));
    assert_eq!(cache.get("key2"), None);
}

#[test]
fn test_block_cache_eviction() {
    let mut cache = BlockCache::new(10);

    cache.put("key1".to_string(), vec![1, 2, 3, 4, 5]);
    cache.put("key2".to_string(), vec![6, 7, 8, 9, 10]);
    cache.put("key3".to_string(), vec![11, 12, 13, 14, 15]);

    assert_eq!(cache.get("key1"), None);
    assert_eq!(cache.get("key2"), Some(&[6, 7, 8, 9, 10][..]));
    assert_eq!(cache.get("key3"), Some(&[11, 12, 13, 14, 15][..]));
}

#[test]
fn lookups_are_counted_and_renew_a_block() {
    let mut cache = BlockCache::new(10);
    cache.put("a".to_string(), vec![1; 4]);
    cache.put("b".to_string(), vec![2; 4]);
    assert!(cache.get("a").is_some());
    assert!(cache.get("x").is_none());
    cache.put("c".to_string(), vec![3; 4]);
    assert!(cache.get("b").is_none());
    assert!(cache.get("a").is_some());
    let metrics = cache.metrics();
    assert_eq!(metrics.hit_count, 2);
    assert_eq!(metrics.miss_count, 2);
    assert_eq!(metrics.eviction_count, 1);
    assert_eq!(metrics.capacity, 10);
    assert_eq!(cache.hit_rate().part as f64 / cache.hit_rate().whole as f64, 0.5);
    let stats = cache.stats();
    assert_eq!(stats.block_count, 2);
    assert_eq!(stats.current_size, 8);
    assert_eq!(cache.remove("a"), Some(vec![1; 4]));
    assert_eq!(cache.remove("a"), None);
    cache.clear();
    assert_eq!(cache.stats().block_count, 0);
}

#[test]
fn a_block_stored_anew_takes_its_room_once() {
    let mut cache = BlockCache::new(10);
    cache.put("a".to_string(), vec![1; 3]);
    cache.put("a".to_string(), vec![2; 3]);
    assert_eq!(cache.stats().block_count, 1);
    assert_eq!(cache.stats().current_size, 3);
    assert_eq!(cache.get("a"), Some(&[2, 2, 2][..]));

    // The room that the first bytes took is free again, so nothing is dropped.
    cache.put("b".to_string(), vec![3; 7]);
    assert_eq!(cache.metrics().eviction_count, 0);
    assert_eq!(cache.stats().current_size, 10);
    assert_eq!(cache.remove("b"), Some(vec![3; 7]));
    assert_eq!(cache.stats().current_size, 3);
}

#[test]
fn a_block_stored_anew_leaves_last() {
    let mut cache = BlockCache::new(10);
    cache.put("a".to_string(), vec![1; 4]);
    cache.put("b".to_string(), vec![2; 4]);
    cache.put("a".to_string(), vec![3; 4]);
    cache.put("c".to_string(), vec![4; 4]);
    assert_eq!(cache.get("a"), Some(&[3; 4][..]));
    assert_eq!(cache.get("b"), None);
    assert_eq!(cache.metrics().eviction_count, 1);
}

#[test]
fn no_more_blocks_leave_than_needed() {
    let mut cache = BlockCache::new(10);
    cache.put("a".to_string(), vec![1; 3]);
    cache.put("b".to_string(), vec![2; 3]);
    cache.put("c".to_string(), vec![3; 3]);
    cache.put("d".to_string(), vec![4; 4]);
    assert_eq!(cache.metrics().eviction_count, 1);
    assert_eq!(cache.stats().current_size, 10);
    assert_eq!(cache.get("a"), None);
    assert!(cache.get("b").is_some() && cache.get("c").is_some() && cache.get("d").is_some());

    // A block that is larger than the cache drops all others and is still stored.
    cache.put("e".to_string(), vec![5; 12]);
    assert_eq!(cache.metrics().eviction_count, 4);
    assert_eq!(cache.stats().block_count, 1);
    assert_eq!(cache.stats().current_size, 12);
}
