//! Filters of tables.

use f4kvs_lsm::bloom_filter::BloomFilter;
use std::collections::hash_map::DefaultHasher;
use std::hash::{Hash, Hasher};

fn position(key: &str, hash_index: u64, size: u64) -> u64 {
    let mut hasher = DefaultHasher::new();
    key.hash(&mut hasher);
    hash_index.hash(&mut hasher);
    hasher.finish() % size
}

#[test]
fn added_keys_are_found() {
    let mut filter = BloomFilter::with_optimal_params(100);
    assert_eq!(filter.size(), 1000);
    assert_eq!(filter.hash_count(), 7);
    for i in 0..100 {
        filter.add(&format!("key{i}"));
    }
    for i in 0..100 {
        assert!(filter.might_contain(&format!("key{i}")));
    }
    let absent = (0..1000).filter(|i| filter.might_contain(&format!("other{i}"))).count();
    assert!(absent < 100);
}

#[test]
fn the_bits_are_those_of_the_hashes() {
    let mut filter = BloomFilter::new(64, 3);
    filter.add("some key");
    let mut want = 0u64;
    for i in 0..3 {
        want |= 1 << position("some key", i, 64);
    }
    let mut stored = 64u32.to_le_bytes().to_vec();
    stored.extend_from_slice(&want.to_le_bytes());
    assert_eq!(filter.to_bytes(), stored);
}

#[test]
fn a_stored_filter_is_read_back() {
    let mut filter = BloomFilter::new(77, 4);
    filter.add("a");
    filter.add("b");
    let stored = filter.to_bytes();
    assert_eq!(stored.len(), 4 + 10);
    assert_eq!(filter.size_bytes(), 10);
    let back = BloomFilter::from_bytes(&stored, 4);
    assert_eq!(back.size(), 77);
    assert_eq!(back.to_bytes(), stored);
    assert!(back.might_contain("a") && back.might_contain("b"));
}

#[test]
fn odd_stored_filters() {
    assert_eq!(BloomFilter::from_bytes(&[], 7).size(), 0);
    let old = BloomFilter::from_bytes(&[0b101, 0], 7);
    assert_eq!(old.size(), 16);
    let huge = BloomFilter::from_bytes(&[0xff, 0xff, 0xff, 0xff, 1], 7);
    assert_eq!(huge.size(), 0);
    let short = BloomFilter::from_bytes(&[20, 0, 0, 0, 0xff], 7);
    assert_eq!(short.bits_len(), 20);
    let none = BloomFilter::from_bytes(&[0, 0, 0, 0, 0xff], 7);
    assert!(none.bits_is_empty());
    assert!(!none.is_valid());
    assert!(none.might_contain("anything"));
}

#[test]
fn clearing_a_filter() {
    let mut filter = BloomFilter::new(16, 2);
    filter.add("x");
    filter.clear();
    assert_eq!(filter.size(), 16);
    assert!(!filter.might_contain("x"));
    assert!(!filter.validate_and_fix_invariant());
    filter.clear_bits();
    assert_eq!(filter.size(), 0);
    filter.add("x");
    assert!(filter.bits_is_empty());
    assert!(filter.clone().might_contain("x"));
}
