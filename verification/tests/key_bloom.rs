//! Filters that never say no.

use f4kvs_lsm::error::LsmError;
use f4kvs_lsm::key_bloom::BloomFilter;

#[test]
fn test_bloom_filter_creation() {
    let result = BloomFilter::new(1024, 7);
    assert!(result.is_ok());

    let filter = result.unwrap();
    assert_eq!(filter.bit_count, 1024);
    assert_eq!(filter.hash_count, 7);
    assert_eq!(filter.data.len(), 128);
}

#[test]
fn test_bloom_filter_creation_small() {
    let filter = BloomFilter::new(8, 3).unwrap();
    assert_eq!(filter.data.len(), 1);
    assert_eq!(filter.bit_count, 8);
}

#[test]
fn test_bloom_filter_creation_minimum() {
    let filter = BloomFilter::new(1, 1).unwrap();
    assert_eq!(filter.data.len(), 1);
}

#[test]
fn test_bloom_filter_add() {
    let mut filter = BloomFilter::new(1024, 7).unwrap();

    let result = filter.add("key1");
    assert!(result.is_ok());

    let result = filter.add("key2");
    assert!(result.is_ok());
}

#[test]
fn test_bloom_filter_might_contain_empty() {
    let filter = BloomFilter::new(1024, 7).unwrap();

    let result = filter.might_contain("any_key").unwrap();
    assert!(result);
}

#[test]
fn test_bloom_filter_might_contain_multiple_keys() {
    let mut filter = BloomFilter::new(1024, 7).unwrap();

    for i in 0..100 {
        filter.add(&format!("key_{}", i)).unwrap();
    }

    for i in 0..100 {
        let result = filter.might_contain(&format!("key_{}", i)).unwrap();
        assert!(result, "Key {} should be found", i);
    }
}

#[test]
fn test_bloom_filter_empty_data_initialization() {
    let filter = BloomFilter::new(1024, 7).unwrap();

    for byte in &filter.data {
        assert_eq!(*byte, 0);
    }
}

#[test]
fn test_bloom_filter_various_sizes() {
    let sizes = vec![1, 8, 64, 256, 1024, 4096];

    for size in sizes {
        let filter = BloomFilter::new(size, 5);
        assert!(filter.is_ok(), "Should create filter of size {}", size);

        let f = filter.unwrap();
        let expected_bytes = size.div_ceil(8);
        assert_eq!(f.data.len(), expected_bytes);
    }
}

#[test]
fn test_bloom_filter_various_hash_counts() {
    let hash_counts = vec![1, 3, 7, 10, 20];

    for count in hash_counts {
        let filter = BloomFilter::new(1024, count).unwrap();
        assert_eq!(filter.hash_count, count);
    }
}

#[test]
fn test_bloom_filter_large_bit_count() {
    let filter = BloomFilter::new(1_000_000, 10).unwrap();
    assert_eq!(filter.bit_count, 1_000_000);
    assert_eq!(filter.data.len(), 125_000);
}

#[test]
fn test_bloom_filter_special_characters() {
    let mut filter = BloomFilter::new(1024, 7).unwrap();

    let special_keys = vec![
        "",
        "key with spaces",
        "key\twith\ttabs",
        "key\nwith\nnewlines",
        "key\"with\"quotes",
        "key'with'singles",
        "key/with/slashes",
        "key\\with\\backslashes",
        "key:with:colons",
        "key,with,commas",
    ];

    for key in special_keys {
        filter.add(key).unwrap();
        let result = filter.might_contain(key).unwrap();
        assert!(result);
    }
}

#[test]
fn test_bloom_filter_unicode() {
    let mut filter = BloomFilter::new(1024, 7).unwrap();

    let unicode_keys = vec![
        "你好世界",
        "こんにちは",
        "안녕하세요",
        "🎉🎊🎈",
        "émojis avec accents",
    ];

    for key in unicode_keys {
        filter.add(key).unwrap();
        let result = filter.might_contain(key).unwrap();
        assert!(result);
    }
}

#[test]
fn test_bloom_filter_many_operations() {
    let mut filter = BloomFilter::new(1024, 7).unwrap();

    for i in 0..10000 {
        filter.add(&format!("key_{}", i)).unwrap();
        if i % 10 == 0 {
            let result = filter.might_contain(&format!("key_{}", i)).unwrap();
            assert!(result);
        }
    }
}

#[test]
fn test_bloom_filter_clone_behavior() {
    let filter1 = BloomFilter::new(1024, 7).unwrap();
    let filter2 = BloomFilter::new(1024, 7).unwrap();

    assert_eq!(filter1.bit_count, filter2.bit_count);
    assert_eq!(filter1.hash_count, filter2.hash_count);
    assert_eq!(filter1.data.len(), filter2.data.len());
}

#[test]
fn test_bloom_filter_data_vector_allocation() {
    let bit_counts = vec![1, 7, 8, 9, 15, 16, 17, 100, 255, 256, 257];

    for bits in bit_counts {
        let filter = BloomFilter::new(bits, 3).unwrap();
        let expected_bytes = bits.div_ceil(8);

        assert_eq!(
            filter.data.len(),
            expected_bytes,
            "Bit count {} should allocate {} bytes",
            bits,
            expected_bytes
        );
    }
}

#[test]
fn test_bloom_filter_error_handling() {
    let filter = BloomFilter::new(1024, 7).unwrap();

    let result: Result<bool, LsmError> = filter.might_contain("test");
    assert!(result.is_ok());
}

#[test]
fn test_bloom_filter_debug_formatting() {
    let filter = BloomFilter::new(1024, 7).unwrap();

    let debug_str = format!("{:?}", filter);
    assert!(debug_str.contains("BloomFilter"));
}

#[test]
fn test_bloom_filter_add_then_check() {
    let mut filter = BloomFilter::new(1024, 7).unwrap();

    filter.add("test_key").unwrap();
    let result = filter.might_contain("test_key").unwrap();
    assert!(result);
}

#[test]
fn test_bloom_filter_different_keys() {
    let mut filter = BloomFilter::new(1024, 7).unwrap();

    filter.add("key_a").unwrap();
    filter.add("key_b").unwrap();
    filter.add("key_c").unwrap();

    assert!(filter.might_contain("key_a").unwrap());
    assert!(filter.might_contain("key_b").unwrap());
    assert!(filter.might_contain("key_c").unwrap());
}

#[test]
fn test_bloom_filter_zero_bit_count() {
    let _filter = BloomFilter::new(0, 1);

}

#[test]
fn test_bloom_filter_many_hash_functions() {
    let mut filter = BloomFilter::new(1024, 50).unwrap();

    assert_eq!(filter.hash_count, 50);

    filter.add("test").unwrap();
    let result = filter.might_contain("test").unwrap();
    assert!(result);
}

#[test]
fn test_bloom_filter_very_small() {
    let mut filter = BloomFilter::new(1, 1).unwrap();

    assert_eq!(filter.bit_count, 1);
    assert_eq!(filter.data.len(), 1);

    filter.add("test").unwrap();
    let result = filter.might_contain("test").unwrap();
    assert!(result);
}

#[test]
fn test_bloom_filter_struct_fields_public() {
    let mut filter = BloomFilter::new(1024, 7).unwrap();

    filter.data[0] = 0xFF;
    assert_eq!(filter.data[0], 0xFF);

    filter.hash_count = 10;
    assert_eq!(filter.hash_count, 10);
}

#[test]
fn test_bloom_filter_default_initialization() {
    let filter = BloomFilter {
        data: vec![0u8; 128],
        hash_count: 7,
        bit_count: 1024,
    };

    assert_eq!(filter.bit_count, 1024);
    assert_eq!(filter.hash_count, 7);
    assert_eq!(filter.data.len(), 128);
}

#[test]
fn test_bloom_filter_data_mutability() {
    let mut filter = BloomFilter::new(1024, 7).unwrap();

    for i in 0..filter.data.len() {
        filter.data[i] = (i % 256) as u8;
    }

    for i in 0..filter.data.len() {
        assert_eq!(filter.data[i], (i % 256) as u8);
    }
}

#[test]
fn test_bloom_filter_conservative_behavior() {
    let filter = BloomFilter::new(1024, 7).unwrap();

    assert!(filter.might_contain("any_string").unwrap());
}

#[test]
fn test_bloom_filter_error_message_formatting() {
    let err = LsmError::BloomFilter("test error".to_string());
    let msg = err.user_message();

    assert!(msg.contains("Index error"));
    assert!(msg.contains("test error"));
}
