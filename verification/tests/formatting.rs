//! Numbers and spans of time as people read them.

use f4kvs_lsm::duration::Duration;
use f4kvs_lsm::formatting::{format_bytes, format_duration, format_number_with_commas};

#[test]
fn test_format_bytes() {
    assert_eq!(format_bytes(0), "0 B");
    assert_eq!(format_bytes(512), "512 B");
    assert_eq!(format_bytes(1024), "1.00 KB");
    assert_eq!(format_bytes(1536), "1.50 KB");
    assert_eq!(format_bytes(1024 * 1024), "1.00 MB");
    assert_eq!(format_bytes(1024 * 1024 * 1024), "1.00 GB");
    assert_eq!(format_bytes(1024_u64.pow(4)), "1.00 TB");
}

#[test]
fn test_format_duration() {
    assert_eq!(format_duration(Duration::from_millis(100)), "100ms");
    assert_eq!(format_duration(Duration::from_secs(5)), "5.000s");
    assert_eq!(format_duration(Duration::from_secs(65)), "1m 5s");
    assert_eq!(format_duration(Duration::from_secs(3665)), "1h 1m 5s");
}

#[test]
fn test_format_number_with_commas() {
    assert_eq!(format_number_with_commas(0usize), "0");
    assert_eq!(format_number_with_commas(999usize), "999");
    assert_eq!(format_number_with_commas(1000usize), "1,000");
    assert_eq!(format_number_with_commas(10000usize), "10,000");
    assert_eq!(format_number_with_commas(100000usize), "100,000");
    assert_eq!(format_number_with_commas(1000000usize), "1,000,000");
    assert_eq!(format_number_with_commas(1234567890usize), "1,234,567,890");
}
