//! Names of files.

use f4kvs_lsm::lsm_utils::{generate_sstable_filename, generate_wal_filename};

#[test]
fn test_sstable_filename_format() {
    assert_eq!(generate_sstable_filename(0, 1), "L00_0000000000000001.sst");
    assert_eq!(
        generate_sstable_filename(5, 999),
        "L05_0000000000000999.sst"
    );
}

#[test]
fn test_wal_filename_format() {
    assert_eq!(generate_wal_filename(0), "wal_0000000000000000.log");
    assert_eq!(
        generate_wal_filename(u64::MAX),
        "wal_18446744073709551615.log"
    );
}

#[test]
fn test_unique_filenames() {
    let sstable = generate_sstable_filename(0, 1);
    let wal = generate_wal_filename(1);
    assert_ne!(sstable, wal);
}

#[test]
fn names_differ_across_levels() {
    let mut names = std::collections::BTreeSet::new();
    for level in [0, 1, 9, 10, 99, 100, 1000] {
        for sequence in [0, 1, 10, u64::MAX] {
            assert!(names.insert(generate_sstable_filename(level, sequence)));
        }
    }
    assert_eq!(generate_sstable_filename(100, 7), "L100_0000000000000007.sst");
}
