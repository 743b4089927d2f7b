//! The index file of the indexed log.

use f4kvs_lsm::error::LsmError;
use f4kvs_lsm::wal_index::{
    SlotWrite, WalIndexFile, WalIndexHeader, WAL_INDEX_FILE_SIZE, WAL_INDEX_SLOT_SIZE,
};

fn write_slot(file: &mut [u8], write: &SlotWrite) {
    let at = write.offset as usize;
    file[at..at + write.bytes.len()].copy_from_slice(&write.bytes);
}

fn latest_of(file: &[u8]) -> Result<WalIndexHeader, LsmError> {
    WalIndexFile::read_latest(&file[..WAL_INDEX_SLOT_SIZE], &file[WAL_INDEX_SLOT_SIZE..])
}

#[test]
fn wal_index_roundtrip_and_checksum() {
    let mut h = WalIndexHeader::new(7, 8192);
    h.committed_frame = 42;
    h.committed_offset = 128;
    h.entry_count = 99;
    h.checksum = h.compute_checksum();
    let bytes = h.to_slot_bytes();
    let parsed = WalIndexHeader::from_slot_bytes(&bytes).unwrap();
    assert_eq!(parsed, h);
    assert!(h.verify());
}

#[test]
fn the_checksum_of_a_slot_is_crc32() {
    let mut h = WalIndexHeader::new(1, 8192);
    h.entry_count = 5;
    h.checksum = h.compute_checksum();
    let bytes = h.to_slot_bytes();
    assert_eq!(bytes.len(), WAL_INDEX_SLOT_SIZE);
    assert_eq!(&bytes[..4], b"WIDX");
    let mut covered = bytes[..5].to_vec();
    covered.extend_from_slice(&bytes[8..40]);
    assert_eq!(h.checksum, crc32fast::hash(&covered));
}

#[test]
fn wal_index_double_buffer_commits() {
    let mut file = vec![0u8; WAL_INDEX_FILE_SIZE];
    let mut index = WalIndexFile::open("wal.idx".to_string(), 1, 8192, latest_of(&file));

    let mut h = index.latest();
    h.committed_frame = 1;
    h.committed_offset = 100;
    h.entry_count = 1;
    let write = index.commit(h);
    assert!(write.durable);
    write_slot(&mut file, &write);
    index.slot_written(&write);

    let index2 = WalIndexFile::open("wal.idx".to_string(), 1, 8192, latest_of(&file));
    let loaded = latest_of(&file).unwrap();
    assert_eq!(loaded.generation, 1);
    assert_eq!(loaded.committed_frame, 1);
    assert_eq!(loaded.entry_count, 1);
    assert_eq!(index2.latest(), loaded);
}

#[test]
fn a_torn_commit_leaves_the_state_before_it() {
    let mut file = vec![0u8; WAL_INDEX_FILE_SIZE];
    let mut index = WalIndexFile::open("wal.idx".to_string(), 3, 8192, latest_of(&file));
    for n in 1..=2u64 {
        let mut h = index.latest();
        h.entry_count = n;
        let write = index.commit_volatile(h);
        assert!(!write.durable);
        write_slot(&mut file, &write);
        index.slot_written(&write);
    }
    let before = latest_of(&file).unwrap();
    assert_eq!(before.entry_count, 2);

    let mut h = index.latest();
    h.entry_count = 3;
    let write = index.commit(h);
    let at = write.offset as usize;
    file[at..at + 20].copy_from_slice(&write.bytes[..20]);
    assert_eq!(latest_of(&file).unwrap(), before);
}

#[test]
fn damaged_slots_are_told_apart() {
    let h = WalIndexHeader::new(7, 8192);
    let good = h.to_slot_bytes();

    let mut magic = good.clone();
    magic[0] = b'X';
    let mut version = good.clone();
    version[4] = 9;
    let mut count = good.clone();
    count[32] = 1;
    for bad in [magic, version, count] {
        assert!(matches!(
            WalIndexHeader::from_slot_bytes(&bad),
            Err(LsmError::Corruption(_))
        ));
    }
    assert!(WalIndexHeader::from_slot_bytes(&good[..10]).is_err());

    let empty = vec![0u8; WAL_INDEX_SLOT_SIZE];
    match WalIndexFile::read_latest(&empty, &empty) {
        Err(LsmError::Corruption(m)) => assert_eq!(m, "wal.idx has no valid slot"),
        other => panic!("{other:?}"),
    }
}

#[test]
fn short_files_grow() {
    assert_eq!(WalIndexFile::grown_length(0), Some(8192));
    assert_eq!(WalIndexFile::grown_length(8191), Some(8192));
    assert_eq!(WalIndexFile::grown_length(8192), None);
}
