//! Reading files by position and through a mapping.

use f4kvs_lsm::engine_config::{SstableReadMode, WalSyncMode};
use f4kvs_lsm::error::LsmError;
use f4kvs_lsm::file_reader::{
    effective_mode, fill_buffer, readable_length, ReadExact, SstableFileReader,
};
use f4kvs_lsm::page_map::{page_word_count, PageMap, PageScan};
use f4kvs_lsm::wal_segment::SyncAction;
use f4kvs_lsm::wal_sync::{sync_file_ranges, sync_path};

fn read_exact(file: &[u8], offset: u64, len: u64, at_most: u64) -> Result<Vec<u8>, LsmError> {
    let mut read = ReadExact::begin(offset, len, false);
    let mut out = Vec::new();
    while let Some((at, want)) = read.next_read() {
        let end = (at + want.min(at_most)).min(file.len() as u64);
        let part = if at < end { &file[at as usize..end as usize] } else { &[] };
        out.extend_from_slice(part);
        read.read_exact_at(part.len() as u64)?;
    }
    Ok(out)
}

#[test]
fn short_reads_are_continued() {
    assert_eq!(read_exact(b"abcdefghij", 3, 4, 3).unwrap(), b"defg".to_vec());
    assert_eq!(read_exact(b"abcdefghij", 3, 0, 3).unwrap(), Vec::<u8>::new());
    match read_exact(b"abcdefghij", 8, 4, 4) {
        Err(LsmError::Io(e)) => {
            assert_eq!(e.message, "Unexpected EOF while reading 4 bytes at offset 8");
        }
        other => panic!("{other:?}"),
    }
}

#[test]
fn mapped_reads_need_a_system_that_has_them() {
    assert_eq!(
        effective_mode(SstableReadMode::MmapHybrid, false),
        SstableReadMode::PositionedRead
    );
    assert_eq!(effective_mode(SstableReadMode::MmapHybrid, true), SstableReadMode::MmapHybrid);
    assert_eq!(effective_mode(SstableReadMode::SeekRead, false), SstableReadMode::SeekRead);
    let reader = SstableFileReader::new("f".to_string(), SstableReadMode::SeekRead, 60, true);
    assert_eq!(reader.path(), "f");
    assert_eq!(reader.mincore_cache_ttl_secs(), 60);
    assert!(!reader.ensure_open(true, false).unwrap());
    assert!(reader.ensure_open(false, true).unwrap());
    match reader.ensure_open(false, false) {
        Err(LsmError::Internal(m)) => {
            assert_eq!(m, "File not open and resilient handling is disabled");
        }
        other => panic!("{other:?}"),
    }
    match reader.not_open_error() {
        LsmError::Internal(m) => assert_eq!(m, "File not open"),
        other => panic!("{other:?}"),
    }
}

#[test]
fn buffers_take_what_there_is() {
    let mut buf = vec![9u8; 4];
    assert_eq!(fill_buffer(&mut buf, &vec![1, 2]), 2);
    assert_eq!(buf, vec![1, 2, 9, 9]);
    assert_eq!(fill_buffer(&mut buf, &vec![5; 9]), 4);
    assert_eq!(buf, vec![5; 4]);
    assert_eq!(readable_length(10, 3, 4), 4);
    assert_eq!(readable_length(10, 8, 4), 2);
    assert_eq!(readable_length(10, 10, 4), 0);
}

#[test]
fn repeated_reads_use_warm_path() {
    let page_size = 4096u64;
    let len = page_size + 32;
    let mut pages = PageMap::new(page_size, page_word_count(len, page_size), 60);
    pages.maybe_cleanup(1000);
    assert!(matches!(pages.can_fast_read_via_mmap(0, 16, len), PageScan::Ask(0)));
    pages.mark_pages_resident(0, 16);
    assert!(matches!(pages.can_fast_read_via_mmap(0, 16, len), PageScan::Fast));
    assert!(matches!(pages.can_fast_read_via_mmap(page_size - 1, 2, len), PageScan::Ask(1)));
    assert!(matches!(pages.page_answered(1, false, page_size + 1, len), PageScan::Slow));
    assert!(matches!(pages.page_answered(1, true, page_size + 1, len), PageScan::Fast));
    assert!(matches!(pages.can_fast_read_via_mmap(0, len, len), PageScan::Fast));
    pages.maybe_cleanup(1060);
    assert!(matches!(pages.can_fast_read_via_mmap(0, 16, len), PageScan::Fast));
    pages.maybe_cleanup(1061);
    assert!(matches!(pages.can_fast_read_via_mmap(0, 16, len), PageScan::Ask(0)));
}

#[test]
fn pages_behind_the_mapping_are_read_slowly() {
    let pages = PageMap::new(4096, 1, 60);
    assert!(matches!(pages.can_fast_read_via_mmap(4096, 8, 4096), PageScan::Slow));
    assert_eq!(page_word_count(0, 4096), 0);
    assert_eq!(page_word_count(64 * 4096, 4096), 1);
    assert_eq!(page_word_count(64 * 4096 + 1, 4096), 2);
}

#[test]
fn files_are_synced_as_the_mode_says() {
    assert_eq!(sync_path(WalSyncMode::Never), SyncAction::Nothing);
    assert_eq!(sync_path(WalSyncMode::Flush), SyncAction::Nothing);
    assert_eq!(sync_path(WalSyncMode::Fsync), SyncAction::Data);
    assert_eq!(sync_path(WalSyncMode::FsyncAsync), SyncAction::DataInBackground);
    assert_eq!(sync_file_ranges(&Vec::new(), WalSyncMode::Fsync), SyncAction::Nothing);
    assert_eq!(sync_file_ranges(&vec![(0, 8)], WalSyncMode::Fsync), SyncAction::Data);
}
