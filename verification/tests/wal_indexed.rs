//! The indexed log.

use f4kvs_lsm::engine_config::{WalConfig, WalSyncMode};
use f4kvs_lsm::error::LsmError;
use f4kvs_lsm::value::Value;
use f4kvs_lsm::wal_entry::WALEntry;
use f4kvs_lsm::wal_index::{WalIndexFile, WalIndexHeader, WAL_INDEX_SLOT_SIZE};
use f4kvs_lsm::wal_indexed::{
    accept_decoded, frame_path, frame_read_length, last_committed_frame, read_committed_entries,
    segment_frames_dir,
};
use f4kvs_lsm::wal_indexed_append::{AppendReply, FrameUse, IndexedAppend};
use f4kvs_lsm::wal_indexed_manager::{
    completed_segment_id, IndexedReply, IndexedRotation, IndexedWalManager,
};
use f4kvs_lsm::wal_recovery::{CollectedEntries, ShutdownStep};
use std::collections::BTreeMap;

struct Disk {
    index: Vec<u8>,
    frames: BTreeMap<String, Vec<u8>>,
}

impl Disk {
    fn new() -> Self {
        Disk { index: vec![0; 2 * WAL_INDEX_SLOT_SIZE], frames: BTreeMap::new() }
    }

    fn latest(&self) -> Result<WalIndexHeader, LsmError> {
        let (a, b) = self.index.split_at(WAL_INDEX_SLOT_SIZE);
        WalIndexFile::read_latest(a, b)
    }

    fn payloads(&self, frame_size: usize) -> Vec<Vec<u8>> {
        let state = self.latest().unwrap();
        let names: Vec<String> = self.frames.keys().cloned().collect();
        let last = last_committed_frame(&names, state);
        let mut out = Vec::new();
        for id in 1..=last {
            if let Some(file) = self.frames.get(&frame_path(id)) {
                assert_eq!(frame_read_length(file.len(), frame_size), file.len());
                out.extend(read_committed_entries(file, file.len(), id, last, state));
            }
        }
        out
    }

    fn entries(&self, frame_size: usize) -> Vec<WALEntry> {
        let mut out = Vec::new();
        for payload in self.payloads(frame_size) {
            accept_decoded(&mut out, decoded(&payload)).unwrap();
        }
        out
    }
}

/// The stored form of a put: the number of the variant and its fields, and so for the value.
fn encoded_put(key: &str, value: &[u8], timestamp: u64) -> Vec<u8> {
    bincode::serialize(&(0u32, key, (5u32, value), timestamp)).unwrap()
}

fn decoded(payload: &[u8]) -> Result<WALEntry, String> {
    bincode::deserialize::<(u32, String, (u32, Vec<u8>), u64)>(payload)
        .map(|(variant, key, (kind, bytes), timestamp)| {
            assert_eq!((variant, kind), (0, 5));
            WALEntry::put(&key, &Value::Bytes(bytes), timestamp)
        })
        .map_err(|e| e.to_string())
}

fn put_parts(entry: &WALEntry) -> (String, Value) {
    match entry {
        WALEntry::Put { key, value, .. } => (key.clone(), value.clone()),
        other => panic!("expected put: {other:?}"),
    }
}

fn start(sync_mode: WalSyncMode, frame_count: u32, disk: &mut Disk) -> IndexedWalManager {
    let config = WalConfig { sync_mode, indexed_frame_count: frame_count, ..Default::default() };
    let mut wal = IndexedWalManager::new(&config);
    wal.scan_existing_segments(&vec![segment_frames_dir(9)]);
    let mut state = wal.begin_rotation();
    loop {
        let reply = match &state {
            IndexedRotation::MakeDirectory { segment_id } => {
                assert_eq!(*segment_id, 10);
                IndexedReply::Made(segment_frames_dir(*segment_id))
            }
            IndexedRotation::OpenIndex(segment) => IndexedReply::Opened(WalIndexFile::open(
                "wal.idx".to_string(),
                segment.segment_id(),
                wal.frame_size as u32,
                disk.latest(),
            )),
            IndexedRotation::Commit { write, .. } => {
                assert!(write.durable);
                let at = write.offset as usize;
                disk.index[at..at + write.bytes.len()].copy_from_slice(&write.bytes);
                IndexedReply::Committed
            }
            IndexedRotation::Done(outcome) => {
                assert!(outcome.is_ok());
                return wal;
            }
        };
        state = wal.rotate_segment(state, reply);
    }
}

fn run(
    wal: &mut IndexedWalManager,
    disk: &mut Disk,
    payload: &Vec<u8>,
    batch: bool,
    begin: IndexedAppend,
) -> Result<(), LsmError> {
    let mut state = begin;
    loop {
        match &state {
            IndexedAppend::Frame { write, .. } => {
                disk.frames.insert(frame_path(write.frame_id), write.bytes.clone());
            }
            IndexedAppend::Slot { slot, .. } => {
                assert!(!slot.durable);
                let at = slot.offset as usize;
                disk.index[at..at + slot.bytes.len()].copy_from_slice(&slot.bytes);
            }
            IndexedAppend::Done(_) => {}
        }
        if let IndexedAppend::Done(outcome) = state {
            return outcome;
        }
        state = wal.continue_write(payload, batch, state, AppendReply::Written);
    }
}

fn append(wal: &mut IndexedWalManager, disk: &mut Disk, payload: &Vec<u8>, batch: bool) {
    let begin = wal.write_entry(payload, batch);
    run(wal, disk, payload, batch, begin).unwrap();
}

fn flush(wal: &mut IndexedWalManager, disk: &mut Disk) {
    let begin = wal.flush();
    run(wal, disk, &Vec::new(), true, begin).unwrap();
}

#[test]
fn indexed_wal_append_and_recovery() {
    let mut disk = Disk::new();
    let mut wal = start(WalSyncMode::Fsync, 128, &mut disk);
    let payload = vec![b'x'; 4096];
    let keys = ["chunk:legal:doc-0001:chunk-000001", "chunk:legal:doc-0001:chunk-000002"];
    for key in keys {
        append(&mut wal, &mut disk, &encoded_put(key, &payload, 1), false);
    }
    let entries = disk.entries(wal.frame_size);
    assert_eq!(entries.len(), 2);
    for (entry, key) in entries.iter().zip(keys) {
        assert_eq!(put_parts(entry), (key.to_string(), Value::Bytes(payload.clone())));
    }
    assert_eq!(disk.frames.len(), 2);
}

#[test]
fn indexed_wal_reopen_reads_committed() {
    let mut disk = Disk::new();
    {
        let mut wal = start(WalSyncMode::Fsync, 64, &mut disk);
        append(&mut wal, &mut disk, &encoded_put("reopen-key", &[b'z'; 512], 1), false);
    }
    let mut wal2 = IndexedWalManager::new(&WalConfig::default());
    let state = disk.latest();
    let index = WalIndexFile::open("wal.idx".to_string(), 0, 8192, disk.latest());
    assert!(wal2.resume(index, &state, segment_frames_dir(10), true, true));
    assert_eq!(wal2.current_segment.as_ref().unwrap().staging_frame, 2);
    let entries = disk.entries(wal2.frame_size);
    assert_eq!(entries.len(), 1);
    match &entries[0] {
        WALEntry::Put { key, .. } => assert_eq!(key, "reopen-key"),
        _ => panic!("expected put"),
    }
    append(&mut wal2, &mut disk, &encoded_put("more", b"m", 2), false);
    flush(&mut wal2, &mut disk);
    let entries = disk.entries(wal2.frame_size);
    assert_eq!(
        entries.iter().map(put_parts).collect::<Vec<_>>(),
        vec![
            ("reopen-key".to_string(), Value::Bytes(vec![b'z'; 512])),
            ("more".to_string(), Value::Bytes(b"m".to_vec())),
        ]
    );
}

#[test]
fn indexed_wal_batch_write() {
    let mut disk = Disk::new();
    let mut wal = start(WalSyncMode::Fsync, 256, &mut disk);
    let payload = vec![b'y'; 1024];
    for i in 0..10 {
        append(&mut wal, &mut disk, &encoded_put(&format!("k{i}"), &payload, 1), true);
    }
    flush(&mut wal, &mut disk);
    let entries = disk.entries(wal.frame_size);
    assert_eq!(entries.len(), 10);
    for (i, entry) in entries.iter().enumerate() {
        assert_eq!(put_parts(entry), (format!("k{i}"), Value::Bytes(payload.clone())));
    }
    assert_eq!(disk.frames.len(), 2);
    assert_eq!(disk.latest().unwrap().entry_count, 10);
}

#[test]
fn acknowledged_payloads_are_read_or_staged() {
    let mut disk = Disk::new();
    let mut wal = start(WalSyncMode::Flush, 128, &mut disk);
    let all: Vec<Vec<u8>> =
        vec![vec![1; 10], vec![2; 9000], vec![3; 8000], vec![4; 300], vec![5; 8188], vec![6; 1]];
    for payload in &all {
        append(&mut wal, &mut disk, payload, false);
    }
    assert_eq!(disk.payloads(wal.frame_size), all[..5].to_vec());
    let staged = &wal.current_segment.as_ref().unwrap().staging;
    assert_eq!(*staged, vec![1, 0, 0, 0, 6]);
    flush(&mut wal, &mut disk);
    assert_eq!(disk.payloads(wal.frame_size), all);
    assert_eq!(disk.latest().unwrap(), wal.index.as_ref().unwrap().latest());
    assert!(wal.current_segment.as_ref().unwrap().staging.is_empty());
}

#[test]
fn records_larger_than_a_frame_get_a_frame_of_their_own() {
    let mut disk = Disk::new();
    let mut wal = start(WalSyncMode::Flush, 128, &mut disk);
    append(&mut wal, &mut disk, &vec![1; 10], false);
    assert!(disk.frames.is_empty());
    append(&mut wal, &mut disk, &vec![2; 20_000], false);
    append(&mut wal, &mut disk, &vec![3; 8188], false);
    append(&mut wal, &mut disk, &vec![4; 10], false);
    flush(&mut wal, &mut disk);
    assert_eq!(
        disk.payloads(wal.frame_size).iter().map(|p| p.len()).collect::<Vec<_>>(),
        vec![10, 20_000, 8188, 10]
    );
    assert_eq!(disk.frames.len(), 4);
    assert_eq!(disk.frames[&frame_path(1)].len(), 8192);
    assert_eq!(disk.frames[&frame_path(2)].len(), 20_004);
}

#[test]
fn a_segment_has_only_so_many_frames() {
    let mut disk = Disk::new();
    let mut wal = start(WalSyncMode::Fsync, 128, &mut disk);
    for i in 0..128u32 {
        append(&mut wal, &mut disk, &vec![i as u8; 8], false);
    }
    let segment = wal.current_segment.as_mut().unwrap();
    match segment.append_entry(&vec![0; 8]) {
        Err(LsmError::Internal(m)) => assert_eq!(m, "indexed wal segment full"),
        other => panic!("{other:?}"),
    }
}

#[test]
fn names_and_starts() {
    assert_eq!(frame_path(7), "frame_00000007.wal");
    assert_eq!(segment_frames_dir(255), "00000000000000ff");
    assert_eq!(completed_segment_id("00000000000000ff"), 255);
    assert_eq!(completed_segment_id("odd"), 0);
    assert_eq!(
        last_committed_frame(
            &vec![frame_path(3), "frame_x.wal".to_string(), frame_path(12)],
            WalIndexHeader::new(1, 8192)
        ),
        12
    );
    let wal = IndexedWalManager::new(&WalConfig::default());
    assert_eq!(wal.frame_size, 8192);
    let state = WalIndexHeader::new(1, 8192);
    assert_eq!(wal.resume_frame(state, true, false), None);
    assert_eq!(wal.resume_frame(state, true, true), Some(1));
    assert_eq!(wal.resume_frame(state, false, true), None);
    match wal.check_ready() {
        Err(LsmError::Internal(m)) => assert_eq!(m, "indexed wal segment not initialized"),
        other => panic!("{other:?}"),
    }
    assert!(wal.verify_truncated());
    assert_eq!(
        wal.mark_clean_shutdown(),
        vec![ShutdownStep::Checkpoint, ShutdownStep::Flush, ShutdownStep::Truncate]
    );
}

#[test]
fn what_cannot_be_decoded_ends_the_reading_of_a_segment() {
    let mut entries = Vec::new();
    assert!(accept_decoded(&mut entries, Ok(WALEntry::delete("k", 1))).is_ok());
    match accept_decoded(&mut entries, Err("odd".to_string())) {
        Err(LsmError::Serialization(m)) => assert_eq!(m, "decode wal entry: odd"),
        other => panic!("{other:?}"),
    }
    let mut recovery = CollectedEntries::begin();
    recovery.accept_current(Ok(vec![WALEntry::delete("b", 2)])).unwrap();
    recovery.accept_completed(Err(LsmError::Internal("x".to_string())));
    recovery.accept_completed(Ok(vec![WALEntry::checkpoint(1)]));
    assert!(recovery.accept_current(Err(LsmError::Internal("x".to_string()))).is_err());
    let all = recovery.finish();
    assert_eq!(all.len(), 2);
    assert!(matches!(all[0], WALEntry::Checkpoint { timestamp: 1 }));
}

#[test]
fn a_rotation_completes_the_current_segment() {
    let mut disk = Disk::new();
    let mut wal = start(WalSyncMode::Flush, 128, &mut disk);
    let state = wal.begin_rotation();
    assert_eq!(wal.segments[&10], segment_frames_dir(10));
    assert!(!wal.verify_truncated());
    let failed = IndexedReply::Failed(LsmError::Internal("full".to_string()));
    let state = wal.rotate_segment(state, failed);
    assert!(matches!(state, IndexedRotation::Done(Err(_))));
    assert!(wal.current_segment.is_none());
    assert!(wal.check_ready().is_err());
    assert_eq!(wal.forget_segment(10), Some(segment_frames_dir(10)));
    wal.forget_index();
    assert!(wal.index.is_none());
}

#[test]
fn a_frame_that_cannot_be_written_is_not_indexed() {
    let mut disk = Disk::new();
    let mut wal = start(WalSyncMode::Fsync, 128, &mut disk);
    let before = wal.index.as_ref().unwrap().latest();
    let payload = b"entry".to_vec();
    let begin = wal.write_entry(&payload, false);
    assert!(matches!(begin, IndexedAppend::Frame { reason: FrameUse::Commit, .. }));
    let failed = AppendReply::Failed(LsmError::Internal("disk".to_string()));
    let end = wal.continue_write(&payload, false, begin, failed);
    assert!(matches!(end, IndexedAppend::Done(Err(LsmError::Internal(_)))));
    assert_eq!(wal.index.as_ref().unwrap().latest(), before);
    assert!(!wal.current_segment.as_ref().unwrap().staging.is_empty());
}

#[test]
fn nothing_is_written_before_the_start() {
    let mut wal = IndexedWalManager::new(&WalConfig::default());
    match wal.write_entry(&b"entry".to_vec(), false) {
        IndexedAppend::Done(Err(LsmError::Internal(m))) => {
            assert_eq!(m, "indexed wal segment not initialized")
        }
        other => panic!("{other:?}"),
    }
    assert!(matches!(wal.flush(), IndexedAppend::Done(Ok(()))));
}
