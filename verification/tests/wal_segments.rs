//! Segment and frame logs.

use f4kvs_lsm::engine_config::{WalConfig, WalSyncMode};
use f4kvs_lsm::error::{IoError, IoErrorKind, LsmError};
use f4kvs_lsm::sst_open::{FileReply, FileRequest};
use f4kvs_lsm::wal::{
    BatchReply, BatchWrite, EntryReply, EntryWrite, Rotation, RotationReply, WALManager,
};
use f4kvs_lsm::wal_frame::{
    frame_file_name, is_frame_file, parse_frame_id, FrameWalSegment, FRAME_HEADER_SIZE,
};
use f4kvs_lsm::wal_frame_manager::{FrameRotation, FrameRotationReply, FrameWalManager};
use f4kvs_lsm::wal_segment::{
    is_segment_file, parse_segment_id, segment_file_name, HeaderWrite, LogRead, SyncAction,
    WALSegment, SEGMENT_HEADER_SIZE,
};
use std::collections::BTreeMap;

type Disk = BTreeMap<String, Vec<u8>>;

fn answer(file: &[u8], request: FileRequest) -> FileReply {
    match request {
        FileRequest::Size => FileReply::Size(file.len() as u64),
        FileRequest::Read { offset, len } => {
            let (offset, len) = (offset as usize, len as usize);
            if offset + len <= file.len() {
                FileReply::Data(file[offset..offset + len].to_vec())
            } else {
                FileReply::Failed(LsmError::Io(IoError {
                    kind: IoErrorKind::UnexpectedEof,
                    message: "early eof".to_string(),
                }))
            }
        }
        other => panic!("{other:?}"),
    }
}

fn put_header(file: &mut Vec<u8>, write: &HeaderWrite) {
    if file.len() < write.header.len() {
        file.resize(write.header.len(), 0);
    }
    file[..write.header.len()].copy_from_slice(&write.header);
}

fn read_segment(name: &str, file: &[u8], max_size: u64) -> Result<Vec<Vec<u8>>, LsmError> {
    let header = WALSegment::header_to_read(file.len() as u64)
        .map(|len| file[..len as usize].to_vec());
    let segment =
        WALSegment::open_for_reading(name.to_string(), max_size, WalSyncMode::Flush, header)?;
    let mut state = LogRead::Size;
    loop {
        if let LogRead::Done(outcome) = state {
            return outcome;
        }
        let reply = answer(file, state.request());
        state = segment.read_entries(state, reply);
    }
}

fn read_frame_segment(name: &str, file: &[u8]) -> Result<Vec<Vec<u8>>, LsmError> {
    let header = file[..FRAME_HEADER_SIZE as usize].to_vec();
    FrameWalSegment::open_for_reading(
        name.to_string(),
        1 << 20,
        WalSyncMode::Flush,
        header,
        file.len() as u64,
    )?;
    let mut state = FrameWalSegment::begin_read();
    loop {
        if let LogRead::Done(outcome) = state {
            return outcome;
        }
        let reply = answer(file, state.request());
        state = FrameWalSegment::read_entries(state, reply);
    }
}

fn rotate(wal: &mut WALManager, disk: &mut Disk) {
    let mut state = wal.begin_rotation();
    loop {
        let reply = match &state {
            Rotation::Close(segment) => {
                let write = segment.close().unwrap();
                assert_eq!(write.sync, SyncAction::All);
                put_header(disk.get_mut(segment.path()).unwrap(), &write);
                RotationReply::Closed
            }
            Rotation::Create => {
                let segment = wal.next_segment(wal.next_segment_name(), 100);
                let write = segment.creation_write().unwrap();
                put_header(disk.entry(segment.path().to_string()).or_default(), &write);
                RotationReply::Created(segment)
            }
            Rotation::Done(outcome) => {
                assert!(outcome.is_ok());
                return;
            }
        };
        state = wal.rotate_segment(state, reply);
    }
}

fn try_entry(wal: &mut WALManager, disk: &mut Disk, payload: &[u8]) -> bool {
    let segment = wal.current_segment.as_mut().unwrap();
    let file = disk.get_mut(segment.path()).unwrap();
    match segment.write_entry(file.len() as u64, &payload.to_vec()) {
        None => false,
        Some(plan) => {
            file.extend_from_slice(&plan.bytes);
            segment.entries_written(1);
            true
        }
    }
}

fn write_entry(wal: &mut WALManager, disk: &mut Disk, payload: &[u8]) -> Result<(), LsmError> {
    let mut state = wal.begin_entry();
    loop {
        let reply = match state {
            EntryWrite::Try | EntryWrite::Retry => {
                EntryReply::Written(try_entry(wal, disk, payload))
            }
            EntryWrite::Rotate => {
                rotate(wal, disk);
                EntryReply::Rotated
            }
            EntryWrite::Done(outcome) => return outcome,
        };
        state = wal.write_entry(state, reply);
    }
}

fn write_batch(
    wal: &mut WALManager,
    disk: &mut Disk,
    payloads: &Vec<Vec<u8>>,
) -> Result<(), LsmError> {
    let (data, mut state) = wal.begin_batch(payloads);
    loop {
        let reply = match state {
            BatchWrite::Capacity | BatchWrite::Room => {
                let path = wal.current_segment.as_ref().unwrap().path();
                BatchReply::Size(disk[path].len() as u64)
            }
            BatchWrite::RotateFull | BatchWrite::RotateForRoom => {
                rotate(wal, disk);
                BatchReply::Done
            }
            BatchWrite::Append => {
                let path = wal.current_segment.as_ref().unwrap().path().to_string();
                disk.get_mut(&path).unwrap().extend_from_slice(&data);
                BatchReply::Done
            }
            BatchWrite::Persist => {
                let segment = wal.current_segment.as_ref().unwrap();
                let write = segment.flush().unwrap();
                assert!(write.flush);
                put_header(disk.get_mut(segment.path()).unwrap(), &write);
                BatchReply::Done
            }
            BatchWrite::Done(outcome) => return outcome,
        };
        state = wal.batch_write_entries(state, data.len() as u64, payloads.len() as u32, reply);
    }
}

fn manager(segment_size: u64) -> WALManager {
    let config = WalConfig { segment_size, ..Default::default() };
    let mut wal = WALManager::new(&config);
    wal.scan_existing_segments(&Vec::new());
    wal
}

#[test]
fn batch_write_rotates_when_segment_full_no_deadlock() {
    let mut disk = Disk::new();
    let mut wal = manager(256 * 1024);
    rotate(&mut wal, &mut disk);

    let payload = vec![b'x'; 4 * 1024];
    let batch_size = 20;
    let batches = 40;
    for _ in 0..batches {
        let items: Vec<Vec<u8>> = (0..batch_size).map(|_| payload.clone()).collect();
        write_batch(&mut wal, &mut disk, &items).unwrap();
    }

    let mut entries = 0;
    for (name, file) in &disk {
        let read = read_segment(name, file, 256 * 1024).expect("read");
        assert!(read.iter().all(|p| *p == payload));
        entries += read.len();
    }
    assert_eq!(entries, batch_size * batches);
    assert!(disk.len() > 1);
}

#[test]
fn entries_go_to_the_next_segment_when_one_is_full() {
    let mut disk = Disk::new();
    let mut wal = manager(100);
    match wal.begin_entry() {
        EntryWrite::Done(Err(LsmError::Internal(m))) => assert_eq!(m, "No current WAL segment"),
        other => panic!("{other:?}"),
    }
    rotate(&mut wal, &mut disk);
    for i in 0..6u8 {
        write_entry(&mut wal, &mut disk, &[i; 30]).unwrap();
    }
    assert_eq!(disk.len(), 3);
    assert_eq!(wal.segments.len(), 2);
    let mut all = Vec::new();
    for (name, file) in &disk {
        assert!(is_segment_file(name));
        all.extend(read_segment(name, file, 100).unwrap());
    }
    assert_eq!(all, (0..6u8).map(|i| vec![i; 30]).collect::<Vec<_>>());
    assert_eq!(disk.keys().next().unwrap(), "segment_0000000000000001.wal");
}

#[test]
fn the_counter_starts_behind_old_segments() {
    let mut wal = manager(100);
    assert_eq!(wal.segment_counter, 1);
    wal.scan_existing_segments(&vec![
        segment_file_name(0x1f),
        "segment_zz.wal".to_string(),
        "frame_00000000000000ff.wal".to_string(),
        segment_file_name(3),
    ]);
    assert_eq!(wal.next_segment_name(), "segment_0000000000000020.wal");
    assert_eq!(parse_segment_id(&segment_file_name(u64::MAX)), Some(u64::MAX));
    assert_eq!(parse_segment_id("segment_.wal"), None);
    assert_eq!(parse_frame_id(&frame_file_name(77)), Some(77));
    assert!(is_frame_file("frame_1.wal") && !is_frame_file("segment_1.wal"));
}

#[test]
fn torn_and_empty_segments_are_read_as_far_as_they_go() {
    let segment = WALSegment::new("s".to_string(), 1000, WalSyncMode::Fsync, 5);
    let mut file = segment.creation_write().unwrap().header;
    assert_eq!(file.len() as u64, SEGMENT_HEADER_SIZE);
    assert_eq!(&file[..4], b"WAL1");
    let plan = segment.write_entry(file.len() as u64, &b"first".to_vec()).unwrap();
    assert_eq!(plan.sync, SyncAction::All);
    file.extend_from_slice(&plan.bytes);
    let whole = file.len();
    file.extend_from_slice(&segment.write_entry(0, &b"second".to_vec()).unwrap().bytes);
    for cut in [whole, whole + 2, whole + 6] {
        assert_eq!(read_segment("s", &file[..cut], 1000).unwrap(), vec![b"first".to_vec()]);
    }
    assert_eq!(read_segment("s", &file, 1000).unwrap().len(), 2);
    assert!(read_segment("s", &[], 1000).unwrap().is_empty());
    assert!(read_segment("s", &file[..10], 1000).unwrap().is_empty());

    let mut zeros = file.clone();
    zeros.extend_from_slice(&[0; 16]);
    zeros.extend_from_slice(&plan.bytes);
    assert_eq!(read_segment("s", &zeros, 1000).unwrap().len(), 2);
    let mut absurd = file.clone();
    absurd.extend_from_slice(&[0xff, 0xff, 0, 0, 1, 2]);
    assert_eq!(read_segment("s", &absurd, 1000).unwrap().len(), 2);

    let mut other = file.clone();
    other[0] = b'X';
    match read_segment("s", &other, 1000) {
        Err(LsmError::Corruption(m)) => assert_eq!(m, "Invalid WAL magic number"),
        other => panic!("{other:?}"),
    }
}

#[test]
fn sync_modes_decide_how_a_write_is_synced() {
    let modes = [
        (WalSyncMode::Never, SyncAction::Nothing, SyncAction::Nothing),
        (WalSyncMode::Flush, SyncAction::Nothing, SyncAction::Nothing),
        (WalSyncMode::Fsync, SyncAction::All, SyncAction::Data),
        (WalSyncMode::FsyncAsync, SyncAction::AllInBackground, SyncAction::DataInBackground),
    ];
    for (mode, segment, frame) in modes {
        let s = WALSegment::new("s".to_string(), 1000, mode, 5);
        assert_eq!(s.sync_after_flush(), segment);
        let f = FrameWalSegment::new("f".to_string(), 1000, mode, 512, 5);
        assert_eq!(f.sync_after_flush(), frame);
    }
}

#[test]
fn a_frame_log_is_read_back() {
    let mut wal = FrameWalManager::new(&WalConfig { segment_size: 90, ..Default::default() });
    wal.scan_existing_segments(&vec![frame_file_name(4)]);
    let mut disk = Disk::new();
    for i in 0..3u8 {
        let mut state = wal.begin_rotation();
        loop {
            let reply = match &state {
                FrameRotation::Close(segment) => {
                    let write = segment.close().unwrap();
                    assert_eq!(write.sync, SyncAction::Data);
                    put_header(disk.get_mut(segment.path()).unwrap(), &write);
                    FrameRotationReply::Closed
                }
                FrameRotation::Create => {
                    let segment = wal.next_segment(wal.next_segment_name(), 100);
                    let write = segment.creation_write().unwrap();
                    put_header(disk.entry(segment.path().to_string()).or_default(), &write);
                    FrameRotationReply::Created(segment)
                }
                FrameRotation::Done(_) => break,
            };
            state = wal.rotate_segment(state, reply);
        }
        let segment = wal.current_segment.as_mut().unwrap();
        let file = disk.get_mut(segment.path()).unwrap();
        let plan = segment.write_entry(file.len() as u64, &vec![i; 40]).unwrap();
        file.extend_from_slice(&plan.bytes);
        segment.entries_written(1);
        assert!(segment.write_entry(file.len() as u64, &vec![i; 40]).is_none());
    }
    assert_eq!(wal.page_size(), 4096);
    assert_eq!(
        disk.keys().cloned().collect::<Vec<_>>(),
        vec![frame_file_name(5), frame_file_name(6), frame_file_name(7)]
    );
    for (i, (name, file)) in disk.iter().enumerate() {
        assert_eq!(read_frame_segment(name, file).unwrap(), vec![vec![i as u8; 40]]);
        assert!(read_frame_segment(name, &file[..file.len() - 1]).is_err());
    }
    assert!(!wal.verify_truncated());
    wal.forget_segments();
    assert!(wal.verify_truncated());
}

#[test]
fn an_entry_that_fits_no_segment_is_refused() {
    let mut disk = Disk::new();
    let mut wal = manager(100);
    rotate(&mut wal, &mut disk);
    write_entry(&mut wal, &mut disk, &[1; 30]).unwrap();
    match write_entry(&mut wal, &mut disk, &[2; 200]) {
        Err(LsmError::Wal(m)) => assert_eq!(m, "WAL entry does not fit a segment"),
        other => panic!("{other:?}"),
    }
    let mut all = Vec::new();
    for (name, file) in &disk {
        all.extend(read_segment(name, file, 100).unwrap());
    }
    assert_eq!(all, vec![vec![1; 30]]);

    let wal = FrameWalManager::new(&WalConfig { segment_size: 90, ..Default::default() });
    match wal.write_entry(EntryWrite::Retry, EntryReply::Written(false)) {
        EntryWrite::Done(Err(LsmError::Wal(m))) => {
            assert_eq!(m, "WAL entry does not fit a frame segment")
        }
        other => panic!("{other:?}"),
    }
    assert!(matches!(
        wal.write_entry(EntryWrite::Retry, EntryReply::Written(true)),
        EntryWrite::Done(Ok(()))
    ));
}

fn all_entries(disk: &Disk, max_size: u64) -> Vec<Vec<u8>> {
    let mut all = Vec::new();
    for (name, file) in disk {
        all.extend(read_segment(name, file, max_size).unwrap());
    }
    all
}

#[test]
fn an_acknowledged_batch_is_read_back() {
    let mut disk = Disk::new();
    let mut wal = manager(100);
    rotate(&mut wal, &mut disk);
    write_entry(&mut wal, &mut disk, &[9; 30]).unwrap();
    let batch: Vec<Vec<u8>> = vec![vec![1; 100], vec![2; 7], vec![3; 60]];
    write_batch(&mut wal, &mut disk, &batch).unwrap();
    let mut expected = vec![vec![9; 30]];
    expected.extend(batch);
    assert_eq!(all_entries(&disk, 100), expected);
}

#[test]
fn a_batch_with_an_entry_that_is_not_read_back_is_refused() {
    let mut disk = Disk::new();
    let mut wal = manager(100);
    rotate(&mut wal, &mut disk);
    write_batch(&mut wal, &mut disk, &vec![vec![1; 10]]).unwrap();
    let before = disk.clone();
    for odd in vec![vec![7; 101], Vec::new()] {
        let batch = vec![vec![2; 10], odd, vec![3; 10]];
        match write_batch(&mut wal, &mut disk, &batch) {
            Err(LsmError::Wal(m)) => {
                assert_eq!(m, "WAL batch holds an entry that does not fit a segment")
            }
            other => panic!("{other:?}"),
        }
        assert_eq!(disk, before);
    }
    write_batch(&mut wal, &mut disk, &vec![vec![4; 100]]).unwrap();
    assert_eq!(all_entries(&disk, 100), vec![vec![1; 10], vec![4; 100]]);
}
