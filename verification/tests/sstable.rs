//! Sorted string tables.

use f4kvs_lsm::duration::Duration;
use f4kvs_lsm::engine_config::SstableConfig;
use f4kvs_lsm::error::{IoError, IoErrorKind, LsmError};
use f4kvs_lsm::sst_block::{
    check_entry_checksum, check_entry_header, check_entry_length, read_snappy_block,
    unlink_from_disk, AllEntries, BlockRead, ReaderGuard, TablePins,
};
use f4kvs_lsm::sst_entry::EntryRead;
use f4kvs_lsm::sst_format::{checksum_entry, parse_framed_entry};
use f4kvs_lsm::sst_open::{FileReply, FileRequest, IndexLoad, MetadataRead};
use f4kvs_lsm::sst_query::{layer_entries, live_entry_keys};
use f4kvs_lsm::sst_read::{RetryDecision, SSTableEntry, SstableLookupResult};
use f4kvs_lsm::sst_writer::TableEntry;
use f4kvs_lsm::sstable::SSTable;
use f4kvs_lsm::value::Value;

fn table() -> SSTable {
    SSTable::new("t.sst".to_string(), "\"t.sst\"".to_string(), SstableConfig::default(), 0, 42)
        .unwrap()
}

fn entry(key: &str, data: &[u8]) -> TableEntry {
    TableEntry { key: key.to_string(), data: data.to_vec() }
}

fn eof() -> FileReply {
    FileReply::Failed(LsmError::Io(IoError {
        kind: IoErrorKind::UnexpectedEof,
        message: "early eof".to_string(),
    }))
}

fn answer(file: &[u8], request: FileRequest) -> FileReply {
    match request {
        FileRequest::Open => FileReply::Opened,
        FileRequest::Size => FileReply::Size(file.len() as u64),
        FileRequest::Read { offset, len } => {
            let (offset, len) = (offset as usize, len as usize);
            if offset + len <= file.len() {
                FileReply::Data(file[offset..offset + len].to_vec())
            } else {
                eof()
            }
        }
        other => panic!("{other:?}"),
    }
}

fn open(table: &mut SSTable, file: &[u8]) -> Result<(), LsmError> {
    let mut state = MetadataRead::Magic;
    loop {
        if let MetadataRead::Done(outcome) = state {
            return outcome;
        }
        let reply = answer(file, state.request());
        state = table.try_read_metadata(state, reply);
    }
}

fn load(table: &mut SSTable, file: &[u8]) -> Result<(), LsmError> {
    let mut state = table.begin_index_load();
    loop {
        if let IndexLoad::Done(outcome) = state {
            return outcome;
        }
        let reply = answer(file, state.request());
        state = table.ensure_index_loaded(state, reply);
    }
}

fn block(file: &[u8], offset: u64) -> Result<Vec<u8>, LsmError> {
    let mut state = BlockRead::UnpackedLength;
    loop {
        if let BlockRead::Done(outcome) = state {
            return outcome;
        }
        let reply = answer(file, state.request(offset));
        state = read_snappy_block(offset, state, reply);
    }
}

fn get(table: &SSTable, file: &[u8], key: &str) -> Result<Option<Vec<u8>>, LsmError> {
    if !table.key_may_exist(key) {
        return Ok(None);
    }
    match table.locate(key)? {
        None => Ok(None),
        Some((offset, at)) => {
            parse_framed_entry(&block(file, offset)?, at as usize).map(Some)
        }
    }
}

fn written(n: usize) -> (SSTable, Vec<u8>) {
    let entries: Vec<TableEntry> = (0..n)
        .map(|i| {
            entry(
                &format!("dDocuments/path/{i:04}/file.txt"),
                format!(r#"{{"name":"file{i}.txt","size":{i}}}"#).repeat(20).as_bytes(),
            )
        })
        .collect();
    let mut sst = table();
    let file = sst.write_entries(&entries).unwrap().unwrap();
    sst.mark_ready();
    (sst, file)
}

#[test]
fn write_compressed_roundtrip_and_prefix() {
    let (sst, file) = written(200);
    assert!(sst.is_block_compressed());
    assert_eq!(&file[..4], b"F4SC");
    assert!(get(&sst, &file, "dDocuments/path/0007/file.txt").unwrap().is_some());
    let keys = sst.scan_prefix("dDocuments/path/000");
    assert!(keys.len() >= 10);

    let mut again = table();
    assert!(again.begin_open(9));
    open(&mut again, &file).unwrap();
    again.mark_ready();
    assert!(again.is_block_compressed());
    assert_eq!(again.index_size(), 0);
    load(&mut again, &file).unwrap();
    assert_eq!(again.index_size(), 200);
    assert_eq!(again.metadata().entry_count, 200);
    assert_eq!(again.metadata().smallest_key, "dDocuments/path/0000/file.txt");
    assert_eq!(again.metadata().largest_key, "dDocuments/path/0199/file.txt");
    assert_eq!(again.metadata().created_at, 42);
    assert_eq!(again.size(), again.metadata().index_offset);
    for i in 0..200 {
        let k = format!("dDocuments/path/{i:04}/file.txt");
        let want = format!(r#"{{"name":"file{i}.txt","size":{i}}}"#).repeat(20).into_bytes();
        assert_eq!(get(&again, &file, &k).unwrap(), Some(want));
    }
    assert_eq!(get(&again, &file, "dDocuments/path/0007/other").unwrap(), None);
    assert_eq!(get(&again, &file, "zzz").unwrap(), None);
}

#[test]
fn legacy_uncompressed_still_reads() {
    let mut sst = table();
    let file = sst.write_entries(&vec![entry("k", b"v")]).unwrap().unwrap();
    let mut sst = table();
    open(&mut sst, &file).unwrap();
    sst.mark_ready();
    load(&mut sst, &file).unwrap();
    assert!(sst.is_block_compressed());
    assert_eq!(get(&sst, &file, "k").unwrap(), Some(b"v".to_vec()));

    let mut legacy = table();
    let mut plain = file.clone();
    plain[0] = b'X';
    open(&mut legacy, &plain).unwrap();
    assert!(!legacy.is_block_compressed());
}

#[test]
fn clone_shares_reader_pin_and_delete_flag() {
    let mut shared = TablePins::new();
    shared.pin_reader();
    assert_eq!(shared.reader_count(), 1, "clone must see the live pin");
    shared.mark_for_deletion();
    assert!(shared.is_marked_for_deletion(), "mark must be shared");
    assert!(!shared.can_delete(), "pinned clone must block unlink");
    match shared.unlink_allowed("\"pin.sst\"") {
        Err(LsmError::Internal(m)) => assert_eq!(m, "SSTable \"pin.sst\" still has 1 readers"),
        other => panic!("{other:?}"),
    }
    shared.unpin_reader();
    assert_eq!(shared.reader_count(), 0);
    assert!(shared.can_delete());
    assert!(shared.unlink_allowed("p").unwrap());
    assert!(!TablePins::new().unlink_allowed("p").unwrap());
}

#[test]
fn pin_guard_unpins_without_map_lock() {
    let mut pins = TablePins::new();
    {
        pins.pin_reader();
        let mut guard = ReaderGuard::new(false);
        assert_eq!(pins.reader_count(), 1);
        guard.decrement(&mut pins);
        guard.decrement(&mut pins);
    }
    assert_eq!(pins.reader_count(), 0, "Drop must unpin even with no map lock");
    pins.pin_reader();
    ReaderGuard::new(true).decrement(&mut pins);
    assert_eq!(pins.reader_count(), 1);
}

#[test]
fn no_entry_gives_no_file() {
    let mut sst = table();
    assert!(sst.write_entries(&Vec::new()).unwrap().is_none());
    assert!(!sst.is_ready());
}

#[test]
fn damaged_files_are_refused() {
    let (_, file) = written(50);
    let meta_at = file.len() - 4;

    let mut sst = table();
    let mut bad = file.clone();
    bad[meta_at] ^= 1;
    match open(&mut sst, &bad) {
        Err(LsmError::Corruption(m)) => {
            assert!(m.starts_with("SSTable metadata checksum mismatch: stored="));
        }
        other => panic!("{other:?}"),
    }
    match open(&mut table(), &[7, 7, 7]) {
        Err(LsmError::Corruption(m)) => assert_eq!(m, "Failed to read metadata"),
        other => panic!("{other:?}"),
    }

    let mut sst = table();
    open(&mut sst, &file).unwrap();
    sst.mark_ready();
    let mut bad = file.clone();
    bad[sst.metadata().index_offset as usize + 3] ^= 1;
    match load(&mut sst, &bad) {
        Err(LsmError::Corruption(m)) => {
            assert!(m.starts_with("SSTable index checksum mismatch: stored="));
        }
        other => panic!("{other:?}"),
    }
    load(&mut sst, &file).unwrap();
    let mut bad = file.clone();
    bad[8] = 0;
    bad[9] = 0;
    bad[10] = 0;
    bad[11] = 0;
    match block(&bad, 8) {
        Err(LsmError::Corruption(m)) => {
            assert!(m.starts_with("invalid snappy block header at 8 unc=0"));
        }
        other => panic!("{other:?}"),
    }
    let mut unloaded = table();
    unloaded.mark_ready();
    match load(&mut unloaded, &[]) {
        Err(LsmError::Corruption(m)) => assert_eq!(
            m,
            "SSTable metadata has zero index_size (not opened?): \"t.sst\""
        ),
        other => panic!("{other:?}"),
    }
}

#[test]
fn framed_entries_carry_their_checksum() {
    let data = b"entry data";
    let mut framed = (data.len() as u32).to_le_bytes().to_vec();
    framed.extend_from_slice(data);
    let sum = checksum_entry(data.len() as u32, data);
    assert_eq!(sum, crc32fast::hash(&framed));
    framed.extend_from_slice(&sum.to_le_bytes());
    assert_eq!(parse_framed_entry(&framed, 0).unwrap(), data.to_vec());
    let mut bad = framed.clone();
    bad[5] ^= 1;
    let texts = [
        (parse_framed_entry(&bad, 0), "framed entry checksum mismatch at 0"),
        (parse_framed_entry(&framed, 15), "framed entry header past block end at 15"),
        (parse_framed_entry(&framed[..14], 0), "framed entry body past block end at 0"),
        (parse_framed_entry(&[0; 8], 0), "invalid framed entry size 0 at 0"),
    ];
    for (outcome, text) in texts {
        match outcome {
            Err(LsmError::Corruption(m)) => assert_eq!(m, text),
            other => panic!("{other:?}"),
        }
    }
}

#[test]
fn queries_follow_the_index() {
    let mut sst = table();
    let entries = vec![entry("a", b"1"), entry("b:1", b"2"), entry("b:2", b"3"), entry("c", b"4")];
    sst.write_entries(&entries).unwrap();
    assert_eq!(sst.first_key_after("b:", None), None);
    sst.mark_ready();
    assert_eq!(sst.first_key_after("b:", None), Some("b:1".to_string()));
    assert_eq!(sst.first_key_after("b:", Some("b:1")), Some("b:2".to_string()));
    assert_eq!(sst.first_key_after("b:", Some("b:2")), None);
    assert_eq!(sst.index_start("b"), 1);
    assert_eq!(sst.index_key_at(3), Some(b"c".to_vec()));
    assert_eq!(sst.index_key_at(4), None);
    assert!(sst.index_key_eq(0, b"a") && !sst.index_key_eq(0, b"b"));
    assert_eq!(sst.scan_prefix("b:"), vec!["b:1", "b:2"]);
    let keys = |locs: Vec<(String, u64, u32)>| -> Vec<String> {
        locs.into_iter().map(|l| l.0).collect()
    };
    assert_eq!(keys(sst.range_locations("b:1", "c")), vec!["b:1", "b:2", "c"]);
    assert_eq!(keys(sst.range_locations("b:2", "")), vec!["b:2", "c"]);
    assert_eq!(keys(sst.prefix_locations("c")), vec!["c"]);
    assert_eq!(keys(sst.all_locations()).len(), 4);
    assert!(sst.key_may_exist("a"));
    assert!(!sst.key_may_exist("d"));
    assert_eq!(sst.block_cache_key(9), "t.sst:9");
    assert_eq!(sst.snappy_cache_key(9), "t.sst:blk:9");
    sst.remember_block(8, vec![1]);
    assert_eq!(sst.remembered_block(8), Some(vec![1]));
    assert_eq!(sst.remembered_block(9), None);
    let copy = sst.clone_for_testing();
    assert_eq!(copy.remembered_block(8), None);
    assert_eq!(copy.scan_prefix("b:"), vec!["b:1", "b:2"]);
}

#[test]
fn deleted_entries_are_tombstones() {
    let live = SSTableEntry {
        key: "k".to_string(),
        value: Value::Int64(1),
        timestamp: 5,
        deleted: false,
    };
    let gone = SSTableEntry {
        key: "k".to_string(),
        value: Value::Null,
        timestamp: 6,
        deleted: true,
    };
    assert_eq!(
        SstableLookupResult::of_entry(gone),
        SstableLookupResult::Tombstone { timestamp: 6 }
    );
    assert_eq!(SstableLookupResult::of_entry(live).into_value(), Some(Value::Int64(1)));
    assert_eq!(SstableLookupResult::Missing.into_value(), None);
}

#[test]
fn scans_leave_out_what_cannot_be_read() {
    let locs = vec![("a".to_string(), 1, 1), ("b".to_string(), 2, 1), ("c".to_string(), 3, 1)];
    let layer = layer_entries(
        &locs,
        vec![
            Some((Value::Int64(1), false)),
            None,
            Some((Value::Null, true)),
        ],
    );
    assert_eq!(layer.len(), 2);
    assert_eq!(layer[1].0, "c");
    assert!(layer[1].2);
    assert_eq!(live_entry_keys(&layer), vec!["a"]);
}

#[test]
fn reads_are_retried_only_where_that_may_help() {
    let sst = table();
    let corrupt = LsmError::Corruption("x".to_string());
    assert_eq!(sst.retry_after(1, &corrupt), RetryDecision::GiveUp);
    let eof = LsmError::Io(IoError {
        kind: IoErrorKind::UnexpectedEof,
        message: "end".to_string(),
    });
    assert_eq!(sst.retry_after(1, &eof), RetryDecision::Wait { base_ms: 50, times: 1 });
    assert_eq!(sst.retry_after(2, &eof), RetryDecision::Wait { base_ms: 50, times: 2 });
    assert_eq!(sst.retry_after(3, &eof), RetryDecision::GiveUp);
    let other = LsmError::Io(IoError { kind: IoErrorKind::Other, message: "odd".to_string() });
    assert_eq!(sst.retry_after(2, &other), RetryDecision::Wait { base_ms: 50, times: 1 });
    assert!(!sst.ensure_file_open(true).unwrap());
    assert!(sst.ensure_file_open(false).unwrap());
}

fn framed(data: &[u8]) -> Vec<u8> {
    let mut out = (data.len() as u32).to_le_bytes().to_vec();
    out.extend_from_slice(data);
    let sum = crc32fast::hash(&out);
    out.extend_from_slice(&sum.to_le_bytes());
    out
}

#[test]
fn entries_of_plain_files_are_checked() {
    let mut file = framed(b"first");
    let second = file.len() as u64;
    file.extend(framed(b"second"));
    let mut sst = table();
    sst.mark_ready();
    let read = |sst: &SSTable, file: &[u8], offset: u64| {
        let mut state = sst.begin_entry_read(false);
        loop {
            if let EntryRead::Done(outcome) = state {
                return outcome;
            }
            let reply = answer(file, state.request(offset));
            state = sst.read_stored_entry(false, offset, state, reply);
        }
    };
    assert_eq!(read(&sst, &file, 0).unwrap(), b"first".to_vec());
    assert_eq!(read(&sst, &file, second).unwrap(), b"second".to_vec());
    let mut bad = file.clone();
    bad[5] ^= 1;
    match read(&sst, &bad, 0) {
        Err(LsmError::Corruption(m)) => {
            assert!(m.starts_with("SSTable entry checksum mismatch at offset 0: stored="));
        }
        other => panic!("{other:?}"),
    }
    match read(&sst, &file[..file.len() - 1], second) {
        Err(LsmError::Io(e)) => assert_eq!(e.kind, IoErrorKind::UnexpectedEof),
        other => panic!("{other:?}"),
    }
    assert!(matches!(sst.begin_entry_read(true), EntryRead::Done(Err(LsmError::Internal(_)))));
    assert!(matches!(
        table().begin_entry_read(false),
        EntryRead::Done(Err(LsmError::Internal(_)))
    ));
    assert!(check_entry_header(0, 8).is_ok());
    assert!(check_entry_header(1, 8).is_err());
    assert!(check_entry_length(0, 5, 13).is_ok());
    assert!(check_entry_length(0, 6, 13).is_err());
    assert!(check_entry_length(0, 0, 13).is_err());
    assert!(check_entry_checksum(0, 5, b"first", crc32fast::hash(&file[..9])).is_ok());
    assert!(check_entry_checksum(0, 5, b"fi_st", crc32fast::hash(&file[..9])).is_err());
    assert_eq!(sst.known_file_size(77), 77);
}

#[test]
fn all_entries_are_read_or_none() {
    let (sst, _) = written(3);
    let one = |key: &str| SSTableEntry {
        key: key.to_string(),
        value: Value::Null,
        timestamp: 1,
        deleted: false,
    };
    let mut all = AllEntries::begin(&sst, false).unwrap();
    let mut n = 0;
    while all.next_location(&sst, false).unwrap().is_some() {
        all.accept(&sst, Ok(one("k"))).unwrap();
        n += 1;
    }
    assert_eq!(n, 3);
    assert_eq!(all.entries.len(), 3);

    assert!(AllEntries::begin(&sst, true).is_err());
    let mut all = AllEntries::begin(&sst, false).unwrap();
    assert!(all.next_location(&sst, true).is_err());
    match all.accept(&sst, Err(LsmError::Corruption("bad".to_string()))) {
        Err(LsmError::Internal(m)) => {
            assert!(m.starts_with("Failed to read key 'dDocuments/path/0000/file.txt' at offset 8"));
        }
        other => panic!("{other:?}"),
    }
}

#[test]
fn readers_are_waited_for() {
    let mut pins = TablePins::new();
    let (short, long) = (Duration::from_millis(10), Duration::from_secs(1));
    assert_eq!(pins.wait_for_readers(long, short), Some(true));
    pins.pin_reader();
    assert_eq!(pins.wait_for_readers(short, long), None);
    assert_eq!(pins.wait_for_readers(long, long), None);
    assert_eq!(pins.wait_for_readers(long, short), Some(false));
}

#[test]
fn a_file_that_is_gone_is_unlinked() {
    let failed = |kind| Err(LsmError::Io(IoError { kind, message: "no".to_string() }));
    assert!(unlink_from_disk(Ok(())).is_ok());
    assert!(unlink_from_disk(failed(IoErrorKind::NotFound)).is_ok());
    assert!(unlink_from_disk(failed(IoErrorKind::Other)).is_err());
}
