//! Looking up keys in tables.

use f4kvs_lsm::engine_config::SstableConfig;
use f4kvs_lsm::error::{IoError, IoErrorKind, LsmError};
use f4kvs_lsm::sst_fetch::{EntryFetch, FetchReply};
use f4kvs_lsm::sst_lookup::{Lookup, LookupReply};
use f4kvs_lsm::sst_open::{FileReply, FileRequest, IndexLoad, MetadataRead};
use f4kvs_lsm::sst_read::{SSTableEntry, SstableLookupResult};
use f4kvs_lsm::sst_writer::TableEntry;
use f4kvs_lsm::sstable::SSTable;
use f4kvs_lsm::value::Value;

fn table() -> SSTable {
    SSTable::new("t.sst".to_string(), "\"t.sst\"".to_string(), SstableConfig::default(), 0, 42)
        .unwrap()
}

fn answer(file: &[u8], request: FileRequest) -> FileReply {
    match request {
        FileRequest::Open => FileReply::Opened,
        FileRequest::Size => FileReply::Size(file.len() as u64),
        FileRequest::Read { offset, len } => {
            let (offset, len) = (offset as usize, len as usize);
            if offset + len <= file.len() {
                FileReply::Data(file[offset..offset + len].to_vec())
            } else {
                FileReply::Failed(LsmError::Io(IoError {
                    kind: IoErrorKind::UnexpectedEof,
                    message: "early eof".to_string(),
                }))
            }
        }
        other => panic!("{other:?}"),
    }
}

fn decode(data: &[u8]) -> Result<SSTableEntry, LsmError> {
    if data.first() == Some(&b'!') {
        return Err(LsmError::Serialization("no entry".to_string()));
    }
    Ok(SSTableEntry {
        key: "k".to_string(),
        value: Value::Bytes(data[1..].to_vec()),
        timestamp: 7,
        deleted: data[0] == b'-',
    })
}

fn encode(entry: &SSTableEntry) -> Vec<u8> {
    let mut data = vec![if entry.deleted { b'-' } else { b'+' }];
    if let Value::Bytes(bytes) = &entry.value {
        data.extend(bytes);
    }
    data
}

struct Cache {
    held: Vec<(String, Vec<u8>)>,
}

impl Cache {
    fn get(&self, key: &str) -> Option<Vec<u8>> {
        self.held.iter().find(|(k, _)| k == key).map(|(_, data)| data.clone())
    }
}

fn fetch(
    sst: &mut SSTable,
    file: &[u8],
    offset: u64,
    loc: u32,
    cache: &mut Option<Cache>,
    begin: EntryFetch,
) -> Result<SSTableEntry, LsmError> {
    let entry_key = sst.block_cache_key(offset);
    let block_key = sst.snappy_cache_key(offset);
    let mut state = begin;
    loop {
        let reply = match &state {
            EntryFetch::OpenFirst | EntryFetch::OpenForBlock => {
                FetchReply::File(FileReply::Opened)
            }
            EntryFetch::CachedEntry => {
                FetchReply::Cached(cache.as_ref().and_then(|c| c.get(&entry_key)))
            }
            EntryFetch::CachedBlock => {
                FetchReply::Cached(cache.as_ref().and_then(|c| c.get(&block_key)))
            }
            EntryFetch::DecodeCached(data) | EntryFetch::Decode { data, .. } => {
                FetchReply::Decoded(decode(data))
            }
            EntryFetch::Entry(read) => FetchReply::File(answer(file, read.request(offset))),
            EntryFetch::EntrySync(read) => FetchReply::File(answer(file, read.request(offset))),
            EntryFetch::Block(read) => FetchReply::File(answer(file, read.request(offset))),
            EntryFetch::StoreBlock(block) => {
                cache.as_mut().unwrap().held.push((block_key.clone(), block.clone()));
                FetchReply::Stored
            }
            EntryFetch::StoreEntry(entry) => {
                cache.as_mut().unwrap().held.push((entry_key.clone(), encode(entry)));
                FetchReply::Stored
            }
            EntryFetch::Done(_) => FetchReply::Stored,
        };
        if let EntryFetch::Done(outcome) = state {
            return outcome;
        }
        state = sst.try_read_entry(false, offset, loc, cache.is_some(), state, reply);
    }
}

fn load(sst: &mut SSTable, file: &[u8]) -> Result<(), LsmError> {
    let mut state = sst.begin_index_load();
    loop {
        if let IndexLoad::Done(outcome) = state {
            return outcome;
        }
        let reply = answer(file, state.request());
        state = sst.ensure_index_loaded(state, reply);
    }
}

fn lookup(
    sst: &mut SSTable,
    file: &[u8],
    key: &str,
    cache: &mut Option<Cache>,
) -> Result<SstableLookupResult, LsmError> {
    let mut state = sst.begin_lookup(key, 5);
    loop {
        let reply = match &state {
            Lookup::LoadIndex => match load(sst, file) {
                Ok(()) => LookupReply::Indexed,
                Err(e) => LookupReply::Failed(e),
            },
            Lookup::Read { offset, loc, .. } => {
                let begin = sst.begin_fetch(false, *offset, *loc, cache.is_some());
                match fetch(sst, file, *offset, *loc, cache, begin) {
                    Ok(entry) => LookupReply::Entry(entry),
                    Err(e) => LookupReply::Failed(e),
                }
            }
            _ => LookupReply::Waited,
        };
        if let Lookup::Done(outcome) = state {
            return outcome;
        }
        state = sst.lookup_with_reader_guard(key, state, reply);
    }
}

fn written() -> Vec<u8> {
    let rows: Vec<TableEntry> = (0..40)
        .map(|i| TableEntry {
            key: format!("key{i:03}"),
            data: if i == 7 {
                b"-".to_vec()
            } else {
                format!("+value{i}").repeat(900).into_bytes()
            },
        })
        .collect();
    table().write_entries(&rows).unwrap().unwrap()
}

fn opened(file: &[u8]) -> SSTable {
    let mut sst = table();
    let mut state = MetadataRead::Magic;
    loop {
        if let MetadataRead::Done(outcome) = state {
            outcome.unwrap();
            break;
        }
        let reply = answer(file, state.request());
        state = sst.try_read_metadata(state, reply);
    }
    sst.mark_ready();
    sst
}

fn found(i: usize) -> SstableLookupResult {
    let data = format!("+value{i}").repeat(900).into_bytes();
    SstableLookupResult::Found { value: Value::Bytes(data[1..].to_vec()), timestamp: 7 }
}

#[test]
fn written_keys_are_looked_up() {
    let file = written();
    let mut sst = opened(&file);
    assert!(!sst.index_loaded);
    for i in [0, 6, 8, 39] {
        assert_eq!(lookup(&mut sst, &file, &format!("key{i:03}"), &mut None).unwrap(), found(i));
    }
    assert!(sst.index_loaded);
    assert_eq!(sst.last_access(), 5);
    assert_eq!(
        lookup(&mut sst, &file, "key007", &mut None).unwrap(),
        SstableLookupResult::Tombstone { timestamp: 7 }
    );
    for key in ["key0075", "a", "z"] {
        assert_eq!(
            lookup(&mut sst, &file, key, &mut None).unwrap(),
            SstableLookupResult::Missing
        );
    }
}

#[test]
fn blocks_are_cached_and_remembered() {
    let file = written();
    let mut sst = opened(&file);
    let mut cache = Some(Cache { held: Vec::new() });
    assert_eq!(lookup(&mut sst, &file, "key001", &mut cache).unwrap(), found(1));
    assert_eq!(cache.as_ref().unwrap().held.len(), 1);
    assert_eq!(cache.as_ref().unwrap().held[0].0, "t.sst:blk:8");
    assert_eq!(sst.decompressed_block.as_ref().unwrap().0, 8);
    assert_eq!(lookup(&mut sst, &file, "key002", &mut cache).unwrap(), found(2));
    assert_eq!(cache.as_ref().unwrap().held.len(), 1);
    sst.decompressed_block = None;
    let header_only = &file[..8];
    assert_eq!(lookup(&mut sst, header_only, "key002", &mut cache).unwrap(), found(2));
    assert!(lookup(&mut sst, header_only, "key039", &mut cache).is_err());
}

#[test]
fn failed_reads_are_tried_again() {
    let file = written();
    let mut sst = opened(&file);
    load(&mut sst, &file).unwrap();
    let max = sst.config.file_retry_attempts;
    let half = sst.config.retry_delay_ms / 2;
    let eof = || {
        LookupReply::Failed(LsmError::Io(IoError {
            kind: IoErrorKind::UnexpectedEof,
            message: "early eof".to_string(),
        }))
    };
    let mut state = sst.begin_lookup("key001", 1);
    state = sst.lookup_with_reader_guard("key001", state, LookupReply::Indexed);
    for n in 1..max {
        assert!(matches!(state, Lookup::Read { attempts, .. } if attempts == n - 1));
        state = sst.lookup_with_reader_guard("key001", state, eof());
        match state {
            Lookup::Wait { attempts, base_ms, times, .. } => {
                assert_eq!((attempts, base_ms, times), (n, half, 1 << (n - 1).min(5)));
            }
            ref other => panic!("{other:?}"),
        }
        state = sst.lookup_with_reader_guard("key001", state, LookupReply::Waited);
    }
    state = sst.lookup_with_reader_guard("key001", state, eof());
    assert!(matches!(state, Lookup::Done(Err(LsmError::Io(_)))));

    state = sst.begin_lookup("key001", 1);
    state = sst.lookup_with_reader_guard("key001", state, LookupReply::Indexed);
    let corrupt = LookupReply::Failed(LsmError::Corruption("bad".to_string()));
    state = sst.lookup_with_reader_guard("key001", state, corrupt);
    assert!(matches!(state, Lookup::Done(Err(LsmError::Corruption(_)))));

    state = sst.begin_lookup_sync("key001", 1);
    state = sst.lookup_sync("key001", state, LookupReply::Indexed);
    state = sst.lookup_sync("key001", state, eof());
    assert!(matches!(state, Lookup::Done(Err(LsmError::Io(_)))));
}

#[test]
fn tables_that_are_not_ready_are_not_looked_up() {
    match table().begin_lookup("k", 1) {
        Lookup::Done(Err(LsmError::Internal(m))) => assert_eq!(
            m,
            "Cannot read from SSTable that is not ready: \"t.sst\". The SSTable may still be \
             being written or metadata/index may not be loaded."
        ),
        other => panic!("{other:?}"),
    }
    match table().begin_lookup_sync("k", 1) {
        Lookup::Done(Err(LsmError::Internal(m))) => {
            assert_eq!(m, "Cannot read from SSTable that is not ready: \"t.sst\"")
        }
        other => panic!("{other:?}"),
    }
}

fn framed(data: &[u8]) -> Vec<u8> {
    let mut out = (data.len() as u32).to_le_bytes().to_vec();
    out.extend(data);
    let sum = crc32fast::hash(&out);
    out.extend(sum.to_le_bytes());
    out
}

#[test]
fn entries_in_the_file_itself_are_fetched() {
    let mut file = framed(b"+first");
    let second = file.len() as u64;
    file.extend(framed(b"+second"));
    let mut sst = table();
    sst.mark_ready();
    let first = decode(b"+first").unwrap().value;
    let mut cache = Some(Cache { held: Vec::new() });
    let begin = sst.begin_fetch(false, 0, 6, true);
    assert_eq!(fetch(&mut sst, &file, 0, 6, &mut cache, begin).unwrap().value, first);
    assert_eq!(cache.as_ref().unwrap().held, vec![("t.sst:0".to_string(), b"+first".to_vec())]);
    let begin = sst.begin_fetch(false, 0, 6, true);
    assert_eq!(fetch(&mut sst, &[], 0, 6, &mut cache, begin).unwrap().value, first);

    cache.as_mut().unwrap().held[0].1 = b"!".to_vec();
    let begin = sst.begin_fetch(false, 0, 6, true);
    assert_eq!(fetch(&mut sst, &file, 0, 6, &mut cache, begin).unwrap().value, first);

    let begin = sst.begin_fetch(false, second, 7, false);
    assert_eq!(
        fetch(&mut sst, &file, second, 7, &mut None, begin).unwrap().value,
        decode(b"+second").unwrap().value
    );
    assert!(matches!(
        sst.begin_fetch(true, 0, 6, false),
        EntryFetch::Done(Err(LsmError::Internal(_)))
    ));
}

#[test]
fn entries_are_fetched_from_an_open_file() {
    let mut file = framed(b"+first");
    let second = file.len() as u64;
    file.extend(framed(b"+second"));
    let mut sst = table();
    let mut cache = Some(Cache { held: Vec::new() });
    let mut read = |file: &[u8], offset: u64| {
        fetch(&mut sst, file, offset, 6, &mut cache, EntryFetch::OpenFirst)
    };
    assert_eq!(read(&file, 0).unwrap().value, decode(b"+first").unwrap().value);
    assert_eq!(read(&file, second).unwrap().value, decode(b"+second").unwrap().value);
    match read(&file, second + 10) {
        Err(LsmError::Io(e)) => {
            assert_eq!(e.message, format!("entry header past EOF at {}", second + 10))
        }
        other => panic!("{other:?}"),
    }
    match read(&file[..file.len() - 1], second) {
        Err(LsmError::Io(e)) => assert_eq!(e.message, format!("entry body past EOF at {second}")),
        other => panic!("{other:?}"),
    }
    let mut bad = file.clone();
    bad[5] ^= 1;
    match read(&bad, 0) {
        Err(LsmError::Corruption(m)) => {
            assert_eq!(m, "SSTable entry checksum mismatch at offset 0")
        }
        other => panic!("{other:?}"),
    }
    match read(&[0; 20], 0) {
        Err(LsmError::Corruption(m)) => assert_eq!(m, "invalid entry size 0 at 0"),
        other => panic!("{other:?}"),
    }
    assert!(cache.unwrap().held.is_empty());
}
