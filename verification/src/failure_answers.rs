//! How failures are told: by the kind of the error, and with what is needed to find their place.

use crate::engine_config::WalSyncMode;
use crate::error::{IoErrorKind, LsmError};
use crate::flat_index::FlatIndex;
use crate::sst_block::{self, AllEntries, TablePins};
use crate::sst_entry::EntryRead;
use crate::sst_lookup::Lookup;
use crate::sst_open::{FileReply, IndexLoad};
use crate::sstable::SSTable;
use crate::text;
use crate::wal::BatchWrite;
use crate::wal_frame::FrameWalSegment;
use crate::wal_frame_manager::FrameWalManager;
use crate::wal_index::{WalIndexFile, WalIndexHeader};
use crate::wal_indexed::{FrameWrite, IndexedWalSegment};
use crate::wal_indexed_append::IndexedAppend;
use crate::wal_indexed_manager::IndexedWalManager;
use crate::wal_recovery;
use crate::wal_segment::WALSegment;
use vstd::prelude::*;
use vstd::string::*;

verus! {

proof fn ending_is_contained(whole: Seq<char>, start: Seq<char>, part: Seq<char>)
    requires
        whole == start + part,
    ensures
        text::contains(whole, part),
{
    let i = start.len() as int;
    assert(whole.subrange(i, i + part.len()) =~= part);
    assert(text::part_at(whole, part, i));
}

/// A frame that does not lie in the file is told as an early end of it, a length that no entry has
/// and a wrong checksum as damage; each tells where it is.
pub proof fn damaged_entries_are_told(
    off: u64,
    size: u32,
    file_size: u64,
    place: String,
    of_header: Result<(), LsmError>,
    of_length: Result<(), LsmError>,
    body: &[u8],
    stored: u32,
    of_sum: Result<(), LsmError>,
)
    requires
        call_ensures(text::dec_text, (off,), place),
        call_ensures(sst_block::check_entry_header, (off, file_size), of_header),
        off + 8 <= file_size,
        call_ensures(sst_block::check_entry_length, (off, size, file_size), of_length),
        call_ensures(sst_block::check_entry_checksum, (off, size, body, stored), of_sum),
    ensures
        of_header is Ok,
        of_length matches Err(LsmError::Corruption(m)) ==> (size == 0 || size > 104_857_600)
            && text::contains(m@, place@),
        of_length matches Err(LsmError::Io(e)) ==> 0 < size <= 104_857_600 && e.kind
            == IoErrorKind::UnexpectedEof && text::contains(e.message@, place@),
        of_length matches Err(e) ==> e is Corruption || e is Io,
        of_sum matches Err(e) ==> (e matches LsmError::Corruption(m) && text::contains(m@, place@)),
{
    if let Err(LsmError::Corruption(m)) = of_length {
        ending_is_contained(
            m@,
            "invalid entry size "@ + text::dec(size as nat) + " at "@,
            place@,
        );
    }
    if let Err(LsmError::Io(e)) = of_length {
        ending_is_contained(e.message@, "entry body past EOF at "@, place@);
    }
    if let Err(LsmError::Corruption(m)) = of_sum {
        ending_is_contained(m@, "SSTable entry checksum mismatch at offset "@, place@);
    }
}

/// A read that starts where the file has ended is told as an early end of it.
pub proof fn early_ends_are_told(off: u64, file_size: u64, r: Result<(), LsmError>)
    requires
        call_ensures(sst_block::check_entry_header, (off, file_size), r),
        off + 8 > file_size,
    ensures
        r matches Err(LsmError::Io(e)) && e.kind == IoErrorKind::UnexpectedEof,
{
}

/// A table that is not ready refuses lookups, reads and scans of all as a fault of its own, not as
/// damage.
pub proof fn tables_that_are_not_ready_refuse(
    a: &mut SSTable,
    b: &mut SSTable,
    key: &str,
    now: u64,
    r: Lookup,
    s: Lookup,
    read: EntryRead,
    all: Result<AllEntries, LsmError>,
    marked: bool,
)
    requires
        !old(a).is_ready,
        !old(b).is_ready,
        call_ensures(SSTable::begin_lookup, (a, key, now), r),
        call_ensures(SSTable::begin_lookup_sync, (b, key, now), s),
        call_ensures(SSTable::begin_entry_read, (&*old(a), marked), read),
        call_ensures(AllEntries::begin, (&*old(a), marked), all),
    ensures
        r matches Lookup::Done(Err(LsmError::Internal(_))),
        s matches Lookup::Done(Err(LsmError::Internal(_))),
        read matches EntryRead::Done(Err(LsmError::Internal(_))),
        all matches Err(LsmError::Internal(_)),
{
}

/// A table that is to be deleted is not read, nor is one that comes to be while it is.
pub proof fn tables_to_be_deleted_refuse(
    t: SSTable,
    read: EntryRead,
    all: Result<AllEntries, LsmError>,
    off: u64,
    opened: EntryRead,
    part: AllEntries,
    next: Result<Option<(u64, u32)>, LsmError>,
)
    requires
        call_ensures(SSTable::begin_entry_read, (&t, true), read),
        call_ensures(AllEntries::begin, (&t, true), all),
        call_ensures(
            SSTable::read_stored_entry,
            (&t, true, off, EntryRead::Open, FileReply::Opened),
            opened,
        ),
        part.entries@.len() < part.locs@.len(),
        call_ensures(AllEntries::next_location, (&part, &t, true), next),
    ensures
        read matches EntryRead::Done(Err(LsmError::Internal(_))),
        all matches Err(LsmError::Internal(_)),
        opened matches EntryRead::Done(Err(LsmError::Internal(_))),
        next matches Err(LsmError::Internal(_)),
{
}

/// A place that is none of the data is told as damage of the index, and a table without metadata as
/// a fault.
pub proof fn wrong_places_are_told(
    t: SSTable,
    key: &str,
    known: Option<(u64, u32)>,
    r: Result<Option<(u64, u32)>, LsmError>,
    is_open: bool,
    open: Result<bool, LsmError>,
)
    requires
        call_ensures(FlatIndex::get, (&t.index, key), known),
        call_ensures(SSTable::locate, (&t, key), r),
        call_ensures(SSTable::ensure_file_open, (&t, is_open), open),
    ensures
        r matches Err(e) ==> if t.metadata.index_offset == 0 {
            e is Internal
        } else {
            e is Corruption
        },
        open matches Err(e) ==> e is Internal,
{
}

/// An index whose checksum is right, but which cannot be read, is told as such; one with another
/// number of keys is damaged. Nothing of it is kept.
pub proof fn unreadable_indexes_are_told(
    t: &mut SSTable,
    end: u64,
    bytes_read: Vec<u8>,
    stored: Vec<u8>,
    next: IndexLoad,
)
    requires
        call_ensures(
            SSTable::ensure_index_loaded,
            (t, IndexLoad::Checksum { end, bytes: bytes_read }, FileReply::Data(stored)),
            next,
        ),
    ensures
        next is Done,
        next matches IndexLoad::Done(Err(e)) ==> *final(t) == *old(t) && (e is Corruption
            || e is Serialization),
        next matches IndexLoad::Done(Ok(_)) ==> final(t).metadata == old(t).metadata
            && final(t).is_ready == old(t).is_ready,
{
}

/// A table with readers is not unlinked, and the number of its readers is told.
pub proof fn readers_are_told(
    pins: TablePins,
    quoted: &str,
    n: String,
    r: Result<bool, LsmError>,
)
    requires
        pins.reader_count <= u64::MAX,
        call_ensures(text::dec_text, (pins.reader_count as u64,), n),
        call_ensures(TablePins::unlink_allowed, (&pins, quoted), r),
    ensures
        r is Err <==> pins.marked_for_deletion && pins.reader_count > 0,
        r matches Err(e) ==> (e matches LsmError::Internal(m) && text::contains(m@, quoted@)
            && text::contains(m@, n@)),
{
    if let Err(LsmError::Internal(m)) = r {
        let start = "SSTable "@;
        let i = start.len() as int;
        assert(m@.subrange(i, i + quoted@.len()) =~= quoted@);
        assert(text::part_at(m@, quoted@, i));
        let j = i + quoted@.len() + " still has "@.len();
        assert(m@.subrange(j, j + n@.len()) =~= n@);
        assert(text::part_at(m@, n@, j));
    }
}

/// Files of the logs with another magic are told as damaged.
pub proof fn other_files_are_no_segments(
    path: String,
    max: u64,
    mode: WalSyncMode,
    data: Vec<u8>,
    len: u64,
    segment: Result<WALSegment, LsmError>,
    frame_data: Vec<u8>,
    frame: Result<FrameWalSegment, LsmError>,
)
    requires
        data@.len() == 17,
        call_ensures(WALSegment::open_for_reading, (path, max, mode, Some(data)), segment),
        frame_data@.len() == 21,
        call_ensures(FrameWalSegment::open_for_reading, (path, max, mode, frame_data, len), frame),
    ensures
        segment matches Err(e) ==> e is Corruption,
        frame is Ok <==> frame_data@.subrange(0, 4) == seq![87u8, 65u8, 76u8, 70u8],
        frame matches Err(e) ==> e is Corruption,
{
}

/// A slot of the index is read exactly if it is long enough, has its magic and its version, and the
/// right checksum; anything else is damage.
pub proof fn damaged_slots_are_told(
    slot: &[u8],
    r: Result<WalIndexHeader, LsmError>,
    a: &[u8],
    b: &[u8],
    latest: Result<WalIndexHeader, LsmError>,
)
    requires
        call_ensures(WalIndexHeader::from_slot_bytes, (slot,), r),
        call_ensures(WalIndexFile::read_latest, (a, b), latest),
    ensures
        slot@.len() < 44 ==> r is Err,
        slot@.len() >= 44 && slot@.subrange(0, 4) != seq![87u8, 73u8, 68u8, 88u8] ==> r is Err,
        slot@.len() >= 44 && slot@[4] != 1 ==> r is Err,
        r matches Err(e) ==> e is Corruption,
        latest matches Err(e) ==> e is Corruption,
{
}

/// A segment of the indexed log that is full is told as a fault, as is a log that is not ready; a
/// segment whose directory is missing is damaged, and an entry that cannot be decoded is told as
/// such.
pub proof fn indexed_faults_are_told(
    s: IndexedWalSegment,
    r: Result<Option<FrameWrite>, LsmError>,
    dir: String,
    quoted: &str,
    id: u32,
    size: usize,
    count: u32,
    mode: WalSyncMode,
    frame: u32,
    gone: Result<IndexedWalSegment, LsmError>,
    m: IndexedWalManager,
    ready: Result<(), LsmError>,
    w: &mut IndexedWalManager,
    payload: Vec<u8>,
    batch: bool,
    refused: IndexedAppend,
    entries: &mut Vec<crate::wal_entry::WALEntry>,
    why: String,
    undecoded: Result<(), LsmError>,
)
    requires
        call_ensures(IndexedWalSegment::flush_staging, (&s,), r),
        call_ensures(
            IndexedWalSegment::open_existing,
            (dir, quoted, false, id, size, count, mode, frame),
            gone,
        ),
        call_ensures(IndexedWalManager::check_ready, (&m,), ready),
        old(w).index is None || old(w).current_segment is None,
        call_ensures(IndexedWalManager::write_entry, (w, &payload, batch), refused),
        call_ensures(
            crate::wal_indexed::accept_decoded,
            (entries, Err::<crate::wal_entry::WALEntry, String>(why)),
            undecoded,
        ),
    ensures
        r matches Err(e) ==> e is Internal,
        gone matches Err(LsmError::Corruption(text_of)) && text::contains(text_of@, quoted@),
        ready matches Err(e) ==> e is Internal,
        refused matches IndexedAppend::Done(Err(LsmError::Internal(_))),
        undecoded matches Err(LsmError::Serialization(text_of)) && text::contains(text_of@, why@),
{
    if let Err(LsmError::Corruption(t)) = gone {
        ending_is_contained(t@, "indexed wal frames dir missing: "@, quoted@);
    }
    if let Err(LsmError::Serialization(t)) = undecoded {
        ending_is_contained(t@, "decode wal entry: "@, why@);
    }
}

/// A batch of the frame log is taken up exactly if it has an entry and there is a segment for it.
pub proof fn frame_batch_needs_a_segment(
    m: FrameWalManager,
    payloads: Vec<Vec<u8>>,
    r: (Vec<u8>, BatchWrite),
)
    requires
        call_ensures(FrameWalManager::begin_batch, (&m, &payloads), r),
    ensures
        payloads@.len() == 0 ==> r.1 == BatchWrite::Done(Ok(())),
        payloads@.len() > 0 && m.current_segment is Some ==> r.1 == BatchWrite::Capacity,
        payloads@.len() > 0 && m.current_segment is None ==> (r.1 matches BatchWrite::Done(Err(_))),
{
}

/// What is left of a log after it was wiped is told by its number.
pub proof fn left_files_are_counted(n: usize, shown: String, r: Result<(), LsmError>)
    requires
        n <= u64::MAX,
        call_ensures(text::dec_text, (n as u64,), shown),
        call_ensures(wal_recovery::check_truncated, (n,), r),
    ensures
        n > 0 ==> (r matches Err(LsmError::Io(e)) && text::contains(e.message@, shown@)),
{
    if let Err(LsmError::Io(e)) = r {
        let i = "WAL truncation incomplete: "@.len() as int;
        assert(e.message@.subrange(i, i + shown@.len()) =~= shown@);
        assert(text::part_at(e.message@, shown@, i));
    }
}

} // verus!
