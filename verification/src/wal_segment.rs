//! Segments of the log: header, records, and what reaches the disk when.

use crate::bytes;
use crate::engine_config::WalSyncMode;
use crate::error::{IoErrorKind, LsmError};
use crate::numerals::{self, parse_number, text_between};
use crate::sst_open::{FileReply, FileRequest};
use crate::text::{self, cat, hex_text, push_zero_padded};
use crate::wal_record::{self, encode_record, read_length};
use vstd::bytes::*;
use vstd::prelude::*;
use vstd::slice::*;
use vstd::string::*;

verus! {

/// The first bytes of a segment.
pub const SEGMENT_MAGIC: [u8; 4] = [87u8, 65u8, 76u8, 49u8];

/// The version of the segment layout.
pub const SEGMENT_VERSION: u8 = 1;

/// Size of a segment header in bytes.
pub const SEGMENT_HEADER_SIZE: u64 = 17;

/// Header of a segment.
#[derive(Debug, Clone, Copy)]
pub struct WALSegmentHeader {
    /// Marks the file as a segment.
    pub magic: [u8; 4],
    /// Version of the layout.
    pub version: u8,
    /// When the segment was created.
    pub created_at: u64,
    /// How many entries the segment holds.
    pub entry_count: u32,
}

/// The magic bytes as a sequence.
pub open spec fn segment_magic() -> Seq<u8> {
    seq![87u8, 65u8, 76u8, 49u8]
}

/// The stored form of a header.
pub open spec fn header_bytes(h: WALSegmentHeader) -> Seq<u8> {
    h.magic@ + seq![h.version] + spec_u64_to_le_bytes(h.created_at) + spec_u32_to_le_bytes(
        h.entry_count,
    )
}

/// `h` is the header that these bytes begin with.
pub open spec fn header_read(data: Seq<u8>, h: WALSegmentHeader) -> bool {
    &&& h.magic@ == data.subrange(0, 4)
    &&& h.version == data[4]
    &&& h.created_at == spec_u64_from_le_bytes(data.subrange(5, 13))
    &&& h.entry_count == spec_u32_from_le_bytes(data.subrange(13, 17))
}

/// `bincode::serialize` of the header's fields in order: the four bytes and the version as they
/// are, the numbers in little-endian order. It does not fail on these types.
#[verifier::external_body]
fn bincode_segment_header(h: &WALSegmentHeader) -> (r: Result<Vec<u8>, String>)
    ensures
        r is Ok,
        r matches Ok(v) ==> v@ == header_bytes(*h),
{
    bincode::serialize(&(h.magic, h.version, h.created_at, h.entry_count)).map_err(|e| e.to_string())
}

/// `bincode::deserialize` of the header's fields in order, with bytes behind them allowed. It
/// fails where the bytes end early; the text of that failure is not stated.
#[verifier::external_body]
fn bincode_segment_header_back(data: &[u8]) -> (r: Result<WALSegmentHeader, String>)
    ensures
        r is Ok <==> data@.len() >= 17,
        r matches Ok(h) ==> header_read(data@, h),
{
    let t: ([u8; 4], u8, u64, u32) = bincode::deserialize(data).map_err(|e| e.to_string())?;
    Ok(WALSegmentHeader { magic: t.0, version: t.1, created_at: t.2, entry_count: t.3 })
}

/// A stored header is read back.
pub proof fn header_round_trip(h: WALSegmentHeader, rest: Seq<u8>)
    ensures
        header_bytes(h).len() == SEGMENT_HEADER_SIZE,
        header_read(header_bytes(h) + rest, h),
{
    bytes::u64_back(h.created_at);
    bytes::u32_back(h.entry_count);
    let data = header_bytes(h) + rest;
    assert(data.subrange(0, 4) =~= h.magic@);
    assert(data.subrange(5, 13) =~= spec_u64_to_le_bytes(h.created_at));
    assert(data.subrange(13, 17) =~= spec_u32_to_le_bytes(h.entry_count));
}

/// How a file is synced.
#[derive(Debug, Clone, Copy, PartialEq, Eq, Structural)]
pub enum SyncAction {
    /// Not at all.
    Nothing,
    /// Data and metadata, before going on.
    All,
    /// Data only, before going on.
    Data,
    /// Data and metadata, on a thread of its own; its failures are logged.
    AllInBackground,
    /// Data only, on a thread of its own; its failures are logged.
    DataInBackground,
}

/// A header that is due to be written at the start of the file.
#[derive(Debug)]
pub struct HeaderWrite {
    /// The stored form of the header.
    pub header: Vec<u8>,
    /// Whether the file's buffer is handed to the system behind the write.
    pub flush: bool,
    /// How the file is synced then.
    pub sync: SyncAction,
}

/// A record that is due to be written at the end of the file; the file's buffer is handed to the
/// system behind the write.
#[derive(Debug)]
pub struct AppendPlan {
    /// The record.
    pub bytes: Vec<u8>,
    /// How the file is synced then.
    pub sync: SyncAction,
}

/// A segment file.
#[derive(Debug, Clone)]
pub struct WALSegment {
    /// Path of the file.
    pub path: String,
    /// Its header.
    pub header: WALSegmentHeader,
    /// How many entries were written to it.
    pub entry_count: u32,
    /// Size in bytes beyond which nothing is appended.
    pub max_size: u64,
    /// When writes reach the disk.
    pub sync_mode: WalSyncMode,
}

/// The path of the segment with this number in a directory.
pub open spec fn segment_name(id: u64) -> Seq<char> {
    "segment_"@ + text::zero_padded(text::hex(id as nat), 16) + ".wal"@
}

/// The number in a segment's file name.
pub open spec fn segment_number(name: Seq<char>) -> Option<nat> {
    match numerals::between(name, "segment_"@, ".wal"@) {
        Some(id) => numerals::parsed(id, 16, u64::MAX as nat),
        None => None,
    }
}

/// The name is that of a segment file.
pub open spec fn is_segment_name(name: Seq<char>) -> bool {
    numerals::between(name, "segment_"@, ".wal"@) is Some
}

/// The file name of the segment with this number.
pub fn segment_file_name(id: u64) -> (r: String)
    ensures
        r@ == segment_name(id),
{
    let mut name = "segment_".to_owned();
    push_zero_padded(&mut name, hex_text(id).as_str(), 16);
    name.append(".wal");
    name
}

/// Whether the name is that of a segment file.
pub fn is_segment_file(name: &str) -> (r: bool)
    ensures
        r == is_segment_name(name@),
{
    text_between(name, "segment_", ".wal").is_some()
}

/// The number in a segment's file name.
pub fn parse_segment_id(name: &str) -> (r: Option<u64>)
    ensures
        match segment_number(name@) {
            Some(n) => r matches Some(id) && id == n,
            None => r is None,
        },
{
    match text_between(name, "segment_", ".wal") {
        Some(id) => parse_number(&id, 16, u64::MAX),
        None => None,
    }
}

/// The number of a segment is found again in its file name.
pub proof fn segment_number_back(id: u64)
    ensures
        segment_number(segment_name(id)) == Some(id as nat),
{
    let digits = text::hex(id as nat);
    numerals::hex_stands_for(id as nat);
    numerals::padded_back(digits, 16, 16, u64::MAX as nat);
    numerals::between_back("segment_"@, text::zero_padded(digits, 16), ".wal"@);
}

impl WALSegment {
    /// What syncing after a write calls for.
    pub open spec fn sync_due(self) -> SyncAction {
        match self.sync_mode {
            WalSyncMode::Never => SyncAction::Nothing,
            WalSyncMode::Flush => SyncAction::Nothing,
            WalSyncMode::Fsync => SyncAction::All,
            WalSyncMode::FsyncAsync => SyncAction::AllInBackground,
        }
    }

    /// A fresh segment.
    pub fn new(path: String, max_size: u64, sync_mode: WalSyncMode, now: u64) -> (r: Self)
        ensures
            r.path@ == path@,
            r.header.magic@ == segment_magic(),
            r.header.version == SEGMENT_VERSION,
            r.header.created_at == now,
            r.header.entry_count == 0,
            r.entry_count == 0,
            r.max_size == max_size,
            r.sync_mode == sync_mode,
    {
        let header = WALSegmentHeader {
            magic: SEGMENT_MAGIC,
            version: SEGMENT_VERSION,
            created_at: now,
            entry_count: 0,
        };
        assert(header.magic@ =~= segment_magic());
        WALSegment { path, header, entry_count: 0, max_size, sync_mode }
    }

    fn write_header(&self, flush: bool, sync: SyncAction) -> (r: Result<HeaderWrite, LsmError>)
        ensures
            r matches Ok(w) && w.header@ == header_bytes(self.header) && w.flush == flush && w.sync
                == sync,
    {
        match bincode_segment_header(&self.header) {
            Ok(header) => Ok(HeaderWrite { header, flush, sync }),
            Err(e) => Err(
                LsmError::Serialization(cat("Failed to serialize header: ", e.as_str())),
            ),
        }
    }

    /// What creating the file writes: the header, synced at once so that a crash leaves no empty
    /// segment behind.
    pub fn creation_write(&self) -> (r: Result<HeaderWrite, LsmError>)
        ensures
            r matches Ok(w) && w.header@ == header_bytes(self.header) && !w.flush && w.sync
                == SyncAction::Data,
    {
        self.write_header(false, SyncAction::Data)
    }

    /// How many bytes of the header are read from a file of `file_len` bytes; none from a file
    /// that is too short to hold one.
    pub fn header_to_read(file_len: u64) -> (r: Option<u64>)
        ensures
            r == (if file_len < SEGMENT_HEADER_SIZE {
                None
            } else {
                Some(SEGMENT_HEADER_SIZE)
            }),
    {
        if file_len < SEGMENT_HEADER_SIZE {
            None
        } else {
            Some(SEGMENT_HEADER_SIZE)
        }
    }

    /// A segment opened for reading, from the header's bytes; a file too short for a header is an
    /// empty segment.
    pub fn open_for_reading(
        path: String,
        max_size: u64,
        sync_mode: WalSyncMode,
        header_data: Option<Vec<u8>>,
    ) -> (r: Result<Self, LsmError>)
        requires
            header_data matches Some(d) ==> d@.len() == SEGMENT_HEADER_SIZE,
        ensures
            match header_data {
                None => {
                    &&& r is Ok
                    &&& r matches Ok(s) ==> {
                        &&& s.header.magic@ == segment_magic()
                        &&& s.header.version == SEGMENT_VERSION
                        &&& s.header.created_at == 0
                        &&& s.header.entry_count == 0
                    }
                },
                Some(d) => {
                    &&& r is Ok <==> d@.subrange(0, 4) == segment_magic()
                    &&& r matches Ok(s) ==> header_read(d@, s.header)
                    &&& r matches Err(e) ==> e.is_corruption("Invalid WAL magic number"@)
                },
            },
            r matches Ok(s) ==> {
                &&& s.path@ == path@
                &&& s.entry_count == s.header.entry_count
                &&& s.max_size == max_size
                &&& s.sync_mode == sync_mode
            },
    {
        let data = match header_data {
            Some(data) => data,
            None => {
                return Ok(WALSegment::new(path, max_size, sync_mode, 0));
            },
        };
        let header = match bincode_segment_header_back(data.as_slice()) {
            Ok(header) => header,
            Err(e) => {
                return Err(
                    LsmError::Serialization(cat("Failed to deserialize header: ", e.as_str())),
                );
            },
        };
        let magic: [u8; 4] = SEGMENT_MAGIC;
        assert(magic@ =~= segment_magic());
        if !bytes::bytes_equal(header.magic.as_slice(), magic.as_slice()) {
            return Err(LsmError::Corruption("Invalid WAL magic number".to_owned()));
        }
        Ok(WALSegment { path, header, entry_count: header.entry_count, max_size, sync_mode })
    }

    /// What writing an entry to a file of `current_size` bytes calls for; nothing where the
    /// segment has no room for it and is to be rotated.
    pub fn write_entry(&self, current_size: u64, payload: &Vec<u8>) -> (r: Option<AppendPlan>)
        requires
            current_size + payload@.len() + 4 <= u64::MAX,
        ensures
            r is None <==> current_size + payload@.len() + 4 > self.max_size,
            r matches Some(plan) ==> plan.bytes@ == wal_record::record(payload@) && plan.sync
                == self.sync_due(),
    {
        let entry_size: u64 = payload.len() as u64 + 4;
        if current_size + entry_size > self.max_size {
            return None;
        }
        Some(AppendPlan { bytes: encode_record(payload.as_slice()), sync: self.sync_after_flush() })
    }

    /// Takes note that entries were written.
    pub fn entries_written(&mut self, count: u32)
        requires
            old(self).entry_count + count <= u32::MAX,
        ensures
            final(self).entry_count == old(self).entry_count + count,
            final(self).header == (WALSegmentHeader {
                entry_count: final(self).entry_count,
                ..old(self).header
            }),
            final(self).path == old(self).path,
            final(self).max_size == old(self).max_size,
            final(self).sync_mode == old(self).sync_mode,
    {
        self.entry_count = self.entry_count + count;
        self.header.entry_count = self.entry_count;
    }

    /// What syncing after a write calls for.
    pub fn sync_after_flush(&self) -> (r: SyncAction)
        ensures
            r == self.sync_due(),
    {
        match self.sync_mode {
            WalSyncMode::Never => SyncAction::Nothing,
            WalSyncMode::Flush => SyncAction::Nothing,
            WalSyncMode::Fsync => SyncAction::All,
            WalSyncMode::FsyncAsync => SyncAction::AllInBackground,
        }
    }

    /// Whether a file of `len` bytes is full.
    pub fn should_rotate(&self, len: u64) -> (r: bool)
        ensures
            r == (len >= self.max_size),
    {
        len >= self.max_size
    }

    /// Path of the file.
    pub fn path(&self) -> (r: &str)
        ensures
            r@ == self.path@,
    {
        self.path.as_str()
    }

    /// How many entries were written.
    pub fn entry_count(&self) -> (r: u32)
        ensures
            r == self.entry_count,
    {
        self.entry_count
    }

    /// What flushing the segment writes.
    pub fn flush(&self) -> (r: Result<HeaderWrite, LsmError>)
        ensures
            r matches Ok(w) && w.header@ == header_bytes(self.header) && w.flush && w.sync
                == self.sync_due(),
    {
        self.write_header(true, self.sync_after_flush())
    }

    /// What closing the segment writes.
    pub fn close(&self) -> (r: Result<HeaderWrite, LsmError>)
        ensures
            r matches Ok(w) && w.header@ == header_bytes(self.header) && !w.flush && w.sync
                == SyncAction::All,
    {
        self.write_header(false, SyncAction::All)
    }
}

/// How far reading the records of a file has come.
#[derive(Debug)]
pub enum LogRead {
    /// The size of the file is asked for.
    Size,
    /// The length of the record at `pos` is asked for.
    Length {
        /// Where the record begins.
        pos: u64,
        /// The payloads so far.
        payloads: Vec<Vec<u8>>,
    },
    /// The payload at `pos` is asked for.
    Body {
        /// Where the payload begins.
        pos: u64,
        /// How long it is.
        size: u32,
        /// The payloads so far.
        payloads: Vec<Vec<u8>>,
    },
    /// Reading has ended.
    Done(Result<Vec<Vec<u8>>, LsmError>),
}

/// The reply says that the file ends before the bytes that were asked for.
pub open spec fn ends_early(reply: FileReply) -> bool {
    reply matches FileReply::Failed(LsmError::Io(e)) && e.kind == IoErrorKind::UnexpectedEof
}

/// Reading has ended with these payloads.
pub open spec fn read_ends(next: LogRead, payloads: Seq<Vec<u8>>) -> bool {
    next matches LogRead::Done(Ok(all)) && all@ == payloads
}

/// The next state of reading a segment whose records are at most `limit` long, when `reply`
/// answers the request of `st`. An early end of the file, an empty record and one that is too
/// long end the segment.
pub open spec fn segment_read_step(st: LogRead, reply: FileReply, next: LogRead, limit: u64) -> bool {
    match st {
        LogRead::Size => match reply {
            FileReply::Size(n) => if n <= SEGMENT_HEADER_SIZE {
                read_ends(next, Seq::empty())
            } else {
                next matches LogRead::Length { pos, payloads } && pos == SEGMENT_HEADER_SIZE
                    && payloads@ == Seq::<Vec<u8>>::empty()
            },
            FileReply::Failed(e) => next == LogRead::Done(Err(e)),
            _ => false,
        },
        LogRead::Length { pos, payloads } => match reply {
            FileReply::Data(d) => {
                let size = wal_record::length_value(d@);
                if size == 0 || size > limit {
                    read_ends(next, payloads@)
                } else {
                    next matches LogRead::Body { pos: p, size: s, payloads: all } && p == pos + 4
                        && s == size && all@ == payloads@
                }
            },
            FileReply::Failed(e) => if ends_early(reply) {
                read_ends(next, payloads@)
            } else {
                next == LogRead::Done(Err(e))
            },
            _ => false,
        },
        LogRead::Body { pos, size, payloads } => match reply {
            FileReply::Data(d) => next matches LogRead::Length { pos: p, payloads: all } && p == pos
                + size && all@ == payloads@.push(d),
            FileReply::Failed(e) => if ends_early(reply) {
                read_ends(next, payloads@)
            } else {
                next == LogRead::Done(Err(e))
            },
            _ => false,
        },
        LogRead::Done(_) => next == st,
    }
}

impl LogRead {
    /// What the file layer is asked for in this state.
    pub open spec fn wants(self) -> FileRequest {
        match self {
            LogRead::Size => FileRequest::Size,
            LogRead::Length { pos, .. } => FileRequest::Read { offset: pos, len: 4 },
            LogRead::Body { pos, size, .. } => FileRequest::Read { offset: pos, len: size as u64 },
            LogRead::Done(_) => FileRequest::Nothing,
        }
    }

    /// The position lies within a file.
    pub open spec fn wf(self) -> bool {
        match self {
            LogRead::Length { pos, .. } => pos <= i64::MAX,
            LogRead::Body { pos, .. } => pos <= i64::MAX,
            _ => true,
        }
    }

    /// What the file layer is asked for in this state.
    pub fn request(&self) -> (r: FileRequest)
        ensures
            r == self.wants(),
    {
        match self {
            LogRead::Size => FileRequest::Size,
            LogRead::Length { pos, .. } => FileRequest::Read { offset: *pos, len: 4 },
            LogRead::Body { pos, size, .. } => FileRequest::Read { offset: *pos, len: *size as u64 },
            LogRead::Done(_) => FileRequest::Nothing,
        }
    }
}

/// Whether the failure says that the file ends early.
pub(crate) fn is_early_end(e: &LsmError) -> (r: bool)
    ensures
        r == (*e matches LsmError::Io(io) && io.kind == IoErrorKind::UnexpectedEof),
{
    match e {
        LsmError::Io(io) => match io.kind {
            IoErrorKind::UnexpectedEof => true,
            _ => false,
        },
        _ => false,
    }
}

fn unexpected_reply() -> (r: LogRead)
    ensures
        r is Done,
{
    LogRead::Done(Err(LsmError::Internal("Unexpected reply of the file layer".to_owned())))
}

impl WALSegment {
    /// One step of reading all records of the segment: takes the reply to the request of `st`.
    pub fn read_entries(&self, st: LogRead, reply: FileReply) -> (next: LogRead)
        requires
            st.wf(),
            st !is Done ==> st.wants().answered_by(reply),
        ensures
            segment_read_step(st, reply, next, self.max_size),
            next.wf(),
    {
        match st {
            LogRead::Size => match reply {
                FileReply::Size(n) => if n <= SEGMENT_HEADER_SIZE {
                    LogRead::Done(Ok(Vec::new()))
                } else {
                    LogRead::Length { pos: SEGMENT_HEADER_SIZE, payloads: Vec::new() }
                },
                FileReply::Failed(e) => LogRead::Done(Err(e)),
                _ => unexpected_reply(),
            },
            LogRead::Length { pos, payloads } => match reply {
                FileReply::Data(d) => {
                    let size = read_length(d.as_slice());
                    if size == 0 || size as u64 > self.max_size {
                        LogRead::Done(Ok(payloads))
                    } else {
                        LogRead::Body { pos: pos + 4, size, payloads }
                    }
                },
                FileReply::Failed(e) => if is_early_end(&e) {
                    LogRead::Done(Ok(payloads))
                } else {
                    LogRead::Done(Err(e))
                },
                _ => unexpected_reply(),
            },
            LogRead::Body { pos, size, payloads } => match reply {
                FileReply::Data(d) => {
                    let mut payloads = payloads;
                    payloads.push(d);
                    LogRead::Length { pos: pos + size as u64, payloads }
                },
                FileReply::Failed(e) => if is_early_end(&e) {
                    LogRead::Done(Ok(payloads))
                } else {
                    LogRead::Done(Err(e))
                },
                _ => unexpected_reply(),
            },
            LogRead::Done(r) => LogRead::Done(r),
        }
    }
}

/// The reply is what a file with these bytes answers, an early end included.
pub open spec fn file_answers(request: FileRequest, file: Seq<u8>, reply: FileReply) -> bool {
    match request {
        FileRequest::Read { offset, len } => if offset + len <= file.len() {
            request.answered_from(file, reply)
        } else {
            ends_early(reply)
        },
        _ => request.answered_from(file, reply),
    }
}

/// The payloads that a segment file holds.
pub open spec fn segment_records(file: Seq<u8>, limit: nat) -> Seq<Seq<u8>> {
    if file.len() <= SEGMENT_HEADER_SIZE {
        Seq::empty()
    } else {
        wal_record::records_in(file.skip(SEGMENT_HEADER_SIZE as int), limit)
    }
}

/// The payloads with which reading an unchanged file ends from this state on.
pub open spec fn due(st: LogRead, file: Seq<u8>, limit: nat) -> Seq<Seq<u8>> {
    match st {
        LogRead::Size => segment_records(file, limit),
        LogRead::Length { pos, payloads } => wal_record::views(payloads@) + if pos <= file.len() {
            wal_record::records_in(file.skip(pos as int), limit)
        } else {
            Seq::empty()
        },
        LogRead::Body { pos, size, payloads } => wal_record::views(payloads@) + if pos + size
            <= file.len() {
            seq![file.subrange(pos as int, pos + size)] + wal_record::records_in(
                file.skip(pos + size),
                limit,
            )
        } else {
            Seq::empty()
        },
        LogRead::Done(Ok(payloads)) => wal_record::views(payloads@),
        LogRead::Done(Err(_)) => Seq::empty(),
    }
}

/// Reading an unchanged segment file goes through without an error, and each step keeps the
/// payloads with which reading will end: those that the file's records hold.
pub proof fn stored_segment_is_read(
    st: LogRead,
    reply: FileReply,
    next: LogRead,
    file: Seq<u8>,
    limit: u64,
)
    requires
        segment_read_step(st, reply, next, limit),
        st !is Done,
        file_answers(st.wants(), file, reply),
    ensures
        due(next, file, limit as nat) == due(st, file, limit as nat),
        !(next matches LogRead::Done(Err(_))),
{
    let l = limit as nat;
    match st {
        LogRead::Size => {
            if file.len() > SEGMENT_HEADER_SIZE {
                let rest = wal_record::records_in(file.skip(SEGMENT_HEADER_SIZE as int), l);
                assert(wal_record::views(Seq::empty()) + rest =~= rest);
            } else {
                assert(wal_record::views(Seq::empty()) =~= Seq::empty());
            }
        },
        LogRead::Length { pos, payloads } => {
            let before = wal_record::views(payloads@);
            if pos + 4 <= file.len() {
                let rest = file.skip(pos as int);
                assert(rest.take(4) =~= file.subrange(pos as int, pos + 4));
                let size = wal_record::length_value(rest.take(4));
                reveal(wal_record::length_value);
                if size <= 0 || size > limit {
                    assert(before + Seq::<Seq<u8>>::empty() =~= before);
                } else if pos + 4 + size <= file.len() {
                    assert(rest.subrange(4, 4 + size) =~= file.subrange(pos + 4, pos + 4 + size));
                    assert(rest.skip(4 + size) =~= file.skip(pos + 4 + size));
                }
            } else {
                assert(before + Seq::<Seq<u8>>::empty() =~= before);
            }
        },
        LogRead::Body { pos, size, payloads } => {
            let before = wal_record::views(payloads@);
            if pos + size <= file.len() {
                let d = file.subrange(pos as int, pos + size);
                let rest = wal_record::records_in(file.skip(pos + size), l);
                if let FileReply::Data(data) = reply {
                    assert(wal_record::views(payloads@.push(data)) =~= before.push(d));
                    assert(before.push(d) + rest =~= before + (seq![d] + rest));
                }
            } else {
                assert(before + Seq::<Seq<u8>>::empty() =~= before);
            }
        },
        LogRead::Done(_) => {},
    }
}

/// What was appended to a segment is read back from it, even where the last record was cut off:
/// only that one is missing.
pub proof fn segment_holds_what_was_written(
    h: WALSegmentHeader,
    payloads: Seq<Seq<u8>>,
    tail: Seq<u8>,
    limit: nat,
)
    requires
        forall|i: int|
            0 <= i < payloads.len() ==> wal_record::storable(#[trigger] payloads[i], limit),
        wal_record::records_in(tail, limit).len() == 0,
    ensures
        segment_records(header_bytes(h) + wal_record::log_bytes(payloads) + tail, limit)
            == payloads,
{
    header_round_trip(h, Seq::empty());
    let body = wal_record::log_bytes(payloads) + tail;
    let file = header_bytes(h) + wal_record::log_bytes(payloads) + tail;
    wal_record::log_round_trip(payloads, tail, limit);
    assert(file.skip(SEGMENT_HEADER_SIZE as int) =~= body);
    if file.len() <= SEGMENT_HEADER_SIZE {
        assert(body.len() == 0);
        assert(payloads =~= Seq::empty());
    }
}

} // verus!
