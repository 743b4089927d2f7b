//! Frame segments of the log: a header with a page size, and data-only syncs.

use crate::bytes;
use crate::engine_config::WalSyncMode;
use crate::error::LsmError;
use crate::numerals::{self, parse_number, text_between};
use crate::sst_open::FileReply;
use crate::text::{self, cat, hex_text, push_zero_padded};
use crate::wal_record::{self, encode_record, read_length};
use crate::wal_segment::{self, AppendPlan, HeaderWrite, LogRead, SyncAction};
use vstd::bytes::*;
use vstd::prelude::*;
use vstd::slice::*;
use vstd::string::*;

verus! {

/// The first bytes of a frame segment.
pub const FRAME_MAGIC: [u8; 4] = [87u8, 65u8, 76u8, 70u8];

/// The version of the frame segment layout.
pub const FRAME_VERSION: u8 = 1;

/// Size of a frame segment header in bytes.
pub const FRAME_HEADER_SIZE: u64 = 21;

/// Header of a frame segment.
#[derive(Debug, Clone, Copy)]
pub struct FrameWalHeader {
    /// Marks the file as a frame segment.
    pub magic: [u8; 4],
    /// Version of the layout.
    pub version: u8,
    /// When the segment was created.
    pub created_at: u64,
    /// How many entries the segment holds.
    pub entry_count: u32,
    /// Page size in bytes.
    pub page_size: u32,
}

/// The magic bytes as a sequence.
pub open spec fn frame_magic() -> Seq<u8> {
    seq![87u8, 65u8, 76u8, 70u8]
}

/// The stored form of a header.
pub open spec fn frame_header_bytes(h: FrameWalHeader) -> Seq<u8> {
    h.magic@ + seq![h.version] + spec_u64_to_le_bytes(h.created_at) + spec_u32_to_le_bytes(
        h.entry_count,
    ) + spec_u32_to_le_bytes(h.page_size)
}

/// `h` is the header that these bytes begin with.
pub open spec fn frame_header_read(data: Seq<u8>, h: FrameWalHeader) -> bool {
    &&& h.magic@ == data.subrange(0, 4)
    &&& h.version == data[4]
    &&& h.created_at == spec_u64_from_le_bytes(data.subrange(5, 13))
    &&& h.entry_count == spec_u32_from_le_bytes(data.subrange(13, 17))
    &&& h.page_size == spec_u32_from_le_bytes(data.subrange(17, 21))
}

/// `bincode::serialize` of the header's fields in order: the four bytes and the version as they
/// are, the numbers in little-endian order. It does not fail on these types.
#[verifier::external_body]
fn bincode_frame_header(h: &FrameWalHeader) -> (r: Result<Vec<u8>, String>)
    ensures
        r is Ok,
        r matches Ok(v) ==> v@ == frame_header_bytes(*h),
{
    bincode::serialize(&(h.magic, h.version, h.created_at, h.entry_count, h.page_size))
        .map_err(|e| e.to_string())
}

/// `bincode::deserialize` of the header's fields in order, with bytes behind them allowed. It
/// fails where the bytes end early; the text of that failure is not stated.
#[verifier::external_body]
fn bincode_frame_header_back(data: &[u8]) -> (r: Result<FrameWalHeader, String>)
    ensures
        r is Ok <==> data@.len() >= 21,
        r matches Ok(h) ==> frame_header_read(data@, h),
{
    let t: ([u8; 4], u8, u64, u32, u32) = bincode::deserialize(data).map_err(|e| e.to_string())?;
    Ok(FrameWalHeader {
        magic: t.0, version: t.1, created_at: t.2, entry_count: t.3, page_size: t.4,
    })
}

/// A stored header is read back.
pub proof fn frame_header_round_trip(h: FrameWalHeader, rest: Seq<u8>)
    ensures
        frame_header_bytes(h).len() == FRAME_HEADER_SIZE,
        frame_header_read(frame_header_bytes(h) + rest, h),
{
    bytes::u64_back(h.created_at);
    bytes::u32_back(h.entry_count);
    bytes::u32_back(h.page_size);
    let data = frame_header_bytes(h) + rest;
    assert(data.subrange(0, 4) =~= h.magic@);
    assert(data.subrange(5, 13) =~= spec_u64_to_le_bytes(h.created_at));
    assert(data.subrange(13, 17) =~= spec_u32_to_le_bytes(h.entry_count));
    assert(data.subrange(17, 21) =~= spec_u32_to_le_bytes(h.page_size));
}

/// A frame segment file.
#[derive(Debug, Clone)]
pub struct FrameWalSegment {
    /// Path of the file.
    pub path: String,
    /// Its header.
    pub header: FrameWalHeader,
    /// How many entries were written to it.
    pub entry_count: u32,
    /// Size in bytes beyond which nothing is appended.
    pub max_size: u64,
    /// When writes reach the disk.
    pub sync_mode: WalSyncMode,
    /// Up to where the file is known to be synced.
    pub synced_offset: u64,
}

/// The file name of the frame segment with this number.
pub open spec fn frame_name(id: u64) -> Seq<char> {
    "frame_"@ + text::zero_padded(text::hex(id as nat), 16) + ".wal"@
}

/// The number in a frame segment's file name.
pub open spec fn frame_number(name: Seq<char>) -> Option<nat> {
    match numerals::between(name, "frame_"@, ".wal"@) {
        Some(id) => numerals::parsed(id, 16, u64::MAX as nat),
        None => None,
    }
}

/// The name is that of a frame segment file.
pub open spec fn is_frame_name(name: Seq<char>) -> bool {
    numerals::between(name, "frame_"@, ".wal"@) is Some
}

/// The file name of the frame segment with this number.
pub fn frame_file_name(id: u64) -> (r: String)
    ensures
        r@ == frame_name(id),
{
    let mut name = "frame_".to_owned();
    push_zero_padded(&mut name, hex_text(id).as_str(), 16);
    name.append(".wal");
    name
}

/// Whether the name is that of a frame segment file.
pub fn is_frame_file(name: &str) -> (r: bool)
    ensures
        r == is_frame_name(name@),
{
    text_between(name, "frame_", ".wal").is_some()
}

/// The number in a frame segment's file name.
pub fn parse_frame_id(name: &str) -> (r: Option<u64>)
    ensures
        match frame_number(name@) {
            Some(n) => r matches Some(id) && id == n,
            None => r is None,
        },
{
    match text_between(name, "frame_", ".wal") {
        Some(id) => parse_number(&id, 16, u64::MAX),
        None => None,
    }
}

/// The number of a frame segment is found again in its file name.
pub proof fn frame_number_back(id: u64)
    ensures
        frame_number(frame_name(id)) == Some(id as nat),
{
    let digits = text::hex(id as nat);
    numerals::hex_stands_for(id as nat);
    numerals::padded_back(digits, 16, 16, u64::MAX as nat);
    numerals::between_back("frame_"@, text::zero_padded(digits, 16), ".wal"@);
}

impl FrameWalSegment {
    /// What syncing after a write calls for.
    pub open spec fn sync_due(self) -> SyncAction {
        match self.sync_mode {
            WalSyncMode::Never => SyncAction::Nothing,
            WalSyncMode::Flush => SyncAction::Nothing,
            WalSyncMode::Fsync => SyncAction::Data,
            WalSyncMode::FsyncAsync => SyncAction::DataInBackground,
        }
    }

    /// A fresh segment.
    pub fn new(
        path: String,
        max_size: u64,
        sync_mode: WalSyncMode,
        page_size: u32,
        now: u64,
    ) -> (r: Self)
        ensures
            r.path@ == path@,
            r.header.magic@ == frame_magic(),
            r.header.version == FRAME_VERSION,
            r.header.created_at == now,
            r.header.entry_count == 0,
            r.header.page_size == page_size,
            r.entry_count == 0,
            r.max_size == max_size,
            r.sync_mode == sync_mode,
            r.synced_offset == 0,
    {
        let header = FrameWalHeader {
            magic: FRAME_MAGIC,
            version: FRAME_VERSION,
            created_at: now,
            entry_count: 0,
            page_size,
        };
        assert(header.magic@ =~= frame_magic());
        FrameWalSegment { path, header, entry_count: 0, max_size, sync_mode, synced_offset: 0 }
    }

    fn write_header(&self, flush: bool, sync: SyncAction) -> (r: Result<HeaderWrite, LsmError>)
        ensures
            r matches Ok(w) && w.header@ == frame_header_bytes(self.header) && w.flush == flush
                && w.sync == sync,
    {
        match bincode_frame_header(&self.header) {
            Ok(header) => Ok(HeaderWrite { header, flush, sync }),
            Err(e) => Err(
                LsmError::Serialization(cat("Failed to serialize header: ", e.as_str())),
            ),
        }
    }

    /// What creating the file writes: the header, which nothing syncs.
    pub fn creation_write(&self) -> (r: Result<HeaderWrite, LsmError>)
        ensures
            r matches Ok(w) && w.header@ == frame_header_bytes(self.header) && !w.flush && w.sync
                == SyncAction::Nothing,
    {
        self.write_header(false, SyncAction::Nothing)
    }

    /// Takes note of how far the file is synced.
    pub fn synced_to(&mut self, file_len: u64)
        ensures
            *final(self) == (FrameWalSegment { synced_offset: file_len, ..*old(self) }),
    {
        self.synced_offset = file_len;
    }

    /// A segment opened for reading, from the header's bytes and the length of the file.
    pub fn open_for_reading(
        path: String,
        max_size: u64,
        sync_mode: WalSyncMode,
        header_data: Vec<u8>,
        file_len: u64,
    ) -> (r: Result<Self, LsmError>)
        requires
            header_data@.len() == FRAME_HEADER_SIZE,
        ensures
            r is Ok <==> header_data@.subrange(0, 4) == frame_magic(),
            match r {
                Ok(s) => {
                    &&& frame_header_read(header_data@, s.header)
                    &&& s.path@ == path@
                    &&& s.entry_count == s.header.entry_count
                    &&& s.max_size == max_size
                    &&& s.sync_mode == sync_mode
                    &&& s.synced_offset == file_len
                },
                Err(e) => e.is_corruption("Invalid frame WAL magic"@),
            },
    {
        let header = match bincode_frame_header_back(header_data.as_slice()) {
            Ok(header) => header,
            Err(e) => {
                return Err(
                    LsmError::Serialization(cat("Failed to deserialize header: ", e.as_str())),
                );
            },
        };
        let magic: [u8; 4] = FRAME_MAGIC;
        assert(magic@ =~= frame_magic());
        if !bytes::bytes_equal(header.magic.as_slice(), magic.as_slice()) {
            return Err(LsmError::Corruption("Invalid frame WAL magic".to_owned()));
        }
        Ok(
            FrameWalSegment {
                path,
                header,
                entry_count: header.entry_count,
                max_size,
                sync_mode,
                synced_offset: file_len,
            },
        )
    }

    /// What writing an entry to a file of `current_size` bytes calls for; nothing where the
    /// segment has no room for it and is to be rotated.
    pub fn write_entry(&self, current_size: u64, payload: &Vec<u8>) -> (r: Option<AppendPlan>)
        requires
            current_size + payload@.len() + 4 <= u64::MAX,
        ensures
            r is None <==> current_size + payload@.len() + 4 > self.max_size,
            r matches Some(plan) ==> plan.bytes@ == wal_record::record(payload@) && plan.sync
                == self.sync_due(),
    {
        let entry_size: u64 = payload.len() as u64 + 4;
        if current_size + entry_size > self.max_size {
            return None;
        }
        Some(AppendPlan { bytes: encode_record(payload.as_slice()), sync: self.sync_after_flush() })
    }

    /// Takes note that entries were written.
    pub fn entries_written(&mut self, count: u32)
        requires
            old(self).entry_count + count <= u32::MAX,
        ensures
            final(self).entry_count == old(self).entry_count + count,
            final(self).header == (FrameWalHeader {
                entry_count: final(self).entry_count,
                ..old(self).header
            }),
            *final(self) == (FrameWalSegment {
                entry_count: final(self).entry_count,
                header: final(self).header,
                ..*old(self)
            }),
    {
        self.entry_count = self.entry_count + count;
        self.header.entry_count = self.entry_count;
    }

    /// What syncing after a write calls for; a sync that is waited for is followed by
    /// [`FrameWalSegment::synced_to`].
    pub fn sync_after_flush(&self) -> (r: SyncAction)
        ensures
            r == self.sync_due(),
    {
        match self.sync_mode {
            WalSyncMode::Never => SyncAction::Nothing,
            WalSyncMode::Flush => SyncAction::Nothing,
            WalSyncMode::Fsync => SyncAction::Data,
            WalSyncMode::FsyncAsync => SyncAction::DataInBackground,
        }
    }

    /// Whether a file of `len` bytes is full.
    pub fn should_rotate(&self, len: u64) -> (r: bool)
        ensures
            r == (len >= self.max_size),
    {
        len >= self.max_size
    }

    /// Path of the file.
    pub fn path(&self) -> (r: &str)
        ensures
            r@ == self.path@,
    {
        self.path.as_str()
    }

    /// What flushing the segment writes.
    pub fn flush(&self) -> (r: Result<HeaderWrite, LsmError>)
        ensures
            r matches Ok(w) && w.header@ == frame_header_bytes(self.header) && w.flush && w.sync
                == self.sync_due(),
    {
        self.write_header(true, self.sync_after_flush())
    }

    /// What closing the segment writes.
    pub fn close(&self) -> (r: Result<HeaderWrite, LsmError>)
        ensures
            r matches Ok(w) && w.header@ == frame_header_bytes(self.header) && !w.flush && w.sync
                == SyncAction::Data,
    {
        self.write_header(false, SyncAction::Data)
    }

    /// The first step of reading all records.
    pub fn begin_read() -> (r: LogRead)
        ensures
            r matches LogRead::Length { pos, payloads } && pos == FRAME_HEADER_SIZE
                && payloads@.len() == 0,
            r.wf(),
    {
        LogRead::Length { pos: FRAME_HEADER_SIZE, payloads: Vec::new() }
    }

    /// One step of reading all records of the segment: takes the reply to the request of `st`.
    pub fn read_entries(st: LogRead, reply: FileReply) -> (next: LogRead)
        requires
            st.wf(),
            st is Length || st is Body || st is Done,
            st !is Done ==> st.wants().answered_by(reply),
        ensures
            frame_read_step(st, reply, next),
            next.wf(),
    {
        match st {
            LogRead::Length { pos, payloads } => match reply {
                FileReply::Data(d) => {
                    let size = read_length(d.as_slice());
                    if size == 0 {
                        LogRead::Done(Ok(payloads))
                    } else {
                        LogRead::Body { pos: pos + 4, size, payloads }
                    }
                },
                _ => LogRead::Done(Ok(payloads)),
            },
            LogRead::Body { pos, size, payloads } => match reply {
                FileReply::Data(d) => {
                    let mut payloads = payloads;
                    payloads.push(d);
                    LogRead::Length { pos: pos + size as u64, payloads }
                },
                FileReply::Failed(e) => LogRead::Done(Err(e)),
                _ => LogRead::Done(Ok(payloads)),
            },
            st => st,
        }
    }
}

/// The next state of reading a frame segment, when `reply` answers the request of `st`. The
/// segment ends with an empty record and where no length can be read; a payload that cannot be
/// read is an error.
pub open spec fn frame_read_step(st: LogRead, reply: FileReply, next: LogRead) -> bool {
    match st {
        LogRead::Length { pos, payloads } => match reply {
            FileReply::Data(d) => {
                let size = wal_record::length_value(d@);
                if size == 0 {
                    wal_segment::read_ends(next, payloads@)
                } else {
                    next matches LogRead::Body { pos: p, size: s, payloads: all } && p == pos + 4
                        && s == size && all@ == payloads@
                }
            },
            _ => wal_segment::read_ends(next, payloads@),
        },
        LogRead::Body { pos, size, payloads } => match reply {
            FileReply::Data(d) => next matches LogRead::Length { pos: p, payloads: all } && p == pos
                + size && all@ == payloads@.push(d),
            FileReply::Failed(e) => next == LogRead::Done(Err(e)),
            _ => false,
        },
        _ => next == st,
    }
}

/// The payloads that a frame segment file holds.
pub open spec fn frame_records(file: Seq<u8>) -> Seq<Seq<u8>> {
    if file.len() < FRAME_HEADER_SIZE {
        Seq::empty()
    } else {
        wal_record::records_in(file.skip(FRAME_HEADER_SIZE as int), u32::MAX as nat)
    }
}

/// Reading an unchanged frame segment file keeps, step by step, the payloads with which reading
/// will end, unless the file ends within a payload.
pub proof fn stored_frame_segment_is_read(
    st: LogRead,
    reply: FileReply,
    next: LogRead,
    file: Seq<u8>,
)
    requires
        frame_read_step(st, reply, next),
        st is Length || st is Body,
        st matches LogRead::Body { pos, size, .. } ==> pos + size <= file.len(),
        wal_segment::file_answers(st.wants(), file, reply),
    ensures
        wal_segment::due(next, file, u32::MAX as nat) == wal_segment::due(st, file, u32::MAX as nat),
        !(next matches LogRead::Done(Err(_))),
{
    let l = u32::MAX as nat;
    match st {
        LogRead::Length { pos, payloads } => {
            let before = wal_record::views(payloads@);
            if pos + 4 <= file.len() {
                let rest = file.skip(pos as int);
                assert(rest.take(4) =~= file.subrange(pos as int, pos + 4));
                let size = wal_record::length_value(rest.take(4));
                reveal(wal_record::length_value);
                if size == 0 {
                    assert(before + Seq::<Seq<u8>>::empty() =~= before);
                } else if pos + 4 + size <= file.len() {
                    assert(rest.subrange(4, 4 + size) =~= file.subrange(pos + 4, pos + 4 + size));
                    assert(rest.skip(4 + size) =~= file.skip(pos + 4 + size));
                }
            } else {
                assert(before + Seq::<Seq<u8>>::empty() =~= before);
            }
        },
        LogRead::Body { pos, size, payloads } => {
            let before = wal_record::views(payloads@);
            let d = file.subrange(pos as int, pos + size);
            let rest = wal_record::records_in(file.skip(pos + size), l);
            if let FileReply::Data(data) = reply {
                assert(wal_record::views(payloads@.push(data)) =~= before.push(d));
                assert(before.push(d) + rest =~= before + (seq![d] + rest));
            }
        },
        _ => {},
    }
}

/// What was appended to a frame segment is read back from it, and a fresh one holds nothing.
pub proof fn frame_segment_holds_what_was_written(h: FrameWalHeader, payloads: Seq<Seq<u8>>)
    requires
        forall|i: int|
            0 <= i < payloads.len() ==> wal_record::storable(
                #[trigger] payloads[i],
                u32::MAX as nat,
            ),
    ensures
        frame_records(frame_header_bytes(h) + wal_record::log_bytes(payloads)) == payloads,
        frame_records(frame_header_bytes(h)) == Seq::<Seq<u8>>::empty(),
{
    assert(frame_header_bytes(h).skip(FRAME_HEADER_SIZE as int) =~= Seq::empty()) by {
        frame_header_round_trip(h, Seq::empty());
    }
    frame_header_round_trip(h, Seq::empty());
    let body = wal_record::log_bytes(payloads);
    let file = frame_header_bytes(h) + body;
    wal_record::log_round_trip(payloads, Seq::empty(), u32::MAX as nat);
    assert(body + Seq::<u8>::empty() =~= body);
    assert(file.skip(FRAME_HEADER_SIZE as int) =~= body);
}

} // verus!
