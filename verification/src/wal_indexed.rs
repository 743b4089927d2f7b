//! The indexed log: records are staged into frames, frames are written as micro-files, and an
//! index file tells how far they are durable.

use crate::engine_config::WalSyncMode;
use crate::error::LsmError;
use crate::numerals::{self, parse_number, text_between};
use crate::text::{self, cat, dec_text, hex_text, push_zero_padded};
use crate::wal_entry::WALEntry;
use crate::wal_index::{self, push_zeros, WalIndexHeader};
use crate::wal_record::{self, decode_frames, encode_record};
use vstd::prelude::*;
use vstd::slice::*;
use vstd::string::*;

verus! {

/// The smallest frame size: one record with a value of 4 KiB fits.
pub const INDEXED_MIN_FRAME_SIZE: usize = 8192;

/// The fewest frames of a segment.
pub const INDEXED_MIN_FRAME_COUNT: u32 = 64;

/// The name of the directory that holds a segment's frames.
pub open spec fn frames_dir_name(segment_id: u32) -> Seq<char> {
    text::zero_padded(text::hex(segment_id as nat), 16)
}

/// The name of the file that holds a frame.
pub open spec fn frame_file(frame_id: u32) -> Seq<char> {
    "frame_"@ + text::zero_padded(text::dec(frame_id as nat), 8) + ".wal"@
}

/// The number in the name of a frame's file.
pub open spec fn frame_id_of(name: Seq<char>) -> Option<nat> {
    match numerals::between(name, "frame_"@, ".wal"@) {
        Some(id) => numerals::parsed(id, 10, u32::MAX as nat),
        None => None,
    }
}

/// The name of the directory that holds a segment's frames.
pub fn segment_frames_dir(segment_id: u32) -> (r: String)
    ensures
        r@ == frames_dir_name(segment_id),
{
    let mut name = "".to_owned();
    proof {
        reveal_strlit("");
    }
    push_zero_padded(&mut name, hex_text(segment_id as u64).as_str(), 16);
    assert(name@ =~= frames_dir_name(segment_id));
    name
}

/// The name of the file that holds a frame.
pub fn frame_path(frame_id: u32) -> (r: String)
    ensures
        r@ == frame_file(frame_id),
{
    let mut name = "frame_".to_owned();
    push_zero_padded(&mut name, dec_text(frame_id as u64).as_str(), 8);
    name.append(".wal");
    name
}

fn parse_frame_file(name: &str) -> (r: Option<u32>)
    ensures
        match frame_id_of(name@) {
            Some(n) => r matches Some(id) && id == n,
            None => r is None,
        },
{
    match text_between(name, "frame_", ".wal") {
        Some(id) => match parse_number(&id, 10, u32::MAX as u64) {
            Some(n) => Some(n as u32),
            None => None,
        },
        None => None,
    }
}

/// The number of a frame is found again in the name of its file.
pub proof fn frame_id_back(frame_id: u32)
    ensures
        frame_id_of(frame_file(frame_id)) == Some(frame_id as nat),
{
    let digits = text::dec(frame_id as nat);
    numerals::dec_stands_for(frame_id as nat);
    numerals::padded_back(digits, 8, 10, u32::MAX as nat);
    numerals::between_back("frame_"@, text::zero_padded(digits, 8), ".wal"@);
}

/// A frame that is due to be written to a file of its own, and committed to the index then.
#[derive(Debug)]
pub struct FrameWrite {
    /// The frame's number.
    pub frame_id: u32,
    /// What the file holds: the records and zeros behind them.
    pub bytes: Vec<u8>,
    /// How many bytes of it are records.
    pub used: u32,
    /// How many entries it holds.
    pub entries: u64,
}

/// The records of a frame with zeros behind them, up to the size of a frame.
pub open spec fn padded(records: Seq<u8>, frame_size: nat) -> Seq<u8> {
    if records.len() < frame_size {
        records + wal_index::zero_bytes((frame_size - records.len()) as nat)
    } else {
        records
    }
}

impl FrameWrite {
    /// It writes these records as this frame.
    pub open spec fn holds(
        self,
        frame_id: u32,
        records: Seq<u8>,
        frame_size: nat,
        entries: nat,
    ) -> bool {
        &&& self.frame_id == frame_id
        &&& self.bytes@ == padded(records, frame_size)
        &&& self.used == records.len() as u32
        &&& self.entries == entries
    }

    /// The index after this frame was committed.
    pub open spec fn committed(self, state: WalIndexHeader) -> WalIndexHeader {
        WalIndexHeader {
            committed_frame: self.frame_id,
            committed_offset: self.used,
            entry_count: if state.entry_count + self.entries > u64::MAX {
                u64::MAX
            } else {
                (state.entry_count + self.entries) as u64
            },
            ..state
        }
    }

    /// The index after this frame was committed.
    pub fn index_state(&self, state: WalIndexHeader) -> (r: WalIndexHeader)
        ensures
            r == self.committed(state),
    {
        let mut state = state;
        state.committed_frame = self.frame_id;
        state.committed_offset = self.used;
        state.entry_count = state.entry_count.saturating_add(self.entries);
        state
    }
}

/// What appending a record calls for.
#[derive(Debug)]
pub enum AppendAction {
    /// The staged frame is written first; the record is then offered again.
    FlushFirst(FrameWrite),
    /// The record is written as a frame of its own.
    Alone(FrameWrite),
    /// The record was staged.
    Staged,
    /// The record was staged, and the staged frame is written now.
    StagedAndFlush(FrameWrite),
}

/// A segment of the indexed log.
#[derive(Debug, Clone)]
pub struct IndexedWalSegment {
    /// Directory of the frames.
    pub frames_dir: String,
    /// Size of a frame in bytes.
    pub frame_size: usize,
    /// The number of the last frame.
    pub data_frame_count: u32,
    /// The segment's number.
    pub segment_id: u32,
    /// When writes reach the disk.
    pub sync_mode: WalSyncMode,
    /// The number of the frame that is staged.
    pub staging_frame: u32,
    /// The staged records.
    pub staging: Vec<u8>,
    /// How many entries are staged.
    pub entries_in_staging: u32,
}

/// The segment has no frame left.
pub open spec fn segment_full(e: LsmError) -> bool {
    e.is_internal("indexed wal segment full"@)
}

impl IndexedWalSegment {
    /// The staged records fit a frame, and each has at least one byte.
    pub open spec fn wf(self) -> bool {
        &&& self.staging@.len() <= self.frame_size
        &&& self.entries_in_staging <= self.staging@.len()
        &&& self.staging_frame >= 1
    }

    /// The segment but for what is staged.
    pub open spec fn same_place(self, other: IndexedWalSegment) -> bool {
        self == (IndexedWalSegment {
            staging_frame: self.staging_frame,
            staging: self.staging,
            entries_in_staging: self.entries_in_staging,
            ..other
        })
    }

    /// A fresh segment.
    pub fn create(
        frames_dir: String,
        segment_id: u32,
        frame_size: usize,
        data_frame_count: u32,
        sync_mode: WalSyncMode,
    ) -> (r: Self)
        ensures
            r.wf(),
            r.frames_dir@ == frames_dir@,
            r.segment_id == segment_id,
            r.frame_size == frame_size,
            r.data_frame_count == data_frame_count,
            r.sync_mode == sync_mode,
            r.staging_frame == 1,
            r.staging@.len() == 0,
            r.entries_in_staging == 0,
    {
        IndexedWalSegment {
            frames_dir,
            frame_size,
            data_frame_count,
            segment_id,
            sync_mode,
            staging_frame: 1,
            staging: Vec::new(),
            entries_in_staging: 0,
        }
    }

    /// A segment whose frames are there already, shown as `quoted_dir`; staging goes on with
    /// `resume_frame`.
    pub fn open_existing(
        frames_dir: String,
        quoted_dir: &str,
        dir_exists: bool,
        segment_id: u32,
        frame_size: usize,
        data_frame_count: u32,
        sync_mode: WalSyncMode,
        resume_frame: u32,
    ) -> (r: Result<Self, LsmError>)
        ensures
            r is Ok <==> dir_exists,
            match r {
                Ok(s) => {
                    &&& s.wf()
                    &&& s.frames_dir@ == frames_dir@
                    &&& s.segment_id == segment_id
                    &&& s.frame_size == frame_size
                    &&& s.data_frame_count == data_frame_count
                    &&& s.sync_mode == sync_mode
                    &&& s.staging_frame == (if resume_frame < 1 {
                        1
                    } else {
                        resume_frame
                    })
                    &&& s.staging@.len() == 0
                    &&& s.entries_in_staging == 0
                },
                Err(e) => e.is_corruption("indexed wal frames dir missing: "@ + quoted_dir@),
            },
    {
        if !dir_exists {
            return Err(LsmError::Corruption(cat("indexed wal frames dir missing: ", quoted_dir)));
        }
        let mut segment = IndexedWalSegment::create(
            frames_dir,
            segment_id,
            frame_size,
            data_frame_count,
            sync_mode,
        );
        if resume_frame >= 1 {
            segment.staging_frame = resume_frame;
        }
        Ok(segment)
    }

    fn frame_write(&self, frame_id: u32, records: &Vec<u8>, entries: u64) -> (r: FrameWrite)
        ensures
            r.holds(frame_id, records@, self.frame_size as nat, entries as nat),
    {
        let mut bytes = slice_to_vec(records.as_slice());
        if records.len() < self.frame_size {
            push_zeros(&mut bytes, self.frame_size - records.len());
        }
        assert(bytes@ =~= padded(records@, self.frame_size as nat));
        FrameWrite { frame_id, bytes, used: records.len() as u32, entries }
    }

    /// The frame that is written when the staged records are flushed, if there are any.
    pub fn flush_staging(&self) -> (r: Result<Option<FrameWrite>, LsmError>)
        ensures
            match r {
                Ok(None) => self.staging@.len() == 0,
                Ok(Some(w)) => {
                    &&& self.staging@.len() > 0
                    &&& self.staging_frame <= self.data_frame_count
                    &&& w.holds(
                        self.staging_frame,
                        self.staging@,
                        self.frame_size as nat,
                        self.entries_in_staging as nat,
                    )
                },
                Err(e) => {
                    &&& self.staging@.len() > 0
                    &&& self.staging_frame > self.data_frame_count
                    &&& segment_full(e)
                },
            },
    {
        if self.staging.len() == 0 {
            return Ok(None);
        }
        if self.staging_frame > self.data_frame_count {
            return Err(LsmError::Internal("indexed wal segment full".to_owned()));
        }
        Ok(
            Some(
                self.frame_write(
                    self.staging_frame,
                    &self.staging,
                    self.entries_in_staging as u64,
                ),
            ),
        )
    }

    /// The number of the frame behind.
    pub open spec fn frame_behind(self) -> u32 {
        if self.staging_frame == u32::MAX {
            u32::MAX
        } else {
            (self.staging_frame + 1) as u32
        }
    }

    /// Takes note that the staged records were written and committed.
    pub fn staging_flushed(&mut self)
        requires
            old(self).wf(),
        ensures
            final(self).wf(),
            final(self).same_place(*old(self)),
            final(self).staging@.len() == 0,
            final(self).entries_in_staging == 0,
            final(self).staging_frame == old(self).frame_behind(),
    {
        self.staging = Vec::new();
        self.entries_in_staging = 0;
        self.staging_frame = self.staging_frame.saturating_add(1);
    }

    /// Takes note that a record was written and committed as a frame of its own.
    pub fn frame_committed(&mut self)
        requires
            old(self).wf(),
        ensures
            final(self).wf(),
            *final(self) == (IndexedWalSegment {
                staging_frame: old(self).frame_behind(),
                ..*old(self)
            }),
    {
        self.staging_frame = self.staging_frame.saturating_add(1);
    }

    /// Writes are to be durable before they are acknowledged.
    pub open spec fn syncs_each(self) -> bool {
        self.sync_mode == WalSyncMode::Fsync || self.sync_mode == WalSyncMode::FsyncAsync
    }

    /// What appending a record leads to. A record larger than a frame is written alone, behind
    /// what is staged; one that does not fit behind the staged records waits until those are
    /// written; every other one is staged, and written at once where `at_once` holds.
    pub open spec fn append_step(
        self,
        after: IndexedWalSegment,
        payload: Seq<u8>,
        at_once: bool,
        r: Result<AppendAction, LsmError>,
    ) -> bool {
        let rec = wal_record::record(payload);
        let size = self.frame_size as nat;
        let staged = self.staging@ + rec;
        if self.staging@.len() > 0 && self.staging@.len() + rec.len() > size {
            &&& after == self
            &&& if self.staging_frame > self.data_frame_count {
                r matches Err(e) && segment_full(e)
            } else {
                r matches Ok(AppendAction::FlushFirst(w)) && w.holds(
                    self.staging_frame,
                    self.staging@,
                    size,
                    self.entries_in_staging as nat,
                )
            }
        } else if rec.len() > size {
            &&& after == self
            &&& if self.staging_frame > self.data_frame_count {
                r matches Err(e) && segment_full(e)
            } else {
                r matches Ok(AppendAction::Alone(w)) && w.holds(self.staging_frame, rec, size, 1)
            }
        } else {
            &&& after.same_place(self)
            &&& after.staging_frame == self.staging_frame
            &&& after.staging@ == staged
            &&& after.entries_in_staging == self.entries_in_staging + 1
            &&& if !at_once {
                r matches Ok(AppendAction::Staged)
            } else if self.staging_frame > self.data_frame_count {
                r matches Err(e) && segment_full(e)
            } else {
                r matches Ok(AppendAction::StagedAndFlush(w)) && w.holds(
                    self.staging_frame,
                    staged,
                    size,
                    (self.entries_in_staging + 1) as nat,
                )
            }
        }
    }

    fn append(&mut self, payload: &Vec<u8>, at_once: bool) -> (r: Result<AppendAction, LsmError>)
        requires
            old(self).wf(),
            old(self).entries_in_staging < u32::MAX,
        ensures
            final(self).wf(),
            old(self).append_step(*final(self), payload@, at_once, r),
    {
        let encoded = encode_record(payload.as_slice());
        let room: usize = self.frame_size - self.staging.len();
        if self.staging.len() > 0 && encoded.len() > room {
            return match self.flush_staging() {
                Ok(Some(w)) => Ok(AppendAction::FlushFirst(w)),
                Ok(None) => Ok(AppendAction::Staged),
                Err(e) => Err(e),
            };
        }
        if encoded.len() > self.frame_size {
            if self.staging_frame > self.data_frame_count {
                return Err(LsmError::Internal("indexed wal segment full".to_owned()));
            }
            return Ok(AppendAction::Alone(self.frame_write(self.staging_frame, &encoded, 1)));
        }
        proof {
            wal_record::length_back(payload@.len() as u32);
        }
        crate::bytes::extend(&mut self.staging, encoded.as_slice());
        self.entries_in_staging = self.entries_in_staging + 1;
        if !at_once {
            return Ok(AppendAction::Staged);
        }
        match self.flush_staging() {
            Ok(Some(w)) => Ok(AppendAction::StagedAndFlush(w)),
            Ok(None) => Ok(AppendAction::Staged),
            Err(e) => Err(e),
        }
    }

    /// What appending one record calls for. Staged records are written at once where writes are
    /// synced, and where the record fills an empty frame.
    pub fn append_entry(&mut self, payload: &Vec<u8>) -> (r: Result<AppendAction, LsmError>)
        requires
            old(self).wf(),
            old(self).entries_in_staging < u32::MAX,
        ensures
            final(self).wf(),
            old(self).append_step(
                *final(self),
                payload@,
                old(self).syncs_each() || (old(self).staging@.len() == 0 && wal_record::record(
                    payload@,
                ).len() == old(self).frame_size),
                r,
            ),
    {
        proof {
            wal_record::length_back(payload@.len() as u32);
        }
        let syncs: bool = match self.sync_mode {
            WalSyncMode::Fsync | WalSyncMode::FsyncAsync => true,
            _ => false,
        };
        let fills: bool = self.staging.len() == 0 && self.frame_size >= 4 && payload.len()
            == self.frame_size - 4;
        self.append(payload, syncs || fills)
    }

    /// What appending one of several records calls for; what is staged behind the last of them is
    /// written with [`IndexedWalSegment::flush_staging`].
    pub fn append_entries_batch(&mut self, payload: &Vec<u8>) -> (r: Result<AppendAction, LsmError>)
        requires
            old(self).wf(),
            old(self).entries_in_staging < u32::MAX,
        ensures
            final(self).wf(),
            old(self).append_step(*final(self), payload@, false, r),
    {
        self.append(payload, false)
    }

    /// Directory of the frames.
    pub fn frames_dir(&self) -> (r: &str)
        ensures
            r@ == self.frames_dir@,
    {
        self.frames_dir.as_str()
    }

    /// The segment's number.
    pub fn segment_id(&self) -> (r: u32)
        ensures
            r == self.segment_id,
    {
        self.segment_id
    }
}

/// The highest number of a frame's file among the names, 0 where there is none.
pub open spec fn highest_frame_file(names: Seq<String>) -> nat
    decreases names.len(),
{
    if names.len() == 0 {
        0
    } else {
        let before = highest_frame_file(names.drop_last());
        match frame_id_of(names.last()@) {
            Some(n) if n > before => n,
            _ => before,
        }
    }
}

/// The last frame that is read: the committed one, or a later one whose file is there.
pub open spec fn last_frame(names: Seq<String>, state: WalIndexHeader) -> nat {
    let found = highest_frame_file(names);
    if found > state.committed_frame {
        found
    } else {
        state.committed_frame as nat
    }
}

/// The last frame that is read, from the names in the segment's directory.
pub fn last_committed_frame(names: &Vec<String>, state: WalIndexHeader) -> (r: u32)
    ensures
        r == last_frame(names@, state),
{
    let mut highest: u32 = 0;
    let mut i: usize = 0;
    assert(names@.take(0) =~= Seq::empty());
    while i < names.len()
        invariant
            i <= names@.len(),
            highest == highest_frame_file(names@.take(i as int)),
        decreases names@.len() - i,
    {
        proof {
            let next = names@.take(i + 1);
            assert(next.drop_last() =~= names@.take(i as int));
            assert(next.last() == names@[i as int]);
        }
        if let Some(id) = parse_frame_file(names[i].as_str()) {
            if id > highest {
                highest = id;
            }
        }
        i = i + 1;
    }
    assert(names@.take(i as int) =~= names@);
    if highest > state.committed_frame {
        highest
    } else {
        state.committed_frame
    }
}

/// How many bytes of a frame's file are asked for.
pub fn frame_read_length(file_len: usize, frame_size: usize) -> (r: usize)
    ensures
        r == (if file_len > frame_size {
            file_len
        } else {
            frame_size
        }),
{
    if file_len > frame_size {
        file_len
    } else {
        frame_size
    }
}

/// How many bytes of a frame count: those that the index tells of its last frame, all of the file
/// of every other one.
pub open spec fn frame_limit(
    frame_id: u32,
    last: u32,
    state: WalIndexHeader,
    file_len: nat,
) -> nat {
    if frame_id == last && state.committed_frame == last && state.committed_offset > 0 {
        state.committed_offset as nat
    } else {
        file_len
    }
}

/// The payloads of the records in a frame.
pub fn read_committed_entries(
    frame: &[u8],
    file_len: usize,
    frame_id: u32,
    last: u32,
    state: WalIndexHeader,
) -> (r: Vec<Vec<u8>>)
    requires
        frame_limit(frame_id, last, state, file_len as nat) <= frame@.len(),
    ensures
        wal_record::views(r@) == wal_record::records_in(
            frame@.take(frame_limit(frame_id, last, state, file_len as nat) as int),
            u32::MAX as nat,
        ),
{
    let limit: usize = if frame_id == last && state.committed_frame == last
        && state.committed_offset > 0 {
        state.committed_offset as usize
    } else {
        file_len
    };
    assert(frame@.subrange(0, limit as int) =~= frame@.take(limit as int));
    decode_frames(slice_subrange(frame, 0, limit))
}

/// Adds a decoded entry behind those before it, or reports why it could not be decoded.
pub fn accept_decoded(
    entries: &mut Vec<WALEntry>,
    decoded: Result<WALEntry, String>,
) -> (r: Result<(), LsmError>)
    ensures
        match decoded {
            Ok(entry) => r is Ok && final(entries)@ == old(entries)@.push(entry),
            Err(m) => {
                &&& final(entries)@ == old(entries)@
                &&& r matches Err(e)
                &&& e.is_serialization("decode wal entry: "@ + m@)
            },
        },
{
    match decoded {
        Ok(entry) => {
            entries.push(entry);
            Ok(())
        },
        Err(m) => Err(LsmError::Serialization(cat("decode wal entry: ", m.as_str()))),
    }
}

/// The records of a frame are read back from its bytes, with and without the zeros behind them.
pub proof fn padded_is_read_back(payloads: Seq<Seq<u8>>, size: nat)
    requires
        forall|i: int|
            0 <= i < payloads.len() ==> wal_record::storable(
                #[trigger] payloads[i],
                u32::MAX as nat,
            ),
    ensures
        wal_record::records_in(padded(wal_record::log_bytes(payloads), size), u32::MAX as nat)
            == payloads,
        wal_record::records_in(
            padded(wal_record::log_bytes(payloads), size).take(
                wal_record::log_bytes(payloads).len() as int,
            ),
            u32::MAX as nat,
        ) == payloads,
{
    let log = wal_record::log_bytes(payloads);
    let l = u32::MAX as nat;
    assert(log + Seq::<u8>::empty() =~= log);
    wal_record::log_round_trip(payloads, Seq::empty(), l);
    assert(padded(log, size).take(log.len() as int) =~= log);
    if log.len() < size {
        let zeros = wal_index::zero_bytes((size - log.len()) as nat);
        wal_record::zeros_hold_no_record((size - log.len()) as nat, l);
        wal_record::log_round_trip(payloads, zeros, l);
    }
}

/// The records of a frame are read back from its file, with and without the zeros behind them.
pub proof fn frame_is_read_back(w: FrameWrite, frame_id: u32, payloads: Seq<Seq<u8>>, size: nat)
    requires
        forall|i: int|
            0 <= i < payloads.len() ==> wal_record::storable(
                #[trigger] payloads[i],
                u32::MAX as nat,
            ),
        w.holds(frame_id, wal_record::log_bytes(payloads), size, payloads.len()),
        wal_record::log_bytes(payloads).len() <= u32::MAX,
    ensures
        wal_record::records_in(w.bytes@, u32::MAX as nat) == payloads,
        wal_record::records_in(w.bytes@.take(w.used as int), u32::MAX as nat) == payloads,
{
    padded_is_read_back(payloads, size);
}

/// Staging keeps the order of the records: staged records are a log, and one more record is
/// appended to it.
pub proof fn staging_appends(
    before: IndexedWalSegment,
    after: IndexedWalSegment,
    staged: Seq<Seq<u8>>,
    payload: Seq<u8>,
    at_once: bool,
    r: Result<AppendAction, LsmError>,
)
    requires
        before.append_step(after, payload, at_once, r),
        before.staging@ == wal_record::log_bytes(staged),
    ensures
        match r {
            Ok(AppendAction::FlushFirst(_)) => after.staging@ == wal_record::log_bytes(staged),
            Ok(AppendAction::Alone(_)) => after.staging@ == wal_record::log_bytes(staged),
            Ok(_) => after.staging@ == wal_record::log_bytes(staged.push(payload)),
            Err(_) => after.staging@ == wal_record::log_bytes(staged) || after.staging@
                == wal_record::log_bytes(staged.push(payload)),
        },
{
    assert(staged.push(payload).drop_last() =~= staged);
}

} // verus!
