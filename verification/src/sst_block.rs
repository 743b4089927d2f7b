//! Reading blocks, reading entries without a retry, and reading every entry of a table.

use crate::checksum;
use crate::duration::Duration;
use crate::error::{IoError, IoErrorKind, LsmError};
use crate::sst_format::{self, check_block_header, checksum_entry, unpack_block, MAX_ENTRY_SIZE};
use crate::sst_metadata;
use crate::sst_open::{FileReply, FileRequest};
use crate::sst_query;
use crate::sst_read::SSTableEntry;
use crate::sstable::SSTable;
use crate::text::{self, cat, push_dec};
use vstd::bytes::*;
use vstd::prelude::*;
use vstd::slice::*;
use vstd::string::*;

verus! {

/// How far the reading of a block has come.
#[derive(Debug)]
pub enum BlockRead {
    /// The unpacked length is asked for.
    UnpackedLength,
    /// The packed length is asked for.
    PackedLength {
        /// The unpacked length.
        unc_len: u32,
    },
    /// The packed bytes are asked for.
    Body {
        /// The unpacked length.
        unc_len: u32,
        /// The packed length.
        comp_len: u32,
    },
    /// Reading has ended.
    Done(Result<Vec<u8>, LsmError>),
}

impl BlockRead {
    /// What the file layer is asked for in this state.
    pub open spec fn wants(self, block_off: u64) -> FileRequest {
        match self {
            BlockRead::UnpackedLength => FileRequest::Read { offset: block_off, len: 4 },
            BlockRead::PackedLength { .. } => FileRequest::Read {
                offset: (block_off + 4) as u64,
                len: 4,
            },
            BlockRead::Body { comp_len, .. } => FileRequest::Read {
                offset: (block_off + 8) as u64,
                len: comp_len as u64,
            },
            BlockRead::Done(_) => FileRequest::Nothing,
        }
    }

    /// What the file layer is asked for in this state.
    pub fn request(&self, block_off: u64) -> (r: FileRequest)
        requires
            block_off <= u64::MAX - 8,
        ensures
            r == self.wants(block_off),
    {
        match self {
            BlockRead::UnpackedLength => FileRequest::Read { offset: block_off, len: 4 },
            BlockRead::PackedLength { .. } => FileRequest::Read { offset: block_off + 4, len: 4 },
            BlockRead::Body { comp_len, .. } => FileRequest::Read {
                offset: block_off + 8,
                len: *comp_len as u64,
            },
            BlockRead::Done(_) => FileRequest::Nothing,
        }
    }
}

/// The next state, when `reply` answers the request of `st`.
pub open spec fn block_step(block_off: u64, st: BlockRead, reply: FileReply, next: BlockRead) -> bool {
    match st {
        BlockRead::Done(_) => next == st,
        _ => match reply {
            FileReply::Failed(e) => next == BlockRead::Done(Err(e)),
            FileReply::Data(d) => match st {
                BlockRead::UnpackedLength => next == (BlockRead::PackedLength {
                    unc_len: spec_u32_from_le_bytes(d@),
                }),
                BlockRead::PackedLength { unc_len } => {
                    let comp_len = spec_u32_from_le_bytes(d@);
                    if sst_format::block_header_ok(unc_len, comp_len) {
                        next == (BlockRead::Body { unc_len, comp_len })
                    } else {
                        next matches BlockRead::Done(Err(e)) && e.is_corruption(
                            sst_format::bad_header_text(block_off, unc_len, comp_len),
                        )
                    }
                },
                BlockRead::Body { unc_len, .. } => match sst_format::unpacked_block(
                    block_off,
                    unc_len,
                    d@,
                ) {
                    Ok(raw) => next matches BlockRead::Done(Ok(v)) && v@ == raw,
                    Err(m) => next matches BlockRead::Done(Err(e)) && e.is_corruption(m),
                },
                BlockRead::Done(_) => true,
            },
            _ => false,
        },
    }
}

/// One step of reading the block at `block_off`: takes the reply to the request of `st`.
pub fn read_snappy_block(block_off: u64, st: BlockRead, reply: FileReply) -> (next: BlockRead)
    requires
        block_off <= u64::MAX - 8,
        st !is Done ==> st.wants(block_off).answered_by(reply),
    ensures
        block_step(block_off, st, reply, next),
{
    match st {
        BlockRead::UnpackedLength => match reply {
            FileReply::Data(d) => BlockRead::PackedLength { unc_len: u32_from_le_bytes(d.as_slice()) },
            FileReply::Failed(e) => BlockRead::Done(Err(e)),
            _ => BlockRead::UnpackedLength,
        },
        BlockRead::PackedLength { unc_len } => match reply {
            FileReply::Data(d) => {
                let comp_len: u32 = u32_from_le_bytes(d.as_slice());
                match check_block_header(block_off, unc_len, comp_len) {
                    Ok(()) => BlockRead::Body { unc_len, comp_len },
                    Err(e) => BlockRead::Done(Err(e)),
                }
            },
            FileReply::Failed(e) => BlockRead::Done(Err(e)),
            _ => BlockRead::UnpackedLength,
        },
        BlockRead::Body { unc_len, comp_len } => match reply {
            FileReply::Data(d) => BlockRead::Done(unpack_block(block_off, unc_len, d.as_slice())),
            FileReply::Failed(e) => BlockRead::Done(Err(e)),
            _ => BlockRead::UnpackedLength,
        },
        BlockRead::Done(r) => BlockRead::Done(r),
    }
}

/// Reading a block from a file that does not change ends with what the block unpacks to.
pub proof fn stored_block_is_read(
    file: Seq<u8>,
    block_off: u64,
    raw: Seq<u8>,
    replies: (FileReply, FileReply, FileReply),
    states: (BlockRead, BlockRead, BlockRead),
)
    requires
        sst_format::block_at(file, block_off as int, raw),
        block_off + 8 <= u64::MAX,
        BlockRead::UnpackedLength.wants(block_off).answered_from(file, replies.0),
        block_step(block_off, BlockRead::UnpackedLength, replies.0, states.0),
        states.0.wants(block_off).answered_from(file, replies.1),
        block_step(block_off, states.0, replies.1, states.1),
        states.1.wants(block_off).answered_from(file, replies.2),
        block_step(block_off, states.1, replies.2, states.2),
    ensures
        states.2 matches BlockRead::Done(Ok(v)) && v@ == raw,
{
    let unc = sst_metadata::u32_at(file, block_off as int);
    let comp = sst_metadata::u32_at(file, block_off + 4);
    assert(states.0 == (BlockRead::PackedLength { unc_len: unc }));
    assert(states.1 == (BlockRead::Body { unc_len: unc, comp_len: comp }));
}

impl SSTable {
    /// The name under which an entry is cached.
    pub fn block_cache_key(&self, offset: u64) -> (r: String)
        ensures
            r@ == self.path@ + ":"@ + text::dec(offset as nat),
    {
        let mut m = cat(self.path.as_str(), ":");
        push_dec(&mut m, offset);
        m
    }

    /// The name under which an unpacked block is cached.
    pub fn snappy_cache_key(&self, block_off: u64) -> (r: String)
        ensures
            r@ == self.path@ + ":blk:"@ + text::dec(block_off as nat),
    {
        let mut m = cat(self.path.as_str(), ":blk:");
        push_dec(&mut m, block_off);
        m
    }

    /// The block at this offset, if it is the one that was unpacked last.
    pub fn remembered_block(&self, block_off: u64) -> (r: Option<Vec<u8>>)
        ensures
            match self.decompressed_block {
                Some((off, data)) => if off == block_off {
                    r matches Some(v) && v@ == data@
                } else {
                    r is None
                },
                None => r is None,
            },
    {
        match &self.decompressed_block {
            Some((off, data)) => if *off == block_off {
                Some(slice_to_vec(data.as_slice()))
            } else {
                None
            },
            None => None,
        }
    }

    /// Keeps a block as the one that was unpacked last.
    pub fn remember_block(&mut self, block_off: u64, raw: Vec<u8>)
        ensures
            *final(self) == (SSTable { decompressed_block: Some((block_off, raw)), ..*old(self) }),
    {
        self.decompressed_block = Some((block_off, raw));
    }

    /// Size of the file, as far as it is known: the larger of what the metadata and the file say.
    pub fn known_file_size(&self, actual: u64) -> (r: u64)
        ensures
            r == if self.metadata.file_size > actual {
                self.metadata.file_size
            } else {
                actual
            },
    {
        if self.metadata.file_size > actual {
            self.metadata.file_size
        } else {
            actual
        }
    }
}

/// The message that begins with `what` and ends with the offset.
pub open spec fn at_offset(what: Seq<char>, offset: u64) -> Seq<char> {
    what + text::dec(offset as nat)
}

fn message_at(what: &str, offset: u64) -> (r: String)
    ensures
        r@ == at_offset(what@, offset),
{
    let mut m = what.to_owned();
    push_dec(&mut m, offset);
    m
}

/// The error says that the frame of an entry does not begin within the file.
pub open spec fn header_past_end(offset: u64, e: LsmError) -> bool {
    e.is_io(IoErrorKind::UnexpectedEof, at_offset("entry header past EOF at "@, offset))
}

/// The error says that an entry cannot have this length.
pub open spec fn bad_length(offset: u64, entry_size: u32, e: LsmError) -> bool {
    if entry_size == 0 || entry_size > MAX_ENTRY_SIZE {
        e.is_corruption(
            at_offset("invalid entry size "@ + text::dec(entry_size as nat) + " at "@, offset),
        )
    } else {
        e.is_io(IoErrorKind::UnexpectedEof, at_offset("entry body past EOF at "@, offset))
    }
}

/// The error says that the checksum of an entry is wrong.
pub open spec fn bad_checksum(offset: u64, e: LsmError) -> bool {
    e.is_corruption(at_offset("SSTable entry checksum mismatch at offset "@, offset))
}

/// The checksum of a frame: over the entry's length and its bytes.
pub open spec fn frame_checksum(entry_size: u32, body: Seq<u8>) -> u32 {
    checksum::crc32_of(spec_u32_to_le_bytes(entry_size) + body)
}

/// Tests that the frame of an entry at `offset` begins within the file.
pub fn check_entry_header(offset: u64, file_size: u64) -> (r: Result<(), LsmError>)
    ensures
        r is Ok <==> offset + 8 <= file_size,
        r matches Err(e) ==> header_past_end(offset, e),
{
    if file_size < 8 || offset > file_size - 8 {
        return Err(
            LsmError::Io(
                IoError {
                    kind: IoErrorKind::UnexpectedEof,
                    message: message_at("entry header past EOF at ", offset),
                },
            ),
        );
    }
    Ok(())
}

/// Tests the length of an entry at `offset`.
pub fn check_entry_length(offset: u64, entry_size: u32, file_size: u64) -> (r: Result<(), LsmError>)
    requires
        offset + 8 <= file_size,
    ensures
        r is Ok <==> 1 <= entry_size <= MAX_ENTRY_SIZE && offset + 8 + entry_size <= file_size,
        r matches Err(e) ==> bad_length(offset, entry_size, e),
{
    if entry_size == 0 || entry_size > MAX_ENTRY_SIZE {
        let mut m = "invalid entry size ".to_owned();
        push_dec(&mut m, entry_size as u64);
        m.append(" at ");
        push_dec(&mut m, offset);
        return Err(LsmError::Corruption(m));
    }
    if entry_size as u64 > file_size - 8 - offset {
        return Err(
            LsmError::Io(
                IoError {
                    kind: IoErrorKind::UnexpectedEof,
                    message: message_at("entry body past EOF at ", offset),
                },
            ),
        );
    }
    Ok(())
}

/// Tests the checksum of an entry at `offset`.
pub fn check_entry_checksum(offset: u64, entry_size: u32, body: &[u8], stored: u32) -> (r: Result<
    (),
    LsmError,
>)
    ensures
        r is Ok <==> stored == frame_checksum(entry_size, body@),
        r matches Err(e) ==> bad_checksum(offset, e),
{
    if stored != checksum_entry(entry_size, body) {
        return Err(
            LsmError::Corruption(message_at("SSTable entry checksum mismatch at offset ", offset)),
        );
    }
    Ok(())
}

/// How far the reading of every entry of a table has come.
#[derive(Debug)]
pub struct AllEntries {
    /// Where the entries stand.
    pub locs: Vec<(String, u64, u32)>,
    /// The entries that were read.
    pub entries: Vec<SSTableEntry>,
}

/// Why the next entry is not read.
pub open spec fn next_refused(
    table: SSTable,
    marked: bool,
    got: nat,
    expected: nat,
    loc: (String, u64, u32),
    e: LsmError,
) -> bool {
    if marked {
        e.is_internal(
            "SSTable "@ + table.quoted_path@ + " marked for deletion during get_all_entries (got "@
                + text::dec(got) + " of "@ + text::dec(expected) + ")"@,
        )
    } else if loc.1 > table.metadata.file_size {
        e.is_internal(
            "Invalid offset "@ + text::dec(loc.1 as nat) + " for key '"@ + loc.0@ + "' in "@
                + table.quoted_path@ + " (file size "@ + text::dec(
                table.metadata.file_size as nat,
            ) + ")"@,
        )
    } else {
        &&& (!table.block_compressed && loc.2 == 0) || loc.2 > MAX_ENTRY_SIZE
        &&& e.is_internal(
            "Invalid entry size "@ + text::dec(loc.2 as nat) + " for key '"@ + loc.0@ + "' in "@
                + table.quoted_path@,
        )
    }
}

/// The next entry is read.
pub open spec fn next_allowed(table: SSTable, marked: bool, loc: (String, u64, u32)) -> bool {
    &&& !marked
    &&& loc.1 <= table.metadata.file_size
    &&& !table.block_compressed ==> loc.2 != 0
    &&& loc.2 <= MAX_ENTRY_SIZE
}

impl AllEntries {
    /// Begins to read every entry: the table has to be ready and not marked for deletion.
    pub fn begin(table: &SSTable, marked: bool) -> (r: Result<Self, LsmError>)
        requires
            table.index.wf(),
        ensures
            r is Ok <==> table.is_ready && !marked,
            r matches Ok(all) ==> {
                &&& sst_query::locs_view(all.locs@) == sst_query::locations(table.recs())
                &&& all.entries@.len() == 0
            },
            r matches Err(e) ==> e.is_internal(
                if !table.is_ready {
                    "Cannot read all entries from SSTable that is not ready: "@ + table.quoted_path@
                } else {
                    "Cannot read all entries from SSTable marked for deletion: "@
                        + table.quoted_path@
                },
            ),
    {
        if !table.is_ready {
            return Err(
                LsmError::Internal(
                    cat(
                        "Cannot read all entries from SSTable that is not ready: ",
                        table.quoted_path.as_str(),
                    ),
                ),
            );
        }
        if marked {
            return Err(
                LsmError::Internal(
                    cat(
                        "Cannot read all entries from SSTable marked for deletion: ",
                        table.quoted_path.as_str(),
                    ),
                ),
            );
        }
        Ok(AllEntries { locs: table.all_locations(), entries: Vec::new() })
    }

    /// Where the next entry stands, or `None` when every entry was read.
    pub fn next_location(&self, table: &SSTable, marked: bool) -> (r: Result<
        Option<(u64, u32)>,
        LsmError,
    >)
        requires
            self.entries@.len() <= self.locs@.len(),
        ensures
            self.entries@.len() == self.locs@.len() ==> r is Ok && r->Ok_0 is None,
            self.entries@.len() < self.locs@.len() ==> {
                let loc = self.locs@[self.entries@.len() as int];
                &&& r is Ok <==> next_allowed(*table, marked, loc)
                &&& r is Ok ==> r->Ok_0 == Some((loc.1, loc.2))
                &&& r is Err ==> next_refused(
                    *table,
                    marked,
                    self.entries@.len(),
                    self.locs@.len(),
                    loc,
                    r->Err_0,
                )
            },
    {
        let got: usize = self.entries.len();
        let expected: usize = self.locs.len();
        if got >= expected {
            return Ok(None);
        }
        if marked {
            let mut m = cat("SSTable ", table.quoted_path.as_str());
            m.append(" marked for deletion during get_all_entries (got ");
            push_dec(&mut m, got as u64);
            m.append(" of ");
            push_dec(&mut m, expected as u64);
            m.append(")");
            return Err(LsmError::Internal(m));
        }
        let offset: u64 = self.locs[got].1;
        let size: u32 = self.locs[got].2;
        if offset > table.metadata.file_size {
            let mut m = "Invalid offset ".to_owned();
            push_dec(&mut m, offset);
            m.append(" for key '");
            m.append(self.locs[got].0.as_str());
            m.append("' in ");
            m.append(table.quoted_path.as_str());
            m.append(" (file size ");
            push_dec(&mut m, table.metadata.file_size);
            m.append(")");
            return Err(LsmError::Internal(m));
        }
        if (!table.block_compressed && size == 0) || size > MAX_ENTRY_SIZE {
            let mut m = "Invalid entry size ".to_owned();
            push_dec(&mut m, size as u64);
            m.append(" for key '");
            m.append(self.locs[got].0.as_str());
            m.append("' in ");
            m.append(table.quoted_path.as_str());
            return Err(LsmError::Internal(m));
        }
        Ok(Some((offset, size)))
    }

    /// Takes what reading the next entry gave. One failed read fails the whole.
    pub fn accept(&mut self, table: &SSTable, read: Result<SSTableEntry, LsmError>) -> (r: Result<
        (),
        LsmError,
    >)
        requires
            old(self).entries@.len() < old(self).locs@.len(),
        ensures
            final(self).locs == old(self).locs,
            match read {
                Ok(entry) => r is Ok && final(self).entries@ == old(self).entries@.push(entry),
                Err(e) => {
                    let loc = old(self).locs@[old(self).entries@.len() as int];
                    &&& final(self).entries@ == old(self).entries@
                    &&& r is Err && r->Err_0.is_internal(
                        "Failed to read key '"@ + loc.0@ + "' at offset "@ + text::dec(loc.1 as nat)
                            + " in "@ + table.quoted_path@ + ": "@ + (e.heading() + e.detail()),
                    )
                },
            },
    {
        match read {
            Ok(entry) => {
                self.entries.push(entry);
                Ok(())
            },
            Err(e) => {
                let at: usize = self.entries.len();
                let shown = e.user_message();
                let mut m = cat("Failed to read key '", self.locs[at].0.as_str());
                m.append("' at offset ");
                push_dec(&mut m, self.locs[at].1);
                m.append(" in ");
                m.append(table.quoted_path.as_str());
                m.append(": ");
                m.append(shown.as_str());
                Err(LsmError::Internal(m))
            },
        }
    }
}

/// Who still reads a table, and whether it is to be deleted. All handles of a table share this.
#[derive(Debug, Clone, Copy, PartialEq, Eq, Structural)]
pub struct TablePins {
    /// Number of readers.
    pub reader_count: usize,
    /// Whether the table is to be deleted.
    pub marked_for_deletion: bool,
}

impl TablePins {
    /// No reader, not to be deleted.
    pub fn new() -> (r: Self)
        ensures
            r == (TablePins { reader_count: 0, marked_for_deletion: false }),
    {
        TablePins { reader_count: 0, marked_for_deletion: false }
    }

    /// Counts one reader more.
    pub fn pin_reader(&mut self)
        requires
            old(self).reader_count < usize::MAX,
        ensures
            *final(self) == (TablePins {
                reader_count: (old(self).reader_count + 1) as usize,
                ..*old(self)
            }),
    {
        self.reader_count = self.reader_count + 1;
    }

    /// Counts one reader less.
    pub fn unpin_reader(&mut self)
        requires
            old(self).reader_count > 0,
        ensures
            *final(self) == (TablePins {
                reader_count: (old(self).reader_count - 1) as usize,
                ..*old(self)
            }),
    {
        self.reader_count = self.reader_count - 1;
    }

    /// Marks the table for deletion.
    pub fn mark_for_deletion(&mut self)
        ensures
            *final(self) == (TablePins { marked_for_deletion: true, ..*old(self) }),
    {
        self.marked_for_deletion = true;
    }

    /// Whether the table is to be deleted.
    pub fn is_marked_for_deletion(&self) -> (r: bool)
        ensures
            r == self.marked_for_deletion,
    {
        self.marked_for_deletion
    }

    /// Number of readers.
    pub fn reader_count(&self) -> (r: usize)
        ensures
            r == self.reader_count,
    {
        self.reader_count
    }

    /// Whether nobody reads the table.
    pub fn can_delete(&self) -> (r: bool)
        ensures
            r == (self.reader_count == 0),
    {
        self.reader_count == 0
    }

    /// Whether waiting until nobody reads the table is over: with the outcome whether nobody does,
    /// or not yet. `elapsed` is how long it has been waited.
    pub fn wait_for_readers(&self, elapsed: Duration, timeout: Duration) -> (r: Option<bool>)
        requires
            elapsed.wf(),
            timeout.wf(),
        ensures
            r == if self.reader_count == 0 {
                Some(true)
            } else if elapsed.total_nanos() > timeout.total_nanos() {
                Some(false)
            } else {
                None
            },
    {
        if self.can_delete() {
            Some(true)
        } else if timeout.less_than(elapsed) {
            Some(false)
        } else {
            None
        }
    }

    /// Whether the file may be removed now: `false` if it is not marked; fails while it is read.
    pub fn unlink_allowed(&self, quoted_path: &str) -> (r: Result<bool, LsmError>)
        ensures
            r is Ok <==> !self.marked_for_deletion || self.reader_count == 0,
            r matches Ok(yes) ==> yes == self.marked_for_deletion,
            r matches Err(e) ==> e.is_internal(
                "SSTable "@ + quoted_path@ + " still has "@ + text::dec(self.reader_count as nat)
                    + " readers"@,
            ),
    {
        if !self.marked_for_deletion {
            return Ok(false);
        }
        if !self.can_delete() {
            let mut m = cat("SSTable ", quoted_path);
            m.append(" still has ");
            push_dec(&mut m, self.reader_count as u64);
            m.append(" readers");
            return Err(LsmError::Internal(m));
        }
        Ok(true)
    }
}

/// What the removal of a table's file comes to: a file that is already gone is as good as removed.
pub fn unlink_from_disk(removed: Result<(), LsmError>) -> (r: Result<(), LsmError>)
    ensures
        match removed {
            Ok(()) => r is Ok,
            Err(e) => if e is Io && e->Io_0.kind == IoErrorKind::NotFound {
                r is Ok
            } else {
                r == removed
            },
        },
{
    match removed {
        Ok(()) => Ok(()),
        Err(e) => {
            let gone = match &e {
                LsmError::Io(io) => io.kind == IoErrorKind::NotFound,
                _ => false,
            };
            if gone {
                Ok(())
            } else {
                Err(e)
            }
        },
    }
}

/// Releases a reader's pin once: when told to, or at the end. A pin that the caller holds itself is
/// left alone.
#[derive(Debug, Clone, Copy, PartialEq, Eq, Structural)]
pub struct ReaderGuard {
    /// Whether the pin was released.
    pub decremented: bool,
    /// Whether the caller holds the pin.
    pub external: bool,
}

impl ReaderGuard {
    /// A guard of a pin.
    pub fn new(external: bool) -> (r: Self)
        ensures
            r == (ReaderGuard { decremented: false, external }),
    {
        ReaderGuard { decremented: false, external }
    }

    /// The guard has a pin to release.
    pub open spec fn holds(self) -> bool {
        !self.external && !self.decremented
    }

    /// Releases the pin, if the guard still has one.
    pub fn decrement(&mut self, pins: &mut TablePins)
        requires
            old(self).holds() ==> old(pins).reader_count > 0,
        ensures
            !final(self).holds(),
            final(self).external == old(self).external,
            final(pins).marked_for_deletion == old(pins).marked_for_deletion,
            final(pins).reader_count == if old(self).holds() {
                old(pins).reader_count - 1
            } else {
                old(pins).reader_count as int
            },
    {
        if self.external || self.decremented {
            return;
        }
        pins.unpin_reader();
        self.decremented = true;
    }
}

} // verus!
