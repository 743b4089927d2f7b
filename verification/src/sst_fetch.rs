//! Fetching one entry of a table: from a cache where it is there, otherwise from the file. The
//! caller asks the cache and the file, and decodes entries; each step takes its reply.

use crate::error::LsmError;
use crate::flat_index;
use crate::sst_block::{
    self, check_entry_checksum, check_entry_header, check_entry_length, read_snappy_block,
    BlockRead,
};
use crate::sst_entry::{self, EntryRead};
use crate::sst_format::{self, parse_framed_entry, MAX_ENTRY_SIZE};
use crate::sst_metadata;
use crate::sst_open::{FileReply, FileRequest};
use crate::sst_read::SSTableEntry;
use crate::sst_writer;
use crate::sstable::SSTable;
use vstd::bytes::*;
use vstd::prelude::*;

verus! {

/// How far the fetching of an entry has come.
#[derive(Debug)]
pub enum EntryFetch {
    /// The file is to be opened before anything else; an entry that stands in the file itself is
    /// not cached then.
    OpenFirst,
    /// The cache is asked for the entry.
    CachedEntry,
    /// What the cache holds of the entry is to be decoded.
    DecodeCached(Vec<u8>),
    /// The entry is read from the file.
    Entry(EntryRead),
    /// The entry is read from the file that was opened first.
    EntrySync(SyncEntryRead),
    /// The cache is asked for the block.
    CachedBlock,
    /// The file is to be opened for reading the block.
    OpenForBlock,
    /// The block is read from the file.
    Block(BlockRead),
    /// The block is to be cached.
    StoreBlock(Vec<u8>),
    /// The entry is to be decoded.
    Decode {
        /// Its bytes.
        data: Vec<u8>,
        /// Whether it is cached then.
        store: bool,
    },
    /// The entry is to be encoded and cached, if it can be encoded.
    StoreEntry(SSTableEntry),
    /// Fetching has ended.
    Done(Result<SSTableEntry, LsmError>),
}

/// What the caller answers.
#[derive(Debug)]
pub enum FetchReply {
    /// What the cache holds.
    Cached(Option<Vec<u8>>),
    /// What decoding gave.
    Decoded(Result<SSTableEntry, LsmError>),
    /// What the file layer answers.
    File(FileReply),
    /// The cache was filled.
    Stored,
}

/// How far the reading of an entry from a file that was opened first has come.
#[derive(Debug)]
pub enum SyncEntryRead {
    /// The size of the file is asked for.
    Size,
    /// The entry's length is asked for.
    Length {
        /// The size of the file.
        file_size: u64,
    },
    /// The entry's bytes are asked for.
    Body {
        /// The entry's length.
        entry_size: u32,
    },
    /// The entry's checksum is asked for.
    Checksum {
        /// The entry's length.
        entry_size: u32,
        /// The entry's bytes.
        body: Vec<u8>,
    },
    /// Reading has ended.
    Done(Result<Vec<u8>, LsmError>),
}

impl SyncEntryRead {
    /// What the file layer is asked for in this state.
    pub open spec fn wants(self, offset: u64) -> FileRequest {
        match self {
            SyncEntryRead::Size => FileRequest::Size,
            SyncEntryRead::Length { .. } => FileRequest::Read { offset, len: 4 },
            SyncEntryRead::Body { entry_size } => FileRequest::Read {
                offset: (offset + 4) as u64,
                len: entry_size as u64,
            },
            SyncEntryRead::Checksum { entry_size, .. } => FileRequest::Read {
                offset: (offset + 4 + entry_size) as u64,
                len: 4,
            },
            SyncEntryRead::Done(_) => FileRequest::Nothing,
        }
    }

    /// The entry lies within what can be addressed.
    pub open spec fn wf(self, offset: u64) -> bool {
        match self {
            SyncEntryRead::Length { file_size } => offset + 8 <= file_size,
            SyncEntryRead::Body { entry_size } => offset + 8 + entry_size <= u64::MAX,
            SyncEntryRead::Checksum { entry_size, .. } => offset + 8 + entry_size <= u64::MAX,
            _ => true,
        }
    }

    /// What the file layer is asked for in this state.
    pub fn request(&self, offset: u64) -> (r: FileRequest)
        requires
            self.wf(offset),
        ensures
            r == self.wants(offset),
    {
        match self {
            SyncEntryRead::Size => FileRequest::Size,
            SyncEntryRead::Length { .. } => FileRequest::Read { offset, len: 4 },
            SyncEntryRead::Body { entry_size } => FileRequest::Read {
                offset: offset + 4,
                len: *entry_size as u64,
            },
            SyncEntryRead::Checksum { entry_size, .. } => FileRequest::Read {
                offset: offset + 4 + *entry_size as u64,
                len: 4,
            },
            SyncEntryRead::Done(_) => FileRequest::Nothing,
        }
    }
}

/// The size of the file, as far as it is known: the larger of what the metadata and the file say.
pub open spec fn known_size(table: SSTable, actual: u64) -> u64 {
    if table.metadata.file_size > actual {
        table.metadata.file_size
    } else {
        actual
    }
}

/// The next state, when `reply` answers the request of `st`.
pub open spec fn sync_entry_step(
    table: SSTable,
    offset: u64,
    st: SyncEntryRead,
    reply: FileReply,
    next: SyncEntryRead,
) -> bool {
    match (st, reply) {
        (SyncEntryRead::Done(_), _) => next == st,
        (_, FileReply::Failed(e)) => next == SyncEntryRead::Done(Err(e)),
        (SyncEntryRead::Size, FileReply::Size(n)) => {
            let file_size = known_size(table, n);
            if offset + 8 <= file_size {
                next == (SyncEntryRead::Length { file_size })
            } else {
                next matches SyncEntryRead::Done(Err(e)) && sst_block::header_past_end(offset, e)
            }
        },
        (SyncEntryRead::Length { file_size }, FileReply::Data(d)) => {
            let entry_size = spec_u32_from_le_bytes(d@);
            if 1 <= entry_size <= MAX_ENTRY_SIZE && offset + 8 + entry_size <= file_size {
                next == (SyncEntryRead::Body { entry_size })
            } else {
                next matches SyncEntryRead::Done(Err(e)) && sst_block::bad_length(
                    offset,
                    entry_size,
                    e,
                )
            }
        },
        (SyncEntryRead::Body { entry_size }, FileReply::Data(d)) => next
            matches SyncEntryRead::Checksum { entry_size: size, body } && size == entry_size
            && body@ == d@,
        (SyncEntryRead::Checksum { entry_size, body }, FileReply::Data(d)) => if spec_u32_from_le_bytes(
            d@,
        ) == sst_block::frame_checksum(entry_size, body@) {
            next matches SyncEntryRead::Done(Ok(v)) && v@ == body@
        } else {
            next matches SyncEntryRead::Done(Err(e)) && sst_block::bad_checksum(offset, e)
        },
        _ => false,
    }
}

impl EntryFetch {
    /// The reply answers what is asked for in this state.
    pub open spec fn answered_by(self, offset: u64, reply: FetchReply) -> bool {
        match self {
            EntryFetch::OpenFirst => reply matches FetchReply::File(f)
                && FileRequest::Open.answered_by(f),
            EntryFetch::CachedEntry => reply is Cached,
            EntryFetch::DecodeCached(_) => reply is Decoded,
            EntryFetch::Entry(read) => reply matches FetchReply::File(f) && read.wants(
                offset,
            ).answered_by(f),
            EntryFetch::EntrySync(read) => reply matches FetchReply::File(f) && read.wants(
                offset,
            ).answered_by(f),
            EntryFetch::CachedBlock => reply is Cached,
            EntryFetch::OpenForBlock => reply matches FetchReply::File(f)
                && FileRequest::Open.answered_by(f),
            EntryFetch::Block(read) => reply matches FetchReply::File(f) && read.wants(
                offset,
            ).answered_by(f),
            EntryFetch::StoreBlock(_) => reply is Stored,
            EntryFetch::Decode { .. } => reply is Decoded,
            EntryFetch::StoreEntry(_) => reply is Stored,
            EntryFetch::Done(_) => true,
        }
    }

    /// Reads that have ended are told apart from those that go on, and reads stay within what can
    /// be addressed.
    pub open spec fn wf(self, offset: u64) -> bool {
        match self {
            EntryFetch::Entry(read) => read !is Done && read.wf(offset),
            EntryFetch::EntrySync(read) => read !is Done && read.wf(offset),
            EntryFetch::Block(read) => read !is Done && offset <= u64::MAX - 8,
            EntryFetch::CachedBlock => offset <= u64::MAX - 8,
            EntryFetch::OpenForBlock => offset <= u64::MAX - 8,
            _ => true,
        }
    }
}

/// The entry is taken out of its block.
pub open spec fn taken_from_block(block: Seq<u8>, loc: u32, next: EntryFetch) -> bool {
    match sst_format::framed_at(block, loc as int) {
        Ok(data) => next matches EntryFetch::Decode { data: d, store } && d@ == data && !store,
        Err(m) => next matches EntryFetch::Done(Err(e)) && e.is_corruption(m),
    }
}

/// The file is read, if the table is ready and not marked for deletion.
pub open spec fn read_begins(table: SSTable, marked: bool, next: EntryFetch) -> bool {
    exists|read: EntryRead| #[trigger]
        sst_entry::read_begun(table, marked, read) && match read {
            EntryRead::Done(Err(e)) => next == EntryFetch::Done(Err(e)),
            _ => next == EntryFetch::Entry(read),
        }
}

/// Fetching from packed blocks begins with the block that was unpacked last; otherwise the cache,
/// if there is one, or the file is asked.
pub open spec fn block_begins(table: SSTable, offset: u64, loc: u32, cached: bool, next: EntryFetch) -> bool {
    match table.decompressed_block {
        Some((off, block)) if off == offset => taken_from_block(block@, loc, next),
        _ => next == if cached {
            EntryFetch::CachedBlock
        } else {
            EntryFetch::OpenForBlock
        },
    }
}

/// The table with this block as the one that was unpacked last.
pub open spec fn remembers(before: SSTable, after: SSTable, offset: u64, block: Seq<u8>) -> bool {
    &&& after.decompressed_block matches Some((off, data)) && off == offset && data@ == block
    &&& after == (SSTable { decompressed_block: after.decompressed_block, ..before })
}

/// The next state and table, when `reply` answers what is asked for in `st`.
pub open spec fn fetch_step(
    before: SSTable,
    after: SSTable,
    marked: bool,
    offset: u64,
    loc: u32,
    cached: bool,
    st: EntryFetch,
    reply: FetchReply,
    next: EntryFetch,
) -> bool {
    match (st, reply) {
        (EntryFetch::OpenFirst, FetchReply::File(f)) => {
            &&& after == before
            &&& match f {
                FileReply::Failed(e) => next == EntryFetch::Done(Err(e)),
                _ => if before.block_compressed {
                    block_begins(before, offset, loc, cached, next)
                } else {
                    next == EntryFetch::EntrySync(SyncEntryRead::Size)
                },
            }
        },
        (EntryFetch::CachedEntry, FetchReply::Cached(held)) => {
            &&& after == before
            &&& match held {
                Some(data) => next == EntryFetch::DecodeCached(data),
                None => read_begins(before, marked, next),
            }
        },
        (EntryFetch::DecodeCached(_), FetchReply::Decoded(r)) => {
            &&& after == before
            &&& match r {
                Ok(entry) => next == EntryFetch::Done(Ok(entry)),
                Err(_) => read_begins(before, marked, next),
            }
        },
        (EntryFetch::Entry(read), FetchReply::File(f)) => {
            &&& after == before
            &&& exists|to: EntryRead| #[trigger]
                sst_entry::entry_step(before, marked, offset, read, f, to) && match to {
                    EntryRead::Done(Ok(data)) => next == (EntryFetch::Decode { data, store: cached }),
                    EntryRead::Done(Err(e)) => next == EntryFetch::Done(Err(e)),
                    _ => next == EntryFetch::Entry(to),
                }
        },
        (EntryFetch::EntrySync(read), FetchReply::File(f)) => {
            &&& after == before
            &&& exists|to: SyncEntryRead| #[trigger]
                sync_entry_step(before, offset, read, f, to) && match to {
                    SyncEntryRead::Done(Ok(data)) => next == (EntryFetch::Decode {
                        data,
                        store: false,
                    }),
                    SyncEntryRead::Done(Err(e)) => next == EntryFetch::Done(Err(e)),
                    _ => next == EntryFetch::EntrySync(to),
                }
        },
        (EntryFetch::CachedBlock, FetchReply::Cached(held)) => match held {
            Some(block) => remembers(before, after, offset, block@) && taken_from_block(
                block@,
                loc,
                next,
            ),
            None => after == before && next == EntryFetch::OpenForBlock,
        },
        (EntryFetch::OpenForBlock, FetchReply::File(f)) => {
            &&& after == before
            &&& next == match f {
                FileReply::Failed(e) => EntryFetch::Done(Err(e)),
                _ => EntryFetch::Block(BlockRead::UnpackedLength),
            }
        },
        (EntryFetch::Block(read), FetchReply::File(f)) => exists|to: BlockRead| #[trigger]
            sst_block::block_step(offset, read, f, to) && match to {
                BlockRead::Done(Ok(block)) => if cached {
                    after == before && next == EntryFetch::StoreBlock(block)
                } else {
                    remembers(before, after, offset, block@) && taken_from_block(block@, loc, next)
                },
                BlockRead::Done(Err(e)) => after == before && next == EntryFetch::Done(Err(e)),
                _ => after == before && next == EntryFetch::Block(to),
            },
        (EntryFetch::StoreBlock(block), _) => remembers(before, after, offset, block@)
            && taken_from_block(block@, loc, next),
        (EntryFetch::Decode { data, store }, FetchReply::Decoded(r)) => {
            &&& after == before
            &&& next == match r {
                Ok(entry) if store => EntryFetch::StoreEntry(entry),
                _ => EntryFetch::Done(r),
            }
        },
        (EntryFetch::StoreEntry(entry), _) => after == before && next == EntryFetch::Done(Ok(entry)),
        (EntryFetch::Done(_), _) => after == before && next == st,
        _ => false,
    }
}

fn take_from_block(block: &Vec<u8>, loc: u32) -> (next: EntryFetch)
    ensures
        taken_from_block(block@, loc, next),
{
    match parse_framed_entry(block.as_slice(), loc as usize) {
        Ok(data) => EntryFetch::Decode { data, store: false },
        Err(e) => EntryFetch::Done(Err(e)),
    }
}

impl SSTable {
    fn begin_read(&self, marked: bool) -> (next: EntryFetch)
        ensures
            read_begins(*self, marked, next),
            next is Entry || next is Done,
            forall|offset: u64| next.wf(offset),
    {
        let read = self.begin_entry_read(marked);
        assert(sst_entry::read_begun(*self, marked, read));
        match read {
            EntryRead::Done(Err(e)) => EntryFetch::Done(Err(e)),
            other => EntryFetch::Entry(other),
        }
    }

    fn begin_block(&self, offset: u64, loc: u32, cached: bool) -> (next: EntryFetch)
        requires
            offset <= u64::MAX - 8,
        ensures
            block_begins(*self, offset, loc, cached, next),
            next.wf(offset),
    {
        match self.remembered_block(offset) {
            Some(block) => take_from_block(&block, loc),
            None => if cached {
                EntryFetch::CachedBlock
            } else {
                EntryFetch::OpenForBlock
            },
        }
    }

    fn remember_and_take(&mut self, offset: u64, block: Vec<u8>, loc: u32) -> (next: EntryFetch)
        ensures
            remembers(*old(self), *final(self), offset, block@),
            taken_from_block(block@, loc, next),
    {
        let next = take_from_block(&block, loc);
        self.remember_block(offset, block);
        next
    }

    fn read_sync_entry(&self, offset: u64, st: SyncEntryRead, reply: FileReply) -> (next: SyncEntryRead)
        requires
            st.wf(offset),
            st !is Done ==> st.wants(offset).answered_by(reply),
        ensures
            sync_entry_step(*self, offset, st, reply, next),
            next.wf(offset),
    {
        match (st, reply) {
            (SyncEntryRead::Done(r), _) => SyncEntryRead::Done(r),
            (_, FileReply::Failed(e)) => SyncEntryRead::Done(Err(e)),
            (SyncEntryRead::Size, FileReply::Size(n)) => {
                let file_size: u64 = self.known_file_size(n);
                match check_entry_header(offset, file_size) {
                    Ok(()) => SyncEntryRead::Length { file_size },
                    Err(e) => SyncEntryRead::Done(Err(e)),
                }
            },
            (SyncEntryRead::Length { file_size }, FileReply::Data(d)) => {
                let entry_size: u32 = u32_from_le_bytes(d.as_slice());
                match check_entry_length(offset, entry_size, file_size) {
                    Ok(()) => SyncEntryRead::Body { entry_size },
                    Err(e) => SyncEntryRead::Done(Err(e)),
                }
            },
            (SyncEntryRead::Body { entry_size }, FileReply::Data(body)) => SyncEntryRead::Checksum {
                entry_size,
                body,
            },
            (SyncEntryRead::Checksum { entry_size, body }, FileReply::Data(d)) => {
                let stored: u32 = u32_from_le_bytes(d.as_slice());
                match check_entry_checksum(offset, entry_size, body.as_slice(), stored) {
                    Ok(()) => SyncEntryRead::Done(Ok(body)),
                    Err(e) => SyncEntryRead::Done(Err(e)),
                }
            },
            (other, _) => other,
        }
    }

    /// Begins to fetch the entry at a location; `cached` tells whether there is a cache.
    pub fn begin_fetch(&self, marked: bool, offset: u64, loc: u32, cached: bool) -> (next: EntryFetch)
        requires
            self.block_compressed ==> offset <= u64::MAX - 8,
        ensures
            if self.block_compressed {
                block_begins(*self, offset, loc, cached, next)
            } else if cached {
                next == EntryFetch::CachedEntry
            } else {
                read_begins(*self, marked, next)
            },
            next.wf(offset),
    {
        if self.block_compressed {
            self.begin_block(offset, loc, cached)
        } else if cached {
            EntryFetch::CachedEntry
        } else {
            self.begin_read(marked)
        }
    }

    /// One step of fetching the entry at a location: takes the reply to what `st` asks for.
    pub fn try_read_entry(
        &mut self,
        marked: bool,
        offset: u64,
        loc: u32,
        cached: bool,
        st: EntryFetch,
        reply: FetchReply,
    ) -> (next: EntryFetch)
        requires
            st.wf(offset),
            st.answered_by(offset, reply),
            old(self).block_compressed ==> offset <= u64::MAX - 8,
        ensures
            fetch_step(*old(self), *final(self), marked, offset, loc, cached, st, reply, next),
            next.wf(offset),
    {
        match (st, reply) {
            (EntryFetch::OpenFirst, FetchReply::File(f)) => match f {
                FileReply::Failed(e) => EntryFetch::Done(Err(e)),
                _ => if self.block_compressed {
                    self.begin_block(offset, loc, cached)
                } else {
                    EntryFetch::EntrySync(SyncEntryRead::Size)
                },
            },
            (EntryFetch::CachedEntry, FetchReply::Cached(held)) => match held {
                Some(data) => EntryFetch::DecodeCached(data),
                None => self.begin_read(marked),
            },
            (EntryFetch::DecodeCached(_), FetchReply::Decoded(r)) => match r {
                Ok(entry) => EntryFetch::Done(Ok(entry)),
                Err(_) => self.begin_read(marked),
            },
            (EntryFetch::Entry(read), FetchReply::File(f)) => {
                let to = self.read_stored_entry(marked, offset, read, f);
                assert(sst_entry::entry_step(*self, marked, offset, read, f, to));
                match to {
                    EntryRead::Done(Ok(data)) => EntryFetch::Decode { data, store: cached },
                    EntryRead::Done(Err(e)) => EntryFetch::Done(Err(e)),
                    other => EntryFetch::Entry(other),
                }
            },
            (EntryFetch::EntrySync(read), FetchReply::File(f)) => {
                let to = self.read_sync_entry(offset, read, f);
                assert(sync_entry_step(*self, offset, read, f, to));
                match to {
                    SyncEntryRead::Done(Ok(data)) => EntryFetch::Decode { data, store: false },
                    SyncEntryRead::Done(Err(e)) => EntryFetch::Done(Err(e)),
                    other => EntryFetch::EntrySync(other),
                }
            },
            (EntryFetch::CachedBlock, FetchReply::Cached(held)) => match held {
                Some(block) => self.remember_and_take(offset, block, loc),
                None => EntryFetch::OpenForBlock,
            },
            (EntryFetch::OpenForBlock, FetchReply::File(f)) => match f {
                FileReply::Failed(e) => EntryFetch::Done(Err(e)),
                _ => EntryFetch::Block(BlockRead::UnpackedLength),
            },
            (EntryFetch::Block(read), FetchReply::File(f)) => {
                let to = read_snappy_block(offset, read, f);
                assert(sst_block::block_step(offset, read, f, to));
                match to {
                    BlockRead::Done(Ok(block)) => if cached {
                        EntryFetch::StoreBlock(block)
                    } else {
                        self.remember_and_take(offset, block, loc)
                    },
                    BlockRead::Done(Err(e)) => EntryFetch::Done(Err(e)),
                    other => EntryFetch::Block(other),
                }
            },
            (EntryFetch::StoreBlock(block), _) => self.remember_and_take(offset, block, loc),
            (EntryFetch::Decode { data: _, store }, FetchReply::Decoded(r)) => match r {
                Ok(entry) => if store {
                    EntryFetch::StoreEntry(entry)
                } else {
                    EntryFetch::Done(Ok(entry))
                },
                Err(e) => EntryFetch::Done(Err(e)),
            },
            (EntryFetch::StoreEntry(entry), _) => EntryFetch::Done(Ok(entry)),
            (other, _) => other,
        }
    }
}

/// The reply is what a file with these bytes answers to the request of a block that is read.
pub open spec fn answered_from_file(
    st: EntryFetch,
    offset: u64,
    file: Seq<u8>,
    reply: FileReply,
) -> bool {
    st matches EntryFetch::Block(read) ==> read.wants(offset).answered_from(file, reply)
}

/// Fetching an entry that an index record leads to from the file that holds it, without a cache,
/// ends in decoding the bytes that were written.
pub proof fn stored_entry_is_fetched(
    table: SSTable,
    after: SSTable,
    marked: bool,
    file: Seq<u8>,
    rec: flat_index::IndexRecord,
    e: sst_writer::EntryView,
    replies: (FileReply, FileReply, FileReply, FileReply),
    states: (EntryFetch, EntryFetch, EntryFetch, EntryFetch),
)
    requires
        sst_writer::leads_to(file, rec, e),
        rec.1 <= u64::MAX - 8,
        FileRequest::Open.answered_from(file, replies.0),
        fetch_step(
            table,
            table,
            marked,
            rec.1,
            rec.2,
            false,
            EntryFetch::OpenForBlock,
            FetchReply::File(replies.0),
            states.0,
        ),
        answered_from_file(states.0, rec.1, file, replies.1),
        fetch_step(
            table,
            table,
            marked,
            rec.1,
            rec.2,
            false,
            states.0,
            FetchReply::File(replies.1),
            states.1,
        ),
        answered_from_file(states.1, rec.1, file, replies.2),
        fetch_step(
            table,
            table,
            marked,
            rec.1,
            rec.2,
            false,
            states.1,
            FetchReply::File(replies.2),
            states.2,
        ),
        answered_from_file(states.2, rec.1, file, replies.3),
        fetch_step(
            table,
            after,
            marked,
            rec.1,
            rec.2,
            false,
            states.2,
            FetchReply::File(replies.3),
            states.3,
        ),
    ensures
        states.3 matches EntryFetch::Decode { data, store } && data@ == e.1 && !store,
{
    let off = rec.1;
    let raw = choose|raw: Seq<u8>| #[trigger]
        sst_format::block_at(file, off as int, raw) && sst_format::framed_at(raw, rec.2 as int)
            == Ok::<Seq<u8>, Seq<char>>(e.1);
    let first = BlockRead::UnpackedLength;
    assert(states.0 == EntryFetch::Block(first));
    let second = choose|to: BlockRead| #[trigger]
        sst_block::block_step(off, first, replies.1, to) && match to {
            BlockRead::Done(Ok(_)) => false,
            BlockRead::Done(Err(e)) => states.1 == EntryFetch::Done(Err(e)),
            _ => states.1 == EntryFetch::Block(to),
        };
    let unc = sst_metadata::u32_at(file, off as int);
    let comp = sst_metadata::u32_at(file, off + 4);
    assert(second == (BlockRead::PackedLength { unc_len: unc }));
    let third = choose|to: BlockRead| #[trigger]
        sst_block::block_step(off, second, replies.2, to) && match to {
            BlockRead::Done(Ok(_)) => false,
            BlockRead::Done(Err(e)) => states.2 == EntryFetch::Done(Err(e)),
            _ => states.2 == EntryFetch::Block(to),
        };
    assert(third == (BlockRead::Body { unc_len: unc, comp_len: comp }));
    let last = choose|to: BlockRead| #[trigger]
        sst_block::block_step(off, third, replies.3, to) && match to {
            BlockRead::Done(Ok(block)) => remembers(table, after, off, block@) && taken_from_block(
                block@,
                rec.2,
                states.3,
            ),
            BlockRead::Done(Err(e)) => after == table && states.3 == EntryFetch::Done(Err(e)),
            _ => after == table && states.3 == EntryFetch::Block(to),
        };
    sst_block::stored_block_is_read(
        file,
        off,
        raw,
        (replies.1, replies.2, replies.3),
        (second, third, last),
    );
}

} // verus!
