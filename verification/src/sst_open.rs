//! Opening a table file: finding its metadata and loading its index.

use crate::bytes::{self, bytes_equal};
use crate::checksum::{self, crc32};
use crate::error::LsmError;
use crate::flat_index::{self, FlatIndex};
use crate::snappy::{self, snap_decompress};
use crate::sst_format;
use crate::sst_metadata::{self, find_metadata};
use crate::sst_writer;
use crate::sstable::{self, SSTable};
use crate::text::{self, push_dec};
use vstd::bytes::*;
use vstd::prelude::*;
use vstd::slice::*;
use vstd::string::*;

verus! {

/// Size of the windows in which a file is searched for metadata, from its end.
pub const METADATA_WINDOW: u64 = 2048;

/// What the file layer is asked for.
#[derive(Debug, Clone, Copy, PartialEq, Eq, Structural)]
pub enum FileRequest {
    /// Nothing; the operation has ended.
    Nothing,
    /// Make sure that the file is open.
    Open,
    /// The size of the file.
    Size,
    /// Exactly `len` bytes from `offset` on.
    Read {
        /// Where to read.
        offset: u64,
        /// How much to read.
        len: u64,
    },
}

/// What the file layer answers.
#[derive(Debug)]
pub enum FileReply {
    /// The file is open.
    Opened,
    /// The size of the file.
    Size(u64),
    /// The bytes that were asked for.
    Data(Vec<u8>),
    /// The request failed.
    Failed(LsmError),
}

impl FileRequest {
    /// The reply answers this request. Files are at most as long as a signed offset can tell.
    pub open spec fn answered_by(self, reply: FileReply) -> bool {
        match reply {
            FileReply::Failed(_) => self !is Nothing,
            FileReply::Opened => self is Open,
            FileReply::Size(n) => self is Size && n <= i64::MAX,
            FileReply::Data(data) => self matches FileRequest::Read { offset, len } && data@.len()
                == len && offset + len <= i64::MAX,
        }
    }

    /// The reply is what a file with these bytes answers.
    pub open spec fn answered_from(self, file: Seq<u8>, reply: FileReply) -> bool {
        match self {
            FileRequest::Nothing => false,
            FileRequest::Open => reply is Opened,
            FileRequest::Size => reply matches FileReply::Size(n) && n == file.len(),
            FileRequest::Read { offset, len } => {
                &&& offset + len <= file.len()
                &&& reply matches FileReply::Data(data) && data@ == file.subrange(
                    offset as int,
                    offset + len,
                )
            },
        }
    }
}

/// How far the search for metadata has come.
#[derive(Debug)]
pub enum MetadataRead {
    /// The first four bytes are asked for.
    Magic,
    /// The size of the file is asked for.
    Size,
    /// A window of the file is asked for.
    Window {
        /// Where it begins.
        pos: u64,
        /// How long it is.
        len: u64,
    },
    /// Metadata was found; its checksum is asked for.
    Checksum {
        /// Where the metadata begins.
        offset: u64,
        /// How long it is.
        size: u64,
    },
    /// The metadata's bytes are asked for.
    Body {
        /// Where the metadata begins.
        offset: u64,
        /// How long it is.
        size: u64,
        /// The checksum that is stored behind it.
        stored: u32,
    },
    /// The search has ended.
    Done(Result<(), LsmError>),
}

/// The window that ends at `end`.
pub open spec fn window_before(end: u64) -> MetadataRead {
    let len = if end < METADATA_WINDOW {
        end
    } else {
        METADATA_WINDOW
    };
    MetadataRead::Window { pos: (end - len) as u64, len }
}

/// The message for a wrong metadata checksum.
pub open spec fn metadata_mismatch_text(stored: u32, computed: u32) -> Seq<char> {
    "SSTable metadata checksum mismatch: stored="@ + text::dec(stored as nat) + ", computed="@
        + text::dec(computed as nat) + ". Metadata may be corrupted."@
}

/// The next state of the search, when `reply` answers the request of `st`.
pub open spec fn metadata_step(
    before: SSTable,
    after: SSTable,
    st: MetadataRead,
    reply: FileReply,
    next: MetadataRead,
) -> bool {
    match st {
        MetadataRead::Magic => {
            &&& next is Size
            &&& after == (SSTable {
                block_compressed: (reply matches FileReply::Data(d) && d@ == sst_format::sst_magic()),
                ..before
            })
        },
        MetadataRead::Size => {
            &&& after == before
            &&& match reply {
                FileReply::Size(n) => if n == 0 {
                    no_metadata(next)
                } else {
                    next == window_before(n)
                },
                FileReply::Failed(e) => next == MetadataRead::Done(Err(e)),
                _ => false,
            }
        },
        MetadataRead::Window { pos, len } => match reply {
            FileReply::Data(w) => if exists|i: int| sst_metadata::last_metadata(w@, i) {
                let i = choose|i: int| sst_metadata::last_metadata(w@, i);
                &&& sst_metadata::metadata_in_window(w@, i) == Some(after.metadata@)
                &&& after == (SSTable { metadata: after.metadata, ..before })
                &&& next == (MetadataRead::Checksum {
                    offset: (pos + i) as u64,
                    size: (len - 4 - i) as u64,
                })
            } else {
                &&& after == before
                &&& if pos == 0 {
                    no_metadata(next)
                } else {
                    next == window_before(pos)
                }
            },
            FileReply::Failed(e) => after == before && next == MetadataRead::Done(Err(e)),
            _ => false,
        },
        MetadataRead::Checksum { offset, size } => {
            &&& after == before
            &&& match reply {
                FileReply::Data(d) => next == (MetadataRead::Body {
                    offset,
                    size,
                    stored: spec_u32_from_le_bytes(d@),
                }),
                FileReply::Failed(e) => next == MetadataRead::Done(Err(e)),
                _ => false,
            }
        },
        MetadataRead::Body { offset, size, stored } => match reply {
            FileReply::Data(d) => if checksum::crc32_of(d@) == stored {
                &&& after == (SSTable { bloom_filter: None, ..before })
                &&& next == MetadataRead::Done(Ok(()))
            } else {
                &&& after == before
                &&& next matches MetadataRead::Done(Err(e)) && e.is_corruption(
                    metadata_mismatch_text(stored, checksum::crc32_of(d@)),
                )
            },
            FileReply::Failed(e) => after == before && next == MetadataRead::Done(Err(e)),
            _ => false,
        },
        MetadataRead::Done(_) => after == before && next == st,
    }
}

/// The search has ended without metadata.
pub open spec fn no_metadata(next: MetadataRead) -> bool {
    next matches MetadataRead::Done(Err(e)) && e.is_corruption("Failed to read metadata"@)
}

impl MetadataRead {
    /// What the file layer is asked for in this state.
    pub open spec fn wants(self) -> FileRequest {
        match self {
            MetadataRead::Magic => FileRequest::Read { offset: 0, len: 4 },
            MetadataRead::Size => FileRequest::Size,
            MetadataRead::Window { pos, len } => FileRequest::Read { offset: pos, len },
            MetadataRead::Checksum { offset, size } => FileRequest::Read {
                offset: (offset + size) as u64,
                len: 4,
            },
            MetadataRead::Body { offset, size, .. } => FileRequest::Read { offset, len: size },
            MetadataRead::Done(_) => FileRequest::Nothing,
        }
    }

    /// The positions lie within a file.
    pub open spec fn wf(self) -> bool {
        match self {
            MetadataRead::Window { pos, len } => pos + len <= i64::MAX,
            MetadataRead::Checksum { offset, size } => offset + size <= i64::MAX,
            MetadataRead::Body { offset, size, .. } => offset + size <= i64::MAX,
            _ => true,
        }
    }

    /// What the file layer is asked for in this state.
    pub fn request(&self) -> (r: FileRequest)
        requires
            self.wf(),
        ensures
            r == self.wants(),
    {
        match self {
            MetadataRead::Magic => FileRequest::Read { offset: 0, len: 4 },
            MetadataRead::Size => FileRequest::Size,
            MetadataRead::Window { pos, len } => FileRequest::Read { offset: *pos, len: *len },
            MetadataRead::Checksum { offset, size } => FileRequest::Read {
                offset: *offset + *size,
                len: 4,
            },
            MetadataRead::Body { offset, size, .. } => FileRequest::Read {
                offset: *offset,
                len: *size,
            },
            MetadataRead::Done(_) => FileRequest::Nothing,
        }
    }
}

fn next_window(end: u64) -> (r: MetadataRead)
    ensures
        r == window_before(end),
{
    let len: u64 = if end < METADATA_WINDOW {
        end
    } else {
        METADATA_WINDOW
    };
    MetadataRead::Window { pos: end - len, len }
}

fn not_found() -> (r: MetadataRead)
    ensures
        no_metadata(r),
{
    MetadataRead::Done(Err(LsmError::Corruption("Failed to read metadata".to_owned())))
}

proof fn last_metadata_unique(w: Seq<u8>, i: int, j: int)
    requires
        sst_metadata::last_metadata(w, i),
        sst_metadata::last_metadata(w, j),
    ensures
        i == j,
{
    if i < j {
        assert(sst_metadata::metadata_in_window(w, j) is None);
    } else if j < i {
        assert(sst_metadata::metadata_in_window(w, i) is None);
    }
}

impl SSTable {
    /// One step of the search for metadata: takes the reply to the request of `st`.
    pub fn try_read_metadata(&mut self, st: MetadataRead, reply: FileReply) -> (next: MetadataRead)
        requires
            st.wf(),
            st !is Done ==> st.wants().answered_by(reply),
        ensures
            metadata_step(*old(self), *final(self), st, reply, next),
            next.wf(),
    {
        match st {
            MetadataRead::Magic => {
                let magic: [u8; 4] = [0x46, 0x34, 0x53, 0x43];
                assert(magic@ =~= sst_format::sst_magic());
                self.block_compressed = match &reply {
                    FileReply::Data(d) => bytes_equal(d.as_slice(), magic.as_slice()),
                    _ => false,
                };
                MetadataRead::Size
            },
            MetadataRead::Size => match reply {
                FileReply::Size(n) => if n == 0 {
                    not_found()
                } else {
                    next_window(n)
                },
                FileReply::Failed(e) => MetadataRead::Done(Err(e)),
                _ => not_found(),
            },
            MetadataRead::Window { pos, len } => match reply {
                FileReply::Data(w) => match find_metadata(w.as_slice()) {
                    Some((i, metadata)) => {
                        proof {
                            let j = choose|j: int| sst_metadata::last_metadata(w@, j);
                            last_metadata_unique(w@, i as int, j);
                        }
                        self.metadata = metadata;
                        MetadataRead::Checksum { offset: pos + i as u64, size: len - 4 - i as u64 }
                    },
                    None => {
                        proof {
                            assert forall|i: int| !sst_metadata::last_metadata(w@, i) by {
                                assert(0 <= i && i + 4 < w@.len() ==> sst_metadata::metadata_in_window(w@, i) is None);
                            }
                        }
                        if pos == 0 {
                            not_found()
                        } else {
                            next_window(pos)
                        }
                    },
                },
                FileReply::Failed(e) => MetadataRead::Done(Err(e)),
                _ => not_found(),
            },
            MetadataRead::Checksum { offset, size } => match reply {
                FileReply::Data(d) => MetadataRead::Body {
                    offset,
                    size,
                    stored: u32_from_le_bytes(d.as_slice()),
                },
                FileReply::Failed(e) => MetadataRead::Done(Err(e)),
                _ => not_found(),
            },
            MetadataRead::Body { offset, size, stored } => match reply {
                FileReply::Data(d) => {
                    let computed: u32 = crc32(d.as_slice());
                    if computed != stored {
                        let mut m = "SSTable metadata checksum mismatch: stored=".to_owned();
                        push_dec(&mut m, stored as u64);
                        m.append(", computed=");
                        push_dec(&mut m, computed as u64);
                        m.append(". Metadata may be corrupted.");
                        MetadataRead::Done(Err(LsmError::Corruption(m)))
                    } else {
                        self.bloom_filter = None;
                        MetadataRead::Done(Ok(()))
                    }
                },
                FileReply::Failed(e) => MetadataRead::Done(Err(e)),
                _ => not_found(),
            },
            MetadataRead::Done(r) => MetadataRead::Done(r),
        }
    }
}

/// The message for an index of no bytes.
pub open spec fn empty_index_text(table: SSTable) -> Seq<char> {
    "SSTable metadata has zero index_size (not opened?): "@ + table.quoted_path@
}

/// The message for a wrong index checksum.
pub open spec fn index_mismatch_text(stored: u32, computed: u32) -> Seq<char> {
    "SSTable index checksum mismatch: stored="@ + text::dec(stored as nat) + ", computed="@
        + text::dec(computed as nat) + ". Index data may be corrupted."@
}

/// The message for an index with a wrong number of records.
pub open spec fn index_count_text(table: SSTable, n: nat) -> Seq<char> {
    "SSTable index size "@ + text::dec(n) + " does not match entry_count "@ + text::dec(
        table.metadata.entry_count as nat,
    ) + ": "@ + table.quoted_path@
}

/// The bytes of the index in the file, unpacked, or the text of the error.
pub open spec fn index_bytes(table: SSTable, stored_form: Seq<u8>) -> Result<Seq<u8>, Seq<char>> {
    if table.block_compressed {
        match snappy::snappy_decompressed(stored_form) {
            Ok(raw) => Ok(raw),
            Err(m) => Err("snappy decompress: "@ + m),
        }
    } else {
        Ok(stored_form)
    }
}

/// What loading the index from its stored form and its checksum does: the index is taken over if
/// the checksum is right, the form can be decoded and the number of records is that of the
/// metadata. Otherwise the table stays as it is.
pub open spec fn index_taken(
    before: SSTable,
    after: SSTable,
    stored_form: Seq<u8>,
    stored: u32,
    r: Result<(), LsmError>,
) -> bool {
    let computed = checksum::crc32_of(stored_form);
    if stored != computed {
        &&& r is Err && r->Err_0.is_corruption(index_mismatch_text(stored, computed))
        &&& after == before
    } else {
        match index_bytes(before, stored_form) {
            Err(m) => {
                &&& r is Err && r->Err_0.is_corruption(m)
                &&& after == before
            },
            Ok(raw) => match flat_index::stored_index(raw) {
                Err(m) => {
                    &&& r is Err && r->Err_0.is_serialization(m)
                    &&& after == before
                },
                Ok((data, offsets)) => if offsets.len() != before.metadata.entry_count {
                    &&& r is Err && r->Err_0.is_corruption(index_count_text(before, offsets.len()))
                    &&& after == before
                } else {
                    &&& r is Ok
                    &&& after.index.data() == data
                    &&& after.index.offsets() == offsets
                    &&& after == (SSTable { index: after.index, index_loaded: true, ..before })
                },
            },
        }
    }
}

/// How far the loading of the index has come.
#[derive(Debug)]
pub enum IndexLoad {
    /// The file is to be opened.
    Open,
    /// The stored index is asked for.
    Bytes {
        /// Where it begins.
        offset: u64,
        /// How long it is.
        size: u64,
    },
    /// The checksum behind the index is asked for.
    Checksum {
        /// Where the index ends.
        end: u64,
        /// The stored index.
        bytes: Vec<u8>,
    },
    /// Loading has ended.
    Done(Result<(), LsmError>),
}

impl IndexLoad {
    /// What the file layer is asked for in this state.
    pub open spec fn wants(self) -> FileRequest {
        match self {
            IndexLoad::Open => FileRequest::Open,
            IndexLoad::Bytes { offset, size } => FileRequest::Read { offset, len: size },
            IndexLoad::Checksum { end, .. } => FileRequest::Read { offset: end, len: 4 },
            IndexLoad::Done(_) => FileRequest::Nothing,
        }
    }

    /// What the file layer is asked for in this state.
    pub fn request(&self) -> (r: FileRequest)
        ensures
            r == self.wants(),
    {
        match self {
            IndexLoad::Open => FileRequest::Open,
            IndexLoad::Bytes { offset, size } => FileRequest::Read { offset: *offset, len: *size },
            IndexLoad::Checksum { end, .. } => FileRequest::Read { offset: *end, len: 4 },
            IndexLoad::Done(_) => FileRequest::Nothing,
        }
    }
}

/// The next state and table, when `reply` answers the request of `st`.
pub open spec fn index_step(
    before: SSTable,
    after: SSTable,
    st: IndexLoad,
    reply: FileReply,
    next: IndexLoad,
) -> bool {
    match (st, reply) {
        (IndexLoad::Done(_), _) => next == st && after == before,
        (_, FileReply::Failed(e)) => next == IndexLoad::Done(Err(e)) && after == before,
        (IndexLoad::Open, FileReply::Opened) => {
            &&& after == before
            &&& if before.index_loaded {
                next == IndexLoad::Done(Ok(()))
            } else if before.metadata.index_size == 0 {
                next matches IndexLoad::Done(Err(e)) && e.is_corruption(empty_index_text(before))
            } else {
                next == (IndexLoad::Bytes {
                    offset: before.metadata.index_offset,
                    size: before.metadata.index_size,
                })
            }
        },
        (IndexLoad::Bytes { offset, size }, FileReply::Data(d)) => {
            &&& after == before
            &&& next matches IndexLoad::Checksum { end, bytes } && end == offset + size && bytes@ == d@
        },
        (IndexLoad::Checksum { end, bytes }, FileReply::Data(d)) => {
            &&& next is Done
            &&& index_taken(before, after, bytes@, spec_u32_from_le_bytes(d@), next->Done_0)
        },
        _ => false,
    }
}

impl SSTable {
    /// Begins to load the index on its first use.
    pub fn begin_index_load(&self) -> (r: IndexLoad)
        ensures
            r == if self.index_loaded {
                IndexLoad::Done(Ok(()))
            } else {
                IndexLoad::Open
            },
    {
        if self.index_loaded {
            IndexLoad::Done(Ok(()))
        } else {
            IndexLoad::Open
        }
    }

    /// One step of loading the index: takes the reply to the request of `st`.
    pub fn ensure_index_loaded(&mut self, st: IndexLoad, reply: FileReply) -> (next: IndexLoad)
        requires
            st !is Done ==> st.wants().answered_by(reply),
        ensures
            index_step(*old(self), *final(self), st, reply, next),
    {
        match st {
            IndexLoad::Open => match reply {
                FileReply::Failed(e) => IndexLoad::Done(Err(e)),
                _ => match self.index_span() {
                    Ok(Some((offset, size))) => IndexLoad::Bytes { offset, size },
                    Ok(None) => IndexLoad::Done(Ok(())),
                    Err(e) => IndexLoad::Done(Err(e)),
                },
            },
            IndexLoad::Bytes { offset, size } => match reply {
                FileReply::Failed(e) => IndexLoad::Done(Err(e)),
                FileReply::Data(bytes) => IndexLoad::Checksum { end: offset + size, bytes },
                _ => IndexLoad::Open,
            },
            IndexLoad::Checksum { end: _, bytes } => match reply {
                FileReply::Failed(e) => IndexLoad::Done(Err(e)),
                FileReply::Data(d) => IndexLoad::Done(
                    self.load_index(bytes.as_slice(), u32_from_le_bytes(d.as_slice())),
                ),
                _ => IndexLoad::Open,
            },
            IndexLoad::Done(outcome) => IndexLoad::Done(outcome),
        }
    }

    /// Which bytes of the file hold the index, if it is not loaded yet: its offset and its size.
    /// Its checksum stands behind it.
    fn index_span(&self) -> (r: Result<Option<(u64, u64)>, LsmError>)
        ensures
            self.index_loaded ==> r is Ok && r->Ok_0 is None,
            !self.index_loaded && self.metadata.index_size == 0 ==> r is Err && r->Err_0.is_corruption(
                empty_index_text(*self),
            ),
            !self.index_loaded && self.metadata.index_size != 0 ==> r is Ok && r->Ok_0 == Some(
                (self.metadata.index_offset, self.metadata.index_size),
            ),
    {
        if self.index_loaded {
            return Ok(None);
        }
        if self.metadata.index_size == 0 {
            let mut m = "SSTable metadata has zero index_size (not opened?): ".to_owned();
            m.append(self.quoted_path.as_str());
            return Err(LsmError::Corruption(m));
        }
        Ok(Some((self.metadata.index_offset, self.metadata.index_size)))
    }

    /// Loads the index from its bytes in the file and the checksum that stands behind them.
    fn load_index(&mut self, index_buffer: &[u8], stored: u32) -> (r: Result<(), LsmError>)
        ensures
            index_taken(*old(self), *final(self), index_buffer@, stored, r),
    {
        let computed: u32 = crc32(index_buffer);
        if stored != computed {
            let mut m = "SSTable index checksum mismatch: stored=".to_owned();
            push_dec(&mut m, stored as u64);
            m.append(", computed=");
            push_dec(&mut m, computed as u64);
            m.append(". Index data may be corrupted.");
            return Err(LsmError::Corruption(m));
        }
        let raw: Vec<u8> = if self.block_compressed {
            match snap_decompress(index_buffer) {
                Ok(v) => v,
                Err(e) => {
                    return Err(e);
                },
            }
        } else {
            slice_to_vec(index_buffer)
        };
        let decoded = match FlatIndex::decode(raw.as_slice()) {
            Ok(idx) => idx,
            Err(e) => {
                return Err(e);
            },
        };
        if decoded.len() != self.metadata.entry_count {
            let mut m = "SSTable index size ".to_owned();
            push_dec(&mut m, decoded.len() as u64);
            m.append(" does not match entry_count ");
            push_dec(&mut m, self.metadata.entry_count as u64);
            m.append(": ");
            m.append(self.quoted_path.as_str());
            return Err(LsmError::Corruption(m));
        }
        self.index = decoded;
        self.index_loaded = true;
        Ok(())
    }
}

/// The window at the end of a file.
pub open spec fn end_window(file: Seq<u8>) -> Seq<u8> {
    if file.len() <= METADATA_WINDOW {
        file
    } else {
        file.skip(file.len() - METADATA_WINDOW)
    }
}

/// Searching a file that ends in checked metadata finds that metadata, and its checksum is right,
/// as long as the metadata lies in the last window and no bytes behind its beginning can be read
/// as metadata too.
pub proof fn metadata_read_back(body: Seq<u8>, m: sst_metadata::MetadataView, i: int)
    requires
        vstd::utf8::encode_utf8(m.smallest_key).len() <= u64::MAX,
        vstd::utf8::encode_utf8(m.largest_key).len() <= u64::MAX,
        ({
            let file = body + sstable::checked(sst_metadata::metadata_bytes(m));
            let w = end_window(file);
            &&& i == w.len() - sst_metadata::metadata_bytes(m).len() - 4
            &&& i >= 0
            &&& forall|j: int|
                i < j && j + 4 < w.len() ==> #[trigger] sst_metadata::metadata_in_window(w, j) is None
        }),
    ensures
        ({
            let file = body + sstable::checked(sst_metadata::metadata_bytes(m));
            let w = end_window(file);
            let at = file.len() - w.len() + i;
            let size = w.len() - 4 - i;
            &&& sst_metadata::last_metadata(w, i)
            &&& sst_metadata::metadata_in_window(w, i) == Some(m)
            &&& checksum::crc32_of(file.subrange(at, at + size)) == spec_u32_from_le_bytes(
                file.subrange(at + size, at + size + 4),
            )
        }),
{
    let mb = sst_metadata::metadata_bytes(m);
    let file = body + sstable::checked(mb);
    let w = end_window(file);
    bytes::u32_back(checksum::crc32_of(mb));
    sst_metadata::metadata_round_trip(m, Seq::empty());
    assert(mb + Seq::<u8>::empty() =~= mb);
    assert(w.subrange(i, w.len() - 4) =~= mb);
    let at = file.len() - w.len() + i;
    let size = w.len() - 4 - i;
    assert(file.subrange(at, at + size) =~= mb);
    assert(file.subrange(at + size, at + size + 4) =~= spec_u32_to_le_bytes(checksum::crc32_of(mb)));
    assert(mb.len() >= 60) by {
        bytes::u64_back(m.level as u64);
        bytes::u32_back(m.checksum);
        bytes::u64_back(m.created_at);
        bytes::u64_back(m.index_offset);
        bytes::u64_back(m.index_size);
        bytes::u64_back(m.bloom_filter_offset);
        bytes::u64_back(m.bloom_filter_size);
        bytes::u64_back(m.bloom_filter_hash_count as u64);
    }
}

/// The index of a written file is where the metadata says, its checksum is right, and reading it
/// gives the records that were written.
pub proof fn index_read_back(
    table: SSTable,
    entries: Seq<sst_writer::EntryView>,
    level: usize,
    created_at: u64,
)
    requires
        table.block_compressed,
        sstable::table_image(entries, level, created_at).len() <= u64::MAX,
        sst_writer::data_section(entries).recs.len() <= u32::MAX,
        snappy::snappy_decompressed(sstable::packed_index(entries)) == Ok::<Seq<u8>, Seq<char>>(
            flat_index::index_image(sst_writer::data_section(entries).recs),
        ),
    ensures
        ({
            let file = sstable::table_image(entries, level, created_at);
            let m = sstable::table_metadata(entries, level, created_at);
            let recs = sst_writer::data_section(entries).recs;
            let stored_form = file.subrange(m.index_offset as int, m.index_offset + m.index_size);
            &&& checksum::crc32_of(stored_form) == sst_metadata::u32_at(
                file,
                m.index_offset + m.index_size,
            )
            &&& index_bytes(table, stored_form) matches Ok(raw) && flat_index::stored_index(raw)
                == Ok::<(Seq<u8>, Seq<u32>), Seq<char>>(
                (flat_index::records_bytes(recs), flat_index::packed_offsets(recs)),
            )
        }),
{
    let file = sstable::table_image(entries, level, created_at);
    let data = sst_writer::data_section(entries).out;
    let packed = sstable::packed_index(entries);
    let recs = sst_writer::data_section(entries).recs;
    bytes::u32_back(checksum::crc32_of(packed));
    let at = data.len() as int;
    assert(file.subrange(at, at + packed.len()) =~= packed);
    assert(file.subrange(at + packed.len(), at + packed.len() + 4) =~= spec_u32_to_le_bytes(
        checksum::crc32_of(packed),
    ));
    flat_index::index_round_trip(
        flat_index::packed_offsets(recs),
        flat_index::records_bytes(recs),
    );
}

/// Loading the index of a written file from that file gives the records that were written.
pub proof fn written_index_is_loaded(
    table: SSTable,
    after: SSTable,
    entries: Seq<sst_writer::EntryView>,
    level: usize,
    created_at: u64,
    replies: (FileReply, FileReply, FileReply),
    states: (IndexLoad, IndexLoad, IndexLoad),
)
    requires
        !table.index_loaded,
        table.block_compressed,
        table.metadata@ == sstable::table_metadata(entries, level, created_at),
        sstable::table_image(entries, level, created_at).len() <= i64::MAX,
        0 < sstable::packed_index(entries).len(),
        entries.len() == sst_writer::data_section(entries).recs.len() <= u32::MAX,
        snappy::snappy_decompressed(sstable::packed_index(entries)) == Ok::<Seq<u8>, Seq<char>>(
            flat_index::index_image(sst_writer::data_section(entries).recs),
        ),
        IndexLoad::Open.wants().answered_from(
            sstable::table_image(entries, level, created_at),
            replies.0,
        ),
        index_step(table, table, IndexLoad::Open, replies.0, states.0),
        states.0.wants().answered_from(
            sstable::table_image(entries, level, created_at),
            replies.1,
        ),
        index_step(table, table, states.0, replies.1, states.1),
        states.1.wants().answered_from(
            sstable::table_image(entries, level, created_at),
            replies.2,
        ),
        index_step(table, after, states.1, replies.2, states.2),
    ensures
        states.2 matches IndexLoad::Done(Ok(_)),
        after.index_loaded,
        after.index.data() == flat_index::records_bytes(sst_writer::data_section(entries).recs),
        after.index.offsets() == flat_index::packed_offsets(sst_writer::data_section(entries).recs),
{
    let file = sstable::table_image(entries, level, created_at);
    let m = sstable::table_metadata(entries, level, created_at);
    let recs = sst_writer::data_section(entries).recs;
    index_read_back(table, entries, level, created_at);
    assert(table.metadata.index_offset == m.index_offset);
    assert(table.metadata.index_size == m.index_size);
    assert(table.metadata.entry_count == m.entry_count);
    assert(states.0 == (IndexLoad::Bytes { offset: m.index_offset, size: m.index_size }));
    assert(flat_index::packed_offsets(recs).len() == recs.len());
}

/// Every written entry is found by its key: the index holds one record for the key, and that
/// record leads to the entry.
pub proof fn written_entry_is_found(
    idx: FlatIndex,
    file: Seq<u8>,
    entries: Seq<sst_writer::EntryView>,
    i: int,
    off: u64,
    size: u32,
)
    requires
        0 <= i < entries.len(),
        sstable::all_lead(file, idx@, entries),
        flat_index::keys_ascend(idx@),
        idx@.contains((vstd::utf8::encode_utf8(entries[i].0), off, size)),
    ensures
        idx@[i] == (vstd::utf8::encode_utf8(entries[i].0), off, size),
        sst_writer::leads_to(file, idx@[i], entries[i]),
{
    let rec = (vstd::utf8::encode_utf8(entries[i].0), off, size);
    let k = choose|k: int| 0 <= k < idx@.len() && idx@[k] == rec;
    assert(sst_writer::leads_to(file, idx@[i], entries[i]));
    bytes::bytes_lt_irreflexive(rec.0);
    if k < i {
        assert(bytes::bytes_lt(idx@[k].0, idx@[i].0));
    } else if i < k {
        assert(bytes::bytes_lt(idx@[i].0, idx@[k].0));
    }
}

} // verus!
