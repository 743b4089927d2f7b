//! Reading one framed entry that stands in the file itself, step by step. Each step takes the reply
//! of the file layer to the request of the state before it.

use crate::bytes;
use crate::checksum;
use crate::error::{IoError, IoErrorKind, LsmError};
use crate::sst_format::{self, checksum_entry, MAX_ENTRY_SIZE};
use crate::sst_metadata;
use crate::sst_open::{FileReply, FileRequest};
use crate::sstable::SSTable;
use crate::text::{self, cat, push_dec};
use vstd::bytes::*;
use vstd::prelude::*;
use vstd::slice::*;
use vstd::string::*;

verus! {

/// How far the reading of an entry has come.
#[derive(Debug)]
pub enum EntryRead {
    /// The file is to be opened.
    Open,
    /// The size of the file is asked for.
    Size,
    /// The entry's length is asked for.
    Length {
        /// The size of the file.
        file_size: u64,
    },
    /// The entry's bytes are asked for.
    Body {
        /// The size of the file.
        file_size: u64,
        /// The entry's length.
        entry_size: u32,
    },
    /// The entry's checksum is asked for.
    Checksum {
        /// The size of the file.
        file_size: u64,
        /// The entry's length.
        entry_size: u32,
        /// The entry's bytes.
        body: Vec<u8>,
    },
    /// The checksum is wrong; the size of the file is asked for again.
    SizeAgain {
        /// The size of the file.
        file_size: u64,
        /// The entry's length.
        entry_size: u32,
        /// The checksum that is stored.
        stored: u32,
        /// The checksum of the bytes that were read.
        computed: u32,
    },
    /// Reading has ended.
    Done(Result<Vec<u8>, LsmError>),
}

impl EntryRead {
    /// What the file layer is asked for in this state.
    pub open spec fn wants(self, offset: u64) -> FileRequest {
        match self {
            EntryRead::Open => FileRequest::Open,
            EntryRead::Size => FileRequest::Size,
            EntryRead::Length { .. } => FileRequest::Read { offset, len: 4 },
            EntryRead::Body { entry_size, .. } => FileRequest::Read {
                offset: (offset + 4) as u64,
                len: entry_size as u64,
            },
            EntryRead::Checksum { entry_size, .. } => FileRequest::Read {
                offset: (offset + 4 + entry_size) as u64,
                len: 4,
            },
            EntryRead::SizeAgain { .. } => FileRequest::Size,
            EntryRead::Done(_) => FileRequest::Nothing,
        }
    }

    /// The entry lies within the file.
    pub open spec fn wf(self, offset: u64) -> bool {
        match self {
            EntryRead::Length { file_size } => offset + 8 <= file_size <= i64::MAX,
            EntryRead::Body { file_size, entry_size } => {
                &&& 1 <= entry_size <= MAX_ENTRY_SIZE
                &&& offset + 8 + entry_size <= file_size <= i64::MAX
            },
            EntryRead::Checksum { file_size, entry_size, body } => {
                &&& 1 <= entry_size <= MAX_ENTRY_SIZE
                &&& offset + 8 + entry_size <= file_size <= i64::MAX
                &&& body@.len() == entry_size
            },
            _ => true,
        }
    }

    /// What the file layer is asked for in this state.
    pub fn request(&self, offset: u64) -> (r: FileRequest)
        requires
            self.wf(offset),
        ensures
            r == self.wants(offset),
    {
        match self {
            EntryRead::Open => FileRequest::Open,
            EntryRead::Size => FileRequest::Size,
            EntryRead::Length { .. } => FileRequest::Read { offset, len: 4 },
            EntryRead::Body { entry_size, .. } => FileRequest::Read {
                offset: offset + 4,
                len: *entry_size as u64,
            },
            EntryRead::Checksum { entry_size, .. } => FileRequest::Read {
                offset: offset + 4 + *entry_size as u64,
                len: 4,
            },
            EntryRead::SizeAgain { .. } => FileRequest::Size,
            EntryRead::Done(_) => FileRequest::Nothing,
        }
    }
}

/// Reading has ended with this error.
pub open spec fn failed_io(next: EntryRead, kind: IoErrorKind, m: Seq<char>) -> bool {
    next matches EntryRead::Done(Err(e)) && e.is_io(kind, m)
}

/// Reading has ended with a corruption error.
pub open spec fn failed_corrupt(next: EntryRead, m: Seq<char>) -> bool {
    next matches EntryRead::Done(Err(e)) && e.is_corruption(m)
}

/// Reading has ended with an internal error.
pub open spec fn failed_internal(next: EntryRead, m: Seq<char>) -> bool {
    next matches EntryRead::Done(Err(e)) && e.is_internal(m)
}

/// The offset is tested against the size of the file.
pub open spec fn offset_tested(table: SSTable, offset: u64, file_size: u64, next: EntryRead) -> bool {
    if file_size < table.metadata.file_size {
        failed_corrupt(
            next,
            "File size "@ + text::dec(file_size as nat) + " is smaller than expected minimum "@
                + text::dec(table.metadata.file_size as nat) + " for SSTable "@ + table.quoted_path@
                + ". File may be incomplete or corrupted."@,
        )
    } else if table.metadata.index_offset > 0 && offset >= table.metadata.index_offset {
        failed_corrupt(
            next,
            "Read offset "@ + text::dec(offset as nat)
                + " is in index/metadata section (index starts at "@ + text::dec(
                table.metadata.index_offset as nat,
            ) + "). This indicates index corruption or reading from wrong offset. SSTable: "@
                + table.quoted_path@,
        )
    } else if offset >= file_size {
        failed_io(
            next,
            IoErrorKind::UnexpectedEof,
            "Read offset "@ + text::dec(offset as nat) + " exceeds file size "@ + text::dec(
                file_size as nat,
            ) + ". File may be incomplete."@,
        )
    } else if offset + 8 > file_size {
        failed_io(
            next,
            IoErrorKind::UnexpectedEof,
            "Insufficient data at offset "@ + text::dec(offset as nat)
                + ": need at least 8 bytes, file has "@ + text::dec((file_size - offset) as nat)
                + " bytes remaining. File may be incomplete."@,
        )
    } else {
        next == (EntryRead::Length { file_size })
    }
}

/// The entry's length is tested.
pub open spec fn length_tested(
    table: SSTable,
    offset: u64,
    file_size: u64,
    entry_size: u32,
    next: EntryRead,
) -> bool {
    if entry_size > MAX_ENTRY_SIZE {
        failed_corrupt(
            next,
            "Entry size "@ + text::dec(entry_size as nat) + " at offset "@ + text::dec(offset as nat)
                + " is unreasonably large (max: 104857600). This may indicate file corruption, reading from wrong offset, or race condition. SSTable: "@
                + table.quoted_path@ + ", file_size: "@ + text::dec(file_size as nat),
        )
    } else if entry_size == 0 {
        failed_corrupt(
            next,
            "Entry size is zero at offset "@ + text::dec(offset as nat) + " in SSTable "@
                + table.quoted_path@ + ". This indicates corruption."@,
        )
    } else if offset + 8 + entry_size > file_size {
        failed_io(
            next,
            IoErrorKind::UnexpectedEof,
            "Insufficient data for entry at offset "@ + text::dec(offset as nat) + ": need "@
                + text::dec((offset + 8 + entry_size) as nat) + " bytes, file has "@ + text::dec(
                file_size as nat,
            ) + " bytes. File may be incomplete."@,
        )
    } else {
        next == (EntryRead::Body { file_size, entry_size })
    }
}

/// A read failed: an early end of the file is reported as such, every other error as it is.
pub open spec fn read_failed(e: LsmError, early_eof: Seq<char>, next: EntryRead) -> bool {
    if e is Io && e->Io_0.kind == IoErrorKind::UnexpectedEof {
        failed_io(next, IoErrorKind::UnexpectedEof, early_eof)
    } else {
        next == EntryRead::Done(Err(e))
    }
}

/// The message for an early end of the file while `what` is read.
pub open spec fn early_eof_text(what: Seq<char>, offset: u64, detail: Seq<char>, file_size: u64) -> Seq<char> {
    "Early EOF while reading "@ + what + " at offset "@ + text::dec(offset as nat) + detail
        + ". File may be incomplete (file size: "@ + text::dec(file_size as nat) + ")."@
}

/// The next state, when `reply` answers the request of `st`.
pub open spec fn entry_step(
    table: SSTable,
    marked: bool,
    offset: u64,
    st: EntryRead,
    reply: FileReply,
    next: EntryRead,
) -> bool {
    match st {
        EntryRead::Open => match reply {
            FileReply::Failed(e) => next == EntryRead::Done(Err(e)),
            _ => if !table.is_ready {
                failed_internal(
                    next,
                    "SSTable became not ready during read: "@ + table.quoted_path@,
                )
            } else if marked {
                failed_internal(
                    next,
                    "SSTable was marked for deletion during read: "@ + table.quoted_path@,
                )
            } else {
                next is Size
            },
        },
        EntryRead::Size => match reply {
            FileReply::Size(n) => offset_tested(table, offset, n, next),
            FileReply::Failed(e) => next == EntryRead::Done(Err(e)),
            _ => false,
        },
        EntryRead::Length { file_size } => match reply {
            FileReply::Data(d) => length_tested(
                table,
                offset,
                file_size,
                spec_u32_from_le_bytes(d@),
                next,
            ),
            FileReply::Failed(e) => read_failed(
                e,
                early_eof_text("entry size"@, offset, ""@, file_size),
                next,
            ),
            _ => false,
        },
        EntryRead::Body { file_size, entry_size } => match reply {
            FileReply::Data(d) => next matches EntryRead::Checksum {
                file_size: f,
                entry_size: s,
                body,
            } && f == file_size && s == entry_size && body@ == d@,
            FileReply::Failed(e) => read_failed(
                e,
                early_eof_text(
                    "entry data"@,
                    offset,
                    " (size: "@ + text::dec(entry_size as nat) + ")"@,
                    file_size,
                ),
                next,
            ),
            _ => false,
        },
        EntryRead::Checksum { file_size, entry_size, body } => match reply {
            FileReply::Data(d) => {
                let stored = spec_u32_from_le_bytes(d@);
                let computed = checksum::crc32_of(spec_u32_to_le_bytes(entry_size) + body@);
                if stored == computed {
                    next matches EntryRead::Done(Ok(v)) && v@ == body@
                } else {
                    next == (EntryRead::SizeAgain { file_size, entry_size, stored, computed })
                }
            },
            FileReply::Failed(e) => read_failed(
                e,
                early_eof_text(
                    "checksum"@,
                    offset,
                    " (entry size: "@ + text::dec(entry_size as nat) + ")"@,
                    file_size,
                ),
                next,
            ),
            _ => false,
        },
        EntryRead::SizeAgain { file_size, entry_size, stored, computed } => match reply {
            FileReply::Size(now) => if now != file_size {
                failed_io(
                    next,
                    IoErrorKind::Interrupted,
                    "File size changed during read ("@ + text::dec(file_size as nat) + " -> "@
                        + text::dec(now as nat)
                        + "), possible race condition. Retry may succeed."@,
                )
            } else {
                failed_corrupt(
                    next,
                    "SSTable entry checksum mismatch at offset "@ + text::dec(offset as nat)
                        + ": stored="@ + text::dec(stored as nat) + ", computed="@ + text::dec(
                        computed as nat,
                    ) + ". Data may be corrupted. SSTable: "@ + table.quoted_path@
                        + ", file_size: "@ + text::dec(file_size as nat) + ", entry_size: "@
                        + text::dec(entry_size as nat),
                )
            },
            FileReply::Failed(e) => next == EntryRead::Done(Err(e)),
            _ => false,
        },
        EntryRead::Done(_) => next == st,
    }
}

/// Reading begins, if the table is ready and not marked for deletion.
pub open spec fn read_begun(table: SSTable, marked: bool, next: EntryRead) -> bool {
    if !table.is_ready {
        failed_internal(
            next,
            "Cannot read entry from SSTable that is not ready: "@ + table.quoted_path@,
        )
    } else if marked {
        failed_internal(
            next,
            "Cannot read from SSTable marked for deletion: "@ + table.quoted_path@,
        )
    } else {
        next is Open
    }
}

fn fail_io(kind: IoErrorKind, message: String) -> (r: EntryRead)
    ensures
        failed_io(r, kind, message@),
{
    EntryRead::Done(Err(LsmError::Io(IoError { kind, message })))
}

fn fail_corrupt(message: String) -> (r: EntryRead)
    ensures
        failed_corrupt(r, message@),
{
    EntryRead::Done(Err(LsmError::Corruption(message)))
}

fn fail_read(e: LsmError, what: &str, offset: u64, detail: &str, file_size: u64) -> (r: EntryRead)
    ensures
        read_failed(e, early_eof_text(what@, offset, detail@, file_size), r),
{
    let early = match &e {
        LsmError::Io(io) => io.kind == IoErrorKind::UnexpectedEof,
        _ => false,
    };
    if !early {
        return EntryRead::Done(Err(e));
    }
    let mut m = cat("Early EOF while reading ", what);
    m.append(" at offset ");
    push_dec(&mut m, offset);
    m.append(detail);
    m.append(". File may be incomplete (file size: ");
    push_dec(&mut m, file_size);
    m.append(").");
    fail_io(IoErrorKind::UnexpectedEof, m)
}

impl SSTable {
    /// Begins to read an entry from the file: the table has to be ready and not marked for deletion.
    pub fn begin_entry_read(&self, marked: bool) -> (r: EntryRead)
        ensures
            read_begun(*self, marked, r),
    {
        if !self.is_ready {
            return EntryRead::Done(
                Err(
                    LsmError::Internal(
                        cat(
                            "Cannot read entry from SSTable that is not ready: ",
                            self.quoted_path.as_str(),
                        ),
                    ),
                ),
            );
        }
        if marked {
            return EntryRead::Done(
                Err(
                    LsmError::Internal(
                        cat(
                            "Cannot read from SSTable marked for deletion: ",
                            self.quoted_path.as_str(),
                        ),
                    ),
                ),
            );
        }
        EntryRead::Open
    }

    fn test_offset(&self, offset: u64, file_size: u64) -> (next: EntryRead)
        requires
            file_size <= i64::MAX,
        ensures
            offset_tested(*self, offset, file_size, next),
            next.wf(offset),
    {
        if file_size < self.metadata.file_size {
            let mut m = "File size ".to_owned();
            push_dec(&mut m, file_size);
            m.append(" is smaller than expected minimum ");
            push_dec(&mut m, self.metadata.file_size);
            m.append(" for SSTable ");
            m.append(self.quoted_path.as_str());
            m.append(". File may be incomplete or corrupted.");
            return fail_corrupt(m);
        }
        if self.metadata.index_offset > 0 && offset >= self.metadata.index_offset {
            let mut m = "Read offset ".to_owned();
            push_dec(&mut m, offset);
            m.append(" is in index/metadata section (index starts at ");
            push_dec(&mut m, self.metadata.index_offset);
            m.append("). This indicates index corruption or reading from wrong offset. SSTable: ");
            m.append(self.quoted_path.as_str());
            return fail_corrupt(m);
        }
        if offset >= file_size {
            let mut m = "Read offset ".to_owned();
            push_dec(&mut m, offset);
            m.append(" exceeds file size ");
            push_dec(&mut m, file_size);
            m.append(". File may be incomplete.");
            return fail_io(IoErrorKind::UnexpectedEof, m);
        }
        if offset + 8 > file_size {
            let mut m = "Insufficient data at offset ".to_owned();
            push_dec(&mut m, offset);
            m.append(": need at least 8 bytes, file has ");
            push_dec(&mut m, file_size - offset);
            m.append(" bytes remaining. File may be incomplete.");
            return fail_io(IoErrorKind::UnexpectedEof, m);
        }
        EntryRead::Length { file_size }
    }

    fn test_length(&self, offset: u64, file_size: u64, entry_size: u32) -> (next: EntryRead)
        requires
            offset + 8 <= file_size <= i64::MAX,
        ensures
            length_tested(*self, offset, file_size, entry_size, next),
            next.wf(offset),
    {
        if entry_size > MAX_ENTRY_SIZE {
            let mut m = "Entry size ".to_owned();
            push_dec(&mut m, entry_size as u64);
            m.append(" at offset ");
            push_dec(&mut m, offset);
            m.append(
                " is unreasonably large (max: 104857600). This may indicate file corruption, reading from wrong offset, or race condition. SSTable: ",
            );
            m.append(self.quoted_path.as_str());
            m.append(", file_size: ");
            push_dec(&mut m, file_size);
            return fail_corrupt(m);
        }
        if entry_size == 0 {
            let mut m = "Entry size is zero at offset ".to_owned();
            push_dec(&mut m, offset);
            m.append(" in SSTable ");
            m.append(self.quoted_path.as_str());
            m.append(". This indicates corruption.");
            return fail_corrupt(m);
        }
        let required: u64 = offset + 4 + entry_size as u64 + 4;
        if required > file_size {
            let mut m = "Insufficient data for entry at offset ".to_owned();
            push_dec(&mut m, offset);
            m.append(": need ");
            push_dec(&mut m, required);
            m.append(" bytes, file has ");
            push_dec(&mut m, file_size);
            m.append(" bytes. File may be incomplete.");
            return fail_io(IoErrorKind::UnexpectedEof, m);
        }
        EntryRead::Body { file_size, entry_size }
    }

    fn checksum_failed(
        &self,
        offset: u64,
        file_size: u64,
        entry_size: u32,
        stored: u32,
        computed: u32,
        now: u64,
    ) -> (next: EntryRead)
        ensures
            entry_step(
                *self,
                false,
                offset,
                EntryRead::SizeAgain { file_size, entry_size, stored, computed },
                FileReply::Size(now),
                next,
            ),
            next.wf(offset),
    {
        if now != file_size {
            let mut m = "File size changed during read (".to_owned();
            push_dec(&mut m, file_size);
            m.append(" -> ");
            push_dec(&mut m, now);
            m.append("), possible race condition. Retry may succeed.");
            return fail_io(IoErrorKind::Interrupted, m);
        }
        let mut m = "SSTable entry checksum mismatch at offset ".to_owned();
        push_dec(&mut m, offset);
        m.append(": stored=");
        push_dec(&mut m, stored as u64);
        m.append(", computed=");
        push_dec(&mut m, computed as u64);
        m.append(". Data may be corrupted. SSTable: ");
        m.append(self.quoted_path.as_str());
        m.append(", file_size: ");
        push_dec(&mut m, file_size);
        m.append(", entry_size: ");
        push_dec(&mut m, entry_size as u64);
        fail_corrupt(m)
    }

    /// One step of reading an entry: takes the reply to the request of `st`.
    pub fn read_stored_entry(
        &self,
        marked: bool,
        offset: u64,
        st: EntryRead,
        reply: FileReply,
    ) -> (next: EntryRead)
        requires
            st.wf(offset),
            st !is Done ==> st.wants(offset).answered_by(reply),
        ensures
            entry_step(*self, marked, offset, st, reply, next),
            next.wf(offset),
    {
        match st {
            EntryRead::Open => match reply {
                FileReply::Failed(e) => EntryRead::Done(Err(e)),
                _ => {
                    if !self.is_ready {
                        EntryRead::Done(
                            Err(
                                LsmError::Internal(
                                    cat(
                                        "SSTable became not ready during read: ",
                                        self.quoted_path.as_str(),
                                    ),
                                ),
                            ),
                        )
                    } else if marked {
                        EntryRead::Done(
                            Err(
                                LsmError::Internal(
                                    cat(
                                        "SSTable was marked for deletion during read: ",
                                        self.quoted_path.as_str(),
                                    ),
                                ),
                            ),
                        )
                    } else {
                        EntryRead::Size
                    }
                },
            },
            EntryRead::Size => match reply {
                FileReply::Size(n) => self.test_offset(offset, n),
                FileReply::Failed(e) => EntryRead::Done(Err(e)),
                _ => EntryRead::Size,
            },
            EntryRead::Length { file_size } => match reply {
                FileReply::Data(d) => self.test_length(
                    offset,
                    file_size,
                    u32_from_le_bytes(d.as_slice()),
                ),
                FileReply::Failed(e) => fail_read(e, "entry size", offset, "", file_size),
                _ => EntryRead::Size,
            },
            EntryRead::Body { file_size, entry_size } => match reply {
                FileReply::Data(d) => EntryRead::Checksum { file_size, entry_size, body: d },
                FileReply::Failed(e) => {
                    let mut detail = " (size: ".to_owned();
                    push_dec(&mut detail, entry_size as u64);
                    detail.append(")");
                    fail_read(e, "entry data", offset, detail.as_str(), file_size)
                },
                _ => EntryRead::Size,
            },
            EntryRead::Checksum { file_size, entry_size, body } => match reply {
                FileReply::Data(d) => {
                    let stored: u32 = u32_from_le_bytes(d.as_slice());
                    let computed: u32 = checksum_entry(entry_size, body.as_slice());
                    if stored != computed {
                        EntryRead::SizeAgain { file_size, entry_size, stored, computed }
                    } else {
                        EntryRead::Done(Ok(body))
                    }
                },
                FileReply::Failed(e) => {
                    let mut detail = " (entry size: ".to_owned();
                    push_dec(&mut detail, entry_size as u64);
                    detail.append(")");
                    fail_read(e, "checksum", offset, detail.as_str(), file_size)
                },
                _ => EntryRead::Size,
            },
            EntryRead::SizeAgain { file_size, entry_size, stored, computed } => match reply {
                FileReply::Size(now) => self.checksum_failed(
                    offset,
                    file_size,
                    entry_size,
                    stored,
                    computed,
                    now,
                ),
                FileReply::Failed(e) => EntryRead::Done(Err(e)),
                _ => EntryRead::Size,
            },
            EntryRead::Done(r) => EntryRead::Done(r),
        }
    }
}

/// Reading an entry from a file that does not change and in which it is framed at the offset ends
/// with its bytes.
pub proof fn framed_entry_is_read(
    table: SSTable,
    file: Seq<u8>,
    offset: u64,
    data: Seq<u8>,
    replies: (FileReply, FileReply, FileReply, FileReply, FileReply),
    states: (EntryRead, EntryRead, EntryRead, EntryRead, EntryRead),
)
    requires
        table.is_ready,
        table.metadata.file_size <= file.len() <= i64::MAX,
        table.metadata.index_offset > 0 ==> offset < table.metadata.index_offset,
        offset + 8 <= file.len(),
        sst_format::framed_at(file, offset as int) == Ok::<Seq<u8>, Seq<char>>(data),
        EntryRead::Open.wants(offset).answered_from(file, replies.0),
        entry_step(table, false, offset, EntryRead::Open, replies.0, states.0),
        states.0.wants(offset).answered_from(file, replies.1),
        entry_step(table, false, offset, states.0, replies.1, states.1),
        states.1.wants(offset).answered_from(file, replies.2),
        entry_step(table, false, offset, states.1, replies.2, states.2),
        states.2.wants(offset).answered_from(file, replies.3),
        entry_step(table, false, offset, states.2, replies.3, states.3),
        states.3.wants(offset).answered_from(file, replies.4),
        entry_step(table, false, offset, states.3, replies.4, states.4),
    ensures
        states.4 matches EntryRead::Done(Ok(v)) && v@ == data,
{
    let size = sst_metadata::u32_at(file, offset as int);
    assert(states.1 == (EntryRead::Length { file_size: file.len() as u64 }));
    assert(states.2 == (EntryRead::Body { file_size: file.len() as u64, entry_size: size }));
}

} // verus!
