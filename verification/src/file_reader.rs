//! Reading table files at given places.

use crate::engine_config::SstableReadMode;
use crate::error::{IoError, IoErrorKind, LsmError};
use crate::text::{self, push_dec};
use vstd::prelude::*;
use vstd::slice::*;
use vstd::string::*;

verus! {

/// How a table file is read.
#[derive(Debug, Clone)]
pub struct SstableFileReader {
    path: String,
    mode: SstableReadMode,
    mincore_cache_ttl_secs: u64,
}

/// The mode that is used for a mode that was asked for: mapped files are read by position where
/// the system does not tell which pages are in memory.
pub open spec fn used_mode(mode: SstableReadMode, mmap_available: bool) -> SstableReadMode {
    if mode == SstableReadMode::MmapHybrid && !mmap_available {
        SstableReadMode::PositionedRead
    } else {
        mode
    }
}

/// The mode that is used for a mode that was asked for.
pub fn effective_mode(mode: SstableReadMode, mmap_available: bool) -> (r: SstableReadMode)
    ensures
        r == used_mode(mode, mmap_available),
{
    match mode {
        SstableReadMode::MmapHybrid => if mmap_available {
            SstableReadMode::MmapHybrid
        } else {
            SstableReadMode::PositionedRead
        },
        other => other,
    }
}

/// The error of a read of a file that is not open.
pub open spec fn not_open_text(mode: SstableReadMode) -> Seq<char> {
    match mode {
        SstableReadMode::SeekRead => "File not open"@,
        SstableReadMode::PositionedRead => "Sync file not open"@,
        SstableReadMode::MmapHybrid => "Mmap reader not open"@,
    }
}

impl SstableFileReader {
    /// The file's path.
    pub closed spec fn path_of(self) -> Seq<char> {
        self.path@
    }

    /// The mode that is used.
    pub closed spec fn mode_of(self) -> SstableReadMode {
        self.mode
    }

    /// For how many seconds a page counts as being in memory.
    pub closed spec fn ttl_of(self) -> u64 {
        self.mincore_cache_ttl_secs
    }

    /// A reader of a file.
    pub fn new(
        path: String,
        mode: SstableReadMode,
        mincore_cache_ttl_secs: u64,
        mmap_available: bool,
    ) -> (r: Self)
        ensures
            r.path_of() == path@,
            r.mode_of() == used_mode(mode, mmap_available),
            r.ttl_of() == mincore_cache_ttl_secs,
    {
        SstableFileReader { path, mode: effective_mode(mode, mmap_available), mincore_cache_ttl_secs }
    }

    /// The file's path.
    pub fn path(&self) -> (r: &str)
        ensures
            r@ == self.path_of(),
    {
        self.path.as_str()
    }

    /// The mode that is used.
    pub fn mode(&self) -> (r: SstableReadMode)
        ensures
            r == self.mode_of(),
    {
        self.mode
    }

    /// For how many seconds a page counts as being in memory.
    pub fn mincore_cache_ttl_secs(&self) -> (r: u64)
        ensures
            r == self.ttl_of(),
    {
        self.mincore_cache_ttl_secs
    }

    /// Whether the file has to be opened before a read; fails where a closed file is not opened
    /// again.
    pub fn ensure_open(&self, is_open: bool, resilient: bool) -> (r: Result<bool, LsmError>)
        ensures
            match r {
                Ok(open_it) => open_it == !is_open && (is_open || resilient),
                Err(e) => !is_open && !resilient && e.is_internal(
                    not_open_text(self.mode_of()) + " and resilient handling is disabled"@,
                ),
            },
    {
        if is_open {
            return Ok(false);
        }
        if !resilient {
            let mut m = self.not_open();
            m.append(" and resilient handling is disabled");
            return Err(LsmError::Internal(m));
        }
        Ok(true)
    }

    fn not_open(&self) -> (r: String)
        ensures
            r@ == not_open_text(self.mode_of()),
    {
        match self.mode {
            SstableReadMode::SeekRead => "File not open".to_owned(),
            SstableReadMode::PositionedRead => "Sync file not open".to_owned(),
            SstableReadMode::MmapHybrid => "Mmap reader not open".to_owned(),
        }
    }

    /// The error of a read of a file that is not open.
    pub fn not_open_error(&self) -> (r: LsmError)
        ensures
            r.is_internal(not_open_text(self.mode_of())),
    {
        LsmError::Internal(self.not_open())
    }
}

/// Hands what was read to a buffer: as much of it as the buffer takes.
pub fn fill_buffer(buf: &mut Vec<u8>, data: &Vec<u8>) -> (n: usize)
    ensures
        n == (if data@.len() < old(buf)@.len() {
            data@.len()
        } else {
            old(buf)@.len()
        }),
        final(buf)@ == data@.take(n as int) + old(buf)@.skip(n as int),
{
    let n: usize = if data.len() < buf.len() {
        data.len()
    } else {
        buf.len()
    };
    let ghost before = buf@;
    let mut i: usize = 0;
    assert(buf@ =~= data@.take(0) + before.skip(0));
    while i < n
        invariant
            i <= n,
            n <= data@.len(),
            n <= before.len(),
            buf@ == data@.take(i as int) + before.skip(i as int),
        decreases n - i,
    {
        buf.set(i, data[i]);
        i = i + 1;
        assert(buf@ =~= data@.take(i as int) + before.skip(i as int));
    }
    n
}

/// How many bytes a read of at most `len` bytes at `offset` gives from a file of `file_size`
/// bytes.
pub fn readable_length(file_size: u64, offset: u64, len: usize) -> (r: usize)
    ensures
        r == (if offset >= file_size {
            0
        } else if file_size - offset < len {
            file_size - offset
        } else {
            len as int
        }),
{
    if offset >= file_size {
        return 0;
    }
    let available: u64 = file_size - offset;
    if available < len as u64 {
        available as usize
    } else {
        len
    }
}

/// The read of a whole range, which may take several reads of the file.
#[derive(Debug, Clone, Copy, PartialEq, Eq, Structural)]
pub struct ReadExact {
    /// Where the range begins.
    pub offset: u64,
    /// How long it is.
    pub len: u64,
    /// How much of it was read.
    pub pos: u64,
    /// Whether failures tell where the last read began, or where the range begins.
    pub tells_last_read: bool,
}

/// The message for a file that ends within a range.
pub open spec fn eof_text(len: u64, offset: int) -> Seq<char> {
    "Unexpected EOF while reading "@ + text::dec(len as nat) + " bytes at offset "@ + text::dec(
        offset as nat,
    )
}

impl ReadExact {
    /// The range lies where offsets can be told, and no more than it was read.
    pub open spec fn wf(self) -> bool {
        self.pos <= self.len && self.offset + self.len <= u64::MAX
    }

    /// Nothing was read yet.
    pub fn begin(offset: u64, len: u64, tells_last_read: bool) -> (r: Self)
        requires
            offset + len <= u64::MAX,
        ensures
            r == (ReadExact { offset, len, pos: 0, tells_last_read }),
            r.wf(),
    {
        ReadExact { offset, len, pos: 0, tells_last_read }
    }

    /// What is read next: a place and a length; nothing once the range was read.
    pub fn next_read(&self) -> (r: Option<(u64, u64)>)
        requires
            self.wf(),
        ensures
            r == (if self.pos < self.len {
                Some(((self.offset + self.pos) as u64, (self.len - self.pos) as u64))
            } else {
                None
            }),
    {
        if self.pos < self.len {
            Some((self.offset + self.pos, self.len - self.pos))
        } else {
            None
        }
    }

    /// Takes the number of bytes that were read; no bytes mean that the file ends early.
    pub fn read_exact_at(&mut self, n: u64) -> (r: Result<(), LsmError>)
        requires
            old(self).wf(),
            old(self).pos < old(self).len,
            n <= old(self).len - old(self).pos,
        ensures
            final(self).wf(),
            r is Ok <==> n > 0,
            *final(self) == (ReadExact { pos: (old(self).pos + n) as u64, ..*old(self) }),
            r matches Err(e) ==> e.is_io(
                IoErrorKind::UnexpectedEof,
                eof_text(
                    old(self).len,
                    if old(self).tells_last_read {
                        old(self).offset + old(self).pos
                    } else {
                        old(self).offset as int
                    },
                ),
            ),
    {
        if n == 0 {
            let told: u64 = if self.tells_last_read {
                self.offset + self.pos
            } else {
                self.offset
            };
            let mut message = "Unexpected EOF while reading ".to_owned();
            push_dec(&mut message, self.len);
            message.append(" bytes at offset ");
            push_dec(&mut message, told);
            return Err(LsmError::Io(IoError { kind: IoErrorKind::UnexpectedEof, message }));
        }
        self.pos = self.pos + n;
        Ok(())
    }
}

} // verus!
