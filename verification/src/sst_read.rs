//! Reading entries of a table: where a key's entry stands, how its bytes are read and tested, and
//! when a failed read is tried again.

use crate::bytes;
use crate::error::{IoErrorKind, LsmError};
use crate::flat_index;
use crate::sst_format::MAX_ENTRY_SIZE;
use crate::sstable::SSTable;
use crate::text::{self, cat, contains_text, push_dec};
use crate::value::{self, Value};
use vstd::bytes::*;
use vstd::prelude::*;
use vstd::slice::*;
use vstd::string::*;
use vstd::utf8::*;

verus! {

/// An entry of a table.
#[derive(Debug, Clone)]
pub struct SSTableEntry {
    /// Key.
    pub key: String,
    /// Value.
    pub value: Value,
    /// When the entry was written.
    pub timestamp: u64,
    /// Whether the key is deleted.
    pub deleted: bool,
}

/// What a lookup in one table gives. A deleted key is told apart from one that the table does not
/// hold, so that an older table's value of it is not taken.
#[derive(Debug, Clone, PartialEq)]
pub enum SstableLookupResult {
    /// The key has a value.
    Found {
        /// The value.
        value: Value,
        /// When the entry was written.
        timestamp: u64,
    },
    /// The key was deleted.
    Tombstone {
        /// When the entry was written.
        timestamp: u64,
    },
    /// The table does not hold the key.
    Missing,
}

impl SstableLookupResult {
    /// What an entry means: a deleted one is a tombstone.
    pub open spec fn meaning(entry: SSTableEntry) -> SstableLookupResult {
        if entry.deleted {
            SstableLookupResult::Tombstone { timestamp: entry.timestamp }
        } else {
            SstableLookupResult::Found { value: entry.value, timestamp: entry.timestamp }
        }
    }

    /// The lookup result of an entry.
    pub fn of_entry(entry: SSTableEntry) -> (r: Self)
        ensures
            r == Self::meaning(entry),
    {
        if entry.deleted {
            SstableLookupResult::Tombstone { timestamp: entry.timestamp }
        } else {
            SstableLookupResult::Found { value: entry.value, timestamp: entry.timestamp }
        }
    }

    /// The value, if there is one.
    pub fn into_value(self) -> (r: Option<Value>)
        ensures
            r == match self {
                SstableLookupResult::Found { value, .. } => Some(value),
                _ => None,
            },
    {
        match self {
            SstableLookupResult::Found { value, .. } => Some(value),
            _ => None,
        }
    }
}

/// The location is one that can be read: in the data section, with a plausible size.
pub open spec fn location_ok(table: SSTable, off: u64, size: u32) -> bool {
    &&& table.metadata.index_offset != 0
    &&& off < table.metadata.index_offset
    &&& size <= MAX_ENTRY_SIZE
    &&& !table.block_compressed ==> size != 0
}

/// Why a location cannot be read, if it cannot.
pub open spec fn location_error(table: SSTable, key: Seq<char>, off: u64, size: u32, e: LsmError) -> bool {
    if table.metadata.index_offset == 0 {
        e.is_internal(
            "SSTable metadata index_offset is 0 (uninitialized). This indicates the SSTable was not properly opened. Path: "@
                + table.quoted_path@,
        )
    } else if off >= table.metadata.index_offset {
        e.is_corruption(
            "Index offset "@ + text::dec(off as nat) + " for key '"@ + key
                + "' is in index/metadata section (index starts at "@ + text::dec(
                table.metadata.index_offset as nat,
            ) + "). This indicates index corruption. SSTable: "@ + table.quoted_path@,
        )
    } else if !table.block_compressed && size == 0 {
        e.is_corruption(
            "Index entry size is zero for key '"@ + key + "' at offset "@ + text::dec(off as nat)
                + ". SSTable: "@ + table.quoted_path@,
        )
    } else if size > MAX_ENTRY_SIZE {
        e.is_corruption(
            "Index entry size "@ + text::dec(size as nat) + " for key '"@ + key + "' at offset "@
                + text::dec(off as nat) + " is unreasonably large. SSTable: "@ + table.quoted_path@,
        )
    } else {
        &&& off > table.metadata.file_size
        &&& e.is_corruption(
            "Index offset "@ + text::dec(off as nat) + " exceeds file size "@ + text::dec(
                table.metadata.file_size as nat,
            ),
        )
    }
}

/// What the index tells of a key for a lookup that passes over locations that cannot be read.
pub open spec fn located_sync(table: SSTable, key: Seq<char>, found: Option<(u64, u32)>) -> bool {
    match flat_index::found(table.recs(), encode_utf8(key)) {
        Some((off, size)) => found == if location_ok(table, off, size) {
            Some((off, size))
        } else {
            None
        },
        None => found is None,
    }
}

/// What the index tells of a key for a lookup that reports locations that cannot be read.
pub open spec fn located(
    table: SSTable,
    key: Seq<char>,
    found: Result<Option<(u64, u32)>, LsmError>,
) -> bool {
    match flat_index::found(table.recs(), encode_utf8(key)) {
        Some((off, size)) => if location_ok(table, off, size) && off <= table.metadata.file_size {
            found == Ok::<Option<(u64, u32)>, LsmError>(Some((off, size)))
        } else {
            found matches Err(e) && location_error(table, key, off, size, e)
        },
        None => found == Ok::<Option<(u64, u32)>, LsmError>(None),
    }
}

/// What happens to a read that failed.
#[derive(Debug, Clone, Copy, PartialEq, Eq, Structural)]
pub enum RetryDecision {
    /// The error is reported.
    GiveUp,
    /// The read is tried again after `times` times `base_ms` milliseconds.
    Wait {
        /// Half of the configured delay.
        base_ms: u64,
        /// How many times that.
        times: u32,
    },
}

/// Reading again cannot help: the stored data itself is bad.
pub open spec fn is_permanent(e: LsmError) -> bool {
    e is Corruption || e is Serialization
}

/// The file was not complete yet, or was closed meanwhile.
pub open spec fn is_transient(e: LsmError) -> bool {
    match e {
        LsmError::Io(io) => io.kind == IoErrorKind::UnexpectedEof || text::contains(
            io.message@,
            "EOF"@,
        ) || text::contains(io.message@, "incomplete"@),
        LsmError::Internal(m) => text::contains(m@, "File not open"@) || text::contains(
            m@,
            "not ready during read"@,
        ),
        _ => false,
    }
}

/// 1, 2, 4, 8, 16 and from the sixth failed try on 32.
pub open spec fn backoff(attempts: u32) -> u32 {
    if attempts <= 1 {
        1
    } else if attempts == 2 {
        2
    } else if attempts == 3 {
        4
    } else if attempts == 4 {
        8
    } else if attempts == 5 {
        16
    } else {
        32
    }
}

/// What happens after the read failed for the `attempts`-th time.
pub open spec fn retry_decision(table: SSTable, attempts: u32, e: LsmError) -> RetryDecision {
    if is_permanent(e) || attempts >= table.config.file_retry_attempts {
        RetryDecision::GiveUp
    } else {
        RetryDecision::Wait {
            base_ms: table.config.retry_delay_ms / 2,
            times: if is_transient(e) {
                backoff(attempts)
            } else {
                1
            },
        }
    }
}

impl SSTable {
    /// Where the entry of a key stands, if its location can be read.
    pub fn locate_sync(&self, key: &str) -> (r: Option<(u64, u32)>)
        requires
            self.index.wf(),
        ensures
            located_sync(*self, key@, r),
    {
        match self.index.get(key) {
            Some((off, size)) => {
                if self.metadata.index_offset == 0 || off >= self.metadata.index_offset {
                    return None;
                }
                if self.block_compressed {
                    if size > MAX_ENTRY_SIZE {
                        return None;
                    }
                } else if size == 0 || size > MAX_ENTRY_SIZE {
                    return None;
                }
                Some((off, size))
            },
            None => None,
        }
    }

    /// Where the entry of a key stands; fails where the index leads out of the data section or to an
    /// implausible size.
    pub fn locate(&self, key: &str) -> (r: Result<Option<(u64, u32)>, LsmError>)
        requires
            self.index.wf(),
        ensures
            located(*self, key@, r),
    {
        match self.index.get(key) {
            Some((off, size)) => {
                match self.check_location(key, off, size) {
                    Ok(()) => Ok(Some((off, size))),
                    Err(e) => Err(e),
                }
            },
            None => Ok(None),
        }
    }

    fn check_location(&self, key: &str, off: u64, size: u32) -> (r: Result<(), LsmError>)
        ensures
            r is Ok <==> location_ok(*self, off, size) && off <= self.metadata.file_size,
            r matches Err(e) ==> location_error(*self, key@, off, size, e),
    {
        if self.metadata.index_offset == 0 {
            return Err(
                LsmError::Internal(
                    cat(
                        "SSTable metadata index_offset is 0 (uninitialized). This indicates the SSTable was not properly opened. Path: ",
                        self.quoted_path.as_str(),
                    ),
                ),
            );
        }
        if off >= self.metadata.index_offset {
            let mut m = "Index offset ".to_owned();
            push_dec(&mut m, off);
            m.append(" for key '");
            m.append(key);
            m.append("' is in index/metadata section (index starts at ");
            push_dec(&mut m, self.metadata.index_offset);
            m.append("). This indicates index corruption. SSTable: ");
            m.append(self.quoted_path.as_str());
            return Err(LsmError::Corruption(m));
        }
        if !self.block_compressed && size == 0 {
            let mut m = "Index entry size is zero for key '".to_owned();
            m.append(key);
            m.append("' at offset ");
            push_dec(&mut m, off);
            m.append(". SSTable: ");
            m.append(self.quoted_path.as_str());
            return Err(LsmError::Corruption(m));
        }
        if size > MAX_ENTRY_SIZE {
            let mut m = "Index entry size ".to_owned();
            push_dec(&mut m, size as u64);
            m.append(" for key '");
            m.append(key);
            m.append("' at offset ");
            push_dec(&mut m, off);
            m.append(" is unreasonably large. SSTable: ");
            m.append(self.quoted_path.as_str());
            return Err(LsmError::Corruption(m));
        }
        if off > self.metadata.file_size {
            let mut m = "Index offset ".to_owned();
            push_dec(&mut m, off);
            m.append(" exceeds file size ");
            push_dec(&mut m, self.metadata.file_size);
            return Err(LsmError::Corruption(m));
        }
        Ok(())
    }

    /// What happens after the read of an entry failed for the `attempts`-th time.
    pub fn retry_after(&self, attempts: u32, e: &LsmError) -> (r: RetryDecision)
        ensures
            r == retry_decision(*self, attempts, *e),
    {
        let permanent = match e {
            LsmError::Corruption(_) => true,
            LsmError::Serialization(_) => true,
            _ => false,
        };
        if permanent || attempts >= self.config.file_retry_attempts {
            return RetryDecision::GiveUp;
        }
        let transient = match e {
            LsmError::Io(io) => io.kind == IoErrorKind::UnexpectedEof || contains_text(
                io.message.as_str(),
                "EOF",
            ) || contains_text(io.message.as_str(), "incomplete"),
            LsmError::Internal(m) => contains_text(m.as_str(), "File not open") || contains_text(
                m.as_str(),
                "not ready during read",
            ),
            _ => false,
        };
        let times: u32 = if !transient || attempts <= 1 {
            1
        } else if attempts == 2 {
            2
        } else if attempts == 3 {
            4
        } else if attempts == 4 {
            8
        } else if attempts == 5 {
            16
        } else {
            32
        };
        RetryDecision::Wait { base_ms: self.config.retry_delay_ms / 2, times }
    }

    /// Whether the file has to be opened again; fails where that is switched off.
    pub fn ensure_file_open(&self, is_open: bool) -> (r: Result<bool, LsmError>)
        ensures
            is_open ==> r is Ok && !r->Ok_0,
            !is_open && self.config.enable_resilient_handling ==> r is Ok && r->Ok_0,
            !is_open && !self.config.enable_resilient_handling ==> r is Err && r->Err_0.is_internal(
                "File not open and resilient handling is disabled"@,
            ),
    {
        if is_open {
            Ok(false)
        } else if self.config.enable_resilient_handling {
            Ok(true)
        } else {
            Err(LsmError::Internal("File not open and resilient handling is disabled".to_owned()))
        }
    }
}

/// Where the keys ascend, the record with a key is the one that is found.
pub proof fn record_is_found(recs: Seq<flat_index::IndexRecord>, i: int)
    requires
        flat_index::keys_ascend(recs),
        0 <= i < recs.len(),
    ensures
        flat_index::found(recs, recs[i].0) == Some((recs[i].1, recs[i].2)),
{
    let key = recs[i].0;
    flat_index::ascending_is_in_order(recs);
    flat_index::search_finds(recs, key);
    bytes::bytes_lt_irreflexive(key);
    let p = flat_index::search_position(recs, key);
    if p < i {
        assert(bytes::bytes_lt(recs[p].0, recs[i].0));
    } else if i < p {
        assert(bytes::bytes_lt(recs[i].0, recs[p].0));
    }
}

} // verus!
