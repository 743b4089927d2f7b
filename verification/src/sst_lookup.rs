//! Looking up a key in a table, step by step: what is known without the file, the index, and the
//! entry that it leads to, whose reading is tried again where that can help.

use crate::bloom_filter;
use crate::bytes;
use crate::error::LsmError;
use crate::flat_index;
use crate::sst_query;
use crate::sst_read::{self, RetryDecision, SSTableEntry, SstableLookupResult};
use crate::sst_writer;
use crate::sstable::{self, SSTable};
use crate::text::{cat, cat3};
use vstd::prelude::*;
use vstd::string::*;
use vstd::utf8::*;

verus! {

/// How far a lookup has come.
#[derive(Debug)]
pub enum Lookup {
    /// The index is to be loaded, if it is not.
    LoadIndex,
    /// The entry at this location is to be fetched.
    Read {
        /// Where it stands, or its block.
        offset: u64,
        /// Its size, or where it stands in its block.
        loc: u32,
        /// How often fetching failed.
        attempts: u32,
    },
    /// Some time has to pass before the entry is fetched again.
    Wait {
        /// Where the entry stands, or its block.
        offset: u64,
        /// Its size, or where it stands in its block.
        loc: u32,
        /// How often fetching failed.
        attempts: u32,
        /// A time in milliseconds.
        base_ms: u64,
        /// How many times that.
        times: u32,
    },
    /// The lookup has ended.
    Done(Result<SstableLookupResult, LsmError>),
}

/// What the caller answers.
#[derive(Debug)]
pub enum LookupReply {
    /// The index is loaded.
    Indexed,
    /// The entry.
    Entry(SSTableEntry),
    /// The time has passed.
    Waited,
    /// What was asked for failed.
    Failed(LsmError),
}

impl Lookup {
    /// The reply answers what is asked for in this state.
    pub open spec fn answered_by(self, reply: LookupReply) -> bool {
        match self {
            Lookup::LoadIndex => reply is Indexed || reply is Failed,
            Lookup::Read { .. } => reply is Entry || reply is Failed,
            Lookup::Wait { .. } => reply is Waited,
            Lookup::Done(_) => true,
        }
    }

    /// Fetching failed less often than the configuration allows, or not at all.
    pub open spec fn wf(self, table: SSTable) -> bool {
        match self {
            Lookup::Read { attempts, .. } => attempts == 0 || attempts
                < table.config.file_retry_attempts,
            Lookup::Wait { attempts, .. } => 1 <= attempts < table.config.file_retry_attempts,
            _ => true,
        }
    }
}

/// The message for a lookup in a table that is not ready.
pub open spec fn not_ready_text(table: SSTable) -> Seq<char> {
    "Cannot read from SSTable that is not ready: "@ + table.quoted_path@
}

/// The message for a lookup under a reader guard in a table that is not ready.
pub open spec fn not_ready_yet_text(table: SSTable) -> Seq<char> {
    not_ready_text(table)
        + ". The SSTable may still be being written or metadata/index may not be loaded."@
}

/// How a lookup begins: it fails where the table is not ready, ends where the table cannot hold
/// the key, and otherwise goes on to the index and counts as a use of the table.
pub open spec fn lookup_begins(
    before: SSTable,
    after: SSTable,
    key: Seq<char>,
    now: u64,
    not_ready: Seq<char>,
    next: Lookup,
) -> bool {
    if !before.is_ready {
        after == before && (next matches Lookup::Done(Err(e)) && e.is_internal(not_ready))
    } else if !sst_query::may_exist(before, key) {
        after == before && next == Lookup::Done(Ok(SstableLookupResult::Missing))
    } else {
        after == (SSTable { last_access: now, ..before }) && next == Lookup::LoadIndex
    }
}

/// The next state, when `reply` answers what is asked for in `st`.
pub open spec fn lookup_step(
    table: SSTable,
    key: Seq<char>,
    st: Lookup,
    reply: LookupReply,
    next: Lookup,
) -> bool {
    match (st, reply) {
        (Lookup::LoadIndex, LookupReply::Indexed) => match next {
            Lookup::Read { offset, loc, attempts } => attempts == 0 && sst_read::located(
                table,
                key,
                Ok(Some((offset, loc))),
            ),
            Lookup::Done(Ok(found)) => found is Missing && sst_read::located(table, key, Ok(None)),
            Lookup::Done(Err(e)) => sst_read::located(table, key, Err(e)),
            _ => false,
        },
        (Lookup::LoadIndex, LookupReply::Failed(e)) => next == Lookup::Done(Err(e)),
        (Lookup::Read { .. }, LookupReply::Entry(entry)) => next == Lookup::Done(
            Ok(SstableLookupResult::meaning(entry)),
        ),
        (Lookup::Read { offset, loc, attempts }, LookupReply::Failed(e)) => {
            let failed = (attempts + 1) as u32;
            next == match sst_read::retry_decision(table, failed, e) {
                RetryDecision::GiveUp => Lookup::Done(Err(e)),
                RetryDecision::Wait { base_ms, times } => Lookup::Wait {
                    offset,
                    loc,
                    attempts: failed,
                    base_ms,
                    times,
                },
            }
        },
        (Lookup::Wait { offset, loc, attempts, .. }, _) => next == (Lookup::Read {
            offset,
            loc,
            attempts,
        }),
        (Lookup::Done(_), _) => next == st,
        _ => false,
    }
}

/// The next state of a lookup that is not tried again and passes over locations that cannot be
/// read, when `reply` answers what is asked for in `st`.
pub open spec fn lookup_sync_step(
    table: SSTable,
    key: Seq<char>,
    st: Lookup,
    reply: LookupReply,
    next: Lookup,
) -> bool {
    match (st, reply) {
        (Lookup::LoadIndex, LookupReply::Indexed) => match next {
            Lookup::Read { offset, loc, attempts } => attempts == 0 && sst_read::located_sync(
                table,
                key,
                Some((offset, loc)),
            ),
            Lookup::Done(Ok(found)) => found is Missing && sst_read::located_sync(table, key, None),
            _ => false,
        },
        (Lookup::Read { .. }, LookupReply::Entry(entry)) => next == Lookup::Done(
            Ok(SstableLookupResult::meaning(entry)),
        ),
        (Lookup::Done(_), _) => next == st,
        (_, LookupReply::Failed(e)) => next == Lookup::Done(Err(e)),
        (Lookup::Wait { offset, loc, attempts, .. }, _) => next == (Lookup::Read {
            offset,
            loc,
            attempts,
        }),
        _ => false,
    }
}

impl SSTable {
    /// Begins to look up a key; the caller holds a reader guard.
    pub fn begin_lookup(&mut self, key: &str, now: u64) -> (next: Lookup)
        ensures
            lookup_begins(
                *old(self),
                *final(self),
                key@,
                now,
                not_ready_yet_text(*old(self)),
                next,
            ),
            next.wf(*final(self)),
    {
        if !self.is_ready {
            return Lookup::Done(
                Err(
                    LsmError::Internal(
                        cat3(
                            "Cannot read from SSTable that is not ready: ",
                            self.quoted_path.as_str(),
                            ". The SSTable may still be being written or metadata/index may not be loaded.",
                        ),
                    ),
                ),
            );
        }
        if !self.key_may_exist(key) {
            return Lookup::Done(Ok(SstableLookupResult::Missing));
        }
        self.update_last_access(now);
        Lookup::LoadIndex
    }

    /// Begins to look up a key without a reader guard.
    pub fn begin_lookup_sync(&mut self, key: &str, now: u64) -> (next: Lookup)
        ensures
            lookup_begins(
                *old(self),
                *final(self),
                key@,
                now,
                not_ready_text(*old(self)),
                next,
            ),
            next.wf(*final(self)),
    {
        if !self.is_ready {
            return Lookup::Done(
                Err(
                    LsmError::Internal(
                        cat(
                            "Cannot read from SSTable that is not ready: ",
                            self.quoted_path.as_str(),
                        ),
                    ),
                ),
            );
        }
        if !self.key_may_exist(key) {
            return Lookup::Done(Ok(SstableLookupResult::Missing));
        }
        self.update_last_access(now);
        Lookup::LoadIndex
    }

    /// One step of a lookup: takes the reply to what `st` asks for.
    pub fn lookup_with_reader_guard(&self, key: &str, st: Lookup, reply: LookupReply) -> (next: Lookup)
        requires
            self.index.wf(),
            st.wf(*self),
            st.answered_by(reply),
        ensures
            lookup_step(*self, key@, st, reply, next),
            next.wf(*self),
    {
        match (st, reply) {
            (Lookup::LoadIndex, LookupReply::Indexed) => match self.locate(key) {
                Ok(Some((offset, loc))) => Lookup::Read { offset, loc, attempts: 0 },
                Ok(None) => Lookup::Done(Ok(SstableLookupResult::Missing)),
                Err(e) => Lookup::Done(Err(e)),
            },
            (Lookup::LoadIndex, LookupReply::Failed(e)) => Lookup::Done(Err(e)),
            (Lookup::Read { offset: _, loc: _, attempts: _ }, LookupReply::Entry(entry)) => Lookup::Done(
                Ok(SstableLookupResult::of_entry(entry)),
            ),
            (Lookup::Read { offset, loc, attempts }, LookupReply::Failed(e)) => {
                let failed: u32 = attempts + 1;
                match self.retry_after(failed, &e) {
                    RetryDecision::GiveUp => Lookup::Done(Err(e)),
                    RetryDecision::Wait { base_ms, times } => Lookup::Wait {
                        offset,
                        loc,
                        attempts: failed,
                        base_ms,
                        times,
                    },
                }
            },
            (Lookup::Wait { offset, loc, attempts, base_ms: _, times: _ }, _) => Lookup::Read {
                offset,
                loc,
                attempts,
            },
            (other, _) => other,
        }
    }

    /// One step of a lookup that is not tried again: takes the reply to what `st` asks for.
    pub fn lookup_sync(&self, key: &str, st: Lookup, reply: LookupReply) -> (next: Lookup)
        requires
            self.index.wf(),
            st.wf(*self),
            st.answered_by(reply),
        ensures
            lookup_sync_step(*self, key@, st, reply, next),
            next.wf(*self),
    {
        match (st, reply) {
            (Lookup::Done(r), _) => Lookup::Done(r),
            (Lookup::LoadIndex, LookupReply::Indexed) => match self.locate_sync(key) {
                Some((offset, loc)) => Lookup::Read { offset, loc, attempts: 0 },
                None => Lookup::Done(Ok(SstableLookupResult::Missing)),
            },
            (Lookup::Read { offset: _, loc: _, attempts: _ }, LookupReply::Entry(entry)) => Lookup::Done(
                Ok(SstableLookupResult::of_entry(entry)),
            ),
            (_, LookupReply::Failed(e)) => Lookup::Done(Err(e)),
            (Lookup::Wait { offset, loc, attempts, base_ms: _, times: _ }, _) => Lookup::Read {
                offset,
                loc,
                attempts,
            },
            (other, _) => other,
        }
    }
}

/// The keys ascend, and none occurs twice.
pub open spec fn entries_ascend(entries: Seq<sst_writer::EntryView>) -> bool {
    forall|i: int, j: int|
        0 <= i < j < entries.len() ==> bytes::bytes_lt(
            encode_utf8((#[trigger] entries[i]).0),
            encode_utf8((#[trigger] entries[j]).0),
        )
}

/// The entries were written to the file of the table, in ascending key order, and the table has
/// been made ready.
pub open spec fn holds_entries(table: SSTable, file: Seq<u8>, entries: Seq<sst_writer::EntryView>) -> bool {
    let section = sst_writer::data_section(entries);
    &&& entries.len() > 0
    &&& entries_ascend(entries)
    &&& table.is_ready
    &&& table.block_compressed
    &&& table.recs() == section.recs
    &&& table.metadata.smallest_key@ == entries.first().0
    &&& table.metadata.largest_key@ == entries.last().0
    &&& table.metadata.index_offset == section.out.len()
    &&& table.metadata.file_size == section.out.len()
    &&& table.bloom_filter matches Some(f) ==> {
        &&& f.hash_num() == 7
        &&& f.bit_num() == entries.len() * 10
        &&& f.bit_seq() == sstable::filter_bits(entries, entries.len() * 10)
    }
    &&& sstable::all_lead(section.out, section.recs, entries)
    &&& sstable::all_lead(file, section.recs, entries)
}

/// A table that has just been written and made ready holds the entries.
pub proof fn written_table_holds_entries(
    before: SSTable,
    written: SSTable,
    entries: Seq<sst_writer::EntryView>,
    image: Seq<u8>,
)
    requires
        entries.len() > 0,
        entries_ascend(entries),
        sstable::table_written(before, written, entries, image),
        image.len() <= u64::MAX,
        flat_index::records_bytes(sst_writer::data_section(entries).recs).len() <= u32::MAX,
        sstable::all_lead(
            sst_writer::data_section(entries).out,
            sst_writer::data_section(entries).recs,
            entries,
        ),
        sstable::all_lead(image, sst_writer::data_section(entries).recs, entries),
    ensures
        holds_entries(SSTable { is_ready: true, ..written }, image, entries),
{
    let section = sst_writer::data_section(entries);
    assert(section.out.len() <= image.len());
    assert(written.metadata@.smallest_key == entries.first().0);
}

proof fn filter_holds(entries: Seq<sst_writer::EntryView>, size: nat, i: int)
    requires
        size > 0,
        0 <= i < entries.len(),
    ensures
        sstable::filter_bits(entries, size).len() == size,
        bloom_filter::holds_key(sstable::filter_bits(entries, size), 7, entries[i].0),
    decreases entries.len(),
{
    let before = entries.drop_last();
    filter_size(before, size);
    filter_size(entries, size);
    if i == entries.len() - 1 {
        bloom_filter::added_key_is_found(sstable::filter_bits(before, size), 7, entries[i].0);
    } else {
        filter_holds(before, size, i);
        bloom_filter::added_key_keeps_others(
            sstable::filter_bits(before, size),
            7,
            entries.last().0,
            entries[i].0,
        );
    }
}

proof fn filter_size(entries: Seq<sst_writer::EntryView>, size: nat)
    ensures
        sstable::filter_bits(entries, size).len() == size,
    decreases entries.len(),
{
    if entries.len() > 0 {
        filter_size(entries.drop_last(), size);
    }
}

pub(crate) proof fn records_ascend(file: Seq<u8>, recs: Seq<flat_index::IndexRecord>, entries: Seq<sst_writer::EntryView>)
    requires
        entries_ascend(entries),
        sstable::all_lead(file, recs, entries),
    ensures
        flat_index::keys_ascend(recs),
{
    assert forall|i: int, j: int| 0 <= i < j < recs.len() implies bytes::bytes_lt(
        #[trigger] recs[i].0,
        #[trigger] recs[j].0,
    ) by {
        assert(sst_writer::leads_to(file, recs[i], entries[i]));
        assert(sst_writer::leads_to(file, recs[j], entries[j]));
    }
}

/// A key that was written is never ruled out before the index is asked.
pub proof fn written_key_may_exist(
    table: SSTable,
    file: Seq<u8>,
    entries: Seq<sst_writer::EntryView>,
    i: int,
)
    requires
        holds_entries(table, file, entries),
        0 <= i < entries.len(),
    ensures
        sst_query::may_exist(table, entries[i].0),
{
    let k = encode_utf8(entries[i].0);
    let last = entries.len() - 1;
    bytes::bytes_lt_irreflexive(k);
    if i > 0 {
        assert(bytes::bytes_lt(encode_utf8(entries[0].0), encode_utf8(entries[i].0)));
        bytes::bytes_lt_asymmetric(encode_utf8(entries[0].0), k);
    }
    if i < last {
        assert(bytes::bytes_lt(encode_utf8(entries[i].0), encode_utf8(entries[last].0)));
        bytes::bytes_lt_asymmetric(k, encode_utf8(entries[last].0));
    }
    filter_holds(entries, (entries.len() * 10) as nat, i);
}

/// A lookup of a key that was written goes to the entry that was written under it, and gives what
/// that entry means.
pub proof fn written_key_is_looked_up(
    table: SSTable,
    file: Seq<u8>,
    entries: Seq<sst_writer::EntryView>,
    i: int,
    located: Lookup,
    entry: SSTableEntry,
    found: Lookup,
)
    requires
        holds_entries(table, file, entries),
        0 <= i < entries.len(),
        lookup_step(table, entries[i].0, Lookup::LoadIndex, LookupReply::Indexed, located),
        lookup_step(table, entries[i].0, located, LookupReply::Entry(entry), found),
    ensures
        located matches Lookup::Read { offset, loc, attempts } && attempts == 0
            && sst_writer::leads_to(
            file,
            (encode_utf8(entries[i].0), offset, loc),
            entries[i],
        ),
        found == Lookup::Done(Ok(SstableLookupResult::meaning(entry))),
{
    let section = sst_writer::data_section(entries);
    let recs = section.recs;
    let key = entries[i].0;
    records_ascend(file, recs, entries);
    assert(sst_writer::leads_to(file, recs[i], entries[i]));
    assert(sst_writer::leads_to(section.out, recs[i], entries[i]));
    sst_read::record_is_found(recs, i);
    assert(sst_read::location_ok(table, recs[i].1, recs[i].2));
}

/// A lookup of a key that was not written gives nothing, if the index is asked at all.
pub proof fn other_key_is_missing(
    table: SSTable,
    file: Seq<u8>,
    entries: Seq<sst_writer::EntryView>,
    key: Seq<char>,
    next: Lookup,
)
    requires
        holds_entries(table, file, entries),
        forall|i: int| 0 <= i < entries.len() ==> (#[trigger] entries[i]).0 != key,
        lookup_step(table, key, Lookup::LoadIndex, LookupReply::Indexed, next),
    ensures
        next == Lookup::Done(Ok(SstableLookupResult::Missing)),
{
    let recs = sst_writer::data_section(entries).recs;
    records_ascend(file, recs, entries);
    flat_index::ascending_is_in_order(recs);
    flat_index::search_finds(recs, encode_utf8(key));
    assert forall|k: int| 0 <= k < recs.len() implies #[trigger] recs[k].0 != encode_utf8(key) by {
        assert(sst_writer::leads_to(file, recs[k], entries[k]));
        encode_utf8_decode_utf8(key);
        encode_utf8_decode_utf8(entries[k].0);
    }
}

/// A lookup fetches an entry at most as often as the configuration says, and at least once: every
/// failed try counts, and the last one is reported.
pub proof fn tries_are_bounded(
    table: SSTable,
    key: Seq<char>,
    offset: u64,
    loc: u32,
    attempts: u32,
    e: LsmError,
    next: Lookup,
)
    requires
        Lookup::wf(Lookup::Read { offset, loc, attempts }, table),
        lookup_step(
            table,
            key,
            Lookup::Read { offset, loc, attempts },
            LookupReply::Failed(e),
            next,
        ),
    ensures
        next == Lookup::Done(Err(e)) || (next matches Lookup::Wait { attempts: n, .. } && n
            == attempts + 1),
        attempts + 1 >= table.config.file_retry_attempts ==> next == Lookup::Done(Err(e)),
        sst_read::is_permanent(e) ==> next == Lookup::Done(Err(e)),
{
}

} // verus!
