//! What lookups in a written table come to, and what reading all of its entries gives, from the
//! first step to the last. A caller that can read the file and decode entries is taken as given.

use crate::bytes;
use crate::error::LsmError;
use crate::flat_index;
use crate::sst_block::{self, AllEntries, BlockRead};
use crate::sst_fetch::{self, EntryFetch, FetchReply};
use crate::sst_format;
use crate::sst_lookup::{self, Lookup, LookupReply};
use crate::sst_metadata;
use crate::sst_open::FileRequest;
use crate::sst_query;
use crate::sst_read::{self, SSTableEntry, SstableLookupResult};
use crate::sst_writer;
use crate::sstable::{self, SSTable};
use vstd::prelude::*;
use vstd::utf8::*;

verus! {

/// How stored bytes are decoded.
pub type EntryDecoder = spec_fn(Seq<u8>) -> SSTableEntry;

/// The reply is that of a caller that reads the file, keeps only its blocks in the cache and
/// decodes entries.
pub open spec fn fetch_replied(
    file: Seq<u8>,
    decode: EntryDecoder,
    offset: u64,
    st: EntryFetch,
    reply: FetchReply,
) -> bool {
    match st {
        EntryFetch::OpenFirst => reply matches FetchReply::File(f) && FileRequest::Open.answered_from(
            file,
            f,
        ),
        EntryFetch::OpenForBlock => reply matches FetchReply::File(f)
            && FileRequest::Open.answered_from(file, f),
        EntryFetch::CachedBlock => reply matches FetchReply::Cached(held) && (held matches Some(block)
            ==> sst_format::block_at(file, offset as int, block@)),
        EntryFetch::Block(read) => reply matches FetchReply::File(f) && read.wants(
            offset,
        ).answered_from(file, f),
        EntryFetch::StoreBlock(_) => reply is Stored,
        EntryFetch::Decode { data, .. } => reply == FetchReply::Decoded(Ok(decode(data@))),
        _ => true,
    }
}

/// The table's entries are packed in blocks, and the block that was unpacked last is one of the
/// file.
pub open spec fn remembers_file(table: SSTable, file: Seq<u8>) -> bool {
    &&& table.block_compressed
    &&& table.decompressed_block matches Some((off, block)) ==> sst_format::block_at(
        file,
        off as int,
        block@,
    )
}

/// Fetching the entry at a location, from the first state to the last.
pub struct FetchRun {
    /// The table at each state.
    pub tables: Seq<SSTable>,
    /// The states.
    pub states: Seq<EntryFetch>,
    /// The reply to each state but the last.
    pub replies: Seq<FetchReply>,
    /// Whether the table is marked for deletion.
    pub marked: bool,
    /// Whether there is a cache.
    pub cached: bool,
}

impl FetchRun {
    /// Step `i` was taken on a reply of a caller that can read the file.
    pub open spec fn step_taken(
        self,
        file: Seq<u8>,
        decode: EntryDecoder,
        offset: u64,
        loc: u32,
        i: int,
    ) -> bool {
        &&& fetch_replied(file, decode, offset, self.states[i], self.replies[i])
        &&& sst_fetch::fetch_step(
            self.tables[i],
            self.tables[i + 1],
            self.marked,
            offset,
            loc,
            self.cached,
            self.states[i],
            self.replies[i],
            self.states[i + 1],
        )
    }

    /// The run fetches the entry at a location to its end.
    pub open spec fn fetches(
        self,
        file: Seq<u8>,
        decode: EntryDecoder,
        offset: u64,
        loc: u32,
    ) -> bool {
        &&& self.states.len() == self.replies.len() + 1
        &&& self.tables.len() == self.states.len()
        &&& remembers_file(self.tables[0], file)
        &&& self.states[0] == EntryFetch::OpenFirst || sst_fetch::block_begins(
            self.tables[0],
            offset,
            loc,
            self.cached,
            self.states[0],
        )
        &&& forall|i: int|
            0 <= i < self.replies.len() ==> #[trigger] self.step_taken(file, decode, offset, loc, i)
        &&& self.states.last() is Done
    }
}

/// Fetching the entry at a location from the file gave this entry.
pub open spec fn fetched(
    file: Seq<u8>,
    decode: EntryDecoder,
    offset: u64,
    loc: u32,
    entry: SSTableEntry,
) -> bool {
    exists|run: FetchRun| #[trigger]
        run.fetches(file, decode, offset, loc) && run.states.last() == EntryFetch::Done(Ok(entry))
}

/// What holds on the way to an entry with these bytes.
spec fn on_the_way(
    file: Seq<u8>,
    decode: EntryDecoder,
    offset: u64,
    data: Seq<u8>,
    st: EntryFetch,
) -> bool {
    match st {
        EntryFetch::OpenFirst => true,
        EntryFetch::CachedBlock => true,
        EntryFetch::OpenForBlock => true,
        EntryFetch::Block(BlockRead::UnpackedLength) => true,
        EntryFetch::Block(BlockRead::PackedLength { unc_len }) => unc_len == sst_metadata::u32_at(
            file,
            offset as int,
        ),
        EntryFetch::Block(BlockRead::Body { unc_len, comp_len }) => {
            &&& unc_len == sst_metadata::u32_at(file, offset as int)
            &&& comp_len == sst_metadata::u32_at(file, offset + 4)
        },
        EntryFetch::StoreBlock(block) => sst_format::block_at(file, offset as int, block@),
        EntryFetch::Decode { data: d, store } => d@ == data && !store,
        EntryFetch::Done(r) => r == Ok::<SSTableEntry, LsmError>(decode(data)),
        _ => false,
    }
}

proof fn step_stays_on_the_way(
    run: FetchRun,
    file: Seq<u8>,
    decode: EntryDecoder,
    rec: flat_index::IndexRecord,
    e: sst_writer::EntryView,
    i: int,
)
    requires
        sst_writer::leads_to(file, rec, e),
        rec.1 <= u64::MAX - 8,
        run.step_taken(file, decode, rec.1, rec.2, i),
        remembers_file(run.tables[i], file),
        on_the_way(file, decode, rec.1, e.1, run.states[i]),
    ensures
        remembers_file(run.tables[i + 1], file),
        on_the_way(file, decode, rec.1, e.1, run.states[i + 1]),
{
    let off = rec.1;
    let raw = choose|raw: Seq<u8>| #[trigger]
        sst_format::block_at(file, off as int, raw) && sst_format::framed_at(raw, rec.2 as int)
            == Ok::<Seq<u8>, Seq<char>>(e.1);
    let before = run.tables[i];
    let after = run.tables[i + 1];
    let next = run.states[i + 1];
    match run.states[i] {
        EntryFetch::Block(read) => {
            let f = run.replies[i]->File_0;
            let to = choose|to: BlockRead| #[trigger]
                sst_block::block_step(off, read, f, to) && match to {
                    BlockRead::Done(Ok(block)) => if run.cached {
                        after == before && next == EntryFetch::StoreBlock(block)
                    } else {
                        sst_fetch::remembers(before, after, off, block@)
                            && sst_fetch::taken_from_block(block@, rec.2, next)
                    },
                    BlockRead::Done(Err(err)) => after == before && next == EntryFetch::Done(Err(err)),
                    _ => after == before && next == EntryFetch::Block(to),
                };
            assert(sst_block::block_step(off, read, f, to));
        },
        _ => {},
    }
}

proof fn run_ends_with_entry(
    run: FetchRun,
    file: Seq<u8>,
    decode: EntryDecoder,
    rec: flat_index::IndexRecord,
    e: sst_writer::EntryView,
    i: int,
)
    requires
        sst_writer::leads_to(file, rec, e),
        rec.1 <= u64::MAX - 8,
        run.fetches(file, decode, rec.1, rec.2),
        0 <= i < run.states.len(),
    ensures
        remembers_file(run.tables[i], file),
        on_the_way(file, decode, rec.1, e.1, run.states[i]),
    decreases i,
{
    if i > 0 {
        run_ends_with_entry(run, file, decode, rec, e, i - 1);
        assert(run.step_taken(file, decode, rec.1, rec.2, i - 1));
        step_stays_on_the_way(run, file, decode, rec, e, i - 1);
    } else {
        let raw = choose|raw: Seq<u8>| #[trigger]
            sst_format::block_at(file, rec.1 as int, raw) && sst_format::framed_at(
                raw,
                rec.2 as int,
            ) == Ok::<Seq<u8>, Seq<char>>(e.1);
        assert(sst_format::block_at(file, rec.1 as int, raw));
    }
}

/// Fetching the entry that an index record leads to gives the entry that its bytes stand for,
/// whether its block is the one that was unpacked last, is cached or has to be read.
pub proof fn stored_entry_is_decoded(
    file: Seq<u8>,
    decode: EntryDecoder,
    rec: flat_index::IndexRecord,
    e: sst_writer::EntryView,
    entry: SSTableEntry,
)
    requires
        sst_writer::leads_to(file, rec, e),
        rec.1 <= u64::MAX - 8,
        fetched(file, decode, rec.1, rec.2, entry),
    ensures
        entry == decode(e.1),
{
    let run = choose|run: FetchRun| #[trigger]
        run.fetches(file, decode, rec.1, rec.2) && run.states.last() == EntryFetch::Done(Ok(entry));
    run_ends_with_entry(run, file, decode, rec, e, run.states.len() - 1);
}

/// Looking up a key, from the first state to the last.
pub struct LookupRun {
    /// The table before.
    pub before: SSTable,
    /// The table afterwards.
    pub table: SSTable,
    /// When it was looked up.
    pub now: u64,
    /// Whether it was looked up without a reader guard.
    pub sync: bool,
    /// The states.
    pub states: Seq<Lookup>,
    /// The reply to each state but the last.
    pub replies: Seq<LookupReply>,
}

/// The reply is that of a caller that loads the index and reads the file.
pub open spec fn lookup_replied(
    file: Seq<u8>,
    decode: EntryDecoder,
    st: Lookup,
    reply: LookupReply,
) -> bool {
    match st {
        Lookup::LoadIndex => reply is Indexed,
        Lookup::Read { offset, loc, .. } => reply matches LookupReply::Entry(entry) && fetched(
            file,
            decode,
            offset,
            loc,
            entry,
        ),
        Lookup::Wait { .. } => reply is Waited,
        Lookup::Done(_) => true,
    }
}

impl LookupRun {
    /// Step `i` was taken on a reply of a caller that can read the file.
    pub open spec fn step_taken(
        self,
        file: Seq<u8>,
        decode: EntryDecoder,
        key: Seq<char>,
        i: int,
    ) -> bool {
        &&& lookup_replied(file, decode, self.states[i], self.replies[i])
        &&& if self.sync {
            sst_lookup::lookup_sync_step(
                self.table,
                key,
                self.states[i],
                self.replies[i],
                self.states[i + 1],
            )
        } else {
            sst_lookup::lookup_step(
                self.table,
                key,
                self.states[i],
                self.replies[i],
                self.states[i + 1],
            )
        }
    }

    /// The run looks the key up to its end.
    pub open spec fn looks_up(self, file: Seq<u8>, decode: EntryDecoder, key: Seq<char>) -> bool {
        &&& self.states.len() == self.replies.len() + 1
        &&& sst_lookup::lookup_begins(
            self.before,
            self.table,
            key,
            self.now,
            if self.sync {
                sst_lookup::not_ready_text(self.before)
            } else {
                sst_lookup::not_ready_yet_text(self.before)
            },
            self.states[0],
        )
        &&& forall|i: int|
            0 <= i < self.replies.len() ==> #[trigger] self.step_taken(file, decode, key, i)
        &&& self.states.last() is Done
    }
}

/// Entry `i` was written under the key.
pub open spec fn written_under(
    entries: Seq<sst_writer::EntryView>,
    key: Seq<char>,
    i: int,
) -> bool {
    0 <= i < entries.len() && entries[i].0 == key
}

/// What a lookup of the key is to give: what the entry under it means, or that there is none.
pub open spec fn answer_due(
    entries: Seq<sst_writer::EntryView>,
    decode: EntryDecoder,
    key: Seq<char>,
) -> SstableLookupResult {
    if exists|i: int| #[trigger] written_under(entries, key, i) {
        let i = choose|i: int| #[trigger] written_under(entries, key, i);
        SstableLookupResult::meaning(decode(entries[i].1))
    } else {
        SstableLookupResult::Missing
    }
}

/// A key stands in one entry.
proof fn written_once(
    entries: Seq<sst_writer::EntryView>,
    decode: EntryDecoder,
    key: Seq<char>,
    i: int,
)
    requires
        sst_lookup::entries_ascend(entries),
        written_under(entries, key, i),
    ensures
        answer_due(entries, decode, key) == SstableLookupResult::meaning(decode(entries[i].1)),
{
    let j = choose|j: int| #[trigger] written_under(entries, key, j);
    bytes::bytes_lt_irreflexive(encode_utf8(key));
    if i < j {
        assert(bytes::bytes_lt(encode_utf8(entries[i].0), encode_utf8(entries[j].0)));
    } else if j < i {
        assert(bytes::bytes_lt(encode_utf8(entries[j].0), encode_utf8(entries[i].0)));
    }
}

/// What holds on the way to the answer.
spec fn leads_to_answer(
    file: Seq<u8>,
    entries: Seq<sst_writer::EntryView>,
    decode: EntryDecoder,
    key: Seq<char>,
    st: Lookup,
) -> bool {
    match st {
        Lookup::LoadIndex => true,
        Lookup::Read { offset, loc, .. } => exists|i: int| #[trigger]
            written_under(entries, key, i) && sst_writer::leads_to(
                file,
                (encode_utf8(key), offset, loc),
                entries[i],
            ),
        Lookup::Wait { .. } => false,
        Lookup::Done(r) => r == Ok::<SstableLookupResult, LsmError>(
            answer_due(entries, decode, key),
        ),
    }
}

proof fn step_leads_to_answer(
    run: LookupRun,
    file: Seq<u8>,
    entries: Seq<sst_writer::EntryView>,
    decode: EntryDecoder,
    key: Seq<char>,
    i: int,
)
    requires
        sst_lookup::holds_entries(run.table, file, entries),
        file.len() <= u64::MAX - 8,
        run.step_taken(file, decode, key, i),
        leads_to_answer(file, entries, decode, key, run.states[i]),
    ensures
        leads_to_answer(file, entries, decode, key, run.states[i + 1]),
{
    let section = sst_writer::data_section(entries);
    let recs = section.recs;
    sst_lookup::records_ascend(file, recs, entries);
    match run.states[i] {
        Lookup::LoadIndex => {
            if exists|j: int| #[trigger] written_under(entries, key, j) {
                let j = choose|j: int| #[trigger] written_under(entries, key, j);
                assert(sst_writer::leads_to(file, recs[j], entries[j]));
                assert(sst_writer::leads_to(section.out, recs[j], entries[j]));
                sst_read::record_is_found(recs, j);
                assert(recs[j] == (encode_utf8(key), recs[j].1, recs[j].2));
                assert(written_under(entries, key, j));
            } else {
                flat_index::ascending_is_in_order(recs);
                flat_index::search_finds(recs, encode_utf8(key));
                assert forall|k: int| 0 <= k < recs.len() implies #[trigger] recs[k].0
                    != encode_utf8(key) by {
                    assert(sst_writer::leads_to(file, recs[k], entries[k]));
                    assert(!written_under(entries, key, k));
                    encode_utf8_decode_utf8(key);
                    encode_utf8_decode_utf8(entries[k].0);
                }
            }
        },
        Lookup::Read { offset, loc, .. } => {
            let rec = (encode_utf8(key), offset, loc);
            let j = choose|j: int| #[trigger]
                written_under(entries, key, j) && sst_writer::leads_to(file, rec, entries[j]);
            written_once(entries, decode, key, j);
            stored_entry_is_decoded(file, decode, rec, entries[j], run.replies[i]->Entry_0);
        },
        _ => {},
    }
}

proof fn run_leads_to_answer(
    run: LookupRun,
    file: Seq<u8>,
    entries: Seq<sst_writer::EntryView>,
    decode: EntryDecoder,
    key: Seq<char>,
    i: int,
)
    requires
        sst_lookup::holds_entries(run.before, file, entries),
        file.len() <= u64::MAX - 8,
        run.looks_up(file, decode, key),
        0 <= i < run.states.len(),
    ensures
        sst_lookup::holds_entries(run.table, file, entries),
        leads_to_answer(file, entries, decode, key, run.states[i]),
    decreases i,
{
    if i > 0 {
        run_leads_to_answer(run, file, entries, decode, key, i - 1);
        assert(run.step_taken(file, decode, key, i - 1));
        step_leads_to_answer(run, file, entries, decode, key, i - 1);
    } else {
        if exists|j: int| #[trigger] written_under(entries, key, j) {
            let j = choose|j: int| #[trigger] written_under(entries, key, j);
            sst_lookup::written_key_may_exist(run.before, file, entries, j);
        }
    }
}

/// A lookup in a table that was written and made ready, by a caller that can read its file, ends
/// with what was written: a value with its timestamp exactly if a live entry stands under the key,
/// a tombstone with its timestamp exactly if a deleted one does, and nothing exactly if none does.
pub proof fn lookup_gives_what_was_written(
    run: LookupRun,
    file: Seq<u8>,
    entries: Seq<sst_writer::EntryView>,
    decode: EntryDecoder,
    key: Seq<char>,
)
    requires
        sst_lookup::holds_entries(run.before, file, entries),
        file.len() <= u64::MAX - 8,
        run.looks_up(file, decode, key),
    ensures
        run.states.last() matches Lookup::Done(Ok(found)) && {
            &&& forall|i: int| #[trigger]
                written_under(entries, key, i) ==> found == SstableLookupResult::meaning(
                    decode(entries[i].1),
                )
            &&& found is Found <==> exists|i: int| #[trigger]
                written_under(entries, key, i) && !decode(entries[i].1).deleted
            &&& found is Tombstone <==> exists|i: int| #[trigger]
                written_under(entries, key, i) && decode(entries[i].1).deleted
            &&& found is Missing <==> forall|i: int| !#[trigger] written_under(entries, key, i)
            &&& forall|i: int| #[trigger]
                written_under(entries, key, i) && !decode(entries[i].1).deleted ==> (
                found matches SstableLookupResult::Found { value, timestamp } && value == decode(
                    entries[i].1,
                ).value && timestamp == decode(entries[i].1).timestamp)
            &&& forall|i: int| #[trigger]
                written_under(entries, key, i) && decode(entries[i].1).deleted ==> (
                found matches SstableLookupResult::Tombstone { timestamp } && timestamp == decode(
                    entries[i].1,
                ).timestamp)
        },
{
    run_leads_to_answer(run, file, entries, decode, key, run.states.len() - 1);
    assert forall|i: int| #[trigger] written_under(entries, key, i) implies answer_due(
        entries,
        decode,
        key,
    ) == SstableLookupResult::meaning(decode(entries[i].1)) by {
        written_once(entries, decode, key, i);
    }
}

/// A lookup in a table that is not ready fails at once and leaves the table as it is.
pub proof fn lookup_needs_a_ready_table(
    run: LookupRun,
    file: Seq<u8>,
    decode: EntryDecoder,
    key: Seq<char>,
)
    requires
        !run.before.is_ready,
        run.looks_up(file, decode, key),
    ensures
        run.table == run.before,
        run.states.last() matches Lookup::Done(Err(e)) && e.is_internal(
            if run.sync {
                sst_lookup::not_ready_text(run.before)
            } else {
                sst_lookup::not_ready_yet_text(run.before)
            },
        ),
{
    ended_run_stays(run, file, decode, key, run.states.len() - 1);
}

proof fn ended_run_stays(
    run: LookupRun,
    file: Seq<u8>,
    decode: EntryDecoder,
    key: Seq<char>,
    i: int,
)
    requires
        run.looks_up(file, decode, key),
        run.states[0] is Done,
        0 <= i < run.states.len(),
    ensures
        run.states[i] == run.states[0],
    decreases i,
{
    if i > 0 {
        ended_run_stays(run, file, decode, key, i - 1);
        assert(run.step_taken(file, decode, key, i - 1));
    }
}

/// Reading every entry of a table, from what `begin` gives to the end.
pub struct AllEntriesRun {
    /// What has been read before each step and at the end.
    pub states: Seq<AllEntries>,
    /// The entry that each step read.
    pub reads: Seq<SSTableEntry>,
}

impl AllEntriesRun {
    /// Step `i` fetched the entry at the next location from the file and took it.
    pub open spec fn step_taken(self, file: Seq<u8>, decode: EntryDecoder, i: int) -> bool {
        let at = self.states[i].entries@.len() as int;
        let loc = self.states[i].locs@[at];
        &&& at < self.states[i].locs@.len()
        &&& fetched(file, decode, loc.1, loc.2, self.reads[i])
        &&& self.states[i + 1].locs == self.states[i].locs
        &&& self.states[i + 1].entries@ == self.states[i].entries@.push(self.reads[i])
    }

    /// The run reads every entry of the table.
    pub open spec fn reads_all(self, table: SSTable, file: Seq<u8>, decode: EntryDecoder) -> bool {
        &&& self.states.len() == self.reads.len() + 1
        &&& sst_query::locs_view(self.states[0].locs@) == sst_query::locations(table.recs())
        &&& self.states[0].entries@.len() == 0
        &&& forall|i: int| 0 <= i < self.reads.len() ==> #[trigger] self.step_taken(file, decode, i)
        &&& self.states.last().entries@.len() == self.states.last().locs@.len()
    }
}

/// Location `i` of a written table is that of entry `i`.
proof fn location_of_entry(
    table: SSTable,
    file: Seq<u8>,
    entries: Seq<sst_writer::EntryView>,
    locs: Seq<(String, u64, u32)>,
    i: int,
)
    requires
        sst_lookup::holds_entries(table, file, entries),
        sst_query::locs_view(locs) == sst_query::locations(table.recs()),
        0 <= i < entries.len(),
    ensures
        locs.len() == entries.len(),
        locs[i].0@ == entries[i].0,
        sst_writer::leads_to(file, (encode_utf8(entries[i].0), locs[i].1, locs[i].2), entries[i]),
        sst_block::next_allowed(table, false, locs[i]),
{
    let section = sst_writer::data_section(entries);
    let recs = section.recs;
    assert(sst_query::locs_view(locs).len() == locs.len());
    assert(sst_query::locations(recs).len() == recs.len());
    assert(sst_query::locs_view(locs)[i] == sst_query::locations(recs)[i]);
    assert(sst_writer::leads_to(file, recs[i], entries[i]));
    assert(sst_writer::leads_to(section.out, recs[i], entries[i]));
    sst_query::stored_key_is_read_back(entries[i].0);
    assert(recs[i] == (encode_utf8(entries[i].0), locs[i].1, locs[i].2));
}

proof fn run_reads_entries(
    run: AllEntriesRun,
    table: SSTable,
    file: Seq<u8>,
    entries: Seq<sst_writer::EntryView>,
    decode: EntryDecoder,
    i: int,
)
    requires
        sst_lookup::holds_entries(table, file, entries),
        file.len() <= u64::MAX - 8,
        run.reads_all(table, file, decode),
        0 <= i < run.states.len(),
    ensures
        run.states[i].locs == run.states[0].locs,
        run.states[i].entries@.len() == i,
        i <= entries.len(),
        forall|j: int|
            0 <= j < i ==> #[trigger] run.states[i].entries@[j] == decode(entries[j].1),
    decreases i,
{
    if i > 0 {
        run_reads_entries(run, table, file, entries, decode, i - 1);
        assert(run.step_taken(file, decode, i - 1));
        let locs = run.states[0].locs@;
        assert(locs.len() == entries.len()) by {
            location_of_entry(table, file, entries, locs, 0);
        }
        location_of_entry(table, file, entries, locs, i - 1);
        stored_entry_is_decoded(
            file,
            decode,
            (encode_utf8(entries[i - 1].0), locs[i - 1].1, locs[i - 1].2),
            entries[i - 1],
            run.reads[i - 1],
        );
    }
}

/// Reading all entries of a table that was written and made ready, by a caller that can read its
/// file, is refused nowhere and gives every written entry, in the order of the keys.
pub proof fn all_entries_are_read(
    run: AllEntriesRun,
    table: SSTable,
    file: Seq<u8>,
    entries: Seq<sst_writer::EntryView>,
    decode: EntryDecoder,
)
    requires
        sst_lookup::holds_entries(table, file, entries),
        file.len() <= u64::MAX - 8,
        run.reads_all(table, file, decode),
    ensures
        forall|i: int|
            0 <= i < entries.len() ==> sst_block::next_allowed(
                table,
                false,
                #[trigger] run.states[0].locs@[i],
            ),
        run.states.last().entries@ == entries.map_values(
            |e: sst_writer::EntryView| decode(e.1),
        ),
{
    let locs = run.states[0].locs@;
    let last = run.states.len() - 1;
    run_reads_entries(run, table, file, entries, decode, last);
    location_of_entry(table, file, entries, locs, 0);
    assert forall|i: int| 0 <= i < entries.len() implies sst_block::next_allowed(
        table,
        false,
        #[trigger] locs[i],
    ) by {
        location_of_entry(table, file, entries, locs, i);
    }
    assert(run.states.last().entries@ =~= entries.map_values(
        |e: sst_writer::EntryView| decode(e.1),
    ));
}

} // verus!
