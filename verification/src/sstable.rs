//! Sorted string tables.

use crate::bloom_filter::{self, BloomFilter};
use crate::bytes::{self, extend};
use crate::checksum::{self, crc32};
use crate::engine_config::SstableConfig;
use crate::error::LsmError;
use crate::flat_index::{self, FlatIndex};
use crate::snappy::{self, snap_compress};
use crate::sst_format;
use crate::sst_metadata::{self, bincode_metadata, SSTableMetadata};
use crate::sst_writer::{self, TableEntry, TableWriter};
use crate::text::cat;
use vstd::bytes::*;
use vstd::prelude::*;
use vstd::slice::*;
use vstd::string::*;
use vstd::utf8::*;

verus! {

/// The bits of a filter for the keys of the entries.
pub open spec fn filter_bits(entries: Seq<sst_writer::EntryView>, size: nat) -> Seq<bool>
    decreases entries.len(),
{
    if entries.len() == 0 {
        Seq::new(size, |i: int| false)
    } else {
        bloom_filter::with_key(filter_bits(entries.drop_last(), size), 7, entries.last().0)
    }
}

/// The stored filter of the entries.
pub open spec fn filter_image(entries: Seq<sst_writer::EntryView>) -> Seq<u8> {
    bloom_filter::filter_bytes(filter_bits(entries, entries.len() * 10))
}

/// The packed index of the entries.
pub open spec fn packed_index(entries: Seq<sst_writer::EntryView>) -> Seq<u8> {
    snappy::snappy_compressed(flat_index::index_image(sst_writer::data_section(entries).recs))
}

/// A part of a file behind which its checksum stands.
pub open spec fn checked(part: Seq<u8>) -> Seq<u8> {
    part + spec_u32_to_le_bytes(checksum::crc32_of(part))
}

/// Everything before the metadata of a table file: data, index and filter.
pub open spec fn table_body(entries: Seq<sst_writer::EntryView>) -> Seq<u8> {
    sst_writer::data_section(entries).out + checked(packed_index(entries)) + checked(
        filter_image(entries),
    )
}

/// The metadata of a table with these entries.
pub open spec fn table_metadata(
    entries: Seq<sst_writer::EntryView>,
    level: usize,
    created_at: u64,
) -> sst_metadata::MetadataView {
    let data = sst_writer::data_section(entries).out;
    sst_metadata::MetadataView {
        entry_count: entries.len() as usize,
        file_size: data.len() as u64,
        smallest_key: entries.first().0,
        largest_key: entries.last().0,
        level,
        checksum: checksum::crc32_of(table_body(entries)),
        created_at,
        index_offset: data.len() as u64,
        index_size: packed_index(entries).len() as u64,
        bloom_filter_offset: (data.len() + packed_index(entries).len() + 4) as u64,
        bloom_filter_size: filter_image(entries).len() as u64,
        bloom_filter_hash_count: 7,
    }
}

/// The file of a table with these entries.
pub open spec fn table_image(
    entries: Seq<sst_writer::EntryView>,
    level: usize,
    created_at: u64,
) -> Seq<u8> {
    table_body(entries) + checked(
        sst_metadata::metadata_bytes(table_metadata(entries, level, created_at)),
    )
}

/// The index of the entries can be packed.
pub open spec fn index_fits(entries: Seq<sst_writer::EntryView>) -> bool {
    snappy::snappy_fits(
        flat_index::index_image(sst_writer::data_section(entries).recs).len(),
    )
}

/// A sorted string table: what is known of its file without reading it.
#[derive(Debug)]
pub struct SSTable {
    /// The file's path.
    pub path: String,
    /// The file's path in quotes, as it is shown in messages.
    pub quoted_path: String,
    /// Configuration.
    pub config: SstableConfig,
    /// Metadata.
    pub metadata: SSTableMetadata,
    /// Index; loaded on first use.
    pub index: FlatIndex,
    /// Whether `index` is that of the file.
    pub index_loaded: bool,
    /// Filter of the keys, if one is held.
    pub bloom_filter: Option<BloomFilter>,
    /// Time of the last access, in nanoseconds.
    pub last_access: u64,
    /// Whether the file is written and its metadata is known.
    pub is_ready: bool,
    /// Whether the file holds Snappy blocks.
    pub block_compressed: bool,
    /// The block that was unpacked last, with its offset.
    pub decompressed_block: Option<(u64, Vec<u8>)>,
}

impl SSTable {
    /// The records of the index.
    pub open spec fn recs(&self) -> Seq<flat_index::IndexRecord> {
        self.index@
    }

    /// Creates a table of no entries at a level.
    pub fn new(
        path: String,
        quoted_path: String,
        config: SstableConfig,
        level: usize,
        created_at: u64,
    ) -> (r: Result<Self, LsmError>)
        ensures
            r matches Ok(t) && {
                &&& t.path == path
                &&& t.quoted_path == quoted_path
                &&& t.config == config
                &&& t.metadata@ == (sst_metadata::MetadataView {
                    entry_count: 0,
                    file_size: 0,
                    smallest_key: Seq::empty(),
                    largest_key: Seq::empty(),
                    level,
                    checksum: 0,
                    created_at,
                    index_offset: 0,
                    index_size: 0,
                    bloom_filter_offset: 0,
                    bloom_filter_size: 0,
                    bloom_filter_hash_count: 7,
                })
                &&& t.recs() == Seq::<flat_index::IndexRecord>::empty()
                &&& t.index.wf()
                &&& !t.index_loaded
                &&& t.bloom_filter is None
                &&& t.last_access == 0
                &&& !t.is_ready
                &&& !t.block_compressed
                &&& t.decompressed_block is None
            },
    {
        let metadata = SSTableMetadata {
            entry_count: 0,
            file_size: 0,
            smallest_key: String::new(),
            largest_key: String::new(),
            level,
            checksum: 0,
            created_at,
            index_offset: 0,
            index_size: 0,
            bloom_filter_offset: 0,
            bloom_filter_size: 0,
            bloom_filter_hash_count: 7,
        };
        Ok(
            SSTable {
                path,
                quoted_path,
                config,
                metadata,
                index: FlatIndex::empty(),
                index_loaded: false,
                bloom_filter: None,
                last_access: 0,
                is_ready: false,
                block_compressed: false,
                decompressed_block: None,
            },
        )
    }
}

/// Fills a filter with the keys of the entries.
fn build_filter(entries: &Vec<TableEntry>) -> (r: BloomFilter)
    requires
        entries@.len() * 10 <= usize::MAX,
    ensures
        r.hash_num() == 7,
        r.bit_num() == entries@.len() * 10,
        r.bit_seq().len() == r.bit_num(),
        r.bit_seq() == filter_bits(sst_writer::entries_view(entries@), entries@.len() * 10),
{
    let mut filter = BloomFilter::with_optimal_params(entries.len());
    let ghost views = sst_writer::entries_view(entries@);
    let ghost size = (entries@.len() * 10) as nat;
    let mut i: usize = 0;
    assert(views.take(0) =~= Seq::empty());
    while i < entries.len()
        invariant
            i <= entries@.len(),
            views == sst_writer::entries_view(entries@),
            size == entries@.len() * 10,
            filter.hash_num() == 7,
            filter.bit_num() == size,
            filter.bit_seq().len() == size,
            filter.bit_seq() == filter_bits(views.take(i as int), size),
        decreases entries@.len() - i,
    {
        filter.add(entries[i].key.as_str());
        proof {
            assert(views.take(i + 1).drop_last() =~= views.take(i as int));
            let before = filter_bits(views.take(i as int), size);
            assert(bloom_filter::resized(before, size) =~= before);
        }
        i = i + 1;
    }
    assert(views.take(i as int) =~= views);
    filter
}

/// The entries have been turned into the file `image`, and the table is that of the file.
pub open spec fn table_written(
    before: SSTable,
    after: SSTable,
    entries: Seq<sst_writer::EntryView>,
    image: Seq<u8>,
) -> bool {
    let section = sst_writer::data_section(entries);
    let small_index = flat_index::records_bytes(section.recs).len() <= u32::MAX;
    &&& image == table_image(entries, before.metadata.level, before.metadata.created_at)
    &&& after.metadata@ == table_metadata(
        entries,
        before.metadata.level,
        before.metadata.created_at,
    )
    &&& after.index.data() == flat_index::records_bytes(section.recs)
    &&& after.index.offsets() == flat_index::packed_offsets(section.recs)
    &&& small_index ==> after.index.wf() && after.recs() == section.recs
    &&& after.index_loaded
    &&& snappy::snappy_decompressed(packed_index(entries)) == Ok::<Seq<u8>, Seq<char>>(
        flat_index::index_image(section.recs),
    )
    &&& after.bloom_filter matches Some(f) && {
        &&& f.hash_num() == 7
        &&& f.bit_num() == entries.len() * 10
        &&& f.bit_seq() == filter_bits(entries, entries.len() * 10)
    }
    &&& after.block_compressed
    &&& after.path == before.path && after.quoted_path == before.quoted_path
    &&& after.config == before.config
    &&& after.last_access == before.last_access && after.is_ready == before.is_ready
    &&& after.decompressed_block == before.decompressed_block
}

/// Writing stopped because a block, or the index, cannot be packed. What was noted until then stays.
pub open spec fn table_write_stopped(
    before: SSTable,
    after: SSTable,
    entries: Seq<sst_writer::EntryView>,
) -> bool {
    let section = sst_writer::data_section(entries);
    let noted = sst_metadata::MetadataView {
        entry_count: entries.len() as usize,
        smallest_key: entries.first().0,
        largest_key: entries.last().0,
        ..before.metadata@
    };
    &&& if sst_writer::data_section_fits(entries) {
        &&& after.metadata@ == (sst_metadata::MetadataView {
            file_size: section.out.len() as u64,
            index_offset: section.out.len() as u64,
            ..noted
        })
        &&& after.index.data() == flat_index::records_bytes(section.recs)
        &&& after.index.offsets() == flat_index::packed_offsets(section.recs)
        &&& after.index_loaded
    } else {
        &&& after.metadata@ == noted
        &&& after.index == before.index
        &&& after.index_loaded == before.index_loaded
    }
    &&& after.block_compressed
    &&& after.bloom_filter == before.bloom_filter
    &&& after.path == before.path && after.quoted_path == before.quoted_path
    &&& after.config == before.config
    &&& after.last_access == before.last_access && after.is_ready == before.is_ready
    &&& after.decompressed_block == before.decompressed_block
}

impl SSTable {
    /// Turns entries, in ascending key order, into the file of the table, which the caller writes
    /// and syncs. No entry gives no file.
    #[verifier::rlimit(60)]
    #[verifier::spinoff_prover]
    pub fn write_entries(&mut self, entries: &Vec<TableEntry>) -> (r: Result<
        Option<Vec<u8>>,
        LsmError,
    >)
        requires
            entries@.len() * 10 <= usize::MAX,
        ensures
            entries@.len() == 0 ==> r is Ok && r->Ok_0 is None && *final(self) == *old(self),
            entries@.len() > 0 ==> {
                let views = sst_writer::entries_view(entries@);
                &&& r is Ok <==> sst_writer::data_section_fits(views) && index_fits(views)
                &&& r is Ok ==> r->Ok_0 is Some && table_written(
                    *old(self),
                    *final(self),
                    views,
                    r->Ok_0->0@,
                )
                &&& r is Ok && sst_writer::entries_readable(views) ==> {
                    &&& all_lead(r->Ok_0->0@, sst_writer::data_section(views).recs, views)
                    &&& all_lead(
                        sst_writer::data_section(views).out,
                        sst_writer::data_section(views).recs,
                        views,
                    )
                }
                &&& r is Err ==> table_write_stopped(*old(self), *final(self), views)
                    && cannot_pack(r->Err_0)
            },
    {
        if entries.len() == 0 {
            return Ok(None);
        }
        let ghost views = sst_writer::entries_view(entries@);
        let ghost before = *self;
        let n: usize = entries.len();
        self.metadata.entry_count = n;
        self.metadata.smallest_key = entries[0].key.clone();
        self.metadata.largest_key = entries[n - 1].key.clone();
        self.block_compressed = true;

        let mut w = TableWriter::start();
        let mut i: usize = 0;
        proof {
            assert(views.take(0) =~= Seq::empty());
            assert(sst_writer::all_placed(w@, views.take(0)));
        }
        while i < n
            invariant
                n == entries@.len(),
                i <= n,
                views == sst_writer::entries_view(entries@),
                w@ == sst_writer::layout(views.take(i as int)),
                w@.out.len() <= usize::MAX,
                sst_writer::blocks_fit(views.take(i as int)),
                sst_writer::entries_readable(views) ==> sst_writer::all_placed(
                    w@,
                    views.take(i as int),
                ),
                *self == (SSTable { metadata: self.metadata, block_compressed: true, ..before }),
                self.metadata@ == (sst_metadata::MetadataView {
                    entry_count: n,
                    smallest_key: views.first().0,
                    largest_key: views.last().0,
                    ..before.metadata@
                }),
                n > 0,
                before == *old(self),
            decreases n - i,
        {
            let ghost l = w@;
            proof {
                assert(views.take(i + 1).drop_last() =~= views.take(i as int));
                assert(views.take(i + 1).last() == views[i as int]);
                assert(views.take(i + 1) =~= views.take(i as int).push(views[i as int]));
            }
            match w.add_entry(entries[i].key.as_str(), entries[i].data.as_slice()) {
                Ok(()) => {},
                Err(e) => {
                    proof {
                        assert(!sst_writer::blocks_fit(views.take(i + 1)));
                        if sst_writer::blocks_fit(views) {
                            blocks_fit_prefix(views, i + 1);
                        }
                    }
                    return Err(e);
                },
            }
            proof {
                if sst_writer::entries_readable(views) {
                    sst_writer::added_all_placed(l, views.take(i as int), views[i as int]);
                }
            }
            i = i + 1;
        }
        assert(views.take(i as int) =~= views);
        let ghost last = w@;
        let (mut out, pairs) = match w.finish() {
            Ok(parts) => parts,
            Err(e) => {
                return Err(e);
            },
        };
        let ghost section = sst_writer::data_section(views);
        proof {
            if sst_writer::entries_readable(views) {
                sst_writer::flushed_all_placed(last, views);
            }
        }

        let offset: u64 = out.len() as u64;
        self.metadata.file_size = offset;
        self.metadata.index_offset = offset;
        self.index = FlatIndex::from_sorted(pairs);
        self.index_loaded = true;
        let index_raw = self.index.encode();
        proof {
            assert(self.index.offsets() =~= flat_index::packed_offsets(section.recs));
            assert(index_raw@ == flat_index::index_image(section.recs));
        }
        let index_data = match snap_compress(index_raw.as_slice()) {
            Ok(v) => v,
            Err(e) => {
                assert(e.is_internal(sst_writer::too_big_text(index_raw@.len())));
                return Err(e);
            },
        };
        self.metadata.index_size = index_data.len() as u64;
        let index_sum = u32_to_le_bytes(crc32(index_data.as_slice()));
        extend(&mut out, index_data.as_slice());
        extend(&mut out, index_sum.as_slice());

        let filter = build_filter(entries);
        let filter_data = filter.to_bytes();
        let filter_at: u64 = out.len() as u64;
        self.metadata.bloom_filter_offset = filter_at;
        self.metadata.bloom_filter_size = filter_data.len() as u64;
        self.metadata.bloom_filter_hash_count = filter.hash_count();
        let filter_sum = u32_to_le_bytes(crc32(filter_data.as_slice()));
        extend(&mut out, filter_data.as_slice());
        extend(&mut out, filter_sum.as_slice());
        self.bloom_filter = Some(filter);
        proof {
            assert(filter_data@ == filter_image(views));
            assert(out@ =~= table_body(views));
            bytes::u32_back(checksum::crc32_of(index_data@));
        }

        self.metadata.checksum = crc32(out.as_slice());
        let metadata_data = match bincode_metadata(&self.metadata) {
            Ok(v) => v,
            Err(e) => {
                return Err(LsmError::Serialization(cat("Failed to serialize metadata: ", e.as_str())));
            },
        };
        let metadata_sum = u32_to_le_bytes(crc32(metadata_data.as_slice()));
        extend(&mut out, metadata_data.as_slice());
        extend(&mut out, metadata_sum.as_slice());
        proof {
            assert(self.metadata@ =~= table_metadata(
                views,
                before.metadata.level,
                before.metadata.created_at,
            ));
            assert(out@ =~= table_image(views, before.metadata.level, before.metadata.created_at));
            if sst_writer::entries_readable(views) {
                let rest = out@.skip(section.out.len() as int);
                assert(out@ =~= section.out + rest);
                all_lead_grow(section.out, rest, section.recs, views);
            }
        }
        Ok(Some(out))
    }

    /// Marks the table as written and synced.
    pub fn mark_ready(&mut self)
        ensures
            *final(self) == (SSTable { is_ready: true, ..*old(self) }),
    {
        self.is_ready = true;
    }
}

/// The error says that some data cannot be packed.
pub open spec fn cannot_pack(e: LsmError) -> bool {
    exists|n: nat| !snappy::snappy_fits(n) && e.is_internal(#[trigger] sst_writer::too_big_text(n))
}

/// Each record leads to the entry at the same position.
pub open spec fn all_lead(
    file: Seq<u8>,
    recs: Seq<flat_index::IndexRecord>,
    entries: Seq<sst_writer::EntryView>,
) -> bool {
    &&& recs.len() == entries.len()
    &&& forall|i: int|
        0 <= i < recs.len() ==> #[trigger] sst_writer::leads_to(file, recs[i], entries[i])
}

proof fn all_lead_grow(
    file: Seq<u8>,
    more: Seq<u8>,
    recs: Seq<flat_index::IndexRecord>,
    entries: Seq<sst_writer::EntryView>,
)
    requires
        all_lead(file, recs, entries),
    ensures
        all_lead(file + more, recs, entries),
{
    assert forall|i: int| 0 <= i < recs.len() implies #[trigger] sst_writer::leads_to(
        file + more,
        recs[i],
        entries[i],
    ) by {
        assert(sst_writer::leads_to(file, recs[i], entries[i]));
        let raw = choose|raw: Seq<u8>| #[trigger]
            sst_format::block_at(file, recs[i].1 as int, raw) && sst_format::framed_at(
                raw,
                recs[i].2 as int,
            ) == Ok::<Seq<u8>, Seq<char>>(entries[i].1);
        sst_format::block_at_grows(file, more, recs[i].1 as int, raw);
    }
}

proof fn blocks_fit_prefix(entries: Seq<sst_writer::EntryView>, k: int)
    requires
        0 <= k <= entries.len(),
        sst_writer::blocks_fit(entries),
    ensures
        sst_writer::blocks_fit(entries.take(k)),
    decreases entries.len(),
{
    if k < entries.len() {
        assert(entries.drop_last().take(k) =~= entries.take(k));
        blocks_fit_prefix(entries.drop_last(), k);
    } else {
        assert(entries.take(k) =~= entries);
    }
}

/// Both filters have the same bits and hash functions.
pub open spec fn same_filter(a: Option<BloomFilter>, b: Option<BloomFilter>) -> bool {
    match (a, b) {
        (Some(x), Some(y)) => x.bit_seq() == y.bit_seq() && x.hash_num() == y.hash_num()
            && x.bit_num() == y.bit_num(),
        (None, None) => true,
        _ => false,
    }
}

impl SSTable {
    /// Begins to open the table: whether its metadata still has to be read.
    pub fn begin_open(&mut self, now: u64) -> (r: bool)
        ensures
            *final(self) == (SSTable { last_access: now, ..*old(self) }),
            r == !old(self).is_ready,
    {
        self.update_last_access(now);
        !self.is_ready
    }

    /// Notes when the table was used, in nanoseconds since the epoch.
    pub fn update_last_access(&mut self, now: u64)
        ensures
            *final(self) == (SSTable { last_access: now, ..*old(self) }),
    {
        self.last_access = now;
    }

    /// When the table was used last, in nanoseconds since the epoch.
    pub fn last_access(&self) -> (r: u64)
        ensures
            r == self.last_access,
    {
        self.last_access
    }

    /// The metadata.
    pub fn metadata(&self) -> (r: &SSTableMetadata)
        ensures
            r == self.metadata,
    {
        &self.metadata
    }

    /// The path of the file.
    pub fn path(&self) -> (r: &str)
        ensures
            r@ == self.path@,
    {
        self.path.as_str()
    }

    /// Whether the table can be read.
    pub fn is_ready(&self) -> (r: bool)
        ensures
            r == self.is_ready,
    {
        self.is_ready
    }

    /// Whether the data stands in packed blocks.
    pub fn is_block_compressed(&self) -> (r: bool)
        ensures
            r == self.block_compressed,
    {
        self.block_compressed
    }

    /// The size of the data in bytes.
    pub fn size(&self) -> (r: u64)
        ensures
            r == self.metadata.file_size,
    {
        self.metadata.file_size
    }

    /// The number of keys of the index; nothing as long as it is not loaded.
    pub fn index_size(&self) -> (r: usize)
        ensures
            r == if self.index_loaded {
                self.index@.len()
            } else {
                0
            },
    {
        if self.index_loaded {
            self.index.len()
        } else {
            0
        }
    }

    /// A copy that remembers no block.
    pub fn clone_for_testing(&self) -> (r: Self)
        ensures
            r.path@ == self.path@,
            r.quoted_path@ == self.quoted_path@,
            r.config == self.config,
            r.metadata@ == self.metadata@,
            r.index@ == self.index@,
            r.index.wf() == self.index.wf(),
            r.index_loaded == self.index_loaded,
            same_filter(r.bloom_filter, self.bloom_filter),
            r.last_access == self.last_access,
            r.is_ready == self.is_ready,
            r.block_compressed == self.block_compressed,
            r.decompressed_block is None,
    {
        let bloom_filter = match &self.bloom_filter {
            Some(filter) => Some(filter.clone()),
            None => None,
        };
        SSTable {
            path: self.path.clone(),
            quoted_path: self.quoted_path.clone(),
            config: self.config,
            metadata: self.metadata.clone(),
            index: self.index.clone(),
            index_loaded: self.index_loaded,
            bloom_filter,
            last_access: self.last_access,
            is_ready: self.is_ready,
            block_compressed: self.block_compressed,
            decompressed_block: None,
        }
    }
}

} // verus!
