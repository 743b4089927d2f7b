//! Writing the data section of a table: entries are framed into blocks, and each block that is
//! full is packed and placed behind the ones before it.

use crate::bytes::{self, extend};
use crate::error::LsmError;
use crate::flat_index;
use crate::snappy::{self, snap_compress};
use crate::sst_format::{self, checksum_entry, SST_BLOCK_TARGET};
use crate::text;
use vstd::bytes::*;
use vstd::prelude::*;
use vstd::string::*;
use vstd::utf8::*;

verus! {

/// An entry to be written: its key and its serialized form.
#[derive(Debug, Clone)]
pub struct TableEntry {
    /// The key.
    pub key: String,
    /// The serialized entry.
    pub data: Vec<u8>,
}

/// The key and the bytes of an entry.
pub type EntryView = (Seq<char>, Seq<u8>);

/// The entries as keys and bytes.
pub open spec fn entries_view(entries: Seq<TableEntry>) -> Seq<EntryView> {
    entries.map_values(|e: TableEntry| (e.key@, e.data@))
}

/// The state of the data section: what is written, the index records of the written blocks, the
/// open block, and the key and position of each entry in it.
#[verifier::ext_equal]
pub struct LayoutView {
    pub out: Seq<u8>,
    pub recs: Seq<flat_index::IndexRecord>,
    pub block: Seq<u8>,
    pub pending: Seq<(Seq<u8>, u32)>,
}

/// The index records of entries in a block at `off`.
pub open spec fn placed_records(pending: Seq<(Seq<u8>, u32)>, off: u64) -> Seq<
    flat_index::IndexRecord,
> {
    pending.map_values(|p: (Seq<u8>, u32)| (p.0, off, p.1))
}

impl LayoutView {
    /// Nothing but the header.
    pub open spec fn start() -> LayoutView {
        LayoutView {
            out: sst_format::sst_header(),
            recs: Seq::empty(),
            block: Seq::empty(),
            pending: Seq::empty(),
        }
    }

    /// The open block, if it holds anything, is written.
    pub open spec fn flushed(self) -> LayoutView {
        if self.block.len() == 0 {
            self
        } else {
            LayoutView {
                out: self.out + sst_format::block_bytes(self.block),
                recs: self.recs + placed_records(self.pending, self.out.len() as u64),
                block: Seq::empty(),
                pending: Seq::empty(),
            }
        }
    }

    /// The open block is full.
    pub open spec fn full(self) -> bool {
        self.block.len() >= SST_BLOCK_TARGET
    }

    /// The state in which the next entry is added.
    pub open spec fn ready(self) -> LayoutView {
        if self.full() {
            self.flushed()
        } else {
            self
        }
    }

    /// One more entry.
    pub open spec fn added(self, e: EntryView) -> LayoutView {
        let l = self.ready();
        LayoutView {
            out: l.out,
            recs: l.recs,
            block: l.block + sst_format::framed(e.1),
            pending: l.pending.push((encode_utf8(e.0), l.block.len() as u32)),
        }
    }
}

/// The state after the entries were added.
pub open spec fn layout(entries: Seq<EntryView>) -> LayoutView
    decreases entries.len(),
{
    if entries.len() == 0 {
        LayoutView::start()
    } else {
        layout(entries.drop_last()).added(entries.last())
    }
}

/// Every block that is written while the entries are added can be packed.
pub open spec fn blocks_fit(entries: Seq<EntryView>) -> bool
    decreases entries.len(),
{
    entries.len() > 0 ==> {
        &&& blocks_fit(entries.drop_last())
        &&& layout(entries.drop_last()).full() ==> snappy::snappy_fits(
            layout(entries.drop_last()).block.len(),
        )
    }
}

/// The data section of the entries, and whether every block of it can be packed.
pub open spec fn data_section(entries: Seq<EntryView>) -> LayoutView {
    layout(entries).flushed()
}

pub open spec fn data_section_fits(entries: Seq<EntryView>) -> bool {
    blocks_fit(entries) && (layout(entries).block.len() > 0 ==> snappy::snappy_fits(
        layout(entries).block.len(),
    ))
}

/// Every entry is small enough to be read back.
pub open spec fn entries_readable(entries: Seq<EntryView>) -> bool {
    forall|i: int|
        0 <= i < entries.len() ==> 1 <= (#[trigger] entries[i]).1.len() <= sst_format::MAX_ENTRY_SIZE
}

/// The record leads to the entry: a block stands at its offset, and the entry is framed in it,
/// beginning within the size at which blocks are closed.
pub open spec fn leads_to(
    file: Seq<u8>,
    rec: flat_index::IndexRecord,
    e: EntryView,
) -> bool {
    &&& rec.0 == encode_utf8(e.0)
    &&& rec.1 < file.len()
    &&& rec.2 < SST_BLOCK_TARGET
    &&& exists|raw: Seq<u8>| #[trigger]
        sst_format::block_at(file, rec.1 as int, raw) && sst_format::framed_at(raw, rec.2 as int)
            == Ok::<Seq<u8>, Seq<char>>(e.1)
}

/// The entry is framed in the open block.
pub open spec fn framed_in(block: Seq<u8>, p: (Seq<u8>, u32), e: EntryView) -> bool {
    &&& p.0 == encode_utf8(e.0)
    &&& p.1 < SST_BLOCK_TARGET
    &&& sst_format::framed_at(block, p.1 as int) == Ok::<Seq<u8>, Seq<char>>(e.1)
}

/// Every entry is in a written block or in the open one, in order.
pub open spec fn all_placed(l: LayoutView, entries: Seq<EntryView>) -> bool {
    &&& l.recs.len() + l.pending.len() == entries.len()
    &&& l.block.len() == 0 <==> l.pending.len() == 0
    &&& l.block.len() <= SST_BLOCK_TARGET + sst_format::MAX_ENTRY_SIZE + 8
    &&& forall|i: int| 0 <= i < l.recs.len() ==> #[trigger] leads_to(l.out, l.recs[i], entries[i])
    &&& forall|j: int|
        0 <= j < l.pending.len() ==> #[trigger] framed_in(
            l.block,
            l.pending[j],
            entries[l.recs.len() + j],
        )
}

/// The writer of a data section.
#[derive(Debug)]
pub struct TableWriter {
    out: Vec<u8>,
    index_pairs: Vec<(String, u64, u32)>,
    block: Vec<u8>,
    pending: Vec<(String, u32)>,
}

/// The keys and positions of pending entries.
spec fn pending_view(pending: Seq<(String, u32)>) -> Seq<(Seq<u8>, u32)> {
    pending.map_values(|p: (String, u32)| (encode_utf8(p.0@), p.1))
}

impl View for TableWriter {
    type V = LayoutView;

    closed spec fn view(&self) -> LayoutView {
        LayoutView {
            out: self.out@,
            recs: flat_index::pairs_records(self.index_pairs@),
            block: self.block@,
            pending: pending_view(self.pending@),
        }
    }
}

impl TableWriter {
    /// Starts a file with its header.
    pub fn start() -> (r: Self)
        ensures
            r@ == LayoutView::start(),
            r@.out.len() <= usize::MAX,
    {
        let out: Vec<u8> = vec![0x46, 0x34, 0x53, 0x43, 1, 0, 0, 0];
        let r = TableWriter {
            out,
            index_pairs: Vec::new(),
            block: Vec::new(),
            pending: Vec::new(),
        };
        assert(r@.out =~= sst_format::sst_header());
        assert(r@.recs =~= Seq::empty());
        assert(r@.pending =~= Seq::empty());
        assert(r@ =~= LayoutView::start());
        assert(r@.out.len() == 8);
        r
    }

    /// Packs the open block, writes it and turns its entries into index records.
    pub fn write_snappy_block(&mut self) -> (r: Result<(), LsmError>)
        ensures
            r is Ok <==> (old(self)@.block.len() > 0 ==> snappy::snappy_fits(old(self)@.block.len())),
            r is Ok ==> final(self)@ == old(self)@.flushed(),
            r is Ok && old(self)@.block.len() > 0 ==> packable(old(self)@.block),
            r matches Err(e) ==> e.is_internal(too_big_text(old(self)@.block.len())),
            r is Err ==> final(self)@ == old(self)@,
    {
        if self.block.len() == 0 {
            return Ok(());
        }
        let compressed = snap_compress(self.block.as_slice())?;
        let ghost before = self@;
        let unc_len = u32_to_le_bytes(self.block.len() as u32);
        let comp_len = u32_to_le_bytes(compressed.len() as u32);
        let block_off: u64 = self.out.len() as u64;
        extend(&mut self.out, unc_len.as_slice());
        extend(&mut self.out, comp_len.as_slice());
        extend(&mut self.out, compressed.as_slice());
        assert(self.out@ =~= before.out + sst_format::block_bytes(before.block));
        let n: usize = self.pending.len();
        let mut i: usize = 0;
        while i < n
            invariant
                n == self.pending@.len(),
                i <= n,
                self.block@ == before.block,
                self.out@ == before.out + sst_format::block_bytes(before.block),
                pending_view(self.pending@) == before.pending,
                block_off == before.out.len() as u64,
                flat_index::pairs_records(self.index_pairs@) == before.recs + placed_records(
                    before.pending,
                    block_off,
                ).take(i as int),
            decreases n - i,
        {
            let key = self.pending[i].0.clone();
            let in_off: u32 = self.pending[i].1;
            let ghost pairs = self.index_pairs@;
            self.index_pairs.push((key, block_off, in_off));
            proof {
                assert(flat_index::pairs_records(self.index_pairs@) =~= flat_index::pairs_records(
                    pairs,
                ).push((encode_utf8(key@), block_off, in_off)));
                assert(placed_records(before.pending, block_off).take(i + 1) =~= placed_records(
                    before.pending,
                    block_off,
                ).take(i as int).push((pending_view(self.pending@)[i as int].0, block_off, in_off)));
                assert(flat_index::pairs_records(self.index_pairs@) =~= before.recs
                    + placed_records(before.pending, block_off).take(i + 1));
            }
            i = i + 1;
        }
        self.pending.clear();
        self.block.clear();
        proof {
            assert(placed_records(before.pending, block_off).take(i as int) =~= placed_records(
                before.pending,
                block_off,
            ));
            assert(self@.pending =~= Seq::empty());
            assert(self@ =~= before.flushed());
        }
        Ok(())
    }

    /// Frames an entry into the open block, after writing that block if it is full.
    pub fn add_entry(&mut self, key: &str, data: &[u8]) -> (r: Result<(), LsmError>)
        ensures
            r is Ok <==> (old(self)@.full() ==> snappy::snappy_fits(old(self)@.block.len())),
            r is Ok ==> final(self)@ == old(self)@.added((key@, data@)),
            old(self)@.out.len() <= usize::MAX ==> final(self)@.out.len() <= usize::MAX,
            r is Ok && old(self)@.full() ==> packable(old(self)@.block),
            r matches Err(e) ==> e.is_internal(too_big_text(old(self)@.block.len())),
            r is Err ==> final(self)@ == old(self)@,
    {
        if self.block.len() >= SST_BLOCK_TARGET {
            self.write_snappy_block()?;
        }
        let ghost before = self@;
        let in_off: u32 = self.block.len() as u32;
        let entry_size: u32 = data.len() as u32;
        let sum: u32 = checksum_entry(entry_size, data);
        let size_bytes = u32_to_le_bytes(entry_size);
        let sum_bytes = u32_to_le_bytes(sum);
        extend(&mut self.block, size_bytes.as_slice());
        extend(&mut self.block, data);
        extend(&mut self.block, sum_bytes.as_slice());
        let ghost pending = self.pending@;
        let owned = key.to_owned();
        self.pending.push((owned, in_off));
        proof {
            assert(self.block@ =~= before.block + sst_format::framed(data@));
            assert(pending_view(self.pending@) =~= pending_view(pending).push(
                (encode_utf8(key@), in_off),
            ));
            assert(self@ =~= old(self)@.added((key@, data@)));
        }
        let written: usize = self.out.len();
        assert(self@.out.len() == written);
        Ok(())
    }

    /// Writes the open block and hands over the file so far and the index pairs.
    pub fn finish(self) -> (r: Result<(Vec<u8>, Vec<(String, u64, u32)>), LsmError>)
        ensures
            r is Ok <==> (self@.block.len() > 0 ==> snappy::snappy_fits(self@.block.len())),
            r matches Ok((out, pairs)) ==> {
                &&& out@ == self@.flushed().out
                &&& out@.len() <= usize::MAX
                &&& flat_index::pairs_records(pairs@) == self@.flushed().recs
                &&& self@.block.len() > 0 ==> packable(self@.block)
            },
            r matches Err(e) ==> e.is_internal(too_big_text(self@.block.len())),
    {
        let mut w = self;
        w.write_snappy_block()?;
        let written: usize = w.out.len();
        assert(w@.out.len() == written);
        Ok((w.out, w.index_pairs))
    }
}

/// Packing this block and unpacking it again works and gives it back.
pub open spec fn packable(raw: Seq<u8>) -> bool {
    let comp = snappy::snappy_compressed(raw);
    &&& 1 <= comp.len() <= snappy::snappy_bound(raw.len())
    &&& snappy::snappy_decompressed(comp) == Ok::<Seq<u8>, Seq<char>>(raw)
}

/// The message for data that cannot be packed.
pub open spec fn too_big_text(n: nat) -> Seq<char> {
    "snappy compress: snappy: input buffer (size = "@ + text::dec(n)
        + ") is larger than allowed (size = 4294967295)"@
}

/// Writing the open block keeps every entry placed.
pub proof fn flushed_all_placed(l: LayoutView, entries: Seq<EntryView>)
    requires
        all_placed(l, entries),
        l.out.len() <= u64::MAX,
        l.block.len() > 0 ==> packable(l.block),
    ensures
        all_placed(l.flushed(), entries),
        l.flushed().pending.len() == 0,
{
    if l.block.len() > 0 {
        let f = l.flushed();
        let more = sst_format::block_bytes(l.block);
        let off = l.out.len() as u64;
        let tail = placed_records(l.pending, off);
        sst_format::block_round_trip(l.out, l.block, Seq::empty());
        assert(l.out + more + Seq::<u8>::empty() =~= f.out);
        bytes::u32_back(l.block.len() as u32);
        assert forall|i: int| 0 <= i < f.recs.len() implies #[trigger] leads_to(
            f.out,
            f.recs[i],
            entries[i],
        ) by {
            if i < l.recs.len() {
                assert(leads_to(l.out, l.recs[i], entries[i]));
                let raw = choose|raw: Seq<u8>| #[trigger]
                    sst_format::block_at(l.out, l.recs[i].1 as int, raw) && sst_format::framed_at(
                        raw,
                        l.recs[i].2 as int,
                    ) == Ok::<Seq<u8>, Seq<char>>(entries[i].1);
                sst_format::block_at_grows(l.out, more, l.recs[i].1 as int, raw);
            } else {
                let j = i - l.recs.len();
                assert(framed_in(l.block, l.pending[j], entries[l.recs.len() + j]));
                assert(f.recs[i] == tail[j]);
                assert(sst_format::block_at(f.out, off as int, l.block));
            }
        }
    }
}

/// Adding an entry that can be read back keeps every entry placed.
pub proof fn added_all_placed(l: LayoutView, entries: Seq<EntryView>, e: EntryView)
    requires
        all_placed(l, entries),
        l.out.len() <= u64::MAX,
        l.full() ==> packable(l.block),
        1 <= e.1.len() <= sst_format::MAX_ENTRY_SIZE,
    ensures
        all_placed(l.added(e), entries.push(e)),
{
    if l.full() {
        flushed_all_placed(l, entries);
    }
    let r = l.ready();
    let a = l.added(e);
    let more = entries.push(e);
    assert(all_placed(r, entries));
    bytes::u32_back(e.1.len() as u32);
    bytes::u32_back(sst_format::entry_checksum(e.1));
    sst_format::framed_round_trip(r.block, e.1, Seq::empty());
    assert(r.block + sst_format::framed(e.1) + Seq::<u8>::empty() =~= a.block);
    assert forall|i: int| 0 <= i < a.recs.len() implies #[trigger] leads_to(a.out, a.recs[i], more[i]) by {
        assert(leads_to(r.out, r.recs[i], entries[i]));
    }
    assert forall|j: int| 0 <= j < a.pending.len() implies #[trigger] framed_in(
        a.block,
        a.pending[j],
        more[a.recs.len() + j],
    ) by {
        if j < r.pending.len() {
            assert(framed_in(r.block, r.pending[j], entries[r.recs.len() + j]));
            sst_format::framed_at_grows(r.block, sst_format::framed(e.1), r.pending[j].1 as int);
        }
    }
}

} // verus!
