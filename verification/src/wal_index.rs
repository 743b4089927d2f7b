//! The durable index of the indexed log: two slots, written in turn.

use crate::bytes::{self, bytes_equal, extend};
use crate::checksum::{self, crc32};
use crate::error::LsmError;
use crate::text::{self, push_dec};
use vstd::bytes::*;
use vstd::prelude::*;
use vstd::slice::*;
use vstd::string::*;

verus! {

/// The first bytes of a slot.
pub const WAL_INDEX_MAGIC: [u8; 4] = [87u8, 73u8, 68u8, 88u8];

/// The version of the slot layout.
pub const WAL_INDEX_VERSION: u8 = 1;

/// Size of a slot in bytes.
pub const WAL_INDEX_SLOT_SIZE: usize = 4096;

/// Size of the index file in bytes.
pub const WAL_INDEX_FILE_SIZE: usize = 8192;

/// How much of a log segment is durable.
#[derive(Debug, Clone, Copy, PartialEq, Eq, Structural)]
pub struct WalIndexHeader {
    /// How often the index was written.
    pub generation: u64,
    /// The segment that it describes.
    pub segment_id: u32,
    /// Size of a frame in bytes.
    pub frame_size: u32,
    /// The highest frame with durable bytes; 0 while there is none.
    pub committed_frame: u32,
    /// How many bytes of that frame are used.
    pub committed_offset: u32,
    /// How many entries were committed.
    pub entry_count: u64,
    /// Checksum of all of the above.
    pub checksum: u32,
}

/// The magic bytes as a sequence.
pub open spec fn index_magic() -> Seq<u8> {
    seq![87u8, 73u8, 68u8, 88u8]
}

/// So many zero bytes.
pub open spec fn zero_bytes(n: nat) -> Seq<u8> {
    Seq::new(n, |i: int| 0u8)
}

/// The six numbers that a slot holds before its checksum.
pub open spec fn index_numbers(h: WalIndexHeader) -> Seq<u8> {
    spec_u64_to_le_bytes(h.generation) + spec_u32_to_le_bytes(h.segment_id) + spec_u32_to_le_bytes(
        h.frame_size,
    ) + spec_u32_to_le_bytes(h.committed_frame) + spec_u32_to_le_bytes(h.committed_offset)
        + spec_u64_to_le_bytes(h.entry_count)
}

/// What the checksum of a header covers.
pub open spec fn index_covered(h: WalIndexHeader) -> Seq<u8> {
    index_magic().push(WAL_INDEX_VERSION) + index_numbers(h)
}

/// A header as a slot holds it.
pub open spec fn slot_of(h: WalIndexHeader) -> Seq<u8> {
    index_magic().push(WAL_INDEX_VERSION) + zero_bytes(3) + index_numbers(h)
        + spec_u32_to_le_bytes(h.checksum) + zero_bytes((WAL_INDEX_SLOT_SIZE - 44) as nat)
}

/// The header at the fixed places of a slot.
pub open spec fn header_in(slot: Seq<u8>) -> WalIndexHeader {
    WalIndexHeader {
        generation: spec_u64_from_le_bytes(slot.subrange(8, 16)),
        segment_id: spec_u32_from_le_bytes(slot.subrange(16, 20)),
        frame_size: spec_u32_from_le_bytes(slot.subrange(20, 24)),
        committed_frame: spec_u32_from_le_bytes(slot.subrange(24, 28)),
        committed_offset: spec_u32_from_le_bytes(slot.subrange(28, 32)),
        entry_count: spec_u64_from_le_bytes(slot.subrange(32, 40)),
        checksum: spec_u32_from_le_bytes(slot.subrange(40, 44)),
    }
}

/// The header that a slot holds, if the slot can be read.
pub open spec fn slot_header(slot: Seq<u8>) -> Option<WalIndexHeader> {
    if slot.len() >= 44 && slot.subrange(0, 4) == index_magic() && slot[4] == WAL_INDEX_VERSION
        && header_in(slot).is_valid() {
        Some(header_in(slot))
    } else {
        None
    }
}

/// The header with the higher generation; the second one where they are equal.
pub open spec fn newer(
    a: Option<WalIndexHeader>,
    b: Option<WalIndexHeader>,
) -> Option<WalIndexHeader> {
    match (a, b) {
        (Some(x), Some(y)) => if x.generation > y.generation {
            a
        } else {
            b
        },
        (Some(_), None) => a,
        _ => b,
    }
}

impl WalIndexHeader {
    /// The checksum is right.
    pub open spec fn is_valid(self) -> bool {
        self.checksum == checksum::crc32_of(index_covered(self))
    }

    /// The header of a segment in which nothing is durable yet.
    pub fn new(segment_id: u32, frame_size: u32) -> (r: Self)
        ensures
            r.is_valid(),
            r.generation == 0,
            r.segment_id == segment_id,
            r.frame_size == frame_size,
            r.committed_frame == 0,
            r.committed_offset == 0,
            r.entry_count == 0,
    {
        let mut header = WalIndexHeader {
            generation: 0,
            segment_id,
            frame_size,
            committed_frame: 0,
            committed_offset: 0,
            entry_count: 0,
            checksum: 0,
        };
        header.checksum = header.compute_checksum();
        header
    }

    fn push_numbers(&self, out: &mut Vec<u8>)
        ensures
            final(out)@ == old(out)@ + index_numbers(*self),
    {
        extend(out, u64_to_le_bytes(self.generation).as_slice());
        extend(out, u32_to_le_bytes(self.segment_id).as_slice());
        extend(out, u32_to_le_bytes(self.frame_size).as_slice());
        extend(out, u32_to_le_bytes(self.committed_frame).as_slice());
        extend(out, u32_to_le_bytes(self.committed_offset).as_slice());
        extend(out, u64_to_le_bytes(self.entry_count).as_slice());
        assert(out@ =~= old(out)@ + index_numbers(*self));
    }

    /// The checksum of everything else in the header.
    pub fn compute_checksum(&self) -> (r: u32)
        ensures
            r == checksum::crc32_of(index_covered(*self)),
    {
        let mut covered: Vec<u8> = Vec::new();
        push_preamble(&mut covered);
        self.push_numbers(&mut covered);
        assert(covered@ =~= index_covered(*self));
        crc32(covered.as_slice())
    }

    /// Whether the checksum is right.
    pub fn verify(&self) -> (r: bool)
        ensures
            r == self.is_valid(),
    {
        self.checksum == self.compute_checksum()
    }

    /// The header as a slot holds it.
    pub fn to_slot_bytes(&self) -> (r: Vec<u8>)
        ensures
            r@ == slot_of(*self),
            r@.len() == WAL_INDEX_SLOT_SIZE,
    {
        let mut slot: Vec<u8> = Vec::with_capacity(WAL_INDEX_SLOT_SIZE);
        push_preamble(&mut slot);
        push_zeros(&mut slot, 3);
        self.push_numbers(&mut slot);
        extend(&mut slot, u32_to_le_bytes(self.checksum).as_slice());
        push_zeros(&mut slot, WAL_INDEX_SLOT_SIZE - 44);
        proof {
            vstd::bytes::lemma_auto_spec_u64_to_from_le_bytes();
            vstd::bytes::lemma_auto_spec_u32_to_from_le_bytes();
            bytes::u64_back(self.generation);
            bytes::u64_back(self.entry_count);
            bytes::u32_back(self.segment_id);
            bytes::u32_back(self.frame_size);
            bytes::u32_back(self.committed_frame);
            bytes::u32_back(self.committed_offset);
            bytes::u32_back(self.checksum);
            assert(slot@ =~= slot_of(*self));
        }
        slot
    }

    /// The header that a slot holds.
    pub fn from_slot_bytes(slot: &[u8]) -> (r: Result<Self, LsmError>)
        ensures
            r is Ok <==> slot_header(slot@) is Some,
            match r {
                Ok(h) => slot_header(slot@) == Some(h),
                Err(e) => if slot@.len() < 44 {
                    e.is_corruption("wal.idx slot too small"@)
                } else if slot@.subrange(0, 4) != index_magic() {
                    e.is_corruption("wal.idx bad magic"@)
                } else if slot@[4] != WAL_INDEX_VERSION {
                    e.is_corruption("wal.idx unsupported version "@ + text::dec(slot@[4] as nat))
                } else {
                    e.is_corruption("wal.idx checksum mismatch"@)
                },
            },
    {
        if slot.len() < 44 {
            return Err(LsmError::Corruption("wal.idx slot too small".to_owned()));
        }
        let magic: [u8; 4] = WAL_INDEX_MAGIC;
        assert(magic@ =~= index_magic());
        if !bytes_equal(slice_subrange(slot, 0, 4), magic.as_slice()) {
            return Err(LsmError::Corruption("wal.idx bad magic".to_owned()));
        }
        if slot[4] != WAL_INDEX_VERSION {
            let mut m = "wal.idx unsupported version ".to_owned();
            push_dec(&mut m, slot[4] as u64);
            return Err(LsmError::Corruption(m));
        }
        let header = WalIndexHeader {
            generation: u64_from_le_bytes(slice_subrange(slot, 8, 16)),
            segment_id: u32_from_le_bytes(slice_subrange(slot, 16, 20)),
            frame_size: u32_from_le_bytes(slice_subrange(slot, 20, 24)),
            committed_frame: u32_from_le_bytes(slice_subrange(slot, 24, 28)),
            committed_offset: u32_from_le_bytes(slice_subrange(slot, 28, 32)),
            entry_count: u64_from_le_bytes(slice_subrange(slot, 32, 40)),
            checksum: u32_from_le_bytes(slice_subrange(slot, 40, 44)),
        };
        if !header.verify() {
            return Err(LsmError::Corruption("wal.idx checksum mismatch".to_owned()));
        }
        Ok(header)
    }
}

fn push_preamble(out: &mut Vec<u8>)
    ensures
        final(out)@ == old(out)@ + index_magic().push(WAL_INDEX_VERSION),
{
    let magic: [u8; 4] = WAL_INDEX_MAGIC;
    extend(out, magic.as_slice());
    out.push(WAL_INDEX_VERSION);
    assert(magic@ =~= index_magic());
    assert(out@ =~= old(out)@ + index_magic().push(WAL_INDEX_VERSION));
}

/// Appends `n` zero bytes.
pub fn push_zeros(out: &mut Vec<u8>, n: usize)
    ensures
        final(out)@ == old(out)@ + zero_bytes(n as nat),
{
    let mut i: usize = 0;
    assert(out@ =~= old(out)@ + zero_bytes(0));
    while i < n
        invariant
            i <= n,
            out@ == old(out)@ + zero_bytes(i as nat),
        decreases n - i,
    {
        out.push(0u8);
        i = i + 1;
        assert(out@ =~= old(out)@ + zero_bytes(i as nat));
    }
}

/// A slot gives back the header that was written to it, as long as its checksum is right.
pub proof fn slot_round_trip(h: WalIndexHeader)
    requires
        h.is_valid(),
    ensures
        slot_header(slot_of(h)) == Some(h),
        slot_of(h).len() == WAL_INDEX_SLOT_SIZE,
{
    bytes::u64_back(h.generation);
    bytes::u64_back(h.entry_count);
    bytes::u32_back(h.segment_id);
    bytes::u32_back(h.frame_size);
    bytes::u32_back(h.committed_frame);
    bytes::u32_back(h.committed_offset);
    bytes::u32_back(h.checksum);
    let slot = slot_of(h);
    assert(slot.subrange(0, 4) =~= index_magic());
    assert(slot[4] == WAL_INDEX_VERSION);
    assert(slot.subrange(8, 16) =~= spec_u64_to_le_bytes(h.generation));
    assert(slot.subrange(16, 20) =~= spec_u32_to_le_bytes(h.segment_id));
    assert(slot.subrange(20, 24) =~= spec_u32_to_le_bytes(h.frame_size));
    assert(slot.subrange(24, 28) =~= spec_u32_to_le_bytes(h.committed_frame));
    assert(slot.subrange(28, 32) =~= spec_u32_to_le_bytes(h.committed_offset));
    assert(slot.subrange(32, 40) =~= spec_u64_to_le_bytes(h.entry_count));
    assert(slot.subrange(40, 44) =~= spec_u32_to_le_bytes(h.checksum));
}

/// A slot that is due to be written.
#[derive(Debug)]
pub struct SlotWrite {
    /// The header, with its new generation and checksum.
    pub header: WalIndexHeader,
    /// Where the slot lies in the index file.
    pub offset: u64,
    /// The slot.
    pub bytes: Vec<u8>,
    /// Whether the file is synced behind the write.
    pub durable: bool,
}

/// The generation that follows; the last one stays.
pub open spec fn next_generation(generation: u64) -> u64 {
    if generation == u64::MAX {
        generation
    } else {
        (generation + 1) as u64
    }
}

/// The slot that holds a generation: 0 or 1.
pub open spec fn slot_number(generation: u64) -> nat {
    (generation % 2) as nat
}

/// The header as it is written next: its generation follows that of `latest`.
pub open spec fn restamped(header: WalIndexHeader, latest: WalIndexHeader) -> WalIndexHeader {
    let stamped = WalIndexHeader { generation: next_generation(latest.generation), ..header };
    WalIndexHeader { checksum: checksum::crc32_of(index_covered(stamped)), ..stamped }
}

impl SlotWrite {
    /// It is what writing `header` behind `latest` calls for.
    pub open spec fn writes(
        self,
        header: WalIndexHeader,
        latest: WalIndexHeader,
        durable: bool,
    ) -> bool {
        &&& self.header == restamped(header, latest)
        &&& self.offset == slot_number(self.header.generation) * WAL_INDEX_SLOT_SIZE
        &&& self.bytes@ == slot_of(self.header)
        &&& self.durable == durable
    }
}

/// An open index file.
#[derive(Debug, Clone)]
pub struct WalIndexFile {
    /// Path of the file.
    pub path: String,
    /// The header that was read or written last.
    pub latest: WalIndexHeader,
}

impl WalIndexFile {
    /// Path of the file.
    pub fn path(&self) -> (r: &str)
        ensures
            r@ == self.path@,
    {
        self.path.as_str()
    }

    /// The header that was read or written last.
    pub fn latest(&self) -> (r: WalIndexHeader)
        ensures
            r == self.latest,
    {
        self.latest
    }

    /// The length that a file of `len` bytes is extended to before its slots are read.
    pub fn grown_length(len: u64) -> (r: Option<u64>)
        ensures
            r == (if len < WAL_INDEX_FILE_SIZE {
                Some(WAL_INDEX_FILE_SIZE as u64)
            } else {
                None
            }),
    {
        if len < WAL_INDEX_FILE_SIZE as u64 {
            Some(WAL_INDEX_FILE_SIZE as u64)
        } else {
            None
        }
    }

    /// An index whose slots read as `stored`: its latest header is the stored one, or a fresh
    /// one where nothing valid is stored.
    pub fn open(
        path: String,
        segment_id: u32,
        frame_size: u32,
        stored: Result<WalIndexHeader, LsmError>,
    ) -> (r: Self)
        ensures
            r.path@ == path@,
            match stored {
                Ok(h) => r.latest == h,
                Err(_) => {
                    &&& r.latest.is_valid()
                    &&& r.latest.generation == 0
                    &&& r.latest.segment_id == segment_id
                    &&& r.latest.frame_size == frame_size
                    &&& r.latest.committed_frame == 0
                    &&& r.latest.committed_offset == 0
                    &&& r.latest.entry_count == 0
                },
            },
    {
        let latest = match stored {
            Ok(h) => h,
            Err(_) => WalIndexHeader::new(segment_id, frame_size),
        };
        WalIndexFile { path, latest }
    }

    /// The newest header among the two slots.
    pub fn read_latest(slot_a: &[u8], slot_b: &[u8]) -> (r: Result<WalIndexHeader, LsmError>)
        ensures
            match (r, newer(slot_header(slot_a@), slot_header(slot_b@))) {
                (Ok(h), Some(n)) => h == n,
                (Err(e), None) => e.is_corruption("wal.idx has no valid slot"@),
                _ => false,
            },
    {
        match (WalIndexHeader::from_slot_bytes(slot_a), WalIndexHeader::from_slot_bytes(slot_b)) {
            (Ok(a), Ok(b)) => if a.generation > b.generation {
                Ok(a)
            } else {
                Ok(b)
            },
            (Ok(a), Err(_)) => Ok(a),
            (Err(_), Ok(b)) => Ok(b),
            (Err(_), Err(_)) => Err(LsmError::Corruption("wal.idx has no valid slot".to_owned())),
        }
    }

    fn write_slot(&self, header: WalIndexHeader, durable: bool) -> (r: SlotWrite)
        ensures
            r.writes(header, self.latest, durable),
    {
        let mut header = header;
        header.generation = self.latest.generation.saturating_add(1);
        header.checksum = header.compute_checksum();
        proof {
            let stamped = WalIndexHeader { checksum: header.checksum, ..restamped(header, self.latest) };
            assert(index_covered(stamped) =~= index_covered(header));
        }
        let slot_index: u64 = header.generation % 2;
        let offset = slot_index * WAL_INDEX_SLOT_SIZE as u64;
        let bytes = header.to_slot_bytes();
        SlotWrite { header, offset, bytes, durable }
    }

    /// What is written to commit `header`, synced before the commit counts.
    pub fn commit(&self, header: WalIndexHeader) -> (r: SlotWrite)
        ensures
            r.writes(header, self.latest, true),
    {
        self.write_slot(header, true)
    }

    /// What is written to commit `header` without a sync; the frame files are synced on their
    /// own.
    pub fn commit_volatile(&self, header: WalIndexHeader) -> (r: SlotWrite)
        ensures
            r.writes(header, self.latest, false),
    {
        self.write_slot(header, false)
    }

    /// Takes note that the slot was written.
    pub fn slot_written(&mut self, write: &SlotWrite)
        ensures
            final(self).latest == write.header,
            final(self).path == old(self).path,
    {
        self.latest = write.header;
    }
}

/// The two slots hold `latest` as their newest header, in the slot of its generation.
pub open spec fn slots_hold(slots: Seq<Seq<u8>>, latest: WalIndexHeader) -> bool {
    let own = slot_number(latest.generation) as int;
    &&& slots.len() == 2
    &&& slot_header(slots[own]) == Some(latest)
    &&& slot_header(slots[1 - own]) matches Some(h) ==> h.generation < latest.generation
}

/// Writing the next slot makes its header the newest one.
pub proof fn commit_is_read_back(
    slots: Seq<Seq<u8>>,
    latest: WalIndexHeader,
    header: WalIndexHeader,
)
    requires
        slots_hold(slots, latest),
        latest.generation < u64::MAX,
    ensures
        ({
            let next = restamped(header, latest);
            let after = slots.update(slot_number(next.generation) as int, slot_of(next));
            &&& slots_hold(after, next)
            &&& newer(slot_header(after[0]), slot_header(after[1])) == Some(next)
        }),
{
    let next = restamped(header, latest);
    let bare = WalIndexHeader { generation: next.generation, ..header };
    assert(index_covered(next) =~= index_covered(bare));
    slot_round_trip(next);
    assert(slot_number(next.generation) == 1 - slot_number(latest.generation));
}

/// A write of the next slot that leaves the slot unreadable leaves the last header the newest one.
pub proof fn torn_commit_keeps_latest(
    slots: Seq<Seq<u8>>,
    latest: WalIndexHeader,
    header: WalIndexHeader,
    torn: Seq<u8>,
)
    requires
        slots_hold(slots, latest),
        latest.generation < u64::MAX,
        slot_header(torn) is None,
    ensures
        ({
            let next = restamped(header, latest);
            let after = slots.update(slot_number(next.generation) as int, torn);
            &&& slots_hold(after, latest)
            &&& newer(slot_header(after[0]), slot_header(after[1])) == Some(latest)
        }),
{
    let next = restamped(header, latest);
    assert(slot_number(next.generation) == 1 - slot_number(latest.generation));
}

} // verus!
