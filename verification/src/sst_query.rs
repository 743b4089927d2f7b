//! Questions that a table's index answers: which keys it may hold, which keys follow, and where
//! the entries of a prefix or a range stand.

use crate::bloom_filter;
use crate::bytes::{self, bytes_equal, bytes_less, bytes_start_with};
use crate::flat_index;
use crate::lsm_utils::{self, exclusive_range_end};
use crate::seqs;
use crate::sstable::SSTable;
use crate::value::{self, Value};
use vstd::prelude::*;
use vstd::slice::*;
use vstd::string::*;
use vstd::utf8::*;

verus! {

/// The text of bytes, with what is no UTF-8 replaced.
pub uninterp spec fn lossy_text(data: Seq<u8>) -> Seq<char>;

/// `String::from_utf8_lossy`: UTF-8 is decoded, and what is none is replaced in a way that depends
/// on the bytes alone.
#[verifier::external_body]
fn text_lossy(data: &[u8]) -> (r: String)
    ensures
        r@ == lossy_text(data@),
        valid_utf8(data@) ==> r@ == decode_utf8(data@),
{
    String::from_utf8_lossy(data).into_owned()
}

/// The text of a stored key: what its bytes encode, or their text with what is no UTF-8 replaced.
pub open spec fn key_text(data: Seq<u8>) -> Seq<char> {
    if valid_utf8(data) {
        decode_utf8(data)
    } else {
        lossy_text(data)
    }
}

/// A text that was stored as a key is read back.
pub proof fn stored_key_is_read_back(key: Seq<char>)
    ensures
        key_text(encode_utf8(key)) == key,
{
    encode_utf8_valid_utf8(key);
    encode_utf8_decode_utf8(key);
}

/// Where the entry of a key stands.
pub type Location = (Seq<char>, u64, u32);

/// The locations of records.
pub open spec fn locations(recs: Seq<flat_index::IndexRecord>) -> Seq<Location> {
    recs.map_values(|rec: flat_index::IndexRecord| (key_text(rec.0), rec.1, rec.2))
}

/// Locations with their keys as text.
pub open spec fn locs_view(locs: Seq<(String, u64, u32)>) -> Seq<Location> {
    locs.map_values(|l: (String, u64, u32)| (l.0@, l.1, l.2))
}

/// The records whose key begins with `prefix`.
pub open spec fn with_prefix(recs: Seq<flat_index::IndexRecord>, prefix: Seq<u8>) -> Seq<
    flat_index::IndexRecord,
> {
    recs.filter(has_prefix(prefix))
}

/// The records whose key is in a range.
pub open spec fn within(
    recs: Seq<flat_index::IndexRecord>,
    start: Seq<u8>,
    end: Seq<u8>,
) -> Seq<flat_index::IndexRecord> {
    recs.filter(|rec: flat_index::IndexRecord| lsm_utils::in_range(rec.0, start, end))
}

/// The record's key begins with `prefix`.
pub open spec fn has_prefix(prefix: Seq<u8>) -> spec_fn(flat_index::IndexRecord) -> bool {
    |rec: flat_index::IndexRecord| bytes::starts_with(rec.0, prefix)
}

/// The record's key is not after `end`; an empty `end` sets no limit.
pub open spec fn up_to(end: Seq<u8>) -> spec_fn(flat_index::IndexRecord) -> bool {
    |rec: flat_index::IndexRecord| end.len() == 0 || !bytes::bytes_lt(end, rec.0)
}

/// The record's key is `key`.
pub open spec fn has_key(key: Seq<u8>) -> spec_fn(flat_index::IndexRecord) -> bool {
    |rec: flat_index::IndexRecord| rec.0 == key
}

/// The first position from `i` on whose record is not kept.
pub open spec fn kept_until(
    recs: Seq<flat_index::IndexRecord>,
    keep: spec_fn(flat_index::IndexRecord) -> bool,
    i: int,
) -> int
    decreases recs.len() - i,
{
    if 0 <= i < recs.len() && keep(recs[i]) {
        kept_until(recs, keep, i + 1)
    } else {
        i
    }
}

/// The records with the prefix that stand together where a search for the prefix ends.
pub open spec fn prefix_run(recs: Seq<flat_index::IndexRecord>, prefix: Seq<u8>) -> Seq<
    flat_index::IndexRecord,
> {
    let lo = flat_index::search_position(recs, prefix);
    recs.subrange(lo, kept_until(recs, has_prefix(prefix), lo))
}

/// The records up to `end` that stand together where a search for `start` ends.
pub open spec fn range_run(
    recs: Seq<flat_index::IndexRecord>,
    start: Seq<u8>,
    end: Seq<u8>,
) -> Seq<flat_index::IndexRecord> {
    let lo = flat_index::search_position(recs, start);
    recs.subrange(lo, kept_until(recs, up_to(end), lo))
}

/// Where the look for a key with the prefix after `after` begins: behind `after`, unless it is
/// before all keys with the prefix.
pub open spec fn position_after(
    recs: Seq<flat_index::IndexRecord>,
    prefix: Seq<u8>,
    after: Option<Seq<u8>>,
) -> int {
    if after is Some && !bytes::bytes_lt(after->Some_0, prefix) {
        let a = after->Some_0;
        kept_until(recs, has_key(a), flat_index::search_position(recs, a))
    } else {
        flat_index::search_position(recs, prefix)
    }
}

/// The key is between the smallest and the largest key, and the filter, if there is one, does not
/// rule it out.
pub open spec fn may_exist(table: SSTable, key: Seq<char>) -> bool {
    let k = encode_utf8(key);
    &&& table.is_ready
    &&& !bytes::bytes_lt(k, encode_utf8(table.metadata.smallest_key@))
    &&& !bytes::bytes_lt(encode_utf8(table.metadata.largest_key@), k)
    &&& table.bloom_filter matches Some(f) ==> !f.valid() || bloom_filter::holds_key(
        f.bit_seq(),
        f.hash_num(),
        key,
    )
}

/// Record `i` is the first one with a key that has the prefix and is after `after`.
pub open spec fn first_after(
    recs: Seq<flat_index::IndexRecord>,
    prefix: Seq<u8>,
    after: Option<Seq<u8>>,
    i: int,
) -> bool {
    &&& 0 <= i < recs.len()
    &&& follows(recs[i].0, prefix, after)
    &&& forall|j: int| 0 <= j < i ==> !follows(#[trigger] recs[j].0, prefix, after)
}

/// The key has the prefix and is after `after`.
pub open spec fn follows(key: Seq<u8>, prefix: Seq<u8>, after: Option<Seq<u8>>) -> bool {
    &&& bytes::starts_with(key, prefix)
    &&& after matches Some(a) ==> bytes::bytes_lt(a, key)
}

/// `r` tells the first key with the prefix after `after`.
pub open spec fn tells_first_after(
    recs: Seq<flat_index::IndexRecord>,
    prefix: Seq<u8>,
    after: Option<Seq<u8>>,
    r: Option<String>,
) -> bool {
    match r {
        Some(k) => exists|i: int| #[trigger]
            first_after(recs, prefix, after, i) && k@ == key_text(recs[i].0),
        None => forall|i: int|
            0 <= i < recs.len() ==> !follows(#[trigger] recs[i].0, prefix, after),
    }
}

/// The bytes of an optional text.
pub open spec fn optional_bytes(t: Option<&str>) -> Option<Seq<u8>> {
    match t {
        Some(s) => Some(encode_utf8(s@)),
        None => None,
    }
}

/// Appends the location of a record.
fn push_location(
    out: &mut Vec<(String, u64, u32)>,
    key: &[u8],
    off: u64,
    size: u32,
)
    ensures
        locs_view(final(out)@) == locs_view(old(out)@).push((key_text(key@), off, size)),
{
    let ghost before = out@;
    out.push((text_lossy(key), off, size));
    assert(locs_view(out@) =~= locs_view(before).push((key_text(key@), off, size)));
}

impl SSTable {
    /// Whether the key could be in the table, as far as can be told without its file.
    pub fn key_may_exist(&self, key: &str) -> (r: bool)
        ensures
            r == may_exist(*self, key@),
    {
        if !self.is_ready {
            return false;
        }
        let k = key.as_bytes();
        if bytes_less(k, self.metadata.smallest_key.as_str().as_bytes()) || bytes_less(
            self.metadata.largest_key.as_str().as_bytes(),
            k,
        ) {
            return false;
        }
        match &self.bloom_filter {
            Some(f) => f.might_contain(key),
            None => true,
        }
    }

    /// First position whose key is not before `prefix`.
    pub fn index_start(&self, prefix: &str) -> (r: usize)
        requires
            self.index.wf(),
        ensures
            r <= self.recs().len(),
            r == flat_index::search_position(self.recs(), encode_utf8(prefix@)),
            flat_index::keys_in_order(self.recs()) ==> {
                &&& forall|i: int|
                    0 <= i < r ==> bytes::bytes_lt(#[trigger] self.recs()[i].0, encode_utf8(prefix@))
                &&& forall|i: int|
                    r <= i < self.recs().len() ==> !bytes::bytes_lt(
                        #[trigger] self.recs()[i].0,
                        encode_utf8(prefix@),
                    )
            },
    {
        self.index.partition_point(prefix.as_bytes())
    }

    /// The key at a position.
    pub fn index_key_at(&self, pos: usize) -> (r: Option<Vec<u8>>)
        requires
            self.index.wf(),
        ensures
            match r {
                Some(k) => pos < self.recs().len() && k@ == self.recs()[pos as int].0,
                None => pos >= self.recs().len(),
            },
    {
        match self.index.at(pos) {
            Some((k, _)) => Some(slice_to_vec(k)),
            None => None,
        }
    }

    /// Whether the key at a position is `key`.
    pub fn index_key_eq(&self, pos: usize, key: &[u8]) -> (r: bool)
        requires
            self.index.wf(),
        ensures
            r == (pos < self.recs().len() && self.recs()[pos as int].0 == key@),
    {
        match self.index.at(pos) {
            Some((k, _)) => bytes_equal(k, key),
            None => false,
        }
    }

    /// Where the look for a key with the prefix after `after` begins. Where the keys are in order,
    /// every key from there on is at or after the prefix and after `after`.
    fn first_position(&self, pb: &[u8], after: Option<&str>) -> (r: usize)
        requires
            self.index.wf(),
        ensures
            r <= self.recs().len(),
            r == position_after(self.recs(), pb@, optional_bytes(after)),
            flat_index::keys_in_order(self.recs()) ==> {
                let a = optional_bytes(after);
                &&& forall|j: int| 0 <= j < r ==> !follows(#[trigger] self.recs()[j].0, pb@, a)
                &&& forall|j: int|
                    r <= j < self.recs().len() ==> !bytes::bytes_lt(#[trigger] self.recs()[j].0, pb@)
                &&& forall|j: int|
                    r <= j < self.recs().len() ==> (a matches Some(b) ==> bytes::bytes_lt(
                        b,
                        #[trigger] self.recs()[j].0,
                    ))
            },
    {
        let ghost recs = self.recs();
        let ghost a = optional_bytes(after);
        if let Some(bound) = after {
            let ab = bound.as_bytes();
            if !bytes_less(ab, pb) {
                return self.position_behind(ab, pb);
            }
        }
        let i: usize = self.index.partition_point(pb);
        proof {
            if flat_index::keys_in_order(recs) {
                assert forall|j: int| 0 <= j < i implies !follows(#[trigger] recs[j].0, pb@, a) by {
                    if bytes::starts_with(recs[j].0, pb@) {
                        bytes::prefix_not_after(recs[j].0, pb@);
                    }
                }
                assert forall|j: int| i <= j < recs.len() implies (a matches Some(b)
                    ==> bytes::bytes_lt(b, #[trigger] recs[j].0)) by {
                    if let Some(b) = a {
                        bytes::bytes_lt_then_not_before(b, pb@, recs[j].0);
                    }
                }
            }
        }
        i
    }

    /// The position behind a key.
    fn position_behind(&self, ab: &[u8], pb: &[u8]) -> (r: usize)
        requires
            self.index.wf(),
            !bytes::bytes_lt(ab@, pb@),
        ensures
            r <= self.recs().len(),
            r == kept_until(
                self.recs(),
                has_key(ab@),
                flat_index::search_position(self.recs(), ab@),
            ),
            flat_index::keys_in_order(self.recs()) ==> {
                &&& forall|j: int|
                    0 <= j < r ==> !follows(#[trigger] self.recs()[j].0, pb@, Some(ab@))
                &&& forall|j: int|
                    r <= j < self.recs().len() ==> !bytes::bytes_lt(#[trigger] self.recs()[j].0, pb@)
                &&& forall|j: int|
                    r <= j < self.recs().len() ==> bytes::bytes_lt(ab@, #[trigger] self.recs()[j].0)
            },
    {
        let ghost recs = self.recs();
        let at: usize = self.index.partition_point(ab);
        let total: usize = self.index.len();
        let mut i: usize = at;
        while i < total && self.index_key_eq(i, ab)
            invariant
                self.index.wf(),
                recs == self.recs(),
                total == recs.len(),
                at <= i <= total,
                kept_until(recs, has_key(ab@), i as int) == kept_until(
                    recs,
                    has_key(ab@),
                    at as int,
                ),
                forall|j: int| at <= j < i ==> (#[trigger] recs[j]).0 == ab@,
            decreases total - i,
        {
            i = i + 1;
        }
        proof {
            if flat_index::keys_in_order(recs) {
                assert forall|j: int| 0 <= j < i implies !follows(
                    #[trigger] recs[j].0,
                    pb@,
                    Some(ab@),
                ) by {
                    bytes::bytes_lt_irreflexive(ab@);
                    if j < at {
                        bytes::bytes_lt_asymmetric(recs[j].0, ab@);
                    }
                }
                assert forall|j: int| i <= j < recs.len() implies bytes::bytes_lt(
                    ab@,
                    #[trigger] recs[j].0,
                ) by {
                    let first = recs[i as int].0;
                    bytes::bytes_lt_total(ab@, first);
                    if j > i {
                        assert(!bytes::bytes_lt(recs[j].0, recs[i as int].0));
                        bytes::bytes_lt_then_not_before(ab@, first, recs[j].0);
                    }
                }
                assert forall|j: int| i <= j < recs.len() implies !bytes::bytes_lt(
                    #[trigger] recs[j].0,
                    pb@,
                ) by {
                    if bytes::bytes_lt(recs[j].0, pb@) {
                        bytes::bytes_lt_transitive(ab@, recs[j].0, pb@);
                    }
                }
            }
        }
        i
    }

    /// Smallest key after `after` that begins with `prefix`, where the keys are in order.
    pub fn first_key_after(&self, prefix: &str, after: Option<&str>) -> (r: Option<String>)
        requires
            self.index.wf(),
        ensures
            !self.is_ready ==> r is None,
            self.is_ready ==> {
                let i = position_after(self.recs(), encode_utf8(prefix@), optional_bytes(after));
                match r {
                    Some(k) => 0 <= i < self.recs().len() && bytes::starts_with(
                        self.recs()[i].0,
                        encode_utf8(prefix@),
                    ) && k@ == key_text(self.recs()[i].0),
                    None => i >= self.recs().len() || !bytes::starts_with(
                        self.recs()[i].0,
                        encode_utf8(prefix@),
                    ),
                }
            },
            self.is_ready && flat_index::keys_in_order(self.recs()) ==> tells_first_after(
                self.recs(),
                encode_utf8(prefix@),
                optional_bytes(after),
                r,
            ),
    {
        if !self.is_ready {
            return None;
        }
        let pb = prefix.as_bytes();
        let ghost recs = self.recs();
        let ghost a = optional_bytes(after);
        let i: usize = self.first_position(pb, after);
        match self.index.at(i) {
            Some((k, _)) => {
                if bytes_start_with(k, pb) {
                    assert(flat_index::keys_in_order(recs) ==> first_after(recs, pb@, a, i as int));
                    Some(text_lossy(k))
                } else {
                    proof {
                        if flat_index::keys_in_order(recs) {
                            assert forall|j: int| 0 <= j < recs.len() implies !follows(
                                #[trigger] recs[j].0,
                                pb@,
                                a,
                            ) by {
                                if j < i {
                                    assert(!follows(recs[j].0, pb@, a));
                                } else if j > i {
                                    assert(!bytes::bytes_lt(recs[j].0, recs[i as int].0));
                                    bytes::bytes_lt_total(recs[j].0, recs[i as int].0);
                                    if bytes::bytes_lt(recs[i as int].0, recs[j].0) {
                                        bytes::prefix_convex(pb@, recs[i as int].0, recs[j].0);
                                    }
                                }
                            }
                        }
                    }
                    None
                }
            },
            None => None,
        }
    }
}

impl SSTable {
    /// Where the entries stand whose key begins with `prefix`, in key order.
    pub fn prefix_locations(&self, prefix: &str) -> (r: Vec<(String, u64, u32)>)
        requires
            self.index.wf(),
        ensures
            locs_view(r@) == locations(prefix_run(self.recs(), encode_utf8(prefix@))),
            flat_index::keys_in_order(self.recs()) ==> locs_view(r@) == locations(
                with_prefix(self.recs(), encode_utf8(prefix@)),
            ),
    {
        let pb = prefix.as_bytes();
        let ghost recs = self.recs();
        let lo: usize = self.index.partition_point(pb);
        let n: usize = self.index.len();
        let mut out: Vec<(String, u64, u32)> = Vec::new();
        let mut i: usize = lo;
        assert(locs_view(out@) =~= locations(recs.subrange(lo as int, lo as int)));
        while i < n
            invariant_except_break
                locs_view(out@) == locations(recs.subrange(lo as int, i as int)),
            invariant
                self.index.wf(),
                recs == self.recs(),
                n == recs.len(),
                lo <= i <= n,
                pb@ == encode_utf8(prefix@),
                flat_index::keys_in_order(recs) ==> forall|j: int|
                    0 <= j < lo ==> bytes::bytes_lt(#[trigger] recs[j].0, pb@),
                flat_index::keys_in_order(recs) ==> forall|j: int|
                    lo <= j < n ==> !bytes::bytes_lt(#[trigger] recs[j].0, pb@),
                kept_until(recs, has_prefix(pb@), i as int) == kept_until(
                    recs,
                    has_prefix(pb@),
                    lo as int,
                ),
                forall|j: int| lo <= j < i ==> bytes::starts_with(#[trigger] recs[j].0, pb@),
            ensures
                locs_view(out@) == locations(recs.subrange(lo as int, i as int)),
                i < n ==> !bytes::starts_with(recs[i as int].0, pb@),
            decreases n - i,
        {
            match self.index.at(i) {
                Some((key, (off, size))) => {
                    if !bytes_start_with(key, pb) {
                        break;
                    }
                    push_location(&mut out, key, off, size);
                    assert(locations(recs.subrange(lo as int, i + 1)) =~= locations(
                        recs.subrange(lo as int, i as int),
                    ).push((key_text(key@), off, size)));
                },
                None => {
                    break;
                },
            }
            i = i + 1;
        }
        proof {
            if flat_index::keys_in_order(recs) {
                let keep = has_prefix(pb@);
                assert forall|j: int| 0 <= j < recs.len() implies (#[trigger] keep(recs[j]) <==> lo <= j
                    < i) by {
                    if j < lo {
                        if bytes::starts_with(recs[j].0, pb@) {
                            bytes::prefix_not_after(recs[j].0, pb@);
                        }
                    } else if j > i {
                        assert(!bytes::bytes_lt(recs[j].0, recs[i as int].0));
                        bytes::bytes_lt_total(recs[j].0, recs[i as int].0);
                        if bytes::bytes_lt(recs[i as int].0, recs[j].0) {
                            bytes::prefix_convex(pb@, recs[i as int].0, recs[j].0);
                        }
                    }
                }
                seqs::filter_span(recs, keep, lo as int, i as int);
            }
        }
        out
    }

    /// Where the entries stand whose key is from `start` to `end`, both included, in key order; an
    /// empty `end` sets no limit.
    pub fn range_locations(&self, start: &str, end: &str) -> (r: Vec<(String, u64, u32)>)
        requires
            self.index.wf(),
        ensures
            locs_view(r@) == locations(
                range_run(self.recs(), encode_utf8(start@), encode_utf8(end@)),
            ),
            flat_index::keys_in_order(self.recs()) ==> locs_view(r@) == locations(
                within(self.recs(), encode_utf8(start@), encode_utf8(end@)),
            ),
    {
        let sb = start.as_bytes();
        let end_bound = exclusive_range_end(end);
        let ghost recs = self.recs();
        let ghost eb = encode_utf8(end@);
        let lo: usize = self.index.partition_point(sb);
        let n: usize = self.index.len();
        let mut out: Vec<(String, u64, u32)> = Vec::new();
        let mut i: usize = lo;
        assert(locs_view(out@) =~= locations(recs.subrange(lo as int, lo as int)));
        proof {
            encode_empty_iff(end@);
        }
        while i < n
            invariant_except_break
                locs_view(out@) == locations(recs.subrange(lo as int, i as int)),
            invariant
                self.index.wf(),
                recs == self.recs(),
                n == recs.len(),
                lo <= i <= n,
                eb == encode_utf8(end@),
                (eb.len() == 0) == (end@.len() == 0),
                match end_bound {
                    Some(bound) => end@.len() > 0 && encode_utf8(bound@) == eb.push(0u8),
                    None => end@.len() == 0,
                },
                kept_until(recs, up_to(eb), i as int) == kept_until(recs, up_to(eb), lo as int),
                forall|j: int|
                    lo <= j < i ==> eb.len() == 0 || !bytes::bytes_lt(eb, #[trigger] recs[j].0),
            ensures
                locs_view(out@) == locations(recs.subrange(lo as int, i as int)),
                i < n ==> eb.len() > 0 && bytes::bytes_lt(eb, recs[i as int].0),
            decreases n - i,
        {
            match self.index.at(i) {
                Some((key, (off, size))) => {
                    if let Some(bound) = &end_bound {
                        proof {
                            bytes::before_successor(key@, eb);
                        }
                        if !bytes_less(key, bound.as_str().as_bytes()) {
                            break;
                        }
                    }
                    push_location(&mut out, key, off, size);
                    assert(locations(recs.subrange(lo as int, i + 1)) =~= locations(
                        recs.subrange(lo as int, i as int),
                    ).push((key_text(key@), off, size)));
                },
                None => {
                    break;
                },
            }
            i = i + 1;
        }
        proof {
            if flat_index::keys_in_order(recs) {
                let keep = |rec: flat_index::IndexRecord| lsm_utils::in_range(rec.0, sb@, eb);
                assert forall|j: int| 0 <= j < recs.len() implies (#[trigger] keep(recs[j]) <==> lo <= j
                    < i) by {
                    if j >= i && i < n {
                        if j > i {
                            assert(!bytes::bytes_lt(recs[j].0, recs[i as int].0));
                            bytes::bytes_lt_then_not_before(eb, recs[i as int].0, recs[j].0);
                        }
                    }
                }
                seqs::filter_span(recs, keep, lo as int, i as int);
            }
        }
        out
    }

    /// Where all entries stand, in index order.
    pub fn all_locations(&self) -> (r: Vec<(String, u64, u32)>)
        requires
            self.index.wf(),
        ensures
            locs_view(r@) == locations(self.recs()),
    {
        let ghost recs = self.recs();
        let n: usize = self.index.len();
        let mut out: Vec<(String, u64, u32)> = Vec::new();
        let mut i: usize = 0;
        assert(locs_view(out@) =~= locations(recs.take(0)));
        while i < n
            invariant
                self.index.wf(),
                recs == self.recs(),
                n == recs.len(),
                i <= n,
                locs_view(out@) == locations(recs.take(i as int)),
            decreases n - i,
        {
            match self.index.at(i) {
                Some((key, (off, size))) => {
                    push_location(&mut out, key, off, size);
                    assert(locations(recs.take(i + 1)) =~= locations(recs.take(i as int)).push(
                        (key_text(key@), off, size),
                    ));
                },
                None => {},
            }
            i = i + 1;
        }
        assert(recs.take(i as int) =~= recs);
        out
    }

    /// The keys that begin with `prefix`, in key order, those of deleted entries among them.
    pub fn scan_prefix(&self, prefix: &str) -> (r: Vec<String>)
        requires
            self.index.wf(),
        ensures
            r@.map_values(|k: String| k@) == locations(
                prefix_run(self.recs(), encode_utf8(prefix@)),
            ).map_values(|l: Location| l.0),
            flat_index::keys_in_order(self.recs()) ==> r@.map_values(|k: String| k@) == locations(
                with_prefix(self.recs(), encode_utf8(prefix@)),
            ).map_values(|l: Location| l.0),
    {
        let locs = self.prefix_locations(prefix);
        let mut out: Vec<String> = Vec::new();
        let mut i: usize = 0;
        while i < locs.len()
            invariant
                i <= locs@.len(),
                out@.len() == i,
                forall|j: int| 0 <= j < i ==> #[trigger] out@[j]@ == locs@[j].0@,
            decreases locs@.len() - i,
        {
            out.push(locs[i].0.clone());
            i = i + 1;
        }
        assert(out@.map_values(|k: String| k@) =~= locs_view(locs@).map_values(|l: Location| l.0));
        out
    }
}

/// A text has no bytes exactly if it has no characters.
pub proof fn encode_empty_iff(t: Seq<char>)
    ensures
        (encode_utf8(t).len() == 0) == (t.len() == 0),
{
    encode_utf8_decode_utf8(t);
    if encode_utf8(t).len() == 0 {
        assert(encode_utf8(t) =~= Seq::empty());
        assert(decode_utf8(Seq::<u8>::empty()) =~= Seq::empty());
    }
}

/// An entry of a layer: key, value and whether it is deleted.
pub open spec fn layer_view(entries: Seq<(String, Value, bool)>) -> Seq<
    (Seq<char>, value::ValueView, bool),
> {
    entries.map_values(|e: (String, Value, bool)| (e.0@, e.1@, e.2))
}

/// What reading the entry of a location gave: the value and whether the entry is deleted.
pub type LayerRead = Option<(Value, bool)>;

/// The entries of the locations that could be read.
pub open spec fn readable(
    locs: Seq<(String, u64, u32)>,
    reads: Seq<LayerRead>,
) -> Seq<(Seq<char>, value::ValueView, bool)>
    decreases reads.len(),
{
    if reads.len() == 0 {
        Seq::empty()
    } else {
        let before = readable(locs, reads.drop_last());
        match reads.last() {
            Some((v, deleted)) => before.push((locs[reads.len() - 1].0@, v@, deleted)),
            None => before,
        }
    }
}

/// Puts the entries together that could be read; those that could not are passed over.
pub fn layer_entries(locs: &Vec<(String, u64, u32)>, reads: Vec<LayerRead>) -> (r: Vec<
    (String, Value, bool),
>)
    requires
        reads@.len() == locs@.len(),
    ensures
        layer_view(r@) == readable(locs@, reads@),
{
    let mut out: Vec<(String, Value, bool)> = Vec::new();
    let mut i: usize = 0;
    assert(reads@.take(0) =~= Seq::empty());
    assert(layer_view(out@) =~= readable(locs@, reads@.take(0)));
    while i < locs.len()
        invariant
            reads@.len() == locs@.len(),
            i <= locs@.len(),
            layer_view(out@) == readable(locs@, reads@.take(i as int)),
        decreases locs@.len() - i,
    {
        let ghost before = out@;
        assert(reads@.take(i + 1).drop_last() =~= reads@.take(i as int));
        if let Some((v, deleted)) = &reads[i] {
            let key = locs[i].0.clone();
            let val = v.clone();
            out.push((key, val, *deleted));
            assert(layer_view(out@) =~= layer_view(before).push((key@, v@, *deleted)));
        }
        i = i + 1;
    }
    assert(reads@.take(i as int) =~= reads@);
    out
}

/// The entries that are not deleted.
pub open spec fn live_keys(entries: Seq<(Seq<char>, value::ValueView, bool)>) -> Seq<Seq<char>>
    decreases entries.len(),
{
    if entries.len() == 0 {
        Seq::empty()
    } else if entries.last().2 {
        live_keys(entries.drop_last())
    } else {
        live_keys(entries.drop_last()).push(entries.last().0)
    }
}

/// The keys of the entries that are not deleted.
pub fn live_entry_keys(entries: &Vec<(String, Value, bool)>) -> (r: Vec<String>)
    ensures
        r@.map_values(|k: String| k@) == live_keys(layer_view(entries@)),
{
    let mut out: Vec<String> = Vec::new();
    let mut i: usize = 0;
    let ghost views = layer_view(entries@);
    assert(views.take(0) =~= Seq::empty());
    assert(out@.map_values(|k: String| k@) =~= live_keys(views.take(0)));
    while i < entries.len()
        invariant
            i <= entries@.len(),
            views == layer_view(entries@),
            out@.map_values(|k: String| k@) == live_keys(views.take(i as int)),
        decreases entries@.len() - i,
    {
        let ghost before = out@;
        assert(views.take(i + 1).drop_last() =~= views.take(i as int));
        if !entries[i].2 {
            let key = entries[i].0.clone();
            out.push(key);
            assert(out@.map_values(|k: String| k@) =~= before.map_values(|k: String| k@).push(key@));
        }
        i = i + 1;
    }
    assert(views.take(i as int) =~= views);
    out
}

/// The places of the entries that are not deleted.
pub(crate) proof fn live_keys_places(entries: Seq<(Seq<char>, value::ValueView, bool)>) -> (at:
    Seq<int>)
    ensures
        at.len() == live_keys(entries).len(),
        forall|k: int|
            0 <= k < at.len() ==> 0 <= #[trigger] at[k] < entries.len() && entries[at[k]].0
                == live_keys(entries)[k] && !entries[at[k]].2,
        forall|k: int, l: int| 0 <= k < l < at.len() ==> #[trigger] at[k] < #[trigger] at[l],
        forall|i: int| 0 <= i < entries.len() && !(#[trigger] entries[i]).2 ==> at.contains(i),
    decreases entries.len(),
{
    if entries.len() == 0 {
        Seq::empty()
    } else {
        let before = live_keys_places(entries.drop_last());
        let n = entries.len() - 1;
        let at = if entries.last().2 {
            before
        } else {
            before.push(n)
        };
        assert forall|i: int| 0 <= i < entries.len() && !(#[trigger] entries[i]).2 implies at.contains(
            i,
        ) by {
            if i < n {
                assert(entries.drop_last()[i] == entries[i]);
                assert(before.contains(i));
                let k = choose|k: int| 0 <= k < before.len() && before[k] == i;
                assert(at[k] == i);
            } else {
                assert(at[before.len() as int] == n);
            }
        }
        assert forall|k: int| 0 <= k < at.len() implies 0 <= #[trigger] at[k] < entries.len()
            && entries[at[k]].0 == live_keys(entries)[k] && !entries[at[k]].2 by {
            if k < before.len() {
                assert(entries.drop_last()[before[k]] == entries[before[k]]);
            }
        }
        at
    }
}

} // verus!
