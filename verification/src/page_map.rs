//! Which pages of a mapped file are known to be in memory.

use vstd::prelude::*;

verus! {

/// Pages that were found in memory, one bit each.
#[derive(Debug)]
pub struct PageMap {
    /// Size of a page in bytes.
    pub page_size: u64,
    /// The bits, 64 in a word.
    pub words: Vec<u64>,
    /// Until when the bits count, in seconds since the epoch.
    pub next_cleanup: u64,
    /// For how many seconds bits count.
    pub ttl_secs: u64,
}

/// How many bytes of memory a map covers at most: files are at most as long as a signed offset
/// can tell.
pub const MAX_FILE_SIZE: u64 = 0x7fff_ffff_ffff_ffff;

/// The bit is set.
pub open spec fn bit_set(word: u64, bit: u64) -> bool {
    word & (1u64 << bit) != 0
}

/// How far a search for a page that is not known to be in memory has come.
#[derive(Debug, Clone, Copy, PartialEq, Eq, Structural)]
pub enum PageScan {
    /// All pages are in memory: the mapping can be read.
    Fast,
    /// A page cannot be looked at or is not in memory: the file is read.
    Slow,
    /// Whether this page is in memory is asked for.
    Ask(u64),
}

/// `n` divided by `d`, rounded up.
pub open spec fn div_up(n: int, d: int) -> int {
    (n + d - 1) / d
}

/// How many words cover the pages of a file.
pub fn page_word_count(file_size: u64, page_size: u64) -> (r: usize)
    requires
        0 < page_size <= MAX_FILE_SIZE,
        file_size <= MAX_FILE_SIZE,
        div_up(div_up(file_size as int, page_size as int), 64) <= usize::MAX,
    ensures
        r == div_up(div_up(file_size as int, page_size as int), 64),
{
    let page_count: u64 = (file_size + (page_size - 1)) / page_size;
    assert(page_count <= file_size + (page_size - 1)) by (nonlinear_arith)
        requires
            page_count == (file_size + (page_size - 1)) / page_size as int,
            page_size > 0,
            file_size + (page_size - 1) >= 0,
    ;
    let words: u64 = page_count / 64 + (if page_count % 64 == 0 {
        0
    } else {
        1
    });
    words as usize
}

proof fn set_bit(word: u64, bit: u64)
    requires
        bit < 64,
    ensures
        bit_set(word | (1u64 << bit), bit),
        forall|other: u64|
            other < 64 && other != bit ==> (#[trigger] bit_set(word | (1u64 << bit), other)
                <==> bit_set(word, other)),
{
    assert((word | (1u64 << bit)) & (1u64 << bit) != 0) by (bit_vector)
        requires
            bit < 64,
    ;
    assert forall|other: u64| other < 64 && other != bit implies (#[trigger] bit_set(
        word | (1u64 << bit),
        other,
    ) <==> bit_set(word, other)) by {
        assert((((word | (1u64 << bit)) & (1u64 << other)) != 0) == ((word & (1u64 << other)) != 0))
            by (bit_vector)
            requires
                bit < 64,
                other < 64,
                other != bit,
        ;
    }
}

impl PageMap {
    /// There are pages.
    pub open spec fn wf(self) -> bool {
        0 < self.page_size <= MAX_FILE_SIZE
    }

    /// The page has a bit.
    pub open spec fn covers(self, page: int) -> bool {
        0 <= page && page / 64 < self.words@.len()
    }

    /// The page is known to be in memory.
    pub open spec fn marked(self, page: int) -> bool {
        self.covers(page) && bit_set(self.words@[page / 64], (page % 64) as u64)
    }

    /// The page lies, at least in part, in the range from `offset` up to `end`.
    pub open spec fn in_range(self, page: int, offset: int, end: int) -> bool {
        offset / (self.page_size as int) <= page && page * self.page_size < end
    }

    /// A map with no bit set.
    pub fn new(page_size: u64, word_count: usize, ttl_secs: u64) -> (r: Self)
        requires
            0 < page_size <= MAX_FILE_SIZE,
        ensures
            r.wf(),
            r.page_size == page_size,
            r.words@.len() == word_count,
            r.ttl_secs == ttl_secs,
            r.next_cleanup == 0,
            forall|page: int| !#[trigger] r.marked(page),
    {
        let mut r = PageMap { page_size, words: Vec::new(), next_cleanup: 0, ttl_secs };
        let mut i: usize = 0;
        while i < word_count
            invariant
                i <= word_count,
                r.words@.len() == i,
                r.page_size == page_size,
                r.ttl_secs == ttl_secs,
                r.next_cleanup == 0,
                forall|j: int| 0 <= j < i ==> r.words@[j] == 0,
            decreases word_count - i,
        {
            r.words.push(0);
            i = i + 1;
        }
        proof {
            r.nothing_marked();
        }
        r
    }

    proof fn nothing_marked(self)
        requires
            forall|j: int| 0 <= j < self.words@.len() ==> self.words@[j] == 0,
        ensures
            forall|page: int| !#[trigger] self.marked(page),
    {
        assert forall|page: int| !#[trigger] self.marked(page) by {
            let bit = (page % 64) as u64;
            assert(0u64 & (1u64 << bit) == 0) by (bit_vector);
        }
    }

    fn is_marked(&self, page: u64) -> (r: bool)
        requires
            self.covers(page as int),
        ensures
            r == self.marked(page as int),
    {
        let count: usize = self.words.len();
        assert(page / 64 < count);
        self.words[(page / 64) as usize] & (1u64 << (page % 64)) != 0
    }

    fn mark(&mut self, page: u64)
        requires
            old(self).covers(page as int),
        ensures
            *final(self) == (PageMap { words: final(self).words, ..*old(self) }),
            final(self).words@.len() == old(self).words@.len(),
            forall|p: int|
                #[trigger] final(self).marked(p) <==> old(self).marked(p) || p == page,
    {
        let count: usize = self.words.len();
        assert(page / 64 < count);
        let w: usize = (page / 64) as usize;
        let bit: u64 = page % 64;
        let word = self.words[w];
        self.words.set(w, word | (1u64 << bit));
        proof {
            set_bit(word, bit);
            assert forall|p: int| #[trigger] self.marked(p) <==> old(self).marked(p) || p == page by {
                if p >= 0 && p / 64 == w && p != page {
                    assert((p % 64) as u64 != bit);
                    assert(bit_set(word | (1u64 << bit), (p % 64) as u64) <==> bit_set(
                        word,
                        (p % 64) as u64,
                    ));
                }
            }
        }
    }

    /// Forgets all pages once their time has passed.
    pub fn maybe_cleanup(&mut self, now: u64)
        requires
            old(self).wf(),
            now + old(self).ttl_secs <= u64::MAX,
        ensures
            final(self).wf(),
            if now <= old(self).next_cleanup {
                *final(self) == *old(self)
            } else {
                &&& *final(self) == (PageMap {
                    words: final(self).words,
                    next_cleanup: (now + old(self).ttl_secs) as u64,
                    ..*old(self)
                })
                &&& final(self).words@.len() == old(self).words@.len()
                &&& forall|page: int| !#[trigger] final(self).marked(page)
            },
    {
        if now <= self.next_cleanup {
            return;
        }
        self.next_cleanup = now + self.ttl_secs;
        let ghost start = *self;
        let mut i: usize = 0;
        while i < self.words.len()
            invariant
                i <= self.words@.len(),
                self.words@.len() == start.words@.len(),
                *self == (PageMap { words: self.words, ..start }),
                forall|j: int| 0 <= j < i ==> self.words@[j] == 0,
            decreases self.words@.len() - i,
        {
            self.words.set(i, 0);
            i = i + 1;
        }
        proof {
            self.nothing_marked();
        }
    }

    /// The search for a page of the range that is not known to be in memory, from `page` on; all
    /// pages before it are.
    pub open spec fn scan_result(
        self,
        page: int,
        end: int,
        mapped_len: int,
        r: PageScan,
    ) -> bool {
        match r {
            PageScan::Fast => forall|p: int|
                page <= p && p * self.page_size < end ==> #[trigger] self.marked(p),
            PageScan::Ask(q) => {
                &&& page <= q && q * self.page_size < end
                &&& self.covers(q as int) && !self.marked(q as int)
                &&& q * self.page_size < mapped_len
                &&& forall|p: int| page <= p < q ==> #[trigger] self.marked(p)
            },
            PageScan::Slow => exists|q: int|
                {
                    &&& page <= q && q * self.page_size < end
                    &&& !#[trigger] self.marked(q)
                    &&& !self.covers(q) || q * self.page_size >= mapped_len
                    &&& forall|p: int| page <= p < q ==> #[trigger] self.marked(p)
                },
        }
    }

    fn scan(&self, page: u64, end: u64, mapped_len: u64) -> (r: PageScan)
        requires
            self.wf(),
            end <= MAX_FILE_SIZE,
            page * self.page_size <= MAX_FILE_SIZE + self.page_size,
        ensures
            self.scan_result(page as int, end as int, mapped_len as int, r),
    {
        let mut p: u64 = page;
        let mut off: u64 = page * self.page_size;
        while off < end
            invariant
                self.wf(),
                page <= p,
                off == p * self.page_size,
                end <= MAX_FILE_SIZE,
                forall|q: int| page <= q < p ==> #[trigger] self.marked(q),
            decreases
                    (if off < end {
                        end - off
                    } else {
                        0
                    }),
        {
            proof {
                assert(p <= off) by (nonlinear_arith)
                    requires
                        off == p * self.page_size,
                        self.page_size >= 1,
                ;
            }
            if p / 64 >= self.words.len() as u64 {
                assert(!self.marked(p as int));
                return PageScan::Slow;
            }
            if !self.is_marked(p) {
                if off >= mapped_len {
                    assert(!self.marked(p as int));
                    return PageScan::Slow;
                }
                return PageScan::Ask(p);
            }
            assert((p + 1) * self.page_size == p * self.page_size + self.page_size)
                by (nonlinear_arith);
            off = off + self.page_size;
            p = p + 1;
        }
        proof {
            assert forall|q: int| page <= q && q * self.page_size < end implies #[trigger] self.marked(q) by {
                if q >= p {
                    assert(q * self.page_size >= p * self.page_size) by (nonlinear_arith)
                        requires
                            q >= p,
                            self.page_size >= 0,
                    ;
                }
            }
        }
        PageScan::Fast
    }

    /// Begins the test whether a range of a mapping of `mapped_len` bytes is in memory.
    pub fn can_fast_read_via_mmap(&self, offset: u64, len: u64, mapped_len: u64) -> (r: PageScan)
        requires
            self.wf(),
            offset + len <= MAX_FILE_SIZE,
        ensures
            self.scan_result(
                offset as int / self.page_size as int,
                offset + len,
                mapped_len as int,
                r,
            ),
    {
        let page: u64 = offset / self.page_size;
        assert(page * self.page_size <= offset) by (nonlinear_arith)
            requires
                page == offset as int / self.page_size as int,
                self.page_size > 0,
        ;
        self.scan(page, offset + len, mapped_len)
    }

    /// Goes on with the test after the answer to the question for `page`: a page in memory is
    /// marked, and the search goes on behind it.
    pub fn page_answered(&mut self, page: u64, resident: bool, end: u64, mapped_len: u64) -> (r:
        PageScan)
        requires
            old(self).wf(),
            end <= MAX_FILE_SIZE,
            old(self).covers(page as int),
            page * old(self).page_size < end,
        ensures
            final(self).wf(),
            if !resident {
                r == PageScan::Slow && *final(self) == *old(self)
            } else {
                &&& *final(self) == (PageMap { words: final(self).words, ..*old(self) })
                &&& forall|p: int|
                    #[trigger] final(self).marked(p) <==> old(self).marked(p) || p == page
                &&& final(self).scan_result(page + 1, end as int, mapped_len as int, r)
            },
    {
        if !resident {
            return PageScan::Slow;
        }
        proof {
            let size = self.page_size as int;
            assert(page <= page * size) by (nonlinear_arith)
                requires
                    size >= 1,
            ;
            assert((page + 1) * size == page * size + size) by (nonlinear_arith);
        }
        self.mark(page);
        self.scan(page + 1, end, mapped_len)
    }

    /// Marks the pages of a range that was read.
    pub fn mark_pages_resident(&mut self, offset: u64, len: u64)
        requires
            old(self).wf(),
            offset + len <= MAX_FILE_SIZE,
        ensures
            final(self).wf(),
            *final(self) == (PageMap { words: final(self).words, ..*old(self) }),
            final(self).words@.len() == old(self).words@.len(),
            forall|p: int|
                #[trigger] final(self).marked(p) <==> old(self).marked(p) || (old(self).covers(p)
                    && old(self).in_range(p, offset as int, offset + len)),
    {
        let end: u64 = offset + len;
        let first: u64 = offset / self.page_size;
        let size: u64 = self.page_size;
        assert(first * size <= offset) by (nonlinear_arith)
            requires
                first == offset as int / size as int,
                size > 0,
        ;
        let mut p: u64 = first;
        let mut off: u64 = first * size;
        while off < end
            invariant
                self.wf(),
                size == self.page_size,
                first <= p,
                off == p * size,
                end <= MAX_FILE_SIZE,
                *self == (PageMap { words: self.words, ..*old(self) }),
                self.words@.len() == old(self).words@.len(),
                p > first ==> (p - 1) * size < end,
                forall|q: int|
                    #[trigger] self.marked(q) <==> old(self).marked(q) || (old(self).covers(q)
                        && first <= q < p),
            decreases
                    (if off < end {
                        end - off
                    } else {
                        0
                    }),
        {
            proof {
                assert(p <= off) by (nonlinear_arith)
                    requires
                        off == p * size,
                        size >= 1,
                ;
                assert((p + 1) * size == p * size + size) by (nonlinear_arith);
            }
            if p / 64 < self.words.len() as u64 {
                self.mark(p);
            }
            off = off + size;
            p = p + 1;
        }
        proof {
            assert forall|q: int| #[trigger] self.marked(q) <==> old(self).marked(q) || (old(
                self,
            ).covers(q) && old(self).in_range(q, offset as int, end as int)) by {
                if q >= p {
                    assert(q * size >= p * size) by (nonlinear_arith)
                        requires
                            q >= p,
                            size >= 0,
                    ;
                } else if q >= first {
                    assert(q * size <= (p - 1) * size) by (nonlinear_arith)
                        requires
                            q <= p - 1,
                            size >= 0,
                    ;
                }
            }
        }
    }
}

/// A range that was read once is found in memory, without a question, as long as its pages have
/// bits and no time has passed.
pub proof fn warm_range_reads_fast(
    before: PageMap,
    after: PageMap,
    offset: int,
    len: int,
    mapped_len: int,
    r: PageScan,
)
    requires
        before.wf(),
        0 <= offset,
        0 < len,
        after.page_size == before.page_size,
        forall|p: int|
            #[trigger] after.marked(p) <==> before.marked(p) || (before.covers(p) && before.in_range(
                p,
                offset,
                offset + len,
            )),
        forall|p: int|
            #[trigger] before.in_range(p, offset, offset + len) ==> before.covers(p),
        after.scan_result(offset / before.page_size as int, offset + len, mapped_len, r),
    ensures
        r == PageScan::Fast,
{
    let first = offset / before.page_size as int;
    match r {
        PageScan::Fast => {},
        PageScan::Ask(q) => {
            assert(before.in_range(q as int, offset, offset + len));
            assert(after.marked(q as int));
        },
        PageScan::Slow => {
            let q = choose|q: int|
                first <= q && q * after.page_size < offset + len && !#[trigger] after.marked(q);
            assert(before.in_range(q, offset, offset + len));
            assert(after.marked(q));
        },
    }
}

} // verus!
