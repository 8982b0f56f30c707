//! A fixed-capacity cache of object blocks with least-recently-used eviction.
//!
//! Blocks are aligned to the block size and hold at most one block size of
//! bytes (less only for the block that reaches the end of the object). The
//! cache never fetches: a lookup that misses tells the caller which byte range
//! to fetch, and the caller hands the fetched bytes to `insert_block`.
use vstd::prelude::*;
use vstd::arithmetic::div_mod::{lemma_fundamental_div_mod, lemma_fundamental_div_mod_converse_div};
use crate::buffers::{bytes_view, bytes_as_slice, bytes_clone};

verus! {

/// A contiguous byte range of the object, starting at `start`.
pub struct ObjBlock {
    pub start: usize,
    /// Tick of the cache clock at the last lookup that hit this block.
    pub last_used: u64,
    pub data: bytes::Bytes,
}

impl ObjBlock {
    pub open spec fn bytes(&self) -> Seq<u8> {
        bytes_view(self.data)
    }

    /// One past the last offset held.
    pub open spec fn end(&self) -> int {
        self.start + self.bytes().len()
    }

    pub open spec fn covers(&self, offset: int) -> bool {
        self.start <= offset < self.end()
    }

    /// Same start, stamp and bytes: two handles on one block.
    pub open spec fn same_block(&self, other: ObjBlock) -> bool {
        &&& self.start == other.start
        &&& self.last_used == other.last_used
        &&& self.bytes() == other.bytes()
    }

    /// The block holds exactly the bytes of `obj` over its range.
    pub open spec fn agrees_with(&self, obj: Seq<u8>) -> bool {
        &&& self.end() <= obj.len()
        &&& self.bytes() == obj.subrange(self.start as int, self.end())
    }

    /// Number of bytes held.
    pub fn len(&self) -> (r: usize)
        ensures
            r == self.bytes().len(),
    {
        bytes_as_slice(&self.data).len()
    }
}

impl Clone for ObjBlock {
    /// A second handle on the same block; the bytes are shared, not copied.
    fn clone(&self) -> (r: Self)
        ensures
            r.start == self.start,
            r.last_used == self.last_used,
            r.bytes() == self.bytes(),
    {
        ObjBlock { start: self.start, last_used: self.last_used, data: bytes_clone(&self.data) }
    }
}

/// Start of the block of size `block_size` that holds `offset`.
pub open spec fn aligned_start(offset: int, block_size: int) -> int {
    (offset / block_size) * block_size
}

/// Last offset, inclusive, of the range to fetch for the block at `start`:
/// one block on, or the largest offset where that would not fit.
pub open spec fn range_end(start: int, block_size: int) -> int {
    if start + block_size - 1 <= usize::MAX {
        start + block_size - 1
    } else {
        usize::MAX as int
    }
}

/// An aligned start within one block size below `offset` is the start of
/// the block holding `offset`.
proof fn lemma_aligned_start_unique(s: int, offset: int, block_size: int)
    requires
        block_size > 0,
        s >= 0,
        s % block_size == 0,
        s <= offset < s + block_size,
    ensures
        s == aligned_start(offset, block_size),
{
    lemma_fundamental_div_mod(s, block_size);
    let q = s / block_size;
    assert(offset == q * block_size + (offset - s)) by (nonlinear_arith)
        requires
            s == block_size * q + 0,
    ;
    lemma_fundamental_div_mod_converse_div(offset, block_size, q, offset - s);
}

proof fn lemma_aligned_start_bounds(offset: int, block_size: int)
    requires
        block_size > 0,
        offset >= 0,
    ensures
        aligned_start(offset, block_size) <= offset < aligned_start(offset, block_size) + block_size,
        aligned_start(offset, block_size) % block_size == 0,
        aligned_start(offset, block_size) >= 0,
{
    lemma_fundamental_div_mod(offset, block_size);
    let q = offset / block_size;
    assert(q >= 0) by (nonlinear_arith)
        requires
            offset >= 0,
            block_size > 0,
            q == offset / block_size,
    ;
    assert(q * block_size >= 0) by (nonlinear_arith)
        requires
            q >= 0,
            block_size > 0,
    ;
    assert(q * block_size == block_size * q) by (nonlinear_arith);
    vstd::arithmetic::div_mod::lemma_fundamental_div_mod_converse_mod(q * block_size, block_size, q, 0);
}

/// The block at `k` was used no later than every block in `blocks`.
pub open spec fn is_lru(blocks: Seq<ObjBlock>, k: int) -> bool {
    forall|i: int| 0 <= i < blocks.len() ==> blocks[k].last_used <= (#[trigger] blocks[i]).last_used
}

/// Least-recently-used cache of the blocks of one object.
pub struct LruCache {
    block_size: usize,
    capacity: usize,
    clock: u64,
    cache: Vec<ObjBlock>,
}

impl LruCache {
    /// The resident blocks.
    pub closed spec fn blocks(&self) -> Seq<ObjBlock> {
        self.cache@
    }

    pub closed spec fn spec_block_size(&self) -> int {
        self.block_size as int
    }

    /// The most blocks that may be resident at once.
    pub closed spec fn spec_capacity(&self) -> int {
        self.capacity as int
    }

    /// The logical clock that stamps lookups.
    pub closed spec fn spec_clock(&self) -> int {
        self.clock as int
    }

    pub open spec fn block_ok(&self, b: ObjBlock) -> bool {
        &&& (b.start as int) % self.spec_block_size() == 0
        &&& 0 < b.bytes().len() <= self.spec_block_size()
        &&& b.end() <= usize::MAX
        &&& b.last_used <= self.spec_clock()
    }

    /// Invariant: the block size and capacity are positive, at most
    /// `capacity` blocks are resident, each is aligned and no longer than a
    /// block, and no two share a start (so no two overlap).
    pub open spec fn wf(&self) -> bool {
        &&& self.spec_block_size() > 0
        &&& self.spec_capacity() > 0
        &&& self.blocks().len() <= self.spec_capacity()
        &&& forall|i: int| 0 <= i < self.blocks().len() ==> #[trigger] self.block_ok(self.blocks()[i])
        &&& forall|i: int, j: int|
            0 <= i < self.blocks().len() && 0 <= j < self.blocks().len() && i != j
                ==> #[trigger] self.blocks()[i].start != #[trigger] self.blocks()[j].start
    }

    /// Some resident block holds byte `offset`.
    pub open spec fn covers(&self, offset: int) -> bool {
        exists|i: int| 0 <= i < self.blocks().len() && #[trigger] self.blocks()[i].covers(offset)
    }

    /// The resident block that holds `offset` has the byte `b` there.
    pub open spec fn byte_is(&self, offset: int, b: u8) -> bool {
        exists|i: int|
            0 <= i < self.blocks().len() && #[trigger] self.blocks()[i].covers(offset)
                && self.blocks()[i].bytes()[offset - self.blocks()[i].start] == b
    }

    /// Every resident block holds the bytes of the object `obj`.
    pub open spec fn holds(&self, obj: Seq<u8>) -> bool {
        forall|i: int| 0 <= i < self.blocks().len() ==> #[trigger] self.blocks()[i].agrees_with(obj)
    }

    /// The same blocks with the same bytes, in the same places; only their
    /// `last_used` stamps may differ.
    pub open spec fn same_contents(&self, other: &LruCache) -> bool {
        &&& self.spec_block_size() == other.spec_block_size()
        &&& self.spec_capacity() == other.spec_capacity()
        &&& self.blocks().len() == other.blocks().len()
        &&& forall|i: int|
            0 <= i < self.blocks().len() ==> (#[trigger] self.blocks()[i]).start == other.blocks()[i].start
                && self.blocks()[i].bytes() == other.blocks()[i].bytes()
    }

    /// An empty cache of at most `num_blocks` blocks of `block_size` bytes.
    pub fn new(num_blocks: usize, block_size: usize) -> (r: LruCache)
        requires
            num_blocks > 0,
            block_size > 0,
        ensures
            r.wf(),
            r.blocks() == Seq::<ObjBlock>::empty(),
            r.spec_block_size() == block_size,
            r.spec_capacity() == num_blocks,
    {
        LruCache { block_size, capacity: num_blocks, clock: 0, cache: Vec::new() }
    }

    pub fn block_size(&self) -> (r: usize)
        ensures
            r == self.spec_block_size(),
    {
        self.block_size
    }

    pub fn capacity(&self) -> (r: usize)
        ensures
            r == self.spec_capacity(),
    {
        self.capacity
    }

    /// Number of resident blocks.
    pub fn num_blocks(&self) -> (r: usize)
        ensures
            r == self.blocks().len(),
    {
        self.cache.len()
    }

    /// The resident block at position `idx`.
    pub fn block(&self, idx: usize) -> (r: &ObjBlock)
        requires
            idx < self.blocks().len(),
        ensures
            *r == self.blocks()[idx as int],
    {
        &self.cache[idx]
    }

    /// The byte range, `(start, end)` with `end` inclusive, of the block that
    /// holds `offset`: the range to fetch when a lookup misses.
    pub fn block_range(&self, offset: usize) -> (r: (usize, usize))
        requires
            self.wf(),
        ensures
            r.0 == aligned_start(offset as int, self.spec_block_size()),
            r.1 == range_end(r.0 as int, self.spec_block_size()),
    {
        proof {
            lemma_aligned_start_bounds(offset as int, self.block_size as int);
        }
        let start = (offset / self.block_size) * self.block_size;
        let end = if start <= usize::MAX - (self.block_size - 1) {
            start + (self.block_size - 1)
        } else {
            usize::MAX
        };
        (start, end)
    }

    proof fn lemma_covering_block_unique(&self, i: int, j: int, offset: int)
        requires
            self.wf(),
            0 <= i < self.blocks().len(),
            0 <= j < self.blocks().len(),
            self.blocks()[i].covers(offset),
            self.blocks()[j].covers(offset),
        ensures
            i == j,
    {
        let bs = self.spec_block_size();
        assert(self.block_ok(self.blocks()[i]));
        assert(self.block_ok(self.blocks()[j]));
        lemma_aligned_start_unique(self.blocks()[i].start as int, offset, bs);
        lemma_aligned_start_unique(self.blocks()[j].start as int, offset, bs);
    }

    /// The resident block holding `offset` is at `idx`, and it tells the byte.
    pub proof fn lemma_byte_is_at(&self, idx: int, offset: int)
        requires
            self.wf(),
            0 <= idx < self.blocks().len(),
            self.blocks()[idx].covers(offset),
        ensures
            forall|b: u8|
                #[trigger] self.byte_is(offset, b) <==> b == self.blocks()[idx].bytes()[offset
                    - self.blocks()[idx].start],
    {
        assert forall|b: u8| #[trigger] self.byte_is(offset, b) implies b == self.blocks()[idx].bytes()[offset
            - self.blocks()[idx].start] by {
            let i = choose|i: int|
                0 <= i < self.blocks().len() && #[trigger] self.blocks()[i].covers(offset)
                    && self.blocks()[i].bytes()[offset - self.blocks()[i].start] == b;
            self.lemma_covering_block_unique(i, idx, offset);
        }
    }

    /// Two caches with the same contents hold the same bytes at the same
    /// offsets.
    pub proof fn lemma_same_contents(&self, other: &LruCache)
        requires
            self.same_contents(other),
        ensures
            forall|offset: int| #[trigger] self.covers(offset) == other.covers(offset),
            forall|offset: int, b: u8| #[trigger] self.byte_is(offset, b) == other.byte_is(offset, b),
            forall|obj: Seq<u8>| #[trigger] self.holds(obj) == other.holds(obj),
    {
        assert forall|offset: int| #[trigger] self.covers(offset) implies other.covers(offset) by {
            let i = choose|i: int| 0 <= i < self.blocks().len() && #[trigger] self.blocks()[i].covers(offset);
            assert(other.blocks()[i].covers(offset));
        }
        assert forall|offset: int| #[trigger] other.covers(offset) implies self.covers(offset) by {
            let i = choose|i: int| 0 <= i < other.blocks().len() && #[trigger] other.blocks()[i].covers(offset);
            assert(self.blocks()[i].covers(offset));
        }
        assert forall|offset: int, b: u8| #[trigger] self.byte_is(offset, b) implies other.byte_is(offset, b) by {
            let i = choose|i: int|
                0 <= i < self.blocks().len() && #[trigger] self.blocks()[i].covers(offset)
                    && self.blocks()[i].bytes()[offset - self.blocks()[i].start] == b;
            assert(other.blocks()[i].covers(offset));
        }
        assert forall|offset: int, b: u8| #[trigger] other.byte_is(offset, b) implies self.byte_is(offset, b) by {
            let i = choose|i: int|
                0 <= i < other.blocks().len() && #[trigger] other.blocks()[i].covers(offset)
                    && other.blocks()[i].bytes()[offset - other.blocks()[i].start] == b;
            assert(self.blocks()[i].covers(offset));
        }
        assert forall|obj: Seq<u8>| #[trigger] self.holds(obj) implies other.holds(obj) by {
            assert forall|i: int| 0 <= i < other.blocks().len() implies #[trigger] other.blocks()[i].agrees_with(obj) by {
                assert(self.blocks()[i].agrees_with(obj));
            }
        }
        assert forall|obj: Seq<u8>| #[trigger] other.holds(obj) implies self.holds(obj) by {
            assert forall|i: int| 0 <= i < self.blocks().len() implies #[trigger] self.blocks()[i].agrees_with(obj) by {
                assert(other.blocks()[i].agrees_with(obj));
            }
        }
    }

    /// Position of the resident block that holds `offset`, if any.
    fn position_of(&self, offset: usize) -> (r: Option<usize>)
        requires
            self.wf(),
        ensures
            r matches Some(i) ==> i < self.blocks().len() && self.blocks()[i as int].covers(offset as int),
            r is None ==> !self.covers(offset as int),
    {
        let mut idx: usize = 0;
        while idx < self.cache.len()
            invariant
                self.wf(),
                idx <= self.blocks().len(),
                forall|k: int| 0 <= k < idx ==> !(#[trigger] self.blocks()[k].covers(offset as int)),
            decreases self.cache.len() - idx,
        {
            let ob = &self.cache[idx];
            let len = ob.len();
            assert(self.block_ok(self.blocks()[idx as int]));
            if ob.start <= offset && offset - ob.start < len {
                return Some(idx);
            }
            idx = idx + 1;
        }
        None
    }

    fn tick(&mut self) -> (r: u64)
        requires
            old(self).wf(),
        ensures
            final(self).wf(),
            r == old(self).spec_clock(),
            final(self).spec_clock() >= r,
            final(self).blocks() == old(self).blocks(),
            final(self).spec_block_size() == old(self).spec_block_size(),
            final(self).spec_capacity() == old(self).spec_capacity(),
    {
        let now = self.clock;
        if self.clock < u64::MAX {
            self.clock = self.clock + 1;
        }
        assert forall|i: int| 0 <= i < self.blocks().len() implies #[trigger] self.block_ok(self.blocks()[i]) by {
            assert(old(self).block_ok(old(self).blocks()[i]));
        }
        now
    }

    /// Looks up the block that holds `offset` and stamps it as used now.
    /// Returns its position, or `None` when no resident block holds `offset`.
    pub fn touch(&mut self, offset: usize) -> (r: Option<usize>)
        requires
            old(self).wf(),
        ensures
            final(self).wf(),
            final(self).same_contents(old(self)),
            r matches Some(i) ==> i < final(self).blocks().len() && final(self).blocks()[i as int].covers(
                offset as int,
            ),
            r matches Some(i) ==> final(self).blocks()[i as int].last_used == old(self).spec_clock()
                && final(self).blocks() == old(self).blocks().update(i as int, final(self).blocks()[i as int]),
            r is None ==> !old(self).covers(offset as int) && final(self).blocks() == old(self).blocks(),
            final(self).spec_clock() >= old(self).spec_clock(),
    {
        match self.position_of(offset) {
            None => None,
            Some(idx) => {
                let now = self.tick();
                let ghost mid = *self;
                let ghost before = self.blocks();
                let mut block = self.cache[idx].clone();
                block.last_used = now;
                self.cache.set(idx, block);
                assert forall|i: int| 0 <= i < self.blocks().len() implies #[trigger] self.block_ok(
                    self.blocks()[i],
                ) by {
                    assert(mid.block_ok(before[i]));
                }
                assert forall|i: int, j: int|
                    0 <= i < self.blocks().len() && 0 <= j < self.blocks().len() && i != j
                        implies #[trigger] self.blocks()[i].start != #[trigger] self.blocks()[j].start by {
                    assert(before[i].start != before[j].start);
                }
                assert(self.blocks() =~= old(self).blocks().update(idx as int, self.blocks()[idx as int]));
                Some(idx)
            },
        }
    }

    /// The block that holds `offset`, fetched from the cache only: a hit
    /// stamps the block as used now and hands out a shared handle on it, a
    /// miss returns `None` and leaves the cache as it was.
    pub fn find_cached_block(&mut self, offset: usize) -> (r: Option<ObjBlock>)
        requires
            old(self).wf(),
        ensures
            final(self).wf(),
            final(self).same_contents(old(self)),
            r is Some <==> old(self).covers(offset as int),
            r matches Some(b) ==> b.covers(offset as int) && exists|i: int|
                0 <= i < old(self).blocks().len() && #[trigger] old(self).blocks()[i].start == b.start
                    && old(self).blocks()[i].bytes() == b.bytes(),
            r matches Some(b) ==> b.last_used == old(self).spec_clock(),
            r is None ==> final(self).blocks() == old(self).blocks(),
    {
        match self.touch(offset) {
            None => None,
            Some(idx) => {
                let b = self.cache[idx].clone();
                assert(old(self).blocks()[idx as int].start == b.start);
                assert(old(self).blocks()[idx as int].covers(offset as int));
                Some(b)
            },
        }
    }

    /// Evicts the resident block with the smallest `last_used` stamp (the
    /// first such, where several share it).
    fn free_lru(&mut self) -> (evicted: ObjBlock)
        requires
            old(self).wf(),
            old(self).blocks().len() > 0,
        ensures
            final(self).wf(),
            exists|k: int|
                0 <= k < old(self).blocks().len() && final(self).blocks() == old(self).blocks().remove(k)
                    && evicted == old(self).blocks()[k],
            forall|i: int|
                0 <= i < final(self).blocks().len() ==> evicted.last_used <= (
                #[trigger] final(self).blocks()[i]).last_used,
            final(self).spec_block_size() == old(self).spec_block_size(),
            final(self).spec_capacity() == old(self).spec_capacity(),
            final(self).spec_clock() == old(self).spec_clock(),
    {
        let mut oldest_idx: usize = 0;
        let mut oldest: u64 = self.cache[0].last_used;
        let mut idx: usize = 1;
        while idx < self.cache.len()
            invariant
                self.wf(),
                1 <= idx <= self.blocks().len(),
                oldest_idx < idx,
                oldest == self.blocks()[oldest_idx as int].last_used,
                forall|k: int| 0 <= k < idx ==> oldest <= (#[trigger] self.blocks()[k]).last_used,
            decreases self.cache.len() - idx,
        {
            if self.cache[idx].last_used < oldest {
                oldest = self.cache[idx].last_used;
                oldest_idx = idx;
            }
            idx = idx + 1;
        }
        let ghost s0 = *self;
        let ghost before = self.blocks();
        let evicted = self.cache.remove(oldest_idx);
        assert forall|i: int| 0 <= i < self.blocks().len() implies #[trigger] self.block_ok(self.blocks()[i]) by {
            if i < oldest_idx {
                assert(self.blocks()[i] == before[i]);
                assert(s0.block_ok(before[i]));
            } else {
                assert(self.blocks()[i] == before[i + 1]);
                assert(s0.block_ok(before[i + 1]));
            }
        }
        assert forall|i: int, j: int|
            0 <= i < self.blocks().len() && 0 <= j < self.blocks().len() && i != j
                implies #[trigger] self.blocks()[i].start != #[trigger] self.blocks()[j].start by {
            let i0 = if i < oldest_idx { i } else { i + 1 };
            let j0 = if j < oldest_idx { j } else { j + 1 };
            assert(before[i0].start != before[j0].start);
        }
        assert forall|i: int| 0 <= i < self.blocks().len() implies evicted.last_used <= (
        #[trigger] self.blocks()[i]).last_used by {
            if i < oldest_idx {
                assert(self.blocks()[i] == before[i]);
            } else {
                assert(self.blocks()[i] == before[i + 1]);
            }
        }
        evicted
    }

    /// Position of the resident block that starts at `start`, if any.
    fn index_of_start(&self, start: usize) -> (r: Option<usize>)
        requires
            self.wf(),
        ensures
            r matches Some(j) ==> j < self.blocks().len() && self.blocks()[j as int].start == start,
            r is None ==> forall|j: int| 0 <= j < self.blocks().len() ==> (#[trigger] self.blocks()[j]).start != start,
    {
        let mut idx: usize = 0;
        while idx < self.cache.len()
            invariant
                idx <= self.blocks().len(),
                forall|k: int| 0 <= k < idx ==> (#[trigger] self.blocks()[k]).start != start,
            decreases self.cache.len() - idx,
        {
            if self.cache[idx].start == start {
                return Some(idx);
            }
            idx = idx + 1;
        }
        None
    }

    /// Puts the fetched bytes of the block that holds `offset` into the cache
    /// and returns a handle on the new block. `data` is what the object holds
    /// from the block's start on: at most one block of it, and it must reach
    /// `offset`; otherwise nothing changes and `None` comes back. A resident
    /// block with the same start is replaced; else, when the cache is full,
    /// the least recently used block is evicted first.
    pub fn insert_block(&mut self, offset: usize, data: bytes::Bytes) -> (r: Option<ObjBlock>)
        requires
            old(self).wf(),
        ensures
            final(self).wf(),
            final(self).spec_block_size() == old(self).spec_block_size(),
            final(self).spec_capacity() == old(self).spec_capacity(),
            r is Some <==> ({
                let start = aligned_start(offset as int, old(self).spec_block_size());
                &&& bytes_view(data).len() <= old(self).spec_block_size()
                &&& start + bytes_view(data).len() <= usize::MAX
                &&& offset < start + bytes_view(data).len()
            }),
            r is None ==> *final(self) == *old(self),
            r matches Some(b) ==> {
                &&& b.start == aligned_start(offset as int, old(self).spec_block_size())
                &&& b.bytes() == bytes_view(data)
                &&& b.last_used == old(self).spec_clock()
                &&& b.covers(offset as int)
                &&& ({
                    ||| exists|j: int|
                        0 <= j < old(self).blocks().len() && #[trigger] old(self).blocks()[j].start == b.start
                            && final(self).blocks() == old(self).blocks().update(j, final(self).blocks()[j])
                            && final(self).blocks()[j].same_block(b)
                    ||| old(self).blocks().len() < old(self).spec_capacity() && final(self).blocks()
                        == old(self).blocks().push(final(self).blocks().last())
                        && final(self).blocks().last().same_block(b)
                    ||| old(self).blocks().len() == old(self).spec_capacity() && exists|k: int|
                        0 <= k < old(self).blocks().len() && is_lru(old(self).blocks(), k)
                            && #[trigger] final(self).blocks() == old(self).blocks().remove(k).push(
                            final(self).blocks().last(),
                        ) && final(self).blocks().last().same_block(b)
                })
                &&& forall|obj: Seq<u8>|
                    old(self).holds(obj) && b.agrees_with(obj) ==> #[trigger] final(self).holds(obj)
            },
    {
        let len = bytes_as_slice(&data).len();
        let (start, _) = self.block_range(offset);
        proof {
            lemma_aligned_start_bounds(offset as int, self.block_size as int);
        }
        if len > self.block_size || len > usize::MAX - start || offset - start >= len {
            return None;
        }
        let ghost s0 = *self;
        let now = self.tick();
        let ghost s1 = *self;
        let block = ObjBlock { start, last_used: now, data };
        let handle = block.clone();
        assert(s1.block_ok(block));
        match self.index_of_start(start) {
            Some(j) => {
                self.cache.set(j, block);
                assert forall|i: int| 0 <= i < self.blocks().len() implies #[trigger] self.block_ok(
                    self.blocks()[i],
                ) by {
                    if i != j {
                        assert(s1.block_ok(s1.blocks()[i]));
                    }
                }
                assert forall|i: int, k: int|
                    0 <= i < self.blocks().len() && 0 <= k < self.blocks().len() && i != k
                        implies #[trigger] self.blocks()[i].start != #[trigger] self.blocks()[k].start by {
                    assert(s1.blocks()[i].start != s1.blocks()[k].start);
                }
                assert(s0.blocks()[j as int].start == handle.start);
                assert(self.blocks() == s0.blocks().update(j as int, self.blocks()[j as int]));
            },
            None => {
                if self.cache.len() >= self.capacity {
                    let ghost s2 = *self;
                    let evicted = self.free_lru();
                    let ghost k = choose|k: int|
                        0 <= k < s2.blocks().len() && self.blocks() == s2.blocks().remove(k) && evicted
                            == s2.blocks()[k];
                    assert(is_lru(s0.blocks(), k)) by {
                        assert forall|i: int| 0 <= i < s0.blocks().len() implies evicted.last_used <= (
                        #[trigger] s0.blocks()[i]).last_used by {
                            if i < k {
                                assert(s0.blocks()[i] == self.blocks()[i]);
                            } else if i > k {
                                assert(s0.blocks()[i] == self.blocks()[i - 1]);
                            }
                        }
                    }
                    assert forall|i: int| 0 <= i < self.blocks().len() implies (#[trigger] self.blocks()[i]).start
                        != start by {
                        if i < k {
                            assert(self.blocks()[i] == s2.blocks()[i]);
                        } else {
                            assert(self.blocks()[i] == s2.blocks()[i + 1]);
                        }
                    }
                    let ghost s3 = *self;
                    self.cache.push(block);
                    assert(self.blocks() == s0.blocks().remove(k).push(self.blocks().last()));
                    assert forall|i: int| 0 <= i < self.blocks().len() implies #[trigger] self.block_ok(
                        self.blocks()[i],
                    ) by {
                        if i < s3.blocks().len() {
                            assert(s3.block_ok(s3.blocks()[i]));
                        }
                    }
                    assert forall|i: int, m: int|
                        0 <= i < self.blocks().len() && 0 <= m < self.blocks().len() && i != m
                            implies #[trigger] self.blocks()[i].start != #[trigger] self.blocks()[m].start by {
                        if i < s3.blocks().len() && m < s3.blocks().len() {
                            assert(s3.blocks()[i].start != s3.blocks()[m].start);
                        }
                    }
                    assert forall|obj: Seq<u8>|
                        s0.holds(obj) && handle.agrees_with(obj) implies #[trigger] self.holds(obj) by {
                        assert forall|i: int| 0 <= i < self.blocks().len() implies #[trigger] self.blocks()[i].agrees_with(
                            obj,
                        ) by {
                            if i < k {
                                assert(self.blocks()[i] == s0.blocks()[i]);
                            } else if i < s3.blocks().len() {
                                assert(self.blocks()[i] == s0.blocks()[i + 1]);
                            }
                        }
                    }
                } else {
                    self.cache.push(block);
                    assert(self.blocks() == s0.blocks().push(self.blocks().last()));
                    assert forall|i: int| 0 <= i < self.blocks().len() implies #[trigger] self.block_ok(
                        self.blocks()[i],
                    ) by {
                        if i < s1.blocks().len() {
                            assert(s1.block_ok(s1.blocks()[i]));
                        }
                    }
                    assert forall|i: int, m: int|
                        0 <= i < self.blocks().len() && 0 <= m < self.blocks().len() && i != m
                            implies #[trigger] self.blocks()[i].start != #[trigger] self.blocks()[m].start by {
                        if i < s1.blocks().len() && m < s1.blocks().len() {
                            assert(s1.blocks()[i].start != s1.blocks()[m].start);
                        }
                    }
                }
            },
        }
        Some(handle)
    }
}

} // verus!
