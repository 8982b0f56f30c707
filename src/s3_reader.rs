//! A seekable reader over a remote object, served from an `LruCache`.
//!
//! A reader is a cursor: the object's identity and length and a position.
//! The cache it reads from is passed to each read, so that several readers
//! (clones with their own positions) can share one cache. A read copies what
//! the cache holds at the position; where the cache misses, it stops and
//! names the block range the caller must fetch and insert before reading on.
//! An `S3ReaderChunk` is a reader confined to one byte range of the object.
use vstd::prelude::*;
use crate::buffers::bytes_as_slice;
use crate::lru_cache::{LruCache, aligned_start, range_end};
use crate::object_reader::ObjectReader;

verus! {

/// Where a seek counts from.
pub enum SeekFrom {
    Start(u64),
    End(i64),
    Current(i64),
}

/// Why a seek or a sub-view was refused.
#[derive(PartialEq, Eq, Structural, Clone, Copy, Debug)]
pub enum ReadError {
    /// The new position would lie before the start of the object.
    InvalidInput,
    /// The new position would lie past the end of the object.
    UnexpectedEof,
}

/// What a read achieved.
#[derive(PartialEq, Eq, Structural, Clone, Copy, Debug)]
pub enum ReadStep {
    /// `n` bytes were delivered and the read is complete: the buffer is
    /// full or the end of the object was reached.
    Done(usize),
    /// `copied` bytes were delivered, then the cache missed: the block
    /// `start..=end` must be fetched and inserted before reading on.
    NeedBlock { copied: usize, start: usize, end: usize },
}

impl ReadStep {
    pub open spec fn count(self) -> int {
        match self {
            ReadStep::Done(n) => n as int,
            ReadStep::NeedBlock { copied, .. } => copied as int,
        }
    }

    /// Number of bytes delivered.
    pub fn copied(&self) -> (r: usize)
        ensures
            r == self.count(),
    {
        match self {
            ReadStep::Done(n) => *n,
            ReadStep::NeedBlock { copied, .. } => *copied,
        }
    }
}

/// The offset a seek aims at, before it is checked against the object.
pub open spec fn seek_target(pos: SeekFrom, current: int, length: int) -> int {
    match pos {
        SeekFrom::Start(u) => u as int,
        SeekFrom::Current(d) => current + d,
        SeekFrom::End(d) => length + d,
    }
}

pub open spec fn min3(a: int, b: int, c: int) -> int {
    if a <= b && a <= c {
        a
    } else if b <= c {
        b
    } else {
        c
    }
}

/// Bytes that a read delivers from a cache holding the object's bytes are
/// the object's bytes at the positions read.
pub proof fn lemma_delivered_bytes_match(cache: LruCache, obj: Seq<u8>, p: int, out: Seq<u8>, n: int)
    requires
        cache.wf(),
        cache.holds(obj),
        0 <= p,
        0 < n <= out.len(),
        forall|k: int| 0 <= k < n ==> #[trigger] cache.byte_is(p + k, out[k]),
    ensures
        p + n <= obj.len(),
        out.subrange(0, n) == obj.subrange(p, p + n),
{
    assert forall|k: int| 0 <= k < n implies p + k < obj.len() && #[trigger] out[k] == obj[p + k] by {
        assert(cache.byte_is(p + k, out[k]));
        let i = choose|i: int|
            0 <= i < cache.blocks().len() && #[trigger] cache.blocks()[i].covers(p + k)
                && cache.blocks()[i].bytes()[p + k - cache.blocks()[i].start] == out[k];
        assert(cache.blocks()[i].agrees_with(obj));
    }
    assert(out[n - 1] == obj[p + (n - 1)]);
    assert(out.subrange(0, n) =~= obj.subrange(p, p + n));
}

/// Reads that visit `p..m` and then `m..q`, each delivering the object's
/// bytes, deliver together the object's bytes over `p..q`.
pub proof fn lemma_sequential_reads(obj: Seq<u8>, p: int, m: int, q: int, first: Seq<u8>, second: Seq<u8>)
    requires
        0 <= p <= m <= q <= obj.len(),
        first == obj.subrange(p, m),
        second == obj.subrange(m, q),
    ensures
        first + second == obj.subrange(p, q),
{
    assert(first + second =~= obj.subrange(p, q));
}

/// A cursor over a remote object.
pub struct S3Reader {
    source: ObjectReader,
    position: usize,
}

impl S3Reader {
    /// The object read.
    pub closed spec fn spec_source(&self) -> ObjectReader {
        self.source
    }

    pub closed spec fn spec_position(&self) -> int {
        self.position as int
    }

    pub open spec fn length_known(&self) -> bool {
        self.spec_source().spec_length() is Some
    }

    pub open spec fn spec_len(&self) -> int {
        match self.spec_source().spec_length() {
            Some(l) => l as int,
            None => 0,
        }
    }

    /// The position lies within the object; before the length is known it
    /// is at the start.
    pub open spec fn wf(&self) -> bool {
        &&& self.spec_position() >= 0
        &&& match self.spec_source().spec_length() {
            Some(l) => self.spec_position() <= l,
            None => self.spec_position() == 0,
        }
    }

    /// A reader at the start of `object` in `bucket`, its length not yet known.
    pub fn new(bucket: String, object: String) -> (r: S3Reader)
        ensures
            r.wf(),
            r.spec_source().spec_bucket() == bucket,
            r.spec_source().spec_object() == object,
            !r.length_known(),
            r.spec_position() == 0,
    {
        S3Reader { source: ObjectReader::new(bucket, object), position: 0 }
    }

    pub fn source(&self) -> (r: &ObjectReader)
        ensures
            *r == self.spec_source(),
    {
        &self.source
    }

    /// The object's length, once recorded.
    pub fn get_length(&self) -> (r: Option<u64>)
        ensures
            r is Some <==> self.length_known(),
            r matches Some(l) ==> l == self.spec_len(),
    {
        self.source.get_length()
    }

    /// Records the object's length as the store reported it; a length once
    /// recorded stays.
    pub fn record_length(&mut self, length: usize)
        requires
            old(self).wf(),
        ensures
            final(self).wf(),
            final(self).length_known(),
            final(self).spec_len() == if old(self).length_known() {
                old(self).spec_len()
            } else {
                length as int
            },
            final(self).spec_position() == old(self).spec_position(),
            final(self).spec_source().spec_bucket() == old(self).spec_source().spec_bucket(),
            final(self).spec_source().spec_object() == old(self).spec_source().spec_object(),
    {
        self.source.record_length(length);
    }

    /// The object's length; it must have been recorded.
    pub fn len(&self) -> (r: u64)
        requires
            self.length_known(),
        ensures
            r == self.spec_len(),
    {
        match self.source.get_length() {
            Some(l) => l,
            None => 0,
        }
    }

    pub fn get_position(&self) -> (r: usize)
        ensures
            r == self.spec_position(),
    {
        self.position
    }

    pub fn stream_position(&self) -> (r: u64)
        ensures
            r == self.spec_position(),
    {
        self.position as u64
    }

    fn known_len(&self) -> (r: usize)
        requires
            self.length_known(),
        ensures
            r == self.spec_len(),
    {
        match self.source.length() {
            Some(l) => l,
            None => 0,
        }
    }

    /// Moves to `target` if it lies within the object.
    fn move_to(&mut self, target: i128) -> (r: Result<u64, ReadError>)
        requires
            old(self).wf(),
            old(self).length_known(),
        ensures
            final(self).wf(),
            final(self).spec_source() == old(self).spec_source(),
            target < 0 ==> r == Err::<u64, ReadError>(ReadError::InvalidInput) && final(self).spec_position()
                == old(self).spec_position(),
            target > old(self).spec_len() ==> r == Err::<u64, ReadError>(ReadError::UnexpectedEof)
                && final(self).spec_position() == old(self).spec_position(),
            0 <= target <= old(self).spec_len() ==> r == Ok::<u64, ReadError>(target as u64)
                && final(self).spec_position() == target,
    {
        let len = self.known_len();
        if target < 0 {
            Err(ReadError::InvalidInput)
        } else if target > len as i128 {
            Err(ReadError::UnexpectedEof)
        } else {
            self.position = target as usize;
            Ok(target as u64)
        }
    }

    /// Sets the position to `new_pos`: refused with `InvalidInput` before the
    /// start and with `UnexpectedEof` past the end, the position unchanged.
    pub fn set_position(&mut self, new_pos: i64) -> (r: Result<(), ReadError>)
        requires
            old(self).wf(),
            old(self).length_known(),
        ensures
            final(self).wf(),
            final(self).spec_source() == old(self).spec_source(),
            new_pos < 0 ==> r == Err::<(), ReadError>(ReadError::InvalidInput) && final(self).spec_position()
                == old(self).spec_position(),
            new_pos > old(self).spec_len() ==> r == Err::<(), ReadError>(ReadError::UnexpectedEof)
                && final(self).spec_position() == old(self).spec_position(),
            0 <= new_pos <= old(self).spec_len() ==> r == Ok::<(), ReadError>(()) && final(self).spec_position()
                == new_pos,
    {
        match self.move_to(new_pos as i128) {
            Ok(_) => Ok(()),
            Err(e) => Err(e),
        }
    }

    /// Moves the position by `delta`, with the checks of `set_position`.
    pub fn update_position(&mut self, delta: i64) -> (r: Result<(), ReadError>)
        requires
            old(self).wf(),
            old(self).length_known(),
        ensures
            final(self).wf(),
            final(self).spec_source() == old(self).spec_source(),
            ({
                let t = old(self).spec_position() + delta;
                &&& t < 0 ==> r == Err::<(), ReadError>(ReadError::InvalidInput) && final(self).spec_position()
                    == old(self).spec_position()
                &&& t > old(self).spec_len() ==> r == Err::<(), ReadError>(ReadError::UnexpectedEof)
                    && final(self).spec_position() == old(self).spec_position()
                &&& 0 <= t <= old(self).spec_len() ==> r == Ok::<(), ReadError>(()) && final(self).spec_position()
                    == t
            }),
    {
        match self.move_to(self.position as i128 + delta as i128) {
            Ok(_) => Ok(()),
            Err(e) => Err(e),
        }
    }

    /// Moves the position as `pos` says and returns the new position. A
    /// target before the start is refused with `InvalidInput`, one past the
    /// end with `UnexpectedEof`; the end itself is a legal position.
    pub fn seek(&mut self, pos: SeekFrom) -> (r: Result<u64, ReadError>)
        requires
            old(self).wf(),
            old(self).length_known(),
        ensures
            final(self).wf(),
            final(self).spec_source() == old(self).spec_source(),
            ({
                let t = seek_target(pos, old(self).spec_position(), old(self).spec_len());
                &&& t < 0 ==> r == Err::<u64, ReadError>(ReadError::InvalidInput) && final(self).spec_position()
                    == old(self).spec_position()
                &&& t > old(self).spec_len() ==> r == Err::<u64, ReadError>(ReadError::UnexpectedEof)
                    && final(self).spec_position() == old(self).spec_position()
                &&& 0 <= t <= old(self).spec_len() ==> r == Ok::<u64, ReadError>(t as u64)
                    && final(self).spec_position() == t
            }),
    {
        let target: i128 = match pos {
            SeekFrom::Start(u) => u as i128,
            SeekFrom::Current(d) => self.position as i128 + d as i128,
            SeekFrom::End(d) => self.known_len() as i128 + d as i128,
        };
        self.move_to(target)
    }

    /// Copies into `buf[at..]`, at most `max_len` bytes, from the cached
    /// block that holds the position, and advances the position past them.
    /// Returns `None`, changing nothing, when no cached block holds the
    /// position.
    pub fn read_segment(&mut self, cache: &mut LruCache, buf: &mut [u8], at: usize, max_len: usize) -> (r:
        Option<usize>)
        requires
            old(self).wf(),
            old(self).length_known(),
            old(self).spec_position() < old(self).spec_len(),
            old(cache).wf(),
            0 < max_len,
            at + max_len <= old(buf)@.len(),
        ensures
            final(self).wf(),
            final(self).spec_source() == old(self).spec_source(),
            final(cache).wf(),
            final(cache).same_contents(old(cache)),
            final(buf)@.len() == old(buf)@.len(),
            r is None <==> !old(cache).covers(old(self).spec_position()),
            r is None ==> final(self).spec_position() == old(self).spec_position() && final(buf)@ == old(buf)@,
            r matches Some(n) ==> {
                let p = old(self).spec_position();
                &&& 0 < n <= max_len
                &&& final(self).spec_position() == p + n
                &&& exists|i: int|
                    0 <= i < old(cache).blocks().len() && #[trigger] old(cache).blocks()[i].covers(p) && n
                        == min3(max_len as int, old(cache).blocks()[i].end() - p, old(self).spec_len() - p)
                &&& forall|k: int| 0 <= k < n ==> #[trigger] old(cache).byte_is(p + k, final(buf)@[at + k])
                &&& forall|k: int|
                    0 <= k < old(buf)@.len() && !(at <= k < at + n) ==> #[trigger] final(buf)@[k] == old(buf)@[k]
            },
    {
        let pos = self.position;
        let len = self.known_len();
        let ghost c0 = *cache;
        match cache.touch(pos) {
            None => None,
            Some(idx) => {
                let block = cache.block(idx);
                let data = bytes_as_slice(&block.data);
                assert(c0.blocks()[idx as int].covers(pos as int));
                let rel = pos - block.start;
                let dlen = data.len();
                let blen = buf.len();
                let avail = dlen - rel;
                let mut n = max_len;
                if avail < n {
                    n = avail;
                }
                if len - pos < n {
                    n = len - pos;
                }
                let ghost b0 = buf@;
                let mut k: usize = 0;
                while k < n
                    invariant
                        k <= n,
                        n <= avail,
                        rel + avail == dlen,
                        dlen == data@.len(),
                        at + n <= blen,
                        blen == b0.len(),
                        buf@.len() == b0.len(),
                        forall|j: int| 0 <= j < k ==> #[trigger] buf@[at + j] == data@[rel + j],
                        forall|j: int| 0 <= j < b0.len() && !(at <= j < at + k) ==> #[trigger] buf@[j] == b0[j],
                    decreases n - k,
                {
                    buf[at + k] = data[rel + k];
                    k = k + 1;
                }
                self.position = pos + n;
                proof {
                    assert forall|j: int| 0 <= j < n implies #[trigger] c0.byte_is(pos + j, buf@[at + j]) by {
                        assert(c0.blocks()[idx as int].covers(pos + j));
                        c0.lemma_byte_is_at(idx as int, pos + j);
                    }
                }
                Some(n)
            },
        }
    }

    /// Reads up to `limit` bytes into the front of `buf` from the cache,
    /// stopping early at the end of the object or where the cache misses.
    pub fn read_upto(&mut self, cache: &mut LruCache, buf: &mut [u8], limit: usize) -> (r: ReadStep)
        requires
            old(self).wf(),
            old(self).length_known(),
            old(cache).wf(),
            limit <= old(buf)@.len(),
        ensures
            final(self).wf(),
            final(self).spec_source() == old(self).spec_source(),
            final(cache).wf(),
            final(cache).same_contents(old(cache)),
            final(buf)@.len() == old(buf)@.len(),
            ({
                let p = old(self).spec_position();
                let n = r.count();
                let len = old(self).spec_len();
                &&& 0 <= n <= limit
                &&& final(self).spec_position() == p + n
                &&& forall|k: int| 0 <= k < n ==> #[trigger] old(cache).byte_is(p + k, final(buf)@[k])
                &&& forall|k: int| n <= k < old(buf)@.len() ==> #[trigger] final(buf)@[k] == old(buf)@[k]
                &&& r is Done ==> n == if limit <= len - p {
                    limit as int
                } else {
                    len - p
                }
                &&& r matches ReadStep::NeedBlock { copied, start, end } ==> {
                    &&& copied < limit
                    &&& p + copied < len
                    &&& !old(cache).covers(p + copied)
                    &&& start == aligned_start(p + copied, old(cache).spec_block_size())
                    &&& end == range_end(start as int, old(cache).spec_block_size())
                }
            }),
    {
        let len = self.known_len();
        let ghost c0 = *cache;
        let ghost pos0 = self.position as int;
        let mut filled: usize = 0;
        while filled < limit && self.position < len
            invariant
                self.wf(),
                self.spec_source() == old(self).spec_source(),
                len == self.spec_len(),
                self.length_known(),
                cache.wf(),
                cache.same_contents(&c0),
                c0 == *old(cache),
                self.spec_position() == pos0 + filled,
                pos0 == old(self).spec_position(),
                filled <= limit,
                limit <= buf@.len(),
                buf@.len() == old(buf)@.len(),
                forall|k: int| 0 <= k < filled ==> #[trigger] c0.byte_is(pos0 + k, buf@[k]),
                forall|k: int| filled <= k < buf@.len() ==> #[trigger] buf@[k] == old(buf)@[k],
            decreases limit - filled,
        {
            let ghost ck = *cache;
            let ghost bk = buf@;
            proof {
                ck.lemma_same_contents(&c0);
            }
            match self.read_segment(cache, buf, filled, limit - filled) {
                None => {
                    let (start, end) = cache.block_range(self.position);
                    return ReadStep::NeedBlock { copied: filled, start, end };
                },
                Some(n) => {
                    proof {
                        assert forall|k: int| 0 <= k < filled + n implies #[trigger] c0.byte_is(
                            pos0 + k,
                            buf@[k],
                        ) by {
                            if k < filled {
                                assert(buf@[k] == bk[k]);
                            } else {
                                assert(ck.byte_is((pos0 + filled) + (k - filled), buf@[filled + (k - filled)]));
                            }
                        }
                        assert forall|k: int| filled + n <= k < buf@.len() implies #[trigger] buf@[k]
                            == old(buf)@[k] by {
                            assert(buf@[k] == bk[k]);
                        }
                        assert(cache.same_contents(&c0));
                    }
                    filled = filled + n;
                },
            }
        }
        ReadStep::Done(filled)
    }

    /// Reads into `buf` from the cache: fills it, or up to the end of the
    /// object, unless the cache misses first.
    pub fn read(&mut self, cache: &mut LruCache, buf: &mut [u8]) -> (r: ReadStep)
        requires
            old(self).wf(),
            old(self).length_known(),
            old(cache).wf(),
        ensures
            final(self).wf(),
            final(self).spec_source() == old(self).spec_source(),
            final(cache).wf(),
            final(cache).same_contents(old(cache)),
            final(buf)@.len() == old(buf)@.len(),
            ({
                let p = old(self).spec_position();
                let n = r.count();
                let len = old(self).spec_len();
                &&& 0 <= n <= old(buf)@.len()
                &&& final(self).spec_position() == p + n
                &&& forall|k: int| 0 <= k < n ==> #[trigger] old(cache).byte_is(p + k, final(buf)@[k])
                &&& forall|k: int| n <= k < old(buf)@.len() ==> #[trigger] final(buf)@[k] == old(buf)@[k]
                &&& r is Done ==> n == if old(buf)@.len() <= len - p {
                    old(buf)@.len() as int
                } else {
                    len - p
                }
                &&& r matches ReadStep::NeedBlock { copied, start, end } ==> {
                    &&& copied < old(buf)@.len()
                    &&& p + copied < len
                    &&& !old(cache).covers(p + copied)
                    &&& start == aligned_start(p + copied, old(cache).spec_block_size())
                    &&& end == range_end(start as int, old(cache).spec_block_size())
                }
            }),
    {
        let limit = buf.len();
        self.read_upto(cache, buf, limit)
    }
}

impl Clone for S3Reader {
    /// A reader over the same object with its own position, starting where
    /// this one stands.
    fn clone(&self) -> (r: Self)
        ensures
            r.spec_source() == self.spec_source(),
            r.spec_position() == self.spec_position(),
    {
        S3Reader { source: self.source.clone(), position: self.position }
    }
}

} // verus!

verus! {

/// A read-only view of the byte range `start..end` of an object, with a
/// position of its own.
pub struct S3ReaderChunk {
    reader: S3Reader,
    start: u64,
    end: u64,
}

impl S3ReaderChunk {
    pub closed spec fn spec_reader(&self) -> S3Reader {
        self.reader
    }

    pub closed spec fn spec_start(&self) -> int {
        self.start as int
    }

    /// One past the last offset of the view.
    pub closed spec fn spec_end(&self) -> int {
        self.end as int
    }

    /// The position stays within the view, and the view within the object.
    pub open spec fn wf(&self) -> bool {
        &&& self.spec_reader().wf()
        &&& self.spec_reader().length_known()
        &&& self.spec_start() <= self.spec_reader().spec_position() <= self.spec_end()
        &&& self.spec_end() <= self.spec_reader().spec_len()
    }

    /// A view of `length` bytes from `start` of the object that `s3_reader`
    /// reads, cut at the end of the object, positioned at `start`. A start
    /// past the end of the object is refused with `UnexpectedEof`.
    pub fn new(s3_reader: &S3Reader, start: u64, length: usize) -> (r: Result<S3ReaderChunk, ReadError>)
        requires
            s3_reader.wf(),
            s3_reader.length_known(),
        ensures
            start > s3_reader.spec_len() <==> r == Err::<S3ReaderChunk, ReadError>(ReadError::UnexpectedEof),
            r matches Ok(c) ==> {
                &&& c.wf()
                &&& c.spec_reader().spec_source() == s3_reader.spec_source()
                &&& c.spec_start() == start
                &&& c.spec_reader().spec_position() == start
                &&& c.spec_end() == if length <= s3_reader.spec_len() - start {
                    start + length
                } else {
                    s3_reader.spec_len()
                }
            },
    {
        let len = s3_reader.len();
        if start > len {
            return Err(ReadError::UnexpectedEof);
        }
        let mut reader = s3_reader.clone();
        let _ = reader.seek(SeekFrom::Start(start));
        let room = len - start;
        let end = if (length as u64) <= room {
            start + length as u64
        } else {
            len
        };
        Ok(S3ReaderChunk { reader, start, end })
    }

    pub fn get_position(&self) -> (r: usize)
        ensures
            r == self.spec_reader().spec_position(),
    {
        self.reader.get_position()
    }

    /// Reads into `buf` as `S3Reader::read` does, but never past the end of
    /// the view: at the end it delivers nothing.
    pub fn read(&mut self, cache: &mut LruCache, buf: &mut [u8]) -> (r: ReadStep)
        requires
            old(self).wf(),
            old(cache).wf(),
        ensures
            final(self).wf(),
            final(self).spec_reader().spec_source() == old(self).spec_reader().spec_source(),
            final(self).spec_start() == old(self).spec_start(),
            final(self).spec_end() == old(self).spec_end(),
            final(cache).wf(),
            final(cache).same_contents(old(cache)),
            final(buf)@.len() == old(buf)@.len(),
            ({
                let p = old(self).spec_reader().spec_position();
                let n = r.count();
                let room = old(self).spec_end() - p;
                &&& final(self).spec_reader().spec_position() == p + n
                &&& forall|k: int| 0 <= k < n ==> #[trigger] old(cache).byte_is(p + k, final(buf)@[k])
                &&& forall|k: int| n <= k < old(buf)@.len() ==> #[trigger] final(buf)@[k] == old(buf)@[k]
                &&& r is Done ==> n == if old(buf)@.len() <= room {
                    old(buf)@.len() as int
                } else {
                    room
                }
                &&& r matches ReadStep::NeedBlock { copied, start, end } ==> {
                    &&& copied < old(buf)@.len()
                    &&& copied < room
                    &&& !old(cache).covers(p + copied)
                    &&& start == aligned_start(p + copied, old(cache).spec_block_size())
                    &&& end == range_end(start as int, old(cache).spec_block_size())
                }
            }),
    {
        let pos = self.reader.get_position();
        let room = (self.end - pos as u64) as usize;
        let limit = if buf.len() <= room {
            buf.len()
        } else {
            room
        };
        self.reader.read_upto(cache, buf, limit)
    }
}

} // verus!
