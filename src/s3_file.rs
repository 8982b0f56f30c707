//! A reader that owns its cache: one cursor over one object.
use vstd::prelude::*;
use crate::lru_cache::{LruCache, ObjBlock, aligned_start, range_end};
use crate::s3_reader::{S3Reader, SeekFrom, ReadError, ReadStep, seek_target};

verus! {

/// Number of blocks an `S3File` keeps.
pub const NUM_CACHED_BLOCKS: usize = 10;

/// A seekable reader over one object with a cache of its own.
pub struct S3File {
    cache: LruCache,
    reader: S3Reader,
}

impl S3File {
    pub closed spec fn spec_cache(&self) -> LruCache {
        self.cache
    }

    pub closed spec fn spec_reader(&self) -> S3Reader {
        self.reader
    }

    pub open spec fn wf(&self) -> bool {
        &&& self.spec_cache().wf()
        &&& self.spec_reader().wf()
    }

    /// A reader at the start of `object` in `bucket`, with an empty cache of
    /// ten blocks of `block_size` bytes.
    pub fn new(bucket: String, object: String, block_size: usize) -> (r: S3File)
        requires
            block_size > 0,
        ensures
            r.wf(),
            r.spec_cache().blocks().len() == 0,
            r.spec_cache().spec_block_size() == block_size,
            r.spec_cache().spec_capacity() == NUM_CACHED_BLOCKS,
            r.spec_reader().spec_source().spec_bucket() == bucket,
            r.spec_reader().spec_source().spec_object() == object,
            !r.spec_reader().length_known(),
            r.spec_reader().spec_position() == 0,
    {
        S3File { cache: LruCache::new(NUM_CACHED_BLOCKS, block_size), reader: S3Reader::new(bucket, object) }
    }

    pub fn reader(&self) -> (r: &S3Reader)
        ensures
            *r == self.spec_reader(),
    {
        &self.reader
    }

    pub fn cache(&self) -> (r: &LruCache)
        ensures
            *r == self.spec_cache(),
    {
        &self.cache
    }

    /// Records the object's length as the store reported it.
    pub fn record_length(&mut self, length: usize)
        requires
            old(self).wf(),
        ensures
            final(self).wf(),
            final(self).spec_cache() == old(self).spec_cache(),
            final(self).spec_reader().length_known(),
            final(self).spec_reader().spec_len() == if old(self).spec_reader().length_known() {
                old(self).spec_reader().spec_len()
            } else {
                length as int
            },
            final(self).spec_reader().spec_position() == old(self).spec_reader().spec_position(),
            final(self).spec_reader().spec_source().spec_bucket() == old(self).spec_reader().spec_source().spec_bucket(),
            final(self).spec_reader().spec_source().spec_object() == old(self).spec_reader().spec_source().spec_object(),
    {
        self.reader.record_length(length);
    }

    /// Hands the fetched bytes of the block that holds `offset` to the cache,
    /// as `LruCache::insert_block` does.
    pub fn supply_block(&mut self, offset: usize, data: bytes::Bytes) -> (r: Option<ObjBlock>)
        requires
            old(self).wf(),
        ensures
            final(self).wf(),
            final(self).spec_reader() == old(self).spec_reader(),
            final(self).spec_cache().spec_block_size() == old(self).spec_cache().spec_block_size(),
            r is Some <==> ({
                let start = aligned_start(offset as int, old(self).spec_cache().spec_block_size());
                &&& crate::buffers::bytes_view(data).len() <= old(self).spec_cache().spec_block_size()
                &&& start + crate::buffers::bytes_view(data).len() <= usize::MAX
                &&& offset < start + crate::buffers::bytes_view(data).len()
            }),
            r is None ==> final(self).spec_cache() == old(self).spec_cache(),
            r matches Some(b) ==> b.covers(offset as int) && b.bytes() == crate::buffers::bytes_view(data)
                && forall|obj: Seq<u8>|
                old(self).spec_cache().holds(obj) && b.agrees_with(obj) ==> #[trigger] final(self).spec_cache().holds(obj),
    {
        self.cache.insert_block(offset, data)
    }

    /// Reads into `buf` from the cache, as `S3Reader::read` does.
    pub fn read(&mut self, buf: &mut [u8]) -> (r: ReadStep)
        requires
            old(self).wf(),
            old(self).spec_reader().length_known(),
        ensures
            final(self).wf(),
            final(self).spec_reader().spec_source() == old(self).spec_reader().spec_source(),
            final(self).spec_cache().same_contents(&old(self).spec_cache()),
            final(buf)@.len() == old(buf)@.len(),
            ({
                let c = old(self).spec_cache();
                let p = old(self).spec_reader().spec_position();
                let n = r.count();
                let len = old(self).spec_reader().spec_len();
                &&& 0 <= n <= old(buf)@.len()
                &&& final(self).spec_reader().spec_position() == p + n
                &&& forall|k: int| 0 <= k < n ==> #[trigger] c.byte_is(p + k, final(buf)@[k])
                &&& forall|k: int| n <= k < old(buf)@.len() ==> #[trigger] final(buf)@[k] == old(buf)@[k]
                &&& r is Done ==> n == if old(buf)@.len() <= len - p {
                    old(buf)@.len() as int
                } else {
                    len - p
                }
                &&& r matches ReadStep::NeedBlock { copied, start, end } ==> {
                    &&& copied < old(buf)@.len()
                    &&& p + copied < len
                    &&& !c.covers(p + copied)
                    &&& start == aligned_start(p + copied, c.spec_block_size())
                    &&& end == range_end(start as int, c.spec_block_size())
                }
            }),
    {
        self.reader.read(&mut self.cache, buf)
    }

    /// Moves the position as `S3Reader::seek` does.
    pub fn seek(&mut self, pos: SeekFrom) -> (r: Result<u64, ReadError>)
        requires
            old(self).wf(),
            old(self).spec_reader().length_known(),
        ensures
            final(self).wf(),
            final(self).spec_cache() == old(self).spec_cache(),
            final(self).spec_reader().spec_source() == old(self).spec_reader().spec_source(),
            ({
                let t = seek_target(
                    pos,
                    old(self).spec_reader().spec_position(),
                    old(self).spec_reader().spec_len(),
                );
                &&& t < 0 ==> r == Err::<u64, ReadError>(ReadError::InvalidInput)
                    && final(self).spec_reader().spec_position() == old(self).spec_reader().spec_position()
                &&& t > old(self).spec_reader().spec_len() ==> r == Err::<u64, ReadError>(ReadError::UnexpectedEof)
                    && final(self).spec_reader().spec_position() == old(self).spec_reader().spec_position()
                &&& 0 <= t <= old(self).spec_reader().spec_len() ==> r == Ok::<u64, ReadError>(t as u64)
                    && final(self).spec_reader().spec_position() == t
            }),
    {
        self.reader.seek(pos)
    }

    pub fn stream_position(&self) -> (r: u64)
        ensures
            r == self.spec_reader().spec_position(),
    {
        self.reader.stream_position()
    }
}

} // verus!
