//! A buffered writer that turns a byte stream into upload parts.
//!
//! Written bytes accumulate in a buffer of one block. Each time the buffer
//! fills, it leaves as an upload part, and the writer is committed to a
//! multipart upload. At close, a writer that never emitted a part hands back
//! its bytes for a single-shot upload; one that did hands back the remaining
//! bytes as the final part. The caller performs the uploads.
use vstd::prelude::*;
use crate::buffers::{
    bytes_view,
    bytes_mut_view,
    bytes_mut_with_capacity,
    bytes_mut_len,
    bytes_mut_extend,
    bytes_mut_freeze,
};

verus! {

broadcast use vstd::seq_lib::group_seq_properties;

/// The smallest part a multipart upload accepts, but for its last part.
pub const MIN_CHUNK_SIZE: usize = 1024 * 1024 * 5;

/// Where the writer stands in its upload.
#[derive(PartialEq, Eq, Structural, Clone, Copy, Debug)]
pub enum S3WriterState {
    /// Nothing has been emitted yet.
    NotStarted,
    /// At least one part has been emitted: the upload is multipart.
    Multipart,
    /// The writer has been closed.
    Done,
}

#[derive(PartialEq, Eq, Structural, Clone, Copy, Debug)]
pub enum WriterError {
    /// The writer was closed before this call.
    Closed,
    /// The object would grow past the largest size a `usize` can count.
    TooLarge,
}

/// What the caller must upload to finish the object.
pub enum Finish {
    /// Nothing: no byte was ever written, or the writer was closed already.
    Nothing,
    /// The whole object, in one single-shot upload.
    SingleShot(bytes::Bytes),
    /// Upload the final part, if any, then complete the multipart upload.
    Complete(Option<bytes::Bytes>),
}

/// What each buffer in `v` holds.
pub open spec fn views(v: Seq<bytes::Bytes>) -> Seq<Seq<u8>> {
    v.map_values(|b: bytes::Bytes| bytes_view(b))
}

/// The bytes of the object as the uploads that `f` asks for, following the
/// parts already emitted, produce it.
pub open spec fn object_bytes(f: Finish, parts: Seq<Seq<u8>>) -> Seq<u8> {
    match f {
        Finish::Nothing => Seq::empty(),
        Finish::SingleShot(b) => bytes_view(b),
        Finish::Complete(None) => parts.flatten(),
        Finish::Complete(Some(b)) => parts.flatten() + bytes_view(b),
    }
}

/// Number of parts of the multipart upload that `f` finishes, following the
/// parts already emitted.
pub open spec fn part_count(f: Finish, parts: Seq<Seq<u8>>) -> int {
    match f {
        Finish::Complete(None) => parts.len() as int,
        Finish::Complete(Some(_)) => parts.len() + 1 as int,
        _ => 0,
    }
}

/// Writer of one object, in parts of `block_size` bytes.
pub struct S3Writer {
    bucket_name: String,
    object_name: String,
    block_size: usize,
    state: S3WriterState,
    buffer: Option<bytes::BytesMut>,
    flushed_num_blocks: usize,
    flushed_bytes: usize,
    written: Ghost<Seq<u8>>,
    parts: Ghost<Seq<Seq<u8>>>,
    forced: Ghost<bool>,
}

impl S3Writer {
    pub closed spec fn spec_bucket(&self) -> String {
        self.bucket_name
    }

    pub closed spec fn spec_object(&self) -> String {
        self.object_name
    }

    pub closed spec fn spec_block_size(&self) -> int {
        self.block_size as int
    }

    pub closed spec fn spec_state(&self) -> S3WriterState {
        self.state
    }

    /// Every byte written so far, in order.
    pub closed spec fn spec_written(&self) -> Seq<u8> {
        self.written@
    }

    /// The parts emitted so far, in order.
    pub closed spec fn spec_parts(&self) -> Seq<Seq<u8>> {
        self.parts@
    }

    /// Whether a flush emitted a part before the buffer was full.
    pub closed spec fn spec_forced(&self) -> bool {
        self.forced@
    }

    /// The bytes waiting in the buffer.
    pub closed spec fn spec_buffered(&self) -> Seq<u8> {
        match self.buffer {
            Some(b) => bytes_mut_view(b),
            None => Seq::empty(),
        }
    }

    pub closed spec fn spec_flushed_bytes(&self) -> int {
        self.flushed_bytes as int
    }

    pub closed spec fn spec_flushed_num_blocks(&self) -> int {
        self.flushed_num_blocks as int
    }

    /// Facts on the emitted parts: each is at least the minimum part size
    /// and at most a block; without a forced flush each is a full block; the
    /// counters count them.
    pub open spec fn parts_ok(&self) -> bool {
        &&& MIN_CHUNK_SIZE <= self.spec_block_size() <= isize::MAX
        &&& forall|i: int|
            0 <= i < self.spec_parts().len() ==> MIN_CHUNK_SIZE <= (#[trigger] self.spec_parts()[i]).len()
                <= self.spec_block_size()
        &&& !self.spec_forced() ==> forall|i: int|
            0 <= i < self.spec_parts().len() ==> (#[trigger] self.spec_parts()[i]).len()
                == self.spec_block_size()
        &&& !self.spec_forced() ==> self.spec_parts().flatten().len() == self.spec_parts().len()
            * self.spec_block_size()
        &&& self.spec_flushed_num_blocks() == self.spec_parts().len()
        &&& self.spec_flushed_bytes() == self.spec_parts().flatten().len()
        &&& self.spec_written().len() <= usize::MAX
        &&& self.spec_state() == S3WriterState::NotStarted ==> self.spec_parts().len() == 0
        &&& self.spec_state() == S3WriterState::Multipart ==> self.spec_parts().len() > 0
    }

    /// Invariant: the parts emitted and then the buffer are exactly the
    /// bytes written, and the buffer holds less than a block.
    pub open spec fn wf(&self) -> bool {
        &&& self.parts_ok()
        &&& self.spec_buffered().len() < self.spec_block_size()
        &&& self.spec_state() != S3WriterState::Done ==> self.spec_parts().flatten() + self.spec_buffered()
            == self.spec_written()
        &&& self.spec_state() == S3WriterState::Done ==> self.spec_buffered().len() == 0
    }

    /// A writer for `object_name` in `bucket_name`. A block size below the
    /// minimum part size is raised to it.
    pub fn new(bucket_name: String, object_name: String, block_size: usize) -> (r: S3Writer)
        requires
            block_size <= isize::MAX,
        ensures
            r.wf(),
            r.spec_bucket() == bucket_name,
            r.spec_object() == object_name,
            r.spec_block_size() == if block_size < MIN_CHUNK_SIZE {
                MIN_CHUNK_SIZE as int
            } else {
                block_size as int
            },
            r.spec_state() == S3WriterState::NotStarted,
            r.spec_written() == Seq::<u8>::empty(),
            r.spec_parts() == Seq::<Seq<u8>>::empty(),
            !r.spec_forced(),
    {
        let block_size = if block_size < MIN_CHUNK_SIZE {
            MIN_CHUNK_SIZE
        } else {
            block_size
        };
        let r = S3Writer {
            bucket_name,
            object_name,
            block_size,
            state: S3WriterState::NotStarted,
            buffer: None,
            flushed_num_blocks: 0,
            flushed_bytes: 0,
            written: Ghost(Seq::empty()),
            parts: Ghost(Seq::empty()),
            forced: Ghost(false),
        };
        assert(r.spec_parts().flatten() =~= Seq::<u8>::empty());
        r
    }

    pub fn bucket_name(&self) -> (r: &String)
        ensures
            *r == self.spec_bucket(),
    {
        &self.bucket_name
    }

    pub fn object_name(&self) -> (r: &String)
        ensures
            *r == self.spec_object(),
    {
        &self.object_name
    }

    pub fn block_size(&self) -> (r: usize)
        ensures
            r == self.spec_block_size(),
    {
        self.block_size
    }

    pub fn state(&self) -> (r: S3WriterState)
        ensures
            r == self.spec_state(),
    {
        self.state
    }

    /// Number of bytes that have left as parts; the buffer is not counted.
    pub fn get_flushed_bytes(&self) -> (r: usize)
        ensures
            r == self.spec_flushed_bytes(),
    {
        self.flushed_bytes
    }

    /// Number of parts emitted.
    pub fn get_flushed_num_blocks(&self) -> (r: usize)
        ensures
            r == self.spec_flushed_num_blocks(),
    {
        self.flushed_num_blocks
    }

    /// Number of bytes waiting in the buffer.
    pub fn get_buffer_len(&self) -> (r: usize)
        ensures
            r == self.spec_buffered().len(),
    {
        match &self.buffer {
            Some(b) => bytes_mut_len(b),
            None => 0,
        }
    }

    /// Absorbs `data`. Each time the buffer reaches a full block it leaves as
    /// a part; the parts come back in order, for the caller to upload. A
    /// closed writer refuses with `Closed`; data that would take the object
    /// past `usize::MAX` bytes is refused with `TooLarge`.
    pub fn write(&mut self, data: &[u8]) -> (r: Result<Vec<bytes::Bytes>, WriterError>)
        requires
            old(self).wf(),
        ensures
            final(self).wf(),
            final(self).spec_bucket() == old(self).spec_bucket(),
            final(self).spec_object() == old(self).spec_object(),
            final(self).spec_block_size() == old(self).spec_block_size(),
            old(self).spec_state() == S3WriterState::Done ==> r == Err::<Vec<bytes::Bytes>, WriterError>(
                WriterError::Closed,
            ) && *final(self) == *old(self),
            old(self).spec_state() != S3WriterState::Done && old(self).spec_written().len() + data@.len()
                > usize::MAX ==> r == Err::<Vec<bytes::Bytes>, WriterError>(WriterError::TooLarge) && *final(self)
                == *old(self),
            old(self).spec_state() != S3WriterState::Done && old(self).spec_written().len() + data@.len()
                <= usize::MAX ==> (r matches Ok(out) && {
                let outs = views(out@);
                &&& final(self).spec_written() == old(self).spec_written() + data@
                &&& final(self).spec_parts() == old(self).spec_parts() + outs
                &&& forall|i: int| 0 <= i < outs.len() ==> (#[trigger] outs[i]).len() == old(self).spec_block_size()
                &&& outs.flatten() + final(self).spec_buffered() == old(self).spec_buffered() + data@
                &&& final(self).spec_forced() == old(self).spec_forced()
                &&& final(self).spec_state() == if outs.len() > 0 {
                    S3WriterState::Multipart
                } else {
                    old(self).spec_state()
                }
            }),
    {
        if self.state == S3WriterState::Done {
            return Err(WriterError::Closed);
        }
        let len = data.len();
        let total = self.flushed_bytes + self.get_buffer_len();
        if len > usize::MAX - total {
            return Err(WriterError::TooLarge);
        }
        let mut out: Vec<bytes::Bytes> = Vec::new();
        let mut start_pos: usize = 0;
        assert(data@.subrange(0, 0) =~= Seq::<u8>::empty());
        assert(views(out@) =~= Seq::<Seq<u8>>::empty());
        assert(old(self).spec_parts() + views(out@) =~= old(self).spec_parts());
        while start_pos < len
            invariant
                self.wf(),
                self.spec_state() != S3WriterState::Done,
                start_pos <= len,
                len == data@.len(),
                old(self).spec_written().len() + len <= usize::MAX,
                self.spec_written() == old(self).spec_written() + data@.subrange(0, start_pos as int),
                self.spec_parts() == old(self).spec_parts() + views(out@),
                forall|i: int| 0 <= i < out@.len() ==> (#[trigger] views(out@)[i]).len() == self.spec_block_size(),
                views(out@).flatten() + self.spec_buffered() == old(self).spec_buffered() + data@.subrange(
                    0,
                    start_pos as int,
                ),
                self.spec_forced() == old(self).spec_forced(),
                self.spec_bucket() == old(self).spec_bucket(),
                self.spec_object() == old(self).spec_object(),
                self.spec_block_size() == old(self).spec_block_size(),
                self.spec_state() == if out@.len() > 0 {
                    S3WriterState::Multipart
                } else {
                    old(self).spec_state()
                },
            decreases len - start_pos,
        {
            let space = self.block_size - self.get_buffer_len();
            let to_write = if space < len - start_pos {
                space
            } else {
                len - start_pos
            };
            let end_pos = start_pos + to_write;
            let chunk = vstd::slice::slice_subrange(data, start_pos, end_pos);
            let ghost out0 = out@;
            let ghost buffered0 = self.spec_buffered();
            assert(data@.subrange(0, end_pos as int) =~= data@.subrange(0, start_pos as int) + chunk@);
            match self.append_chunk(chunk) {
                Some(p) => {
                    out.push(p);
                    assert(views(out@) =~= views(out0).push(bytes_view(p)));
                    proof {
                        views(out0).lemma_flatten_push(bytes_view(p));
                        assert(views(out@).flatten() + self.spec_buffered() =~= views(out0).flatten()
                            + buffered0 + chunk@);
                    }
                    assert(self.spec_parts() =~= old(self).spec_parts() + views(out@));
                },
                None => {
                    assert(views(out@).flatten() + self.spec_buffered() =~= views(out0).flatten() + buffered0
                        + chunk@);
                },
            }
            start_pos = end_pos;
        }
        assert(data@.subrange(0, len as int) =~= data@);
        Ok(out)
    }

    /// Emits the buffer as a part if it holds at least the minimum part
    /// size; a smaller buffer stays, since a part that small could not be
    /// uploaded. A closed writer refuses with `Closed`.
    pub fn flush(&mut self) -> (r: Result<Option<bytes::Bytes>, WriterError>)
        requires
            old(self).wf(),
        ensures
            final(self).wf(),
            final(self).spec_bucket() == old(self).spec_bucket(),
            final(self).spec_object() == old(self).spec_object(),
            final(self).spec_block_size() == old(self).spec_block_size(),
            final(self).spec_written() == old(self).spec_written(),
            old(self).spec_state() == S3WriterState::Done ==> r == Err::<Option<bytes::Bytes>, WriterError>(
                WriterError::Closed,
            ) && *final(self) == *old(self),
            old(self).spec_state() != S3WriterState::Done && old(self).spec_buffered().len() < MIN_CHUNK_SIZE
                ==> (r matches Ok(None) && *final(self) == *old(self)),
            old(self).spec_state() != S3WriterState::Done && old(self).spec_buffered().len() >= MIN_CHUNK_SIZE
                ==> (r matches Ok(Some(p)) && bytes_view(p) == old(self).spec_buffered()
                && final(self).spec_parts() == old(self).spec_parts().push(bytes_view(p))
                && final(self).spec_buffered().len() == 0 && final(self).spec_state() == S3WriterState::Multipart
                && final(self).spec_forced()),
    {
        if self.state == S3WriterState::Done {
            return Err(WriterError::Closed);
        }
        if self.get_buffer_len() < MIN_CHUNK_SIZE {
            return Ok(None);
        }
        match self.buffer.take() {
            Some(buf) => {
                assert(self.spec_parts().flatten() + bytes_mut_view(buf) == self.spec_written());
                let part = self.push_part(buf);
                Ok(Some(part))
            },
            None => Ok(None),
        }
    }

    /// Closes the writer and says what remains to upload: nothing for a
    /// writer that never took a byte (or was closed already); the whole
    /// object in one upload when no part was emitted; else the bytes still
    /// buffered as the final part, before the multipart upload is completed.
    pub fn close_aux(&mut self) -> (r: Finish)
        requires
            old(self).wf(),
        ensures
            final(self).wf(),
            final(self).spec_state() == S3WriterState::Done,
            final(self).spec_written() == old(self).spec_written(),
            final(self).spec_parts() == old(self).spec_parts(),
            old(self).spec_state() == S3WriterState::Done ==> r is Nothing,
            old(self).spec_state() == S3WriterState::NotStarted ==> if old(self).spec_written().len() == 0 {
                r is Nothing
            } else {
                r matches Finish::SingleShot(b) && bytes_view(b) == old(self).spec_written()
            },
            old(self).spec_state() == S3WriterState::Multipart ==> (r matches Finish::Complete(last) && (last is Some
                <==> old(self).spec_buffered().len() > 0)),
            old(self).spec_state() != S3WriterState::Done ==> object_bytes(r, old(self).spec_parts())
                == old(self).spec_written(),
            old(self).spec_state() != S3WriterState::Done && !old(self).spec_forced() && 0 < old(self).spec_written().len() < MIN_CHUNK_SIZE ==> r is SingleShot,
            old(self).spec_state() != S3WriterState::Done && old(self).spec_written().len()
                > old(self).spec_block_size() ==> r is Complete && part_count(r, old(self).spec_parts()) >= 2,
            old(self).spec_state() != S3WriterState::Done && !old(self).spec_forced() && old(self).spec_written().len() > 0 && old(self).spec_written().len() as int % old(self).spec_block_size() == 0
                ==> (r matches Finish::Complete(None) && old(self).spec_parts().len() == old(self).spec_written().len() as int / old(self).spec_block_size() && forall|i: int|
                0 <= i < old(self).spec_parts().len() ==> (#[trigger] old(self).spec_parts()[i]).len()
                    == old(self).spec_block_size()),
    {
        proof {
            if self.spec_state() != S3WriterState::Done {
                self.lemma_close_facts();
            }
        }
        match self.state {
            S3WriterState::Done => Finish::Nothing,
            S3WriterState::NotStarted => {
                self.state = S3WriterState::Done;
                match self.buffer.take() {
                    None => Finish::Nothing,
                    Some(b) => {
                        if bytes_mut_len(&b) == 0 {
                            Finish::Nothing
                        } else {
                            Finish::SingleShot(bytes_mut_freeze(b))
                        }
                    },
                }
            },
            S3WriterState::Multipart => {
                self.state = S3WriterState::Done;
                match self.buffer.take() {
                    None => Finish::Complete(None),
                    Some(b) => {
                        if bytes_mut_len(&b) == 0 {
                            Finish::Complete(None)
                        } else {
                            Finish::Complete(Some(bytes_mut_freeze(b)))
                        }
                    },
                }
            },
        }
    }

    /// Closes the writer; see `close_aux`.
    pub fn close(self) -> (r: Finish)
        requires
            self.wf(),
        ensures
            self.spec_state() != S3WriterState::Done ==> object_bytes(r, self.spec_parts()) == self.spec_written(),
            self.spec_state() == S3WriterState::Done ==> r is Nothing,
            self.spec_state() == S3WriterState::NotStarted ==> if self.spec_written().len() == 0 {
                r is Nothing
            } else {
                r matches Finish::SingleShot(b) && bytes_view(b) == self.spec_written()
            },
            self.spec_state() == S3WriterState::Multipart ==> (r matches Finish::Complete(last) && (last is Some
                <==> self.spec_buffered().len() > 0)),
    {
        let mut w = self;
        w.close_aux()
    }

    /// What closing relies on: what the invariant says of the parts and the
    /// buffer in terms of the bytes written.
    proof fn lemma_close_facts(&self)
        requires
            self.wf(),
            self.spec_state() != S3WriterState::Done,
        ensures
            self.spec_parts().len() == 0 ==> self.spec_buffered() == self.spec_written(),
            self.spec_written().len() > self.spec_block_size() ==> self.spec_parts().len() > 0 && (
            self.spec_parts().len() >= 2 || self.spec_buffered().len() > 0),
            !self.spec_forced() && self.spec_written().len() < MIN_CHUNK_SIZE ==> self.spec_parts().len() == 0,
            !self.spec_forced() && self.spec_written().len() as int % self.spec_block_size() == 0 ==> self.spec_buffered().len()
                == 0 && self.spec_parts().len() == self.spec_written().len() as int / self.spec_block_size(),
    {
        let parts = self.spec_parts();
        let bs = self.spec_block_size();
        if parts.len() == 0 {
            assert(parts.flatten() =~= Seq::<u8>::empty());
            assert(self.spec_buffered() =~= Seq::<u8>::empty() + self.spec_buffered());
        }
        if parts.len() == 1 {
            parts.lemma_flatten_singleton();
        }
        if !self.spec_forced() {
            let n = parts.len() as int;
            let r = self.spec_buffered().len() as int;
            assert(self.spec_written().len() == n * bs + r);
            if n > 0 {
                assert(n * bs >= bs) by (nonlinear_arith)
                    requires
                        n >= 1,
                        bs > 0,
                ;
            }
            vstd::arithmetic::div_mod::lemma_fundamental_div_mod_converse(self.spec_written().len() as int, bs, n, r);
        }
    }

    /// Turns `buf`, which follows the parts emitted so far, into the next
    /// part.
    fn push_part(&mut self, buf: bytes::BytesMut) -> (part: bytes::Bytes)
        requires
            old(self).parts_ok(),
            old(self).buffer is None,
            old(self).state != S3WriterState::Done,
            MIN_CHUNK_SIZE <= bytes_mut_view(buf).len() <= old(self).block_size,
            old(self).spec_parts().flatten() + bytes_mut_view(buf) == old(self).spec_written(),
        ensures
            final(self).parts_ok(),
            final(self).wf(),
            final(self).buffer is None,
            bytes_view(part) == bytes_mut_view(buf),
            final(self).spec_parts() == old(self).spec_parts().push(bytes_view(part)),
            final(self).spec_state() == S3WriterState::Multipart,
            final(self).spec_forced() == (old(self).spec_forced() || bytes_view(part).len()
                != old(self).block_size),
            final(self).spec_written() == old(self).spec_written(),
            final(self).bucket_name == old(self).bucket_name,
            final(self).object_name == old(self).object_name,
            final(self).block_size == old(self).block_size,
    {
        let len = bytes_mut_len(&buf);
        let part = bytes_mut_freeze(buf);
        proof {
            old(self).spec_parts().lemma_flatten_push(bytes_view(part));
            let n = old(self).spec_parts().len();
            let bs = old(self).block_size as int;
            if !old(self).spec_forced() && len == bs {
                assert((n + 1) * bs == n * bs + bs) by (nonlinear_arith);
            }
            assert(n < self.flushed_bytes + 1) by {
                assert forall|i: int| 0 <= i < n implies 1 <= (#[trigger] old(self).spec_parts()[i]).len() by {}
                old(self).spec_parts().lemma_flatten_and_flatten_alt_are_equivalent();
                lemma_flatten_count_le(old(self).spec_parts());
            }
        }
        self.flushed_num_blocks = self.flushed_num_blocks + 1;
        self.flushed_bytes = self.flushed_bytes + len;
        self.state = S3WriterState::Multipart;
        self.parts = Ghost(self.parts@.push(bytes_view(part)));
        let ghost f = self.forced@ || len != self.block_size;
        self.forced = Ghost(f);
        assert(self.spec_parts().flatten() + self.spec_buffered() =~= self.spec_written());
        part
    }

    /// Appends `chunk`, which fits in the buffer; when the buffer becomes
    /// full it leaves as a part.
    fn append_chunk(&mut self, chunk: &[u8]) -> (r: Option<bytes::Bytes>)
        requires
            old(self).wf(),
            old(self).spec_state() != S3WriterState::Done,
            old(self).spec_buffered().len() + chunk@.len() <= old(self).spec_block_size(),
            old(self).spec_written().len() + chunk@.len() <= usize::MAX,
        ensures
            final(self).wf(),
            final(self).spec_state() != S3WriterState::Done,
            final(self).spec_written() == old(self).spec_written() + chunk@,
            final(self).spec_forced() == old(self).spec_forced(),
            final(self).bucket_name == old(self).bucket_name,
            final(self).object_name == old(self).object_name,
            final(self).block_size == old(self).block_size,
            old(self).spec_buffered().len() + chunk@.len() == old(self).spec_block_size() ==> (r matches Some(p)
                && bytes_view(p) == old(self).spec_buffered() + chunk@ && final(self).spec_buffered().len() == 0
                && final(self).spec_parts() == old(self).spec_parts().push(bytes_view(p))),
            old(self).spec_buffered().len() + chunk@.len() < old(self).spec_block_size() ==> r is None
                && final(self).spec_buffered() == old(self).spec_buffered() + chunk@ && final(self).spec_parts()
                == old(self).spec_parts() && final(self).spec_state() == old(self).spec_state(),
    {
        let mut buf = match self.buffer.take() {
            Some(b) => b,
            None => bytes_mut_with_capacity(self.block_size),
        };
        let ghost before = bytes_mut_view(buf);
        assert(before == old(self).spec_buffered());
        bytes_mut_extend(&mut buf, chunk);
        self.written = Ghost(self.written@ + chunk@);
        assert(old(self).spec_parts().flatten() + bytes_mut_view(buf) =~= self.spec_written());
        if bytes_mut_len(&buf) >= self.block_size {
            let part = self.push_part(buf);
            Some(part)
        } else {
            self.buffer = Some(buf);
            None
        }
    }
}

/// A sequence of non-empty pieces has no more pieces than elements overall.
proof fn lemma_flatten_count_le(s: Seq<Seq<u8>>)
    requires
        forall|i: int| 0 <= i < s.len() ==> 1 <= (#[trigger] s[i]).len(),
    ensures
        s.len() <= s.flatten_alt().len(),
    decreases s.len(),
{
    if s.len() > 0 {
        let t = s.drop_last();
        assert forall|i: int| 0 <= i < t.len() implies 1 <= (#[trigger] t[i]).len() by {
            assert(t[i] == s[i]);
        }
        lemma_flatten_count_le(t);
    }
}

} // verus!
