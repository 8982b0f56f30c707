//! The bookkeeping of one multipart upload: its upload id, the numbering of
//! its parts, and the list of completed parts that finishes it.
//!
//! The caller talks to the store. It records the upload id that the store
//! gave, asks `begin_part` for the number of each part before uploading it,
//! records the part's ETag with `record_part`, and takes the completion list
//! from `complete`. Parts are numbered from 1 without gaps, in the order they
//! were begun; one part at a time is in flight.
use vstd::prelude::*;
use crate::buffers::{bytes_view, bytes_as_slice};
use crate::s3_writer::{S3Writer, S3WriterState};

verus! {

broadcast use vstd::seq_lib::group_seq_properties;

/// A part the store has accepted: its number and the ETag it returned.
pub struct CompletedPart {
    pub part_number: i32,
    pub e_tag: String,
}

impl Clone for CompletedPart {
    fn clone(&self) -> (r: Self)
        ensures
            r == *self,
    {
        CompletedPart { part_number: self.part_number, e_tag: self.e_tag.clone() }
    }
}

/// Why a step of the upload protocol was refused.
#[derive(PartialEq, Eq, Structural, Clone, Copy, Debug)]
pub enum UploadError {
    /// No multipart upload is in progress: the store gave no upload id, or
    /// none was recorded.
    MissingUploadId,
    /// The store returned no ETag for a part.
    MissingETag,
    /// A multipart upload is in progress already.
    AlreadyStarted,
    /// The part is not the one in flight, or another part is still in flight.
    PartMismatch,
    /// All part numbers are used up.
    TooManyParts,
    /// The upload was completed already.
    Closed,
}

/// State of one multipart upload of `object_name` in `bucket_name`.
pub struct ObjectWriter {
    bucket_name: String,
    object_name: String,
    upload_id: Option<String>,
    last_part_nr: i32,
    upload_parts: Vec<CompletedPart>,
    length: u64,
    closed: bool,
    begun: Ghost<Seq<Seq<u8>>>,
}

impl ObjectWriter {
    pub closed spec fn spec_bucket(&self) -> String {
        self.bucket_name
    }

    pub closed spec fn spec_object(&self) -> String {
        self.object_name
    }

    pub closed spec fn spec_upload_id(&self) -> Option<String> {
        self.upload_id
    }

    /// Number of the last part begun.
    pub closed spec fn spec_last_part_nr(&self) -> int {
        self.last_part_nr as int
    }

    /// The parts the store has accepted, in order.
    pub closed spec fn spec_parts(&self) -> Seq<CompletedPart> {
        self.upload_parts@
    }

    /// Bytes begun so far, up to `u64::MAX`.
    pub closed spec fn spec_length(&self) -> int {
        self.length as int
    }

    pub closed spec fn spec_closed(&self) -> bool {
        self.closed
    }

    /// The bytes of each part begun, in order: part `i + 1` holds
    /// `spec_begun()[i]`.
    pub closed spec fn spec_begun(&self) -> Seq<Seq<u8>> {
        self.begun@
    }

    /// Invariant: the accepted parts are numbered 1, 2, ... in order; at
    /// most one more part has been begun; the length counts the bytes begun.
    pub open spec fn wf(&self) -> bool {
        &&& forall|i: int|
            0 <= i < self.spec_parts().len() ==> (#[trigger] self.spec_parts()[i]).part_number == i + 1
        &&& self.spec_parts().len() <= self.spec_last_part_nr() <= self.spec_parts().len() + 1
        &&& self.spec_begun().len() == self.spec_last_part_nr()
        &&& self.spec_length() == if self.spec_begun().flatten().len() <= u64::MAX {
            self.spec_begun().flatten().len() as int
        } else {
            u64::MAX as int
        }
    }

    /// A part has been begun and not yet recorded.
    pub open spec fn in_flight(&self) -> bool {
        self.spec_last_part_nr() == self.spec_parts().len() + 1
    }

    pub fn new(bucket_name: String, object_name: String) -> (r: ObjectWriter)
        ensures
            r.wf(),
            r.spec_bucket() == bucket_name,
            r.spec_object() == object_name,
            r.spec_upload_id() is None,
            r.spec_parts().len() == 0,
            r.spec_begun().len() == 0,
            !r.spec_closed(),
    {
        let r = ObjectWriter {
            bucket_name,
            object_name,
            upload_id: None,
            last_part_nr: 0,
            upload_parts: Vec::new(),
            length: 0,
            closed: false,
            begun: Ghost(Seq::empty()),
        };
        assert(r.spec_begun().flatten() =~= Seq::<u8>::empty());
        r
    }

    pub fn bucket_name(&self) -> (r: &String)
        ensures
            *r == self.spec_bucket(),
    {
        &self.bucket_name
    }

    pub fn object_name(&self) -> (r: &String)
        ensures
            *r == self.spec_object(),
    {
        &self.object_name
    }

    pub fn upload_id(&self) -> (r: &Option<String>)
        ensures
            *r == self.spec_upload_id(),
    {
        &self.upload_id
    }

    pub fn is_closed(&self) -> (r: bool)
        ensures
            r == self.spec_closed(),
    {
        self.closed
    }

    /// Number of bytes begun, up to `u64::MAX`.
    pub fn length(&self) -> (r: u64)
        ensures
            r == self.spec_length(),
    {
        self.length
    }

    /// Records the upload id with which the store opened the upload; the
    /// store may have returned none.
    pub fn start_upload(&mut self, upload_id: Option<String>) -> (r: Result<(), UploadError>)
        requires
            old(self).wf(),
        ensures
            final(self).wf(),
            final(self).spec_bucket() == old(self).spec_bucket(),
            final(self).spec_object() == old(self).spec_object(),
            final(self).spec_parts() == old(self).spec_parts(),
            final(self).spec_begun() == old(self).spec_begun(),
            final(self).spec_closed() == old(self).spec_closed(),
            r == if old(self).spec_closed() {
                Err::<(), UploadError>(UploadError::Closed)
            } else if old(self).spec_upload_id() is Some {
                Err(UploadError::AlreadyStarted)
            } else if upload_id is None {
                Err(UploadError::MissingUploadId)
            } else {
                Ok(())
            },
            r is Ok ==> final(self).spec_upload_id() == upload_id,
            r is Err ==> final(self).spec_upload_id() == old(self).spec_upload_id(),
    {
        if self.closed {
            return Err(UploadError::Closed);
        }
        if self.upload_id.is_some() {
            return Err(UploadError::AlreadyStarted);
        }
        match upload_id {
            None => Err(UploadError::MissingUploadId),
            Some(id) => {
                self.upload_id = Some(id);
                Ok(())
            },
        }
    }

    /// Assigns the next part number to `part`, which the caller is about to
    /// upload, and returns it with the upload id to upload it under.
    pub fn begin_part(&mut self, part: &bytes::Bytes) -> (r: Result<(String, i32), UploadError>)
        requires
            old(self).wf(),
        ensures
            final(self).wf(),
            final(self).spec_bucket() == old(self).spec_bucket(),
            final(self).spec_object() == old(self).spec_object(),
            final(self).spec_upload_id() == old(self).spec_upload_id(),
            final(self).spec_parts() == old(self).spec_parts(),
            final(self).spec_closed() == old(self).spec_closed(),
            old(self).spec_closed() ==> r == Err::<(String, i32), UploadError>(UploadError::Closed),
            !old(self).spec_closed() && old(self).spec_upload_id() is None ==> r == Err::<(String, i32), UploadError>(
                UploadError::MissingUploadId),
            !old(self).spec_closed() && old(self).spec_upload_id() is Some && old(self).in_flight() ==> r == Err::<
                (String, i32),
                UploadError,
            >(UploadError::PartMismatch),
            !old(self).spec_closed() && old(self).spec_upload_id() is Some && !old(self).in_flight()
                && old(self).spec_last_part_nr() == i32::MAX ==> r == Err::<(String, i32), UploadError>(
                UploadError::TooManyParts),
            r is Err ==> final(self).spec_begun() == old(self).spec_begun() && final(self).spec_last_part_nr()
                == old(self).spec_last_part_nr(),
            !old(self).spec_closed() && old(self).spec_upload_id() is Some && !old(self).in_flight()
                && old(self).spec_last_part_nr() < i32::MAX ==> (r matches Ok((id, nr)) && old(self).spec_upload_id()
                == Some(id) && nr == old(self).spec_last_part_nr() + 1 && final(self).spec_last_part_nr() == nr
                && final(self).in_flight() && final(self).spec_begun() == old(self).spec_begun().push(
                bytes_view(*part),
            )),
    {
        if self.closed {
            return Err(UploadError::Closed);
        }
        let id = match &self.upload_id {
            None => {
                return Err(UploadError::MissingUploadId);
            },
            Some(id) => id.clone(),
        };
        if self.last_part_nr as usize != self.upload_parts.len() {
            return Err(UploadError::PartMismatch);
        }
        if self.last_part_nr == i32::MAX {
            return Err(UploadError::TooManyParts);
        }
        let len = bytes_as_slice(part).len();
        proof {
            self.spec_begun().lemma_flatten_push(bytes_view(*part));
        }
        self.last_part_nr = self.last_part_nr + 1;
        self.length = if self.length <= u64::MAX - len as u64 {
            self.length + len as u64
        } else {
            u64::MAX
        };
        self.begun = Ghost(self.begun@.push(bytes_view(*part)));
        Ok((id, self.last_part_nr))
    }

    /// Records that the store accepted part `part_number`, the part in
    /// flight, with the ETag it returned.
    pub fn record_part(&mut self, part_number: i32, e_tag: Option<String>) -> (r: Result<(), UploadError>)
        requires
            old(self).wf(),
        ensures
            final(self).wf(),
            final(self).spec_bucket() == old(self).spec_bucket(),
            final(self).spec_object() == old(self).spec_object(),
            final(self).spec_upload_id() == old(self).spec_upload_id(),
            final(self).spec_begun() == old(self).spec_begun(),
            final(self).spec_last_part_nr() == old(self).spec_last_part_nr(),
            final(self).spec_closed() == old(self).spec_closed(),
            r == if old(self).spec_closed() {
                Err::<(), UploadError>(UploadError::Closed)
            } else if !old(self).in_flight() || part_number != old(self).spec_last_part_nr() {
                Err(UploadError::PartMismatch)
            } else if e_tag is None {
                Err(UploadError::MissingETag)
            } else {
                Ok(())
            },
            r is Err ==> final(self).spec_parts() == old(self).spec_parts(),
            r is Ok ==> final(self).spec_parts() == old(self).spec_parts().push(
                CompletedPart { part_number, e_tag: e_tag->Some_0 },
            ),
    {
        if self.closed {
            return Err(UploadError::Closed);
        }
        if self.last_part_nr as usize == self.upload_parts.len() || part_number != self.last_part_nr {
            return Err(UploadError::PartMismatch);
        }
        match e_tag {
            None => Err(UploadError::MissingETag),
            Some(e_tag) => {
                self.upload_parts.push(CompletedPart { part_number, e_tag });
                Ok(())
            },
        }
    }

    /// The upload id and the list of accepted parts that complete the
    /// upload. Refused while a part is in flight, since the list would then
    /// leave a part out.
    pub fn complete(&self) -> (r: Result<(String, Vec<CompletedPart>), UploadError>)
        requires
            self.wf(),
        ensures
            r is Ok <==> !self.spec_closed() && self.spec_upload_id() is Some && !self.in_flight(),
            self.spec_closed() ==> r == Err::<(String, Vec<CompletedPart>), UploadError>(UploadError::Closed),
            !self.spec_closed() && self.spec_upload_id() is None ==> r == Err::<
                (String, Vec<CompletedPart>),
                UploadError,
            >(UploadError::MissingUploadId),
            !self.spec_closed() && self.spec_upload_id() is Some && self.in_flight() ==> r == Err::<
                (String, Vec<CompletedPart>),
                UploadError,
            >(UploadError::PartMismatch),
            r matches Ok((id, parts)) ==> {
                &&& self.spec_upload_id() == Some(id)
                &&& parts@ == self.spec_parts()
                &&& parts@.len() == self.spec_begun().len()
                &&& forall|i: int| 0 <= i < parts@.len() ==> (#[trigger] parts@[i]).part_number == i + 1
            },
    {
        if self.closed {
            return Err(UploadError::Closed);
        }
        let id = match &self.upload_id {
            None => {
                return Err(UploadError::MissingUploadId);
            },
            Some(id) => id.clone(),
        };
        if self.last_part_nr as usize != self.upload_parts.len() {
            return Err(UploadError::PartMismatch);
        }
        let mut parts: Vec<CompletedPart> = Vec::new();
        let mut i: usize = 0;
        while i < self.upload_parts.len()
            invariant
                i <= self.spec_parts().len(),
                parts@ == self.spec_parts().subrange(0, i as int),
            decreases self.upload_parts.len() - i,
        {
            parts.push(self.upload_parts[i].clone());
            i = i + 1;
        }
        assert(parts@ =~= self.spec_parts());
        Ok((id, parts))
    }

    /// Records that the store completed the upload; the writer takes no
    /// further part.
    pub fn mark_closed(&mut self)
        requires
            old(self).wf(),
        ensures
            final(self).wf(),
            final(self).spec_closed(),
            final(self).spec_parts() == old(self).spec_parts(),
            final(self).spec_begun() == old(self).spec_begun(),
            final(self).spec_upload_id() == old(self).spec_upload_id(),
    {
        self.closed = true;
    }
}

/// When a multipart upload has taken, in order, the parts a writer emitted
/// and then the writer's remaining bytes (if any), and no part is in
/// flight, its completion list numbers the parts 1, 2, ... without a gap,
/// one for each part, and the parts hold together exactly the bytes written.
pub proof fn lemma_completed_upload_holds_written_bytes(w: S3Writer, ow: ObjectWriter)
    requires
        w.wf(),
        w.spec_state() == S3WriterState::Multipart,
        ow.wf(),
        !ow.in_flight(),
        ow.spec_begun() == if w.spec_buffered().len() > 0 {
            w.spec_parts().push(w.spec_buffered())
        } else {
            w.spec_parts()
        },
    ensures
        ow.spec_parts().len() == ow.spec_begun().len(),
        forall|i: int| 0 <= i < ow.spec_parts().len() ==> (#[trigger] ow.spec_parts()[i]).part_number == i + 1,
        ow.spec_begun().flatten() == w.spec_written(),
{
    w.spec_parts().lemma_flatten_push(w.spec_buffered());
    if w.spec_buffered().len() == 0 {
        assert(w.spec_parts().flatten() + w.spec_buffered() =~= w.spec_parts().flatten());
    }
}

} // verus!
