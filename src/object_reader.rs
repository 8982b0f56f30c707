//! The identity of a remote object, and its length once it is known.
use vstd::prelude::*;

verus! {

/// A remote object: its bucket, its key, and its total length, which is
/// unknown until the caller has asked the store and recorded the answer.
pub struct ObjectReader {
    bucket: String,
    object: String,
    length: Option<usize>,
}

impl ObjectReader {
    pub closed spec fn spec_bucket(&self) -> String {
        self.bucket
    }

    pub closed spec fn spec_object(&self) -> String {
        self.object
    }

    pub closed spec fn spec_length(&self) -> Option<usize> {
        self.length
    }

    pub fn new(bucket: String, object: String) -> (r: ObjectReader)
        ensures
            r.spec_bucket() == bucket,
            r.spec_object() == object,
            r.spec_length() is None,
    {
        ObjectReader { bucket, object, length: None }
    }

    pub fn bucket(&self) -> (r: &String)
        ensures
            *r == self.spec_bucket(),
    {
        &self.bucket
    }

    pub fn object(&self) -> (r: &String)
        ensures
            *r == self.spec_object(),
    {
        &self.object
    }

    /// The object's name, written `bucket:key`.
    pub fn get_object_name(&self) -> (r: String)
        ensures
            r@ == self.spec_bucket()@ + seq![':'] + self.spec_object()@,
    {
        proof {
            reveal_strlit(":");
        }
        self.bucket.clone().concat(":").concat(self.object.as_str())
    }

    /// The object's length, when it has been recorded.
    pub fn get_length(&self) -> (r: Option<u64>)
        ensures
            r matches Some(l) ==> self.spec_length() matches Some(m) && l == m,
            r is None <==> self.spec_length() is None,
    {
        match self.length {
            Some(l) => Some(l as u64),
            None => None,
        }
    }

    /// The object's length, when it has been recorded.
    pub fn length(&self) -> (r: Option<usize>)
        ensures
            r == self.spec_length(),
    {
        self.length
    }

    /// Records the length the store reported. A length once recorded never
    /// changes: a later report is ignored.
    pub fn record_length(&mut self, length: usize)
        ensures
            final(self).spec_bucket() == old(self).spec_bucket(),
            final(self).spec_object() == old(self).spec_object(),
            final(self).spec_length() == match old(self).spec_length() {
                Some(l) => Some(l),
                None => Some(length),
            },
    {
        if self.length.is_none() {
            self.length = Some(length);
        }
    }
}

impl Clone for ObjectReader {
    fn clone(&self) -> (r: Self)
        ensures
            r == *self,
    {
        ObjectReader { bucket: self.bucket.clone(), object: self.object.clone(), length: self.length }
    }
}

} // verus!
