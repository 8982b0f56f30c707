//! Synchronous, seekable reading and buffered writing of remote objects.
//!
//! The library holds the decisions: which byte range a read needs, which
//! cached block serves it, when an accumulated buffer becomes an upload part,
//! and how a multipart upload is numbered and finished. The network calls are
//! made by the caller, who hands fetched blocks in and takes parts out.

pub mod buffers;
pub mod lru_cache;
pub mod object_reader;
pub mod s3_reader;
pub mod s3_file;
pub mod s3_writer;
pub mod object_writer;
pub mod s3_aux;
