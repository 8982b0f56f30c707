use bytes::Bytes;
use s3_file::object_writer::{ObjectWriter, UploadError};
use s3_file::s3_aux::{buckets_with_prefix, copy_source, starts_with_prefix};
use s3_file::s3_writer::{Finish, S3Writer, S3WriterState, WriterError, MIN_CHUNK_SIZE};

fn alphabet_payload(lines: usize) -> Vec<u8> {
    let mut v = Vec::with_capacity(lines * 27);
    for _ in 0..lines {
        v.extend_from_slice(b"abcdefghijklmnopqrstuvwxyz\n");
    }
    v
}

/// The object that the parts and the finishing upload produce.
fn object_of(parts: &[Bytes], finish: &Finish) -> Vec<u8> {
    let mut v = Vec::new();
    match finish {
        Finish::Nothing => {}
        Finish::SingleShot(b) => v.extend_from_slice(b),
        Finish::Complete(last) => {
            for p in parts {
                v.extend_from_slice(p);
            }
            if let Some(b) = last {
                v.extend_from_slice(b);
            }
        }
    }
    v
}

#[test]
fn large_single_write_is_multipart() {
    let payload = alphabet_payload(200_000);
    assert_eq!(payload.len(), 5_400_000);
    let mut w = S3Writer::new("bucket".to_string(), "key".to_string(), 5 * 1024 * 1024 + 1);
    let parts = w.write(&payload).unwrap();
    assert_eq!(parts.len(), 1);
    assert_eq!(parts[0].len(), 5 * 1024 * 1024 + 1);
    assert_eq!(w.state(), S3WriterState::Multipart);
    assert_eq!(w.get_flushed_bytes(), 5 * 1024 * 1024 + 1);
    let finish = w.close();
    match &finish {
        Finish::Complete(Some(last)) => assert_eq!(last.len(), 5_400_000 - (5 * 1024 * 1024 + 1)),
        _ => panic!("expected a final part"),
    }
    assert_eq!(object_of(&parts, &finish), payload);
}

#[test]
fn small_writes_are_single_shot() {
    let mut w = S3Writer::new("bucket".to_string(), "key".to_string(), 0);
    assert_eq!(w.block_size(), MIN_CHUNK_SIZE);
    let mut expected = Vec::new();
    for i in 0..1000usize {
        let chunk = format!("line {i}\n");
        assert!(w.write(chunk.as_bytes()).unwrap().is_empty());
        expected.extend_from_slice(chunk.as_bytes());
    }
    assert_eq!(w.get_buffer_len(), expected.len());
    assert_eq!(w.flush(), Ok(None));
    assert_eq!(w.get_flushed_bytes(), 0);
    match w.close() {
        Finish::SingleShot(b) => assert_eq!(&b[..], &expected[..]),
        _ => panic!("expected a single-shot upload"),
    }
}

#[test]
fn one_block_in_many_writes_is_one_part() {
    let payload = alphabet_payload(MIN_CHUNK_SIZE / 27 + 1);
    let payload = &payload[..MIN_CHUNK_SIZE];
    let mut w = S3Writer::new("bucket".to_string(), "key".to_string(), MIN_CHUNK_SIZE);
    let mut parts = Vec::new();
    for piece in payload.chunks(100_003) {
        parts.extend(w.write(piece).unwrap());
    }
    assert_eq!(parts.len(), 1);
    assert_eq!(&parts[0][..], payload);
    assert_eq!(w.get_buffer_len(), 0);
    let finish = w.close();
    assert!(matches!(finish, Finish::Complete(None)));
}

#[test]
fn whole_blocks_make_equal_parts() {
    let k = 3;
    let block = MIN_CHUNK_SIZE + 10;
    let payload = alphabet_payload(block * k / 27 + 1);
    let payload = &payload[..block * k];
    let mut w = S3Writer::new("bucket".to_string(), "key".to_string(), block);
    let mut parts = Vec::new();
    for piece in payload.chunks(999_999) {
        parts.extend(w.write(piece).unwrap());
    }
    assert_eq!(parts.len(), k);
    assert!(parts.iter().all(|p| p.len() == block));
    assert_eq!(w.get_flushed_num_blocks(), k);
    let finish = w.close();
    assert!(matches!(finish, Finish::Complete(None)));
    assert_eq!(object_of(&parts, &finish), payload);
}

#[test]
fn more_than_a_block_gives_two_parts_or_more() {
    let block = MIN_CHUNK_SIZE;
    let payload = alphabet_payload(block / 27 + 2);
    let mut w = S3Writer::new("bucket".to_string(), "key".to_string(), block);
    let parts = w.write(&payload).unwrap();
    let finish = w.close();
    let count = match &finish {
        Finish::Complete(Some(_)) => parts.len() + 1,
        Finish::Complete(None) => parts.len(),
        _ => 0,
    };
    assert!(count >= 2);
    assert_eq!(object_of(&parts, &finish), payload);
}

#[test]
fn forced_flush_emits_a_part() {
    let mut w = S3Writer::new("bucket".to_string(), "key".to_string(), 2 * MIN_CHUNK_SIZE);
    let payload = alphabet_payload(MIN_CHUNK_SIZE / 27 + 1);
    assert!(w.write(&payload).unwrap().is_empty());
    let part = w.flush().unwrap().unwrap();
    assert_eq!(&part[..], &payload[..]);
    assert_eq!(w.state(), S3WriterState::Multipart);
    assert!(w.write(b"tail").unwrap().is_empty());
    match w.close() {
        Finish::Complete(Some(last)) => assert_eq!(&last[..], b"tail"),
        _ => panic!("expected a final part"),
    }
}

#[test]
fn closed_writer_refuses() {
    let mut w = S3Writer::new("bucket".to_string(), "key".to_string(), 0);
    assert!(w.write(b"abc").unwrap().is_empty());
    assert!(matches!(w.close_aux(), Finish::SingleShot(_)));
    assert_eq!(w.state(), S3WriterState::Done);
    assert_eq!(w.write(b"more").err(), Some(WriterError::Closed));
    assert_eq!(w.flush(), Err(WriterError::Closed));
    assert!(matches!(w.close_aux(), Finish::Nothing));
}

#[test]
fn empty_writer_uploads_nothing() {
    let w = S3Writer::new("bucket".to_string(), "key".to_string(), 0);
    assert!(matches!(w.close(), Finish::Nothing));
}

#[test]
fn parts_are_numbered_in_order() {
    let mut ow = ObjectWriter::new("bucket".to_string(), "key".to_string());
    let part = Bytes::from_static(b"part bytes");
    assert_eq!(ow.begin_part(&part), Err(UploadError::MissingUploadId));
    assert_eq!(ow.start_upload(None), Err(UploadError::MissingUploadId));
    assert_eq!(ow.start_upload(Some("upload-1".to_string())), Ok(()));
    assert_eq!(ow.start_upload(Some("upload-2".to_string())), Err(UploadError::AlreadyStarted));
    for expected in 1..=3 {
        let (id, nr) = ow.begin_part(&part).unwrap();
        assert_eq!(id, "upload-1");
        assert_eq!(nr, expected);
        assert_eq!(ow.complete().err(), Some(UploadError::PartMismatch));
        assert_eq!(ow.begin_part(&part), Err(UploadError::PartMismatch));
        assert_eq!(ow.record_part(nr + 1, Some("x".to_string())), Err(UploadError::PartMismatch));
        assert_eq!(ow.record_part(nr, Some(format!("etag-{nr}"))), Ok(()));
    }
    assert_eq!(ow.length(), 30);
    let (id, parts) = ow.complete().unwrap();
    assert_eq!(id, "upload-1");
    let numbers: Vec<i32> = parts.iter().map(|p| p.part_number).collect();
    assert_eq!(numbers, vec![1, 2, 3]);
    assert_eq!(parts[2].e_tag, "etag-3");
    ow.mark_closed();
    assert!(ow.is_closed());
    assert_eq!(ow.begin_part(&part), Err(UploadError::Closed));
}

#[test]
fn missing_etag_is_refused() {
    let mut ow = ObjectWriter::new("bucket".to_string(), "key".to_string());
    ow.start_upload(Some("u".to_string())).unwrap();
    let (_, nr) = ow.begin_part(&Bytes::from_static(b"abc")).unwrap();
    assert_eq!(ow.record_part(nr, None), Err(UploadError::MissingETag));
    assert_eq!(ow.complete().err(), Some(UploadError::PartMismatch));
}

#[test]
fn buckets_are_chosen_by_prefix() {
    let names = vec![
        "doc-example-bucket-1".to_string(),
        "other".to_string(),
        "doc-example-bucket-2".to_string(),
        "doc".to_string(),
    ];
    let chosen = buckets_with_prefix(&names, "doc-example-bucket-");
    assert_eq!(chosen, vec!["doc-example-bucket-1".to_string(), "doc-example-bucket-2".to_string()]);
    assert!(starts_with_prefix("abc", ""));
    assert!(!starts_with_prefix("ab", "abc"));
    assert_eq!(copy_source("bucket", "a/b"), "bucket/a/b");
}
