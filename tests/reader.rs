use bytes::Bytes;
use s3_file::lru_cache::LruCache;
use s3_file::object_reader::ObjectReader;
use s3_file::s3_file::S3File;
use s3_file::s3_reader::{ReadError, ReadStep, S3Reader, S3ReaderChunk, SeekFrom};

pub const LOREM: &[u8] = b"0123456789
abcdefgh
Hello world!

And a whole lot more information:

Lorem ipsum dolor sit amet, consectetur adipiscing elit. Mauris nulla dolor, varius vel vehicula vitae, dapibus id tellus. Vivamus nisl risus, pretium in nisi non, venenatis rhoncus ligula. Sed pharetra nibh nulla. Integer vitae mollis nisi. Nunc ante nulla, cursus id dolor sit amet, suscipit molestie est. Vestibulum sollicitudin fermentum arcu ut dictum. Sed finibus feugiat libero, sit amet fermentum ex consequat auctor. Donec varius fringilla sagittis. Sed gravida efficitur erat et viverra. Nulla malesuada metus vitae lacus malesuada, at faucibus velit tincidunt. Cras fermentum blandit purus. Integer rutrum semper lorem, rutrum aliquet elit egestas ac. Integer tincidunt sem nec turpis aliquet consectetur. Nunc accumsan est leo, ut tincidunt turpis interdum in. Ut finibus nibh et ullamcorper pharetra.
Vivamus quis dictum ipsum. Proin congue vulputate elit rhoncus congue. Mauris elementum libero mollis, mattis nibh eu, commodo erat. Duis sodales feugiat diam, ut tempor purus viverra eu. Vestibulum sodales sit amet eros quis placerat. Phasellus venenatis condimentum nisl eget tristique. Suspendisse potenti. Cras a orci nec elit pulvinar condimentum at et diam. Mauris faucibus aliquam posuere. Donec accumsan, metus ac scelerisque iaculis, felis enim ullamcorper ante, quis tristique elit justo et ex. Donec et velit pharetra, viverra lacus vitae, laoreet elit.
Duis sodales odio velit, nec ornare leo venenatis ut. Pellentesque in libero sit amet libero vestibulum lobortis. Vivamus laoreet ex eget mi suscipit, vitae volutpat felis iaculis. Etiam rhoncus ac arcu nec commodo. Phasellus posuere, mi eget egestas tincidunt, orci tellus placerat turpis, sit amet blandit nibh magna eu est. Nunc ultrices tincidunt rhoncus. Praesent faucibus id augue quis laoreet. Maecenas ac pellentesque eros, id pellentesque magna. Integer faucibus auctor ante. Mauris vitae pharetra erat. Nulla facilisi. Fusce ac ex libero. Duis posuere lacus lectus, ut varius sapien efficitur eget. Nunc enim urna, congue non tristique id, consequat eget nisi. Nulla in massa sit amet nisi rhoncus tempor sagittis id erat.
Donec in accumsan odio. Integer faucibus velit posuere sem commodo tincidunt. Fusce facilisis ex eget nisl feugiat pulvinar. Curabitur dolor diam, tempus in ligula ut, feugiat cursus elit. Sed et neque molestie, vehicula diam sed, ultricies justo. Maecenas rutrum pharetra sapien eu interdum. Donec vulputate, massa quis malesuada eleifend, ex arcu viverra magna, sit amet volutpat sem risus sit amet dui. Sed ultricies at eros at consequat. Morbi fringilla tristique mauris vel iaculis. Pellentesque ornare dictum finibus. Fusce aliquet odio a blandit interdum.
Donec mollis finibus metus in cursus. In blandit ornare purus. Vestibulum a ipsum diam. Curabitur vel iaculis diam, id egestas ligula. Morbi condimentum imperdiet tellus. Aenean ut ligula nulla. Nam quis auctor odio. Sed eget blandit magna, sit amet consectetur ex. Quisque fermentum nunc at nisi dictum molestie. Ut tempus fermentum ipsum, vel aliquet sem rutrum quis. Nunc nec tristique diam.
Touch test.";

/// The bytes the store returns for the inclusive range `start..=end`.
fn fetch(obj: &[u8], start: usize, end: usize) -> Bytes {
    let stop = std::cmp::min(end + 1, obj.len());
    Bytes::copy_from_slice(&obj[start..stop])
}

/// Reads into `buf`, fetching each missing block from `obj`.
fn read_file(f: &mut S3File, obj: &[u8], buf: &mut [u8]) -> usize {
    let mut done = 0;
    loop {
        match f.read(&mut buf[done..]) {
            ReadStep::Done(n) => return done + n,
            ReadStep::NeedBlock { copied, start, end } => {
                done += copied;
                let pos = f.reader().get_position();
                assert!(f.supply_block(pos, fetch(obj, start, end)).is_some());
            }
        }
    }
}

fn read_shared(r: &mut S3Reader, cache: &mut LruCache, obj: &[u8], buf: &mut [u8]) -> usize {
    let mut done = 0;
    loop {
        match r.read(cache, &mut buf[done..]) {
            ReadStep::Done(n) => return done + n,
            ReadStep::NeedBlock { copied, start, end } => {
                done += copied;
                let pos = r.get_position();
                assert!(cache.insert_block(pos, fetch(obj, start, end)).is_some());
            }
        }
    }
}

fn open_file(block_size: usize) -> S3File {
    let mut f = S3File::new("bucket".to_string(), "test file key name".to_string(), block_size);
    f.record_length(LOREM.len());
    f
}

#[allow(non_snake_case)]
#[test]
fn test_read_S3File() {
    let mut s3file_1 = open_file(10);
    let mut buff1 = vec![0u8; 10];
    let mut buff2 = vec![0u8; 17];
    let mut buff3 = vec![0u8; 10];
    assert_eq!(s3file_1.seek(SeekFrom::Start(10)), Ok(10));
    assert_eq!(read_file(&mut s3file_1, LOREM, &mut buff1), 10);
    assert_eq!(read_file(&mut s3file_1, LOREM, &mut buff2), 17);
    assert_eq!(read_file(&mut s3file_1, LOREM, &mut buff3), 10);
    assert_eq!(&buff1[..], b"\nabcdefgh\n");
    assert_eq!(&buff2[..], b"Hello world!\n\nAnd");
    assert_eq!(&buff3[..], b" a whole l");
}

#[allow(non_snake_case)]
#[test]
fn test_seek_S3File() {
    let mut s3file_1 = open_file(15);
    let buff_len = 36;
    let mut buff1 = vec![0u8; buff_len];
    let end = s3file_1.seek(SeekFrom::End(-1 * buff_len as i64)).unwrap();
    assert_eq!(end, (LOREM.len() - buff_len) as u64);
    assert_eq!(read_file(&mut s3file_1, LOREM, &mut buff1), buff_len);
    assert_eq!(&buff1[..], b"Nunc nec tristique diam.\nTouch test.");
}

#[test]
fn full_object_then_eof() {
    let mut f = open_file(10);
    let mut buf = vec![0u8; LOREM.len()];
    assert_eq!(read_file(&mut f, LOREM, &mut buf), LOREM.len());
    assert_eq!(&buf[..], LOREM);
    let mut more = vec![7u8; 5];
    assert_eq!(f.read(&mut more), ReadStep::Done(0));
    assert_eq!(more, vec![7u8; 5]);
}

#[test]
fn seek_bounds() {
    let mut f = open_file(10);
    let len = LOREM.len() as u64;
    assert_eq!(f.seek(SeekFrom::Start(len)), Ok(len));
    assert_eq!(f.seek(SeekFrom::Start(len + 1)), Err(ReadError::UnexpectedEof));
    assert_eq!(f.stream_position(), len);
    assert_eq!(f.seek(SeekFrom::Start(5)), Ok(5));
    assert_eq!(f.seek(SeekFrom::Current(-6)), Err(ReadError::InvalidInput));
    assert_eq!(f.seek(SeekFrom::Current(-5)), Ok(0));
    assert_eq!(f.seek(SeekFrom::End(1)), Err(ReadError::UnexpectedEof));
    assert_eq!(f.seek(SeekFrom::End(0)), Ok(len));
    assert_eq!(f.stream_position(), len);
}

#[test]
fn short_block_at_eof() {
    // 3150 bytes in blocks of 100: the last block holds 50 bytes.
    let mut f = open_file(100);
    let len = LOREM.len();
    f.seek(SeekFrom::Start((len - 20) as u64)).unwrap();
    let mut buf = vec![0u8; 64];
    assert_eq!(read_file(&mut f, LOREM, &mut buf), 20);
    assert_eq!(&buf[..20], &LOREM[len - 20..]);
    let block = f.cache().block(0);
    assert_eq!(block.start, 3100);
    assert_eq!(block.len(), 50);
    assert_eq!(f.read(&mut buf), ReadStep::Done(0));
}

#[test]
fn miss_names_the_block_to_fetch() {
    let mut f = open_file(10);
    f.seek(SeekFrom::Start(23)).unwrap();
    let mut buf = vec![0u8; 4];
    assert_eq!(f.read(&mut buf), ReadStep::NeedBlock { copied: 0, start: 20, end: 29 });
    assert_eq!(f.stream_position(), 23);
}

#[test]
fn reader_clone_keeps_own_position() {
    let mut cache = LruCache::new(10, 10);
    let mut r = S3Reader::new("bucket".to_string(), "key".to_string());
    r.record_length(LOREM.len());
    let mut first = vec![0u8; 100];
    assert_eq!(read_shared(&mut r, &mut cache, LOREM, &mut first), 100);
    let mut c = r.clone();
    assert_eq!(c.seek(SeekFrom::Start(1000)), Ok(1000));
    let mut second = vec![0u8; 50];
    assert_eq!(read_shared(&mut c, &mut cache, LOREM, &mut second), 50);
    assert_eq!(r.get_position(), 100);
    assert_eq!(c.get_position(), 1050);
    assert_eq!(&first[..], &LOREM[..100]);
    assert_eq!(&second[..], &LOREM[1000..1050]);
}

#[test]
fn interleaved_readers_share_cache() {
    let mut cache = LruCache::new(3, 16);
    let mut a = S3Reader::new("bucket".to_string(), "key".to_string());
    a.record_length(LOREM.len());
    let mut b = a.clone();
    b.seek(SeekFrom::Start(2000)).unwrap();
    let mut out_a = Vec::new();
    let mut out_b = Vec::new();
    for _ in 0..40 {
        let mut buf = vec![0u8; 7];
        let n = read_shared(&mut a, &mut cache, LOREM, &mut buf);
        out_a.extend_from_slice(&buf[..n]);
        let mut buf = vec![0u8; 11];
        let n = read_shared(&mut b, &mut cache, LOREM, &mut buf);
        out_b.extend_from_slice(&buf[..n]);
        assert!(cache.num_blocks() <= 3);
    }
    assert_eq!(&out_a[..], &LOREM[..280]);
    assert_eq!(&out_b[..], &LOREM[2000..2440]);
}

#[test]
fn cache_evicts_least_recently_used() {
    let mut cache = LruCache::new(2, 10);
    assert!(cache.insert_block(0, fetch(LOREM, 0, 9)).is_some());
    assert!(cache.insert_block(10, fetch(LOREM, 10, 19)).is_some());
    // Use block 0 again, so block 10 is the least recently used.
    assert!(cache.find_cached_block(3).is_some());
    assert!(cache.insert_block(25, fetch(LOREM, 20, 29)).is_some());
    assert_eq!(cache.num_blocks(), 2);
    assert!(cache.find_cached_block(15).is_none());
    let b = cache.find_cached_block(5).unwrap();
    assert_eq!(b.start, 0);
    assert_eq!(&b.data[..], &LOREM[0..10]);
    let b = cache.find_cached_block(29).unwrap();
    assert_eq!(b.start, 20);
    assert_eq!(&b.data[..], &LOREM[20..30]);
}

#[test]
fn cache_stays_within_capacity() {
    let mut cache = LruCache::new(4, 8);
    for i in 0..50usize {
        let start = (i * 37) % 3000 / 8 * 8;
        assert!(cache.insert_block(start, fetch(LOREM, start, start + 7)).is_some());
        assert!(cache.num_blocks() <= 4);
    }
    assert_eq!(cache.capacity(), 4);
}

#[test]
fn cache_refuses_unusable_blocks() {
    let mut cache = LruCache::new(2, 10);
    // Longer than a block.
    assert!(cache.insert_block(0, fetch(LOREM, 0, 10)).is_none());
    // Does not reach the offset.
    assert!(cache.insert_block(7, fetch(LOREM, 0, 4)).is_none());
    assert_eq!(cache.num_blocks(), 0);
    assert_eq!(cache.block_range(27), (20, 29));
    assert_eq!(cache.block_size(), 10);
}

#[test]
fn cache_replaces_block_with_same_start() {
    let mut cache = LruCache::new(2, 10);
    assert!(cache.insert_block(2, fetch(LOREM, 0, 4)).is_some());
    assert!(cache.insert_block(8, fetch(LOREM, 0, 9)).is_some());
    assert_eq!(cache.num_blocks(), 1);
    assert_eq!(cache.block(0).len(), 10);
}

#[test]
fn chunk_reads_stop_at_end_of_range() {
    let mut cache = LruCache::new(10, 10);
    let mut r = S3Reader::new("bucket".to_string(), "key".to_string());
    r.record_length(LOREM.len());
    let mut chunk = S3ReaderChunk::new(&r, 20, 12).unwrap();
    assert_eq!(chunk.get_position(), 20);
    let mut buf = vec![0u8; 30];
    let mut done = 0;
    loop {
        match chunk.read(&mut cache, &mut buf[done..]) {
            ReadStep::Done(n) => {
                done += n;
                break;
            }
            ReadStep::NeedBlock { copied, start, end } => {
                done += copied;
                let pos = chunk.get_position();
                assert!(cache.insert_block(pos, fetch(LOREM, start, end)).is_some());
            }
        }
    }
    assert_eq!(done, 12);
    assert_eq!(&buf[..12], b"Hello world!");
    assert_eq!(chunk.read(&mut cache, &mut buf), ReadStep::Done(0));
    assert_eq!(r.get_position(), 0);
    assert!(S3ReaderChunk::new(&r, LOREM.len() as u64 + 1, 1).is_err());
}

#[test]
fn object_identity_and_length() {
    let mut o = ObjectReader::new("bucket".to_string(), "key".to_string());
    assert_eq!(o.get_object_name(), "bucket:key");
    assert_eq!(o.get_length(), None);
    o.record_length(42);
    o.record_length(7);
    assert_eq!(o.get_length(), Some(42));
    let mut r = S3Reader::new("b".to_string(), "k".to_string());
    assert_eq!(r.get_length(), None);
    r.record_length(3150);
    assert_eq!(r.len(), 3150);
    assert_eq!(r.set_position(3151), Err(ReadError::UnexpectedEof));
    assert_eq!(r.set_position(-1), Err(ReadError::InvalidInput));
    assert_eq!(r.set_position(3000), Ok(()));
    assert_eq!(r.update_position(150), Ok(()));
    assert_eq!(r.update_position(1), Err(ReadError::UnexpectedEof));
    assert_eq!(r.stream_position(), 3150);
}
