use rrpg::source::MemorySource;
use rrpg::source::Source;
use rrpg::source::TrackedSource;

fn read(src: &mut impl Source<Error = ()>, n: usize) -> Vec<i16> {
    let mut buf = vec![0i16; n];
    let got = src.sample(&mut buf).unwrap();
    buf.truncate(got);
    buf
}

#[test]
fn memory_source_reads_whole_stream_in_chunks() {
    let mut src = MemorySource::new(44100, 2, vec![1, 2, 3, 4, 5, 6]);
    assert_eq!(src.sample_rate(), 44100);
    assert_eq!(src.channels(), 2);
    assert_eq!(read(&mut src, 4), vec![1, 2, 3, 4]);
    assert_eq!(read(&mut src, 4), vec![5, 6]);
    assert_eq!(read(&mut src, 4), Vec::<i16>::new());
}

#[test]
fn memory_source_chunking_matches_one_big_read() {
    let data: Vec<i16> = (0..64).collect();
    let mut chunked = MemorySource::new(48000, 2, data.clone());
    let mut whole = MemorySource::new(48000, 2, data.clone());

    let mut gathered = Vec::new();
    for size in [2usize, 8, 4, 30, 20, 10, 6] {
        gathered.extend(read(&mut chunked, size));
    }
    assert_eq!(gathered, read(&mut whole, 64));
    assert_eq!(gathered, data);
}

#[test]
fn memory_source_never_splits_frames() {
    let mut src = MemorySource::new(8000, 2, vec![10, 20, 30, 40]);
    // a buffer of 2 samples holds exactly one two-channel frame
    assert_eq!(read(&mut src, 2), vec![10, 20]);
    assert_eq!(read(&mut src, 2), vec![30, 40]);
}

#[test]
fn memory_source_seek_is_per_channel() {
    let mut src = MemorySource::new(8000, 2, vec![1, 2, 3, 4, 5, 6]);
    src.seek(1).unwrap();
    assert_eq!(read(&mut src, 4), vec![3, 4, 5, 6]);
    // seeking past the end clamps to the end
    src.seek(99).unwrap();
    assert_eq!(read(&mut src, 2), Vec::<i16>::new());
}

#[test]
fn tracked_source_counts_samples_read() {
    let inner = MemorySource::new(1_000_000, 1, vec![7; 10]);
    let mut counted = TrackedSource::new(inner);
    assert_eq!(counted.position(), 0);
    let _ = read(&mut counted, 4);
    assert_eq!(counted.position(), 4);
    let _ = read(&mut counted, 4);
    assert_eq!(counted.position(), 8);
    // at one million frames per second, one sample lasts a microsecond
    assert_eq!(counted.position_time(), 8_000);
    let _ = read(&mut counted, 4);
    assert_eq!(counted.position(), 10);
}

#[test]
fn tracked_source_seek_sets_position() {
    let inner = MemorySource::new(1000, 1, vec![1, 2, 3, 4]);
    let mut counted = TrackedSource::new(inner);
    let _ = read(&mut counted, 4);
    counted.seek(1).unwrap();
    assert_eq!(counted.position(), 1);
    assert_eq!(read(&mut counted, 4), vec![2, 3, 4]);
}
