use rrpg::decode::DecodeError;
use rrpg::decode::Decoder;
use rrpg::decode::OggDecoder;
use rrpg::decode::VecPacketSource;
use rrpg::source::Source;

fn packets(chans: u8, list: Vec<Vec<i16>>) -> Decoder<VecPacketSource> {
    Decoder::from_packets(VecPacketSource::new(48000, chans, list))
}

fn read_all(dec: &mut Decoder<VecPacketSource>, chunk: usize) -> Vec<i16> {
    let mut out = Vec::new();
    loop {
        let mut buf = vec![0i16; chunk];
        let got = dec.sample(&mut buf).unwrap();
        if got == 0 {
            return out;
        }
        out.extend_from_slice(&buf[..got]);
    }
}

#[test]
fn decoder_concatenates_packets() {
    let mut dec = packets(1, vec![vec![1], vec![2, 3], vec![4, 5, 6]]);
    assert_eq!(read_all(&mut dec, 100), vec![1, 2, 3, 4, 5, 6]);
}

#[test]
fn decoder_chunking_is_invariant() {
    // however the reads split the stream, the concatenation is the same
    let list = vec![vec![1, 2], vec![3, 4, 5, 6], vec![7, 8], vec![9, 10]];
    for chunk in [2usize, 4, 6, 8, 10] {
        let mut dec = packets(2, list.clone());
        assert_eq!(read_all(&mut dec, chunk), vec![1, 2, 3, 4, 5, 6, 7, 8, 9, 10]);
    }
}

#[test]
fn decoder_keeps_leftover_packet_samples() {
    // one packet is larger than the read buffer: the rest must come later
    let mut dec = packets(1, vec![vec![1, 2, 3, 4, 5]]);
    let mut buf = vec![0i16; 2];
    assert_eq!(dec.sample(&mut buf).unwrap(), 2);
    assert_eq!(buf, vec![1, 2]);
    let mut buf = vec![0i16; 2];
    assert_eq!(dec.sample(&mut buf).unwrap(), 2);
    assert_eq!(buf, vec![3, 4]);
    let mut buf = vec![0i16; 2];
    assert_eq!(dec.sample(&mut buf).unwrap(), 1);
    assert_eq!(buf[0], 5);
}

#[test]
fn decoder_returns_zero_only_at_end() {
    let mut dec = packets(1, vec![vec![9, 8]]);
    let mut buf = vec![0i16; 2];
    assert_eq!(dec.sample(&mut buf).unwrap(), 2);
    let mut buf = vec![0i16; 2];
    assert_eq!(dec.sample(&mut buf).unwrap(), 0);
    let mut buf = vec![0i16; 2];
    assert_eq!(dec.sample(&mut buf).unwrap(), 0);
}

#[test]
fn decoder_rate_and_channels_come_from_the_stream() {
    let dec = packets(2, vec![vec![1, 2]]);
    assert_eq!(dec.sample_rate(), 48000);
    assert_eq!(dec.channels(), 2);
}

#[test]
fn decoder_seek_discards_pending_samples() {
    let mut dec = packets(1, vec![vec![1, 2, 3, 4]]);
    let mut buf = vec![0i16; 1];
    assert_eq!(dec.sample(&mut buf).unwrap(), 1);
    // the seek must not splice stale buffered samples into the new position
    dec.seek(0).unwrap();
    assert_eq!(read_all(&mut dec, 10), vec![1, 2, 3, 4]);
}

#[test]
fn decoder_seek_rewinds_packet_lists_to_the_start() {
    // an in-memory packet list has no granule positions: a seek restarts it
    let mut dec = packets(1, vec![vec![1, 2], vec![3, 4]]);
    let mut buf = vec![0i16; 3];
    assert_eq!(dec.sample(&mut buf).unwrap(), 3);
    dec.seek(3).unwrap();
    assert_eq!(read_all(&mut dec, 10), vec![1, 2, 3, 4]);
}

#[test]
fn ogg_decoder_rejects_garbage_bytes() {
    let r = OggDecoder::new(vec![0u8; 256]);
    assert!(r.is_err());
}

#[test]
fn ogg_decoder_rejects_truncated_header() {
    // a lone capture pattern with nothing behind it
    let r = OggDecoder::new(b"OggS".to_vec());
    match r {
        Err(DecodeError::OggRead) => {}
        Err(DecodeError::BadHeader) => {}
        Err(DecodeError::BadAudio) => panic!("header error expected"),
        Ok(_) => panic!("garbage accepted"),
    }
}

#[test]
fn ogg_decoder_rejects_empty_input() {
    assert!(OggDecoder::new(Vec::new()).is_err());
}
