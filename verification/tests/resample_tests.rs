use rrpg::resample::Resampler;
use rrpg::source::MemorySource;

fn sine_mono(rate: u32, seconds: u32) -> Vec<i16> {
    let n = (rate * seconds) as usize;
    (0..n).map(|i| ((i as f32 * 0.05).sin() * 12000.0) as i16).collect()
}

#[test]
fn passthrough_reproduces_inner_samples_exactly() {
    let data: Vec<i16> = (0..1000).map(|i| (i * 3 - 700) as i16).collect();
    let inner = MemorySource::new(48000, 2, data.clone());
    let mut rs: Resampler<_, f32> = Resampler::new(inner, 48000).unwrap();
    assert_eq!(rs.sample_rate(), 48000);
    assert_eq!(rs.channels(), 2);

    let mut out = Vec::new();
    loop {
        let mut buf = vec![0i16; 64];
        let got = rs.sample(&mut buf).unwrap();
        if got == 0 {
            break;
        }
        out.extend_from_slice(&buf[..got]);
    }
    assert_eq!(out, data);
}

#[test]
fn passthrough_has_zero_added_latency() {
    // the very first read already returns the first samples
    let inner = MemorySource::new(44100, 1, vec![5, 6, 7, 8]);
    let mut rs: Resampler<_, f32> = Resampler::new(inner, 44100).unwrap();
    let mut buf = vec![0i16; 2];
    assert_eq!(rs.sample(&mut buf).unwrap(), 2);
    assert_eq!(buf, vec![5, 6]);
}

#[test]
fn conversion_duration_converges_to_rate_ratio() {
    // one second at 44100 in, so one second at 48000 out, within one
    // processing block of tolerance
    let data = sine_mono(44100, 1);
    let inner = MemorySource::new(44100, 1, data);
    let mut rs: Resampler<_, f32> = Resampler::new(inner, 48000).unwrap();
    assert_eq!(rs.sample_rate(), 48000);

    let mut total = 0usize;
    loop {
        let mut buf = vec![0i16; 4096];
        let got = rs.sample(&mut buf).unwrap();
        if got == 0 {
            break;
        }
        total += got;
    }
    let expected = 48000i64;
    let diff = (total as i64 - expected).abs();
    assert!(diff <= 4600, "total {} frames, expected about {}", total, expected);
}

#[test]
fn conversion_preserves_channel_count() {
    let inner = MemorySource::new(32000, 2, vec![100; 32000]);
    let mut rs: Resampler<_, f32> = Resampler::new(inner, 48000).unwrap();
    assert_eq!(rs.channels(), 2);
    let mut buf = vec![0i16; 1024];
    let got = rs.sample(&mut buf).unwrap();
    assert!(got > 0);
    assert_eq!(got % 2, 0);
}

#[test]
fn conversion_output_is_not_the_input_handed_back() {
    // a resampled second holds more frames than the input second, so the
    // kernel demonstrably ran
    let inner = MemorySource::new(24000, 1, vec![3000; 24000]);
    let mut rs: Resampler<_, f32> = Resampler::new(inner, 48000).unwrap();
    let mut total = 0usize;
    loop {
        let mut buf = vec![0i16; 4096];
        let got = rs.sample(&mut buf).unwrap();
        if got == 0 {
            break;
        }
        total += got;
    }
    assert!(total > 40000, "only {} frames out", total);
}

#[test]
fn drained_conversion_returns_zero_without_error() {
    let inner = MemorySource::new(44100, 1, vec![500; 2000]);
    let mut rs: Resampler<_, f32> = Resampler::new(inner, 48000).unwrap();
    loop {
        let mut buf = vec![0i16; 1024];
        if rs.sample(&mut buf).unwrap() == 0 {
            break;
        }
    }
    // a finished conversion keeps answering zero, never an error
    let mut buf = vec![0i16; 1024];
    assert_eq!(rs.sample(&mut buf).unwrap(), 0);
    let mut buf = vec![0i16; 1024];
    assert_eq!(rs.sample(&mut buf).unwrap(), 0);
}

#[test]
fn stream_ending_on_a_chunk_boundary_flushes_cleanly() {
    // exactly two processing chunks of input: the final flush runs on a
    // whole, silence-padded chunk and reports no error
    let inner = MemorySource::new(44100, 1, vec![1000; 8192]);
    let mut rs: Resampler<_, f32> = Resampler::new(inner, 48000).unwrap();
    let mut total = 0usize;
    loop {
        let mut buf = vec![0i16; 512];
        let got = rs.sample(&mut buf).unwrap();
        if got == 0 {
            break;
        }
        total += got;
    }
    assert!(total > 0);
}

#[test]
fn construction_fails_on_zero_rate() {
    let inner = MemorySource::new(44100, 1, vec![0; 4]);
    let r: Result<Resampler<_, f32>, _> = Resampler::new(inner, 0);
    assert!(r.is_err());
}

#[test]
fn seek_restarts_conversion_deterministically() {
    let data = sine_mono(44100, 1);
    let inner = MemorySource::new(44100, 1, data.clone());
    let mut rs: Resampler<_, f32> = Resampler::new(inner, 48000).unwrap();

    let mut first = vec![0i16; 2048];
    let first_got = rs.sample(&mut first).unwrap();

    rs.seek(0).unwrap();
    let mut again = vec![0i16; 2048];
    let again_got = rs.sample(&mut again).unwrap();

    assert_eq!(first_got, again_got);
    assert_eq!(first, again);
}

#[test]
fn passthrough_seek_delegates() {
    let inner = MemorySource::new(8000, 1, vec![1, 2, 3, 4]);
    let mut rs: Resampler<_, f32> = Resampler::new(inner, 8000).unwrap();
    rs.seek(2).unwrap();
    let mut buf = vec![0i16; 4];
    let got = rs.sample(&mut buf).unwrap();
    assert_eq!(&buf[..got], &[3, 4]);
}
