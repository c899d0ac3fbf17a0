use rrpg::engine::AudioControl;
use rrpg::engine::callback_fill;
use rrpg::engine::select_output_config;
use rrpg::engine::DEFAULT_SAMPLE_RATE;
use rrpg::resample::Resampler;
use rrpg::source::MemorySource;

#[test]
fn counter_is_monotonic_across_callbacks() {
    let mut ctl = AudioControl::new(48000);
    let mut last = ctl.timestamp();
    for frames in [480u64, 0, 256, 1024, 3, 0, 4096] {
        ctl.add_frames(frames);
        assert!(ctl.timestamp() >= last);
        last = ctl.timestamp();
    }
    assert_eq!(ctl.timestamp(), 480 + 256 + 1024 + 3 + 4096);
}

#[test]
fn counter_saturates_instead_of_wrapping() {
    let mut ctl = AudioControl::new(48000);
    ctl.add_frames(u64::MAX);
    ctl.add_frames(5);
    assert_eq!(ctl.timestamp(), u64::MAX);
}

#[test]
fn counter_resets_to_exactly_zero_on_new_track() {
    let mut ctl = AudioControl::new(44100);
    ctl.add_frames(100_000);
    assert!(ctl.timestamp() > 0);
    ctl.reset();
    assert_eq!(ctl.timestamp(), 0);
}

#[test]
fn control_position_is_per_sample_duration_times_count() {
    let mut ctl = AudioControl::new(48000);
    ctl.add_frames(48000);
    // 1_000_000_000 / 48000 = 20833 nanoseconds per sample, truncated
    assert_eq!(ctl.position(), 20833 * 48000);
}

#[test]
fn default_control_uses_desired_rate() {
    let ctl = AudioControl::default();
    assert_eq!(ctl.timestamp(), 0);
    assert_eq!(DEFAULT_SAMPLE_RATE, 48_000);
}

#[test]
fn config_selection_picks_closest_rate() {
    let configs = vec![(8000u32, 8000u32), (44100, 44100), (22050, 96000)];
    let (idx, rate) = select_output_config(&configs, 48000).unwrap();
    assert_eq!(idx, 2);
    assert_eq!(rate, 48000);
}

#[test]
fn config_selection_clamps_to_range_ends() {
    let configs = vec![(8000u32, 16000u32), (96000, 192000)];
    let (idx, rate) = select_output_config(&configs, 48000).unwrap();
    // 16000 is 32000 away; 96000 is 48000 away
    assert_eq!(idx, 0);
    assert_eq!(rate, 16000);
}

#[test]
fn config_selection_breaks_ties_by_first_match() {
    let configs = vec![(44100u32, 44100u32), (51900, 51900)];
    // both are 3900 away from 48000
    let (idx, rate) = select_output_config(&configs, 48000).unwrap();
    assert_eq!(idx, 0);
    assert_eq!(rate, 44100);
}

#[test]
fn config_selection_of_nothing_is_none() {
    assert!(select_output_config(&Vec::new(), 48000).is_none());
}

#[test]
fn callback_fill_pads_shortfall_with_silence() {
    let inner = MemorySource::new(48000, 2, vec![11, 22, 33, 44]);
    let mut rs: Resampler<_, f32> = Resampler::new(inner, 48000).unwrap();
    let (data, frames, faulted) = callback_fill(&mut rs, 8);
    assert_eq!(data.len(), 8);
    assert_eq!(&data[..4], &[11, 22, 33, 44]);
    assert_eq!(&data[4..], &[0, 0, 0, 0]);
    assert_eq!(frames, 2);
    assert!(!faulted);
}

#[test]
fn callback_fill_counts_only_produced_frames() {
    let inner = MemorySource::new(48000, 2, Vec::new());
    let mut rs: Resampler<_, f32> = Resampler::new(inner, 48000).unwrap();
    let (data, frames, faulted) = callback_fill(&mut rs, 6);
    assert_eq!(data, vec![0, 0, 0, 0, 0, 0]);
    assert_eq!(frames, 0);
    assert!(!faulted);
}
