use rrpg::clock::Rhythm;
use rrpg::clock::MILLIBEATS;

const MS: u64 = 1_000_000;

#[test]
fn crotchet_is_derived_from_bpm() {
    let clock = Rhythm::new(170, 570 * MS);
    assert_eq!(clock.bpm(), 170);
    assert_eq!(clock.crotchet(), 60_000_000_000 / 170);
    assert_eq!(clock.offset(), 570 * MS);
    assert_eq!(clock.position(), 0);
}

#[test]
fn beat_number_is_one_at_offset_plus_crotchet() {
    // BPM 170, offset 570 ms; at exactly offset + crotchet the song is on
    // beat 1.0
    let mut clock = Rhythm::new(170, 570 * MS);
    let crotchet = clock.crotchet();
    clock.tick(0, 570 * MS + crotchet);
    assert_eq!(clock.position(), 570 * MS + crotchet);
    assert_eq!(clock.beat_number(), MILLIBEATS as i64);
}

#[test]
fn beat_number_is_negative_before_the_offset() {
    let mut clock = Rhythm::new(60, 2_000 * MS);
    clock.tick(0, 1_000 * MS);
    assert!(clock.beat_number() < 0);
}

#[test]
fn beat_position_scales_by_millibeats() {
    let clock = Rhythm::new(60, 500 * MS);
    // at 60 BPM a beat is one second
    assert_eq!(clock.beat_position(0), 500 * MS);
    assert_eq!(clock.beat_position(1000), 1_500 * MS);
    assert_eq!(clock.beat_position(2500), 3_000 * MS);
}

#[test]
fn position_never_overtakes_device_time_plus_offset() {
    let mut clock = Rhythm::new(170, 570 * MS);
    let mut last_position = 0u64;
    let steps: [(u64, u64); 6] = [
        (16 * MS, 0),
        (16 * MS, 21 * MS),
        (16 * MS, 21 * MS),
        (16 * MS, 21 * MS),
        (16 * MS, 42 * MS),
        (16 * MS, 85 * MS),
    ];
    for (delta, device) in steps {
        clock.tick(delta, device);
        assert!(clock.position() <= device + clock.offset());
        assert!(clock.position() >= last_position);
        last_position = clock.position();
    }
}

#[test]
fn clock_stays_raw_until_device_time_moves() {
    let mut clock = Rhythm::new(120, 0);
    clock.tick(16 * MS, 0);
    // still raw: the position mirrors the device timestamp, not the delta
    assert_eq!(clock.position(), 0);
    clock.tick(16 * MS, 10 * MS);
    assert_eq!(clock.position(), 10 * MS);
}

#[test]
fn interpolation_smooths_between_device_updates() {
    let mut clock = Rhythm::new(120, 500 * MS);
    clock.tick(16 * MS, 20 * MS);  // leaves raw state
    let before = clock.position();
    clock.tick(16 * MS, 20 * MS);  // interpolating, device unchanged
    let after = clock.position();
    assert!(after > before);
    assert!(after <= 20 * MS + 500 * MS);
}

#[test]
fn beat_round_trips_within_a_millibeat() {
    let mut clock = Rhythm::new(170, 570 * MS);
    let crotchet = clock.crotchet();
    for device in [600 * MS, 700 * MS + 123, 1_000 * MS + 45678, 2_000 * MS] {
        clock.tick(0, device);
        let beats = clock.beat_number();
        assert!(beats >= 0);
        let back = clock.beat_position(beats as u64);
        assert!(back <= clock.position());
        assert!(clock.position() - back <= crotchet / MILLIBEATS + 2);
    }
}

#[test]
fn dsp_time_is_position_past_the_offset() {
    let mut clock = Rhythm::new(60, 100 * MS);
    clock.tick(0, 50 * MS);
    assert_eq!(clock.dsp_time(), 0);
    // drive the interpolation past the offset
    while clock.position() <= 100 * MS {
        clock.tick(16 * MS, 300 * MS);
    }
    assert_eq!(clock.dsp_time(), clock.position() - 100 * MS);
}

#[test]
fn default_clock_is_sixty_bpm_with_no_offset() {
    let clock = Rhythm::default();
    assert_eq!(clock.bpm(), 60);
    assert_eq!(clock.offset(), 0);
    assert_eq!(clock.position(), 0);
    assert_eq!(clock.crotchet(), 1_000_000_000);
}
