use rrpg::clock::Rhythm;
use rrpg::judgement::create_dropped_judgements;
use rrpg::judgement::BeatmapInstance;
use rrpg::judgement::create_judgements;
use rrpg::judgement::set_slider_down;
use rrpg::judgement::JudgementEvent;
use rrpg::judgement::KeyEvent;
use rrpg::judgement::KeyEventType;
use rrpg::note::reorder_notes;
use rrpg::note::tick_sliders;
use rrpg::note::Lane;
use rrpg::note::Note;
use rrpg::note::NoteType;
use rrpg::note::Slider;

const MS: u64 = 1_000_000;
const WINDOW: u64 = 100 * MS;

#[test]
fn default_instance_window_is_a_tenth_of_a_second() {
    assert_eq!(BeatmapInstance::default().note_window, WINDOW);
}

/// A lane with notes on beats 1.0, 2.0 and 3.0.
fn lane_123() -> Lane {
    let mut lane = Lane::new(0);
    let added = vec![
        Note::new(101, 1000, NoteType::Note, 0),
        Note::new(102, 2000, NoteType::Note, 0),
        Note::new(103, 3000, NoteType::Note, 0),
    ];
    reorder_notes(&mut lane, added);
    lane
}

/// A clock at 60 BPM with no offset, at `at` nanoseconds: one beat is one
/// second.
fn clock_at(at: u64) -> Rhythm {
    let mut clock = Rhythm::new(60, 0);
    clock.tick(0, at);
    assert_eq!(clock.position(), at);
    clock
}

#[test]
fn key_down_exactly_on_the_beat_hits_with_offset_zero() {
    let mut lane = lane_123();
    // beat 1.0 was already judged
    lane.advance_note();

    let clock = clock_at(2_000 * MS);
    let key = KeyEvent { timestamp: 2_000 * MS, lane: 0, kind: KeyEventType::Down };
    let judgement = create_judgements(&mut lane, &key, WINDOW, &clock).unwrap();
    assert_eq!(judgement, JudgementEvent { note: 102, offset: Some(0) });

    // the cursor has advanced to the note on beat 3.0
    assert_eq!(lane.next_note_index(), 2);
    assert_eq!(lane.next_note().unwrap().beat(), 3000);
}

#[test]
fn early_key_inside_window_reports_positive_offset() {
    let mut lane = lane_123();
    let clock = clock_at(1_000 * MS);
    let key = KeyEvent { timestamp: 1_000 * MS - 40 * MS, lane: 0, kind: KeyEventType::Down };
    let judgement = create_judgements(&mut lane, &key, WINDOW, &clock).unwrap();
    assert_eq!(judgement.offset, Some(40 * MS as i64));
}

#[test]
fn late_key_outside_window_is_ignored_then_swept_as_missed() {
    let mut lane = lane_123();

    // a key-down 200 ms late for beat 1.0: outside the window, no judgement
    let clock = clock_at(1_200 * MS);
    let key = KeyEvent { timestamp: 1_200 * MS, lane: 0, kind: KeyEventType::Down };
    assert!(create_judgements(&mut lane, &key, WINDOW, &clock).is_none());
    assert_eq!(lane.next_note_index(), 0);

    // once the window has closed, the dropped-note sweep reports the miss
    let missed = create_dropped_judgements(&mut lane, WINDOW, &clock);
    assert_eq!(missed, vec![JudgementEvent { note: 101, offset: None }]);
    assert_eq!(lane.next_note_index(), 1);
}

#[test]
fn sweep_reports_every_closed_note_in_beat_order() {
    let mut lane = lane_123();
    let clock = clock_at(3_500 * MS);
    let missed = create_dropped_judgements(&mut lane, WINDOW, &clock);
    assert_eq!(
        missed,
        vec![
            JudgementEvent { note: 101, offset: None },
            JudgementEvent { note: 102, offset: None },
            JudgementEvent { note: 103, offset: None },
        ],
    );
    assert_eq!(lane.next_note_index(), 3);
    assert!(lane.next_note().is_none());
}

#[test]
fn sweep_stops_at_the_first_open_note() {
    let mut lane = lane_123();
    let clock = clock_at(1_050 * MS);
    // beat 1.0 is only 50 ms behind: still inside its window
    assert_eq!(create_dropped_judgements(&mut lane, WINDOW, &clock), Vec::new());
    assert_eq!(lane.next_note_index(), 0);
}

#[test]
fn wrong_edge_is_ignored_without_cursor_movement() {
    let mut lane = Lane::new(1);
    reorder_notes(&mut lane, vec![Note::new(7, 1000, NoteType::SliderEnd, 0)]);
    let clock = clock_at(1_000 * MS);

    // a slider end wants a key-up, so a key-down does nothing
    let down = KeyEvent { timestamp: 1_000 * MS, lane: 1, kind: KeyEventType::Down };
    assert!(create_judgements(&mut lane, &down, WINDOW, &clock).is_none());
    assert_eq!(lane.next_note_index(), 0);

    let up = KeyEvent { timestamp: 1_000 * MS, lane: 1, kind: KeyEventType::Up };
    let judgement = create_judgements(&mut lane, &up, WINDOW, &clock).unwrap();
    assert_eq!(judgement.note, 7);
    assert_eq!(lane.next_note_index(), 1);
}

#[test]
fn slider_begin_wants_a_key_down() {
    let mut lane = Lane::new(0);
    reorder_notes(&mut lane, vec![Note::new(9, 1000, NoteType::SliderBegin, 0)]);
    let clock = clock_at(1_000 * MS);
    let key = KeyEvent { timestamp: 1_000 * MS, lane: 0, kind: KeyEventType::Down };
    assert!(create_judgements(&mut lane, &key, WINDOW, &clock).is_some());
}

#[test]
fn empty_lane_never_judges() {
    let mut lane = Lane::new(0);
    let clock = clock_at(1_000 * MS);
    let key = KeyEvent { timestamp: 1_000 * MS, lane: 0, kind: KeyEventType::Down };
    assert!(create_judgements(&mut lane, &key, WINDOW, &clock).is_none());
    assert_eq!(create_dropped_judgements(&mut lane, WINDOW, &clock), Vec::new());
}

#[test]
fn reordering_notes_with_duplicate_beats_keeps_ascending_order() {
    let mut lane = Lane::new(0);
    let added = vec![
        Note::new(1, 2000, NoteType::Note, 0),
        Note::new(2, 1000, NoteType::Note, 0),
        Note::new(3, 2000, NoteType::Note, 0),
        Note::new(4, 500, NoteType::Note, 0),
        Note::new(5, 2000, NoteType::Note, 0),
    ];
    reorder_notes(&mut lane, added);

    let notes = lane.all_next_notes();
    assert_eq!(notes.len(), 5);
    for w in notes.windows(2) {
        assert!(w[0].beat() <= w[1].beat());
    }
    for (i, n) in notes.iter().enumerate() {
        assert_eq!(n.index(), i);
    }
    let mut ids: Vec<u64> = notes.iter().map(|n| n.id()).collect();
    ids.sort();
    assert_eq!(ids, vec![1, 2, 3, 4, 5]);
}

#[test]
fn reordering_merges_new_notes_into_existing_ones() {
    let mut lane = Lane::new(0);
    reorder_notes(&mut lane, vec![Note::new(1, 3000, NoteType::Note, 0)]);
    reorder_notes(&mut lane, vec![Note::new(2, 1000, NoteType::Note, 0)]);
    let notes = lane.all_next_notes();
    assert_eq!(notes[0].id(), 2);
    assert_eq!(notes[1].id(), 1);
}

#[test]
fn slider_accumulates_held_time_only_while_down() {
    let mut slider = Slider::new();
    tick_sliders(&mut slider, 16 * MS);
    assert_eq!(slider.duration_held(), 0);

    set_slider_down(&mut slider, KeyEventType::Down);
    assert!(slider.down());
    tick_sliders(&mut slider, 16 * MS);
    tick_sliders(&mut slider, 16 * MS);
    assert_eq!(slider.duration_held(), 32 * MS);

    set_slider_down(&mut slider, KeyEventType::Up);
    assert!(!slider.down());
    tick_sliders(&mut slider, 16 * MS);
    assert_eq!(slider.duration_held(), 32 * MS);
}

#[test]
fn defaults_match_fresh_values() {
    assert_eq!(NoteType::default(), NoteType::Note);
    let n = Note::default();
    assert_eq!((n.id(), n.beat(), n.index()), (0, 0, 0));
    let lane = Lane::default();
    assert_eq!(lane.number(), 0);
    assert!(lane.next_note().is_none());
    let slider = Slider::default();
    assert!(!slider.down());
    assert_eq!(slider.duration_held(), 0);
    assert_eq!(rrpg::note::SliderRef(5).get(), 5);
}
