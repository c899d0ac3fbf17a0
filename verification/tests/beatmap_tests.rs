use rrpg::beatmap::Beatmap;
use rrpg::beatmap::BeatmapNote;
use rrpg::beatmap::BeatmapSong;

fn song() -> BeatmapSong {
    BeatmapSong { path: String::from("songs/example.ogg"), bpm: 170, offset: 570 }
}

#[test]
fn song_offset_converts_milliseconds_to_nanoseconds() {
    assert_eq!(song().offset(), 570_000_000);
}

#[test]
fn beatmap_sorts_notes_by_beat() {
    let notes = vec![
        BeatmapNote::new(3000, None, 0),
        BeatmapNote::new(1000, None, 1),
        BeatmapNote::new(2000, Some(2500), 0),
    ];
    let map = Beatmap::new(2, song(), notes);
    let beats: Vec<u64> = map.notes().iter().map(|n| n.beat()).collect();
    assert_eq!(beats, vec![1000, 2000, 3000]);
    assert_eq!(map.lane_count, 2);
}

#[test]
fn beatmap_keeps_duplicate_beats() {
    let notes = vec![
        BeatmapNote::new(2000, None, 0),
        BeatmapNote::new(1000, None, 1),
        BeatmapNote::new(2000, None, 2),
        BeatmapNote::new(2000, None, 3),
    ];
    let map = Beatmap::new(4, song(), notes);
    let beats: Vec<u64> = map.notes().iter().map(|n| n.beat()).collect();
    assert_eq!(beats, vec![1000, 2000, 2000, 2000]);
    let mut lanes: Vec<u32> = map.notes().iter().map(|n| n.lane).collect();
    lanes.sort();
    assert_eq!(lanes, vec![0, 1, 2, 3]);
}

#[test]
fn beatmap_note_carries_slider_end() {
    let n = BeatmapNote::new(1500, Some(2500), 3);
    assert_eq!(n.beat(), 1500);
    assert_eq!(n.end_beat(), Some(2500));
    assert_eq!(n.lane, 3);
    assert_eq!(BeatmapNote::new(1500, None, 3).end_beat(), None);
}

#[test]
fn beatmap_notes_compare_by_beat_alone() {
    let a = BeatmapNote::new(1000, None, 0);
    let b = BeatmapNote::new(1000, Some(9000), 7);
    let c = BeatmapNote::new(2000, None, 0);
    assert!(a == b);
    assert!(a != c);
    assert!(a < c);
    assert!(c > b);
    assert_eq!(a.partial_cmp(&b), Some(std::cmp::Ordering::Equal));
}
