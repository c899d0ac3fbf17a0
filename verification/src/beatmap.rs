//! Beatmaps: the declarative description of a playable song — lane count,
//! song settings, and note placements.
//!
//! The core consumes already-deserialized values; reading and parsing the
//! beatmap file is the loading layer's concern. Beats arrive in millibeats
//! (thousandths of a beat), which every finite beat value of a beatmap file
//! has an exact image in; the loading layer rejects beat values that are
//! not finite non-negative numbers before they reach this module.

use vstd::prelude::*;

verus! {

/// A single placement of a note.
#[derive(Clone, Copy, Debug)]
pub struct BeatmapNote {
    beat: u64,
    end_beat: Option<u64>,
    /// What lane the note appears in.
    pub lane: u32,
}

impl BeatmapNote {
    /// The beat in millibeats, as a specification value.
    pub closed spec fn beat_spec(&self) -> u64 {
        self.beat
    }

    /// The end beat in millibeats, as a specification value.
    pub closed spec fn end_beat_spec(&self) -> Option<u64> {
        self.end_beat
    }

    /// The lane, as a specification value.
    pub closed spec fn lane_spec(&self) -> u32 {
        self.lane
    }

    /// Creates a note placement at `beat` millibeats in `lane`; a slider
    /// also carries the millibeat it ends on.
    pub fn new(beat: u64, end_beat: Option<u64>, lane: u32) -> (r: BeatmapNote)
        ensures
            r.beat_spec() == beat,
            r.end_beat_spec() == end_beat,
            r.lane_spec() == lane,
    {
        BeatmapNote { beat, end_beat, lane }
    }

    /// Where the note actually occurs in the song according to BPM, in
    /// millibeats.
    pub fn beat(&self) -> (r: u64)
        ensures
            r == self.beat_spec(),
    {
        self.beat
    }

    /// `None` if the note is a single (tap) note. If the note is a slider,
    /// this is the millibeat the slider ends on.
    pub fn end_beat(&self) -> (r: Option<u64>)
        ensures
            r == self.end_beat_spec(),
    {
        self.end_beat
    }
}

impl PartialEq for BeatmapNote {
    /// Note placements compare by the beat they start on alone.
    fn eq(&self, other: &Self) -> (r: bool) {
        self.beat == other.beat
    }
}

impl vstd::std_specs::cmp::PartialEqSpecImpl for BeatmapNote {
    open spec fn obeys_eq_spec() -> bool {
        true
    }

    open spec fn eq_spec(&self, other: &Self) -> bool {
        self.beat_spec() == other.beat_spec()
    }
}

impl PartialOrd for BeatmapNote {
    /// Note placements order by the beat they start on alone.
    fn partial_cmp(&self, other: &Self) -> (r: Option<core::cmp::Ordering>) {
        if self.beat < other.beat {
            Some(core::cmp::Ordering::Less)
        } else if self.beat == other.beat {
            Some(core::cmp::Ordering::Equal)
        } else {
            Some(core::cmp::Ordering::Greater)
        }
    }
}

impl vstd::std_specs::cmp::PartialOrdSpecImpl for BeatmapNote {
    open spec fn obeys_partial_cmp_spec() -> bool {
        true
    }

    open spec fn partial_cmp_spec(&self, other: &Self) -> Option<core::cmp::Ordering> {
        if self.beat_spec() < other.beat_spec() {
            Some(core::cmp::Ordering::Less)
        } else if self.beat_spec() == other.beat_spec() {
            Some(core::cmp::Ordering::Equal)
        } else {
            Some(core::cmp::Ordering::Greater)
        }
    }
}

/// A beatmap's song definition.
#[derive(Clone, Debug)]
pub struct BeatmapSong {
    /// The path to the song, relative to the beatmap's package.
    pub path: String,
    /// The BPM of the song.
    pub bpm: u32,
    /// The offset of where the song actually starts, in milliseconds.
    pub offset: u32,
}

impl BeatmapSong {
    /// Returns the start offset in nanoseconds.
    pub fn offset(&self) -> (r: u64)
        ensures
            r == self.offset * 1_000_000u64,
    {
        (self.offset as u64) * 1_000_000u64
    }
}

/// Ascending beat order of note placements.
pub open spec fn placements_sorted(s: Seq<BeatmapNote>) -> bool {
    forall|a: int, b: int| 0 <= a < b < s.len() ==> s[a].beat_spec() <= s[b].beat_spec()
}

/// A beatmap.
pub struct Beatmap {
    /// Lane count.
    ///
    /// This is carried explicitly so that the lanes can be set up without a
    /// scan through all the notes.
    pub lane_count: u32,
    /// Song definitions.
    pub song: BeatmapSong,
    notes: Vec<BeatmapNote>,
}

impl Beatmap {
    /// The notes, as a specification value.
    pub closed spec fn notes_spec(&self) -> Seq<BeatmapNote> {
        self.notes@
    }

    /// The lane count, as a specification value.
    pub closed spec fn lane_count_spec(&self) -> u32 {
        self.lane_count
    }

    /// The song definition, as a specification value.
    pub closed spec fn song_spec(&self) -> BeatmapSong {
        self.song
    }

    /// The beatmap's invariant: its notes stand in ascending beat order.
    pub closed spec fn wf(&self) -> bool {
        placements_sorted(self.notes@)
    }

    /// Builds a beatmap from already-deserialized parts, sorting the notes
    /// by the beat they start on. Duplicate beats are allowed; their
    /// relative order is arbitrary.
    pub fn new(lane_count: u32, song: BeatmapSong, notes: Vec<BeatmapNote>) -> (r: Beatmap)
        ensures
            r.wf(),
            placements_sorted(r.notes_spec()),
            r.lane_count_spec() == lane_count,
            r.song_spec() == song,
            r.notes_spec().to_multiset() == notes@.to_multiset(),
            r.notes_spec().len() == notes.len(),
    {
        let mut notes = notes;
        sort_placements(&mut notes);
        Beatmap { lane_count, song, notes }
    }

    /// The actual beatmap, a-la where all the notes are placed.
    ///
    /// The notes returned are sorted by the beat they start on.
    pub fn notes(&self) -> (r: &Vec<BeatmapNote>)
        ensures
            r@ == self.notes_spec(),
    {
        &self.notes
    }
}

/// Sorts note placements ascending by beat.
#[verifier::spinoff_prover]
#[verifier::rlimit(50)]
fn sort_placements(v: &mut Vec<BeatmapNote>)
    ensures
        final(v)@.to_multiset() == old(v)@.to_multiset(),
        final(v).len() == old(v).len(),
        placements_sorted(final(v)@),
{
    let mut i: usize = 1;
    while i < v.len()
        invariant
            i >= 1,
            v@.to_multiset() == old(v)@.to_multiset(),
            v.len() == old(v).len(),
            placements_sorted(v@.subrange(0, vstd::math::min(i as int, v.len() as int))),
        decreases v.len() - i,
    {
        let x = v[i];
        let mut p: usize = 0;
        while p < i && v[p].beat <= x.beat
            invariant
                p <= i,
                i < v.len(),
                x == v@[i as int],
                forall|a: int| 0 <= a < p ==> (#[trigger] v@[a]).beat_spec() <= x.beat_spec(),
            decreases i - p,
        {
            p = p + 1;
        }
        let ghost before = v@;
        let removed = v.remove(i);
        v.insert(p, removed);
        proof {
            broadcast use vstd::seq_lib::group_to_multiset_ensures;
            broadcast use vstd::multiset::group_multiset_axioms;

            let after = v@;
            assert(removed == x);
            before.remove_ensures(i as int);
            before.remove(i as int).insert_ensures(p as int, x);
            assert forall|k: int| 0 <= k < p implies after[k] == before[k] by {
                assert(after[k] == before.remove(i as int)[k]);
            }
            assert(after[p as int] == x);
            assert forall|k: int| p < k <= i implies after[k] == before[k - 1] by {
                assert(before.remove(i as int)[k - 1] == before[k - 1]);
                assert(after[k] == before.remove(i as int)[k - 1]);
            }
            vstd::seq_lib::to_multiset_remove(before, i as int);
            vstd::seq_lib::to_multiset_insert(before.remove(i as int), p as int, x);
            assert(before.to_multiset().contains(x)) by {
                assert(before[i as int] == x);
                assert(before.contains(x));
                assert(before.to_multiset().count(x) > 0);
            }
            assert(after.to_multiset() =~= before.to_multiset());
            assert forall|a: int, b: int|
                0 <= a < b < i + 1 implies after[a].beat_spec() <= after[b].beat_spec() by {
                let pre = before.subrange(0, i as int);
                assert(forall|k: int| 0 <= k < i ==> pre[k] == #[trigger] before[k]);
                assert(placements_sorted(pre));
                if b < p {
                    assert(pre[a].beat_spec() <= pre[b].beat_spec());
                } else if b == p {
                    assert(after[b] == x);
                    assert(before[a].beat_spec() <= x.beat_spec());
                } else if a == p {
                    assert(before[p as int].beat_spec() > x.beat_spec());
                    if b - 1 > p {
                        assert(pre[p as int].beat_spec() <= pre[b - 1].beat_spec());
                    }
                } else if a < p {
                    assert(before[a].beat_spec() <= x.beat_spec());
                    assert(before[p as int].beat_spec() > x.beat_spec());
                    if b - 1 > p {
                        assert(pre[p as int].beat_spec() <= pre[b - 1].beat_spec());
                    }
                } else {
                    assert(pre[a - 1].beat_spec() <= pre[b - 1].beat_spec());
                }
            }
            assert(placements_sorted(after.subrange(0, i + 1 as int)));
        }
        i = i + 1;
    }
    proof {
        if v.len() > 0 {
            assert(v@.subrange(0, v.len() as int) =~= v@);
        } else {
            assert(placements_sorted(v@));
        }
    }
}

} // verus!
