//! Notes, lanes and sliders.
//!
//! A lane owns its notes in ascending beat order together with a cursor to
//! the next unjudged note; reconciliation sorts newly added notes in and
//! renumbers them. Beats are in millibeats (see [`crate::clock`]).

use vstd::prelude::*;

verus! {

/// Note type.
#[derive(Clone, Copy, Debug, Default, PartialEq, Eq, Hash, Structural)]
pub enum NoteType {
    /// A single note: hit by a key-down inside the window.
    #[default]
    Note,
    /// A beginning to a slider: hit by a key-down inside the window.
    SliderBegin,
    /// An end to a slider: hit by a key-up inside the window.
    SliderEnd,
}

/// An instantiated note.
///
/// Carries the identifier of the game entity it was created for, so that
/// judgements can name it.
#[derive(Clone, Copy, Debug)]
pub struct Note {
    id: u64,
    beat: u64,
    kind: NoteType,
    index: usize,
}

/// What a note is, apart from its position in its lane.
pub open spec fn note_key(n: Note) -> (u64, u64, NoteType) {
    (n.id_spec(), n.beat_spec(), n.kind_spec())
}

impl Note {
    /// The entity identifier, as a specification value.
    pub closed spec fn id_spec(&self) -> u64 {
        self.id
    }

    /// The beat in millibeats, as a specification value.
    pub closed spec fn beat_spec(&self) -> u64 {
        self.beat
    }

    /// The kind, as a specification value.
    pub closed spec fn kind_spec(&self) -> NoteType {
        self.kind
    }

    /// The index within the lane, as a specification value.
    pub closed spec fn index_spec(&self) -> usize {
        self.index
    }

    /// Creates a new `Note` for the entity `id` at `beat` millibeats.
    pub fn new(id: u64, beat: u64, kind: NoteType, index: usize) -> (r: Note)
        ensures
            r.id_spec() == id,
            r.beat_spec() == beat,
            r.kind_spec() == kind,
            r.index_spec() == index,
    {
        Note { id, beat, kind, index }
    }

    /// The identifier of the entity this note was created for.
    pub fn id(&self) -> (r: u64)
        ensures
            r == self.id_spec(),
    {
        self.id
    }

    /// The kind of the note.
    ///
    /// A [`NoteType::Note`] or [`NoteType::SliderBegin`] is judged by a
    /// key-down inside the window; a [`NoteType::SliderEnd`] by a key-up.
    pub fn kind(&self) -> (r: NoteType)
        ensures
            r == self.kind_spec(),
    {
        self.kind
    }

    /// Returns the beat this note occurs on, in millibeats.
    pub fn beat(&self) -> (r: u64)
        ensures
            r == self.beat_spec(),
    {
        self.beat
    }

    /// Returns the index of the note in the parent [`Lane`].
    pub fn index(&self) -> (r: usize)
        ensures
            r == self.index_spec(),
    {
        self.index
    }
}

impl Default for Note {
    /// A plain note on the first beat.
    fn default() -> (r: Note)
        ensures
            r.id_spec() == 0,
            r.beat_spec() == 0,
            r.kind_spec() is Note,
            r.index_spec() == 0,
    {
        Note { id: 0, beat: 0, kind: NoteType::Note, index: 0 }
    }
}

/// Ascending beat order.
pub open spec fn sorted_by_beat(s: Seq<Note>) -> bool {
    forall|a: int, b: int| 0 <= a < b < s.len() ==> s[a].beat_spec() <= s[b].beat_spec()
}

/// A single lane.
///
/// Manages what note needs to be hit next: the notes stand in ascending
/// beat order, and the cursor walks forward over them, one judgement each,
/// never back.
#[derive(Clone, Debug)]
pub struct Lane {
    number: u32,
    notes: Vec<Note>,
    current_note: usize,
}

impl Lane {
    /// The lane number, as a specification value.
    pub closed spec fn number_spec(&self) -> u32 {
        self.number
    }

    /// The notes, as a specification value.
    pub closed spec fn notes_spec(&self) -> Seq<Note> {
        self.notes@
    }

    /// The cursor of the next unjudged note, as a specification value.
    pub closed spec fn cursor_spec(&self) -> usize {
        self.current_note
    }

    /// The lane's invariant: notes sorted ascending by beat, the cursor
    /// never past the end.
    pub closed spec fn wf(&self) -> bool {
        &&& sorted_by_beat(self.notes@)
        &&& self.current_note <= self.notes.len()
    }

    /// A well-formed lane's notes stand in ascending beat order and its
    /// cursor never passes the end of them.
    pub proof fn lemma_wf(&self)
        requires
            self.wf(),
        ensures
            sorted_by_beat(self.notes_spec()),
            self.cursor_spec() <= self.notes_spec().len(),
    {
    }

    /// Creates a new, empty `Lane`.
    pub fn new(number: u32) -> (r: Lane)
        ensures
            r.wf(),
            r.number_spec() == number,
            r.notes_spec().len() == 0,
            r.cursor_spec() == 0,
    {
        Lane { number, notes: Vec::new(), current_note: 0 }
    }

    /// The lane number.
    pub fn number(&self) -> (r: u32)
        ensures
            r == self.number_spec(),
    {
        self.number
    }

    /// Returns the index of the next unjudged note. This may equal the note
    /// count when every note has been judged.
    pub fn next_note_index(&self) -> (r: usize)
        ensures
            r == self.cursor_spec(),
    {
        self.current_note
    }

    /// Returns the next unjudged note without advancing, or `None` at the
    /// end of the notes.
    pub fn next_note(&self) -> (r: Option<Note>)
        ensures
            match r {
                Some(n) => self.cursor_spec() < self.notes_spec().len() && n
                    == self.notes_spec()[self.cursor_spec() as int],
                None => self.cursor_spec() >= self.notes_spec().len(),
            },
    {
        if self.current_note < self.notes.len() {
            Some(self.notes[self.current_note])
        } else {
            None
        }
    }

    /// Returns all unjudged notes, in order.
    pub fn all_next_notes(&self) -> (r: Vec<Note>)
        requires
            self.wf(),
        ensures
            r@ == self.notes_spec().skip(self.cursor_spec() as int),
    {
        let mut r: Vec<Note> = Vec::new();
        let mut k: usize = self.current_note;
        while k < self.notes.len()
            invariant
                self.current_note <= k <= self.notes.len(),
                r@ == self.notes@.subrange(self.current_note as int, k as int),
            decreases self.notes.len() - k,
        {
            r.push(self.notes[k]);
            proof {
                assert(r@ =~= self.notes@.subrange(self.current_note as int, k + 1 as int));
            }
            k = k + 1;
        }
        proof {
            assert(r@ =~= self.notes@.skip(self.current_note as int));
        }
        r
    }

    /// Advances past the next note, returning it; does nothing at the end
    /// of the notes.
    pub fn advance_note(&mut self) -> (r: Option<Note>)
        requires
            old(self).wf(),
        ensures
            final(self).wf(),
            final(self).number_spec() == old(self).number_spec(),
            final(self).notes_spec() == old(self).notes_spec(),
            match r {
                Some(n) => {
                    &&& old(self).cursor_spec() < old(self).notes_spec().len()
                    &&& n == old(self).notes_spec()[old(self).cursor_spec() as int]
                    &&& final(self).cursor_spec() == old(self).cursor_spec() + 1
                },
                None => {
                    &&& old(self).cursor_spec() >= old(self).notes_spec().len()
                    &&& final(self).cursor_spec() == old(self).cursor_spec()
                },
            },
    {
        if self.current_note < self.notes.len() {
            let note = self.notes[self.current_note];
            self.current_note = self.current_note + 1;
            Some(note)
        } else {
            None
        }
    }

    /// Skips a lot of notes; never past the end.
    pub fn skip_notes(&mut self, to_skip: usize)
        requires
            old(self).wf(),
            old(self).cursor_spec() + to_skip <= old(self).notes_spec().len(),
        ensures
            final(self).wf(),
            final(self).number_spec() == old(self).number_spec(),
            final(self).notes_spec() == old(self).notes_spec(),
            final(self).cursor_spec() == old(self).cursor_spec() + to_skip,
    {
        self.current_note = self.current_note + to_skip;
    }
}

impl Default for Lane {
    /// An empty first lane.
    fn default() -> (r: Lane)
        ensures
            r.wf(),
            r.number_spec() == 0,
            r.notes_spec().len() == 0,
            r.cursor_spec() == 0,
    {
        Lane { number: 0, notes: Vec::new(), current_note: 0 }
    }
}

/// A reference from the beginning note of a slider to the note entity that
/// ends it.
#[derive(Clone, Copy, Debug, PartialEq, Eq, Structural)]
pub struct SliderRef(pub u64);

impl SliderRef {
    /// Gets the identifier of the note entity that is the end of the
    /// slider.
    pub fn get(&self) -> (r: u64)
        ensures
            r == self.0,
    {
        self.0
    }
}

/// Mapping a sequence through a function keeps multiset equality: two
/// sequences with the same elements map to sequences with the same elements.
proof fn lemma_map_multiset<A, B>(x: Seq<A>, y: Seq<A>, f: spec_fn(A) -> B)
    requires
        x.to_multiset() == y.to_multiset(),
    ensures
        x.map_values(f).to_multiset() == y.map_values(f).to_multiset(),
    decreases x.len(),
{
    broadcast use vstd::seq_lib::group_to_multiset_ensures;

    if x.len() == 0 {
        assert(x.to_multiset().len() == 0);
        assert(y.to_multiset().len() == 0);
        assert(y.len() == 0);
        assert(x.map_values(f) =~= y.map_values(f));
    } else {
        let e = x.last();
        assert(x.to_multiset().contains(e)) by {
            assert(x.contains(e));
        }
        assert(y.to_multiset().contains(e));
        assert(y.contains(e));
        let j = choose|j: int| 0 <= j < y.len() && y[j] == e;
        let x2 = x.drop_last();
        let y2 = y.remove(j);
        assert(x2.push(e) =~= x);
        assert(x2.push(e).to_multiset() == x2.to_multiset().insert(e));
        assert(y2.to_multiset() == y.to_multiset().remove(e));
        assert(x2.to_multiset() =~= y2.to_multiset()) by {
            assert(x2.to_multiset() == x.to_multiset().remove(e));
        }
        lemma_map_multiset(x2, y2, f);
        assert(x2.map_values(f).push(f(e)) =~= x.map_values(f));
        assert(y2.map_values(f) =~= y.map_values(f).remove(j));
        assert(y.map_values(f).remove(j).to_multiset() == y.map_values(f).to_multiset().remove(
            f(e),
        )) by {
            assert(y.map_values(f)[j] == f(e));
        }
        assert(x.map_values(f).to_multiset() == x2.map_values(f).to_multiset().insert(f(e)));
        assert(y.map_values(f).to_multiset().contains(f(e))) by {
            assert(y.map_values(f)[j] == f(e));
            assert(y.map_values(f).contains(f(e)));
        }
        assert(x.map_values(f).to_multiset() =~= y.map_values(f).to_multiset());
    }
}

/// Sorts the notes ascending by beat. Duplicate beats are allowed; their
/// relative order is arbitrary.
#[verifier::spinoff_prover]
#[verifier::rlimit(50)]
fn sort_notes(v: &mut Vec<Note>)
    ensures
        final(v)@.to_multiset() == old(v)@.to_multiset(),
        final(v).len() == old(v).len(),
        sorted_by_beat(final(v)@),
{
    broadcast use vstd::seq_lib::group_to_multiset_ensures;
    broadcast use vstd::multiset::group_multiset_axioms;

    let mut i: usize = 1;
    while i < v.len()
        invariant
            i >= 1,
            v@.to_multiset() == old(v)@.to_multiset(),
            v.len() == old(v).len(),
            sorted_by_beat(v@.subrange(0, vstd::math::min(i as int, v.len() as int))),
        decreases v.len() - i,
    {
        // find where the element at i belongs in the sorted prefix
        let x = v[i];
        let mut p: usize = 0;
        while p < i && v[p].beat <= x.beat
            invariant
                p <= i,
                i < v.len(),
                x == v@[i as int],
                forall|a: int| 0 <= a < p ==> (#[trigger] v@[a]).beat_spec() <= x.beat_spec(),
            decreases i - p,
        {
            p = p + 1;
        }
        let ghost before = v@;
        let removed = v.remove(i);
        v.insert(p, removed);
        proof {
            broadcast use vstd::seq_lib::group_to_multiset_ensures;
            broadcast use vstd::multiset::group_multiset_axioms;

            let after = v@;
            assert(removed == x);
            before.remove_ensures(i as int);
            before.remove(i as int).insert_ensures(p as int, x);
            assert forall|k: int| 0 <= k < p implies after[k] == before[k] by {
                assert(after[k] == before.remove(i as int)[k]);
            }
            assert(after[p as int] == x);
            assert forall|k: int| p < k <= i implies after[k] == before[k - 1] by {
                assert(before.remove(i as int)[k - 1] == before[k - 1]);
                assert(after[k] == before.remove(i as int)[k - 1]);
            }
            vstd::seq_lib::to_multiset_remove(before, i as int);
            vstd::seq_lib::to_multiset_insert(before.remove(i as int), p as int, x);
            assert(before.remove(i as int).to_multiset() == before.to_multiset().remove(x));
            assert(after.to_multiset() == before.remove(i as int).to_multiset().insert(x));
            assert(before.to_multiset().contains(x)) by {
                assert(before[i as int] == x);
                assert(before.contains(x));
                assert(before.to_multiset().count(x) > 0);
            }
            assert(after.to_multiset() =~= before.to_multiset());
            assert forall|a: int, b: int|
                0 <= a < b < i + 1 implies after[a].beat_spec() <= after[b].beat_spec() by {
                let pre = before.subrange(0, i as int);
                assert(forall|k: int| 0 <= k < i ==> pre[k] == #[trigger] before[k]);
                assert(sorted_by_beat(pre));
                if b < p {
                    assert(pre[a].beat_spec() <= pre[b].beat_spec());
                } else if b == p {
                    assert(after[b] == x);
                    assert(before[a].beat_spec() <= x.beat_spec());
                } else if a == p {
                    assert(before[p as int].beat_spec() > x.beat_spec());
                    if b - 1 > p {
                        assert(pre[p as int].beat_spec() <= pre[b - 1].beat_spec());
                    }
                } else if a < p {
                    assert(before[a].beat_spec() <= x.beat_spec());
                    assert(before[p as int].beat_spec() > x.beat_spec());
                    if b - 1 > p {
                        assert(pre[p as int].beat_spec() <= pre[b - 1].beat_spec());
                    }
                } else {
                    assert(pre[a - 1].beat_spec() <= pre[b - 1].beat_spec());
                }
            }
            assert(sorted_by_beat(after.subrange(0, i + 1 as int)));
        }
        i = i + 1;
    }
    proof {
        if v.len() > 0 {
            assert(v@.subrange(0, v.len() as int) =~= v@);
        } else {
            assert(sorted_by_beat(v@));
        }
    }
}

/// Reconciles a lane after new notes appear: adds them, restores ascending
/// beat order over the whole lane, and renumbers every note with its index.
/// The notes themselves — identity, beat, kind — are kept exactly; only
/// their order and indices change. The cursor does not move.
pub fn reorder_notes(lane: &mut Lane, added: Vec<Note>)
    requires
        old(lane).wf(),
    ensures
        final(lane).wf(),
        final(lane).number_spec() == old(lane).number_spec(),
        final(lane).cursor_spec() == old(lane).cursor_spec(),
        final(lane).notes_spec().len() == old(lane).notes_spec().len() + added.len(),
        sorted_by_beat(final(lane).notes_spec()),
        final(lane).notes_spec().map_values(|n: Note| note_key(n)).to_multiset() == (old(
            lane,
        ).notes_spec() + added@).map_values(|n: Note| note_key(n)).to_multiset(),
        forall|k: int|
            0 <= k < final(lane).notes_spec().len() ==> (#[trigger] final(
            lane).notes_spec()[k]).index_spec() == k,
{
    broadcast use vstd::seq_lib::group_to_multiset_ensures;

    let ghost combined = old(lane).notes@ + added@;
    let mut add = added;
    let mut k: usize = 0;
    let ghost added_snap = add@;
    while k < add.len()
        invariant
            k <= add.len(),
            add@ == added_snap,
            lane.number_spec() == old(lane).number_spec(),
            lane.cursor_spec() == old(lane).cursor_spec(),
            lane.notes@ == old(lane).notes@ + added_snap.take(k as int),
        decreases add.len() - k,
    {
        let n = add[k];
        lane.notes.push(n);
        proof {
            assert(lane.notes@ =~= old(lane).notes@ + added_snap.take(k + 1 as int));
        }
        k = k + 1;
    }
    proof {
        assert(lane.notes@ =~= combined);
    }
    sort_notes(&mut lane.notes);
    let ghost sorted = lane.notes@;
    let mut idx: usize = 0;
    while idx < lane.notes.len()
        invariant
            idx <= lane.notes.len(),
            lane.notes.len() == sorted.len(),
            lane.number_spec() == old(lane).number_spec(),
            lane.cursor_spec() == old(lane).cursor_spec(),
            forall|m: int| idx <= m < sorted.len() ==> lane.notes@[m] == sorted[m],
            forall|m: int|
                0 <= m < idx ==> (#[trigger] lane.notes@[m]).index_spec() == m && note_key(
                    lane.notes@[m],
                ) == note_key(sorted[m]) && lane.notes@[m].beat_spec() == sorted[m].beat_spec(),
        decreases lane.notes.len() - idx,
    {
        let n = lane.notes[idx];
        let renumbered = Note { index: idx, ..n };
        lane.notes[idx] = renumbered;
        idx = idx + 1;
    }
    proof {
        assert(sorted.to_multiset() == combined.to_multiset());
        lemma_map_multiset(sorted, combined, |n: Note| note_key(n));
        assert(lane.notes@.map_values(|n: Note| note_key(n)) =~= sorted.map_values(
            |n: Note| note_key(n),
        ));
        assert(sorted_by_beat(lane.notes@));
        assert(lane.current_note <= old(lane).notes.len());
        assert(lane.notes.len() >= old(lane).notes.len());
    }
}

/// The slider component for a note, attached to the end note of the slider:
/// how long the key has been held on it.
#[derive(Clone, Copy, Debug)]
pub struct Slider {
    duration_held: u64,
    down: bool,
}

impl Slider {
    /// The held duration in nanoseconds, as a specification value.
    pub closed spec fn held_spec(&self) -> u64 {
        self.duration_held
    }

    /// The down flag, as a specification value.
    pub closed spec fn down_spec(&self) -> bool {
        self.down
    }

    /// Creates a slider that is not held.
    pub fn new() -> (r: Slider)
        ensures
            r.held_spec() == 0,
            !r.down_spec(),
    {
        Slider { duration_held: 0, down: false }
    }

    /// Whether the input on the slider is down or not.
    pub fn down(&self) -> (r: bool)
        ensures
            r == self.down_spec(),
    {
        self.down
    }

    /// Sets whether an input is down on the slider.
    ///
    /// While the slider is down, it accumulates rhythm-clock deltas.
    pub fn set_down(&mut self, down: bool)
        ensures
            final(self).down_spec() == down,
            final(self).held_spec() == old(self).held_spec(),
    {
        self.down = down;
    }

    /// The total duration the slider was held, in nanoseconds.
    pub fn duration_held(&self) -> (r: u64)
        ensures
            r == self.held_spec(),
    {
        self.duration_held
    }
}

impl Default for Slider {
    /// A slider that is not held.
    fn default() -> (r: Slider)
        ensures
            r.held_spec() == 0,
            !r.down_spec(),
    {
        Slider { duration_held: 0, down: false }
    }
}

/// Ticks one slider's held duration: while the key is down on it, the
/// rhythm clock's delta accumulates; otherwise nothing changes.
pub fn tick_sliders(slider: &mut Slider, delta: u64)
    ensures
        final(slider).down_spec() == old(slider).down_spec(),
        final(slider).held_spec() == if old(slider).down_spec() {
            crate::engine::counter_step(old(slider).held_spec(), delta)
        } else {
            old(slider).held_spec()
        },
{
    if slider.down {
        slider.duration_held = if slider.duration_held <= u64::MAX - delta {
            slider.duration_held + delta
        } else {
            u64::MAX
        };
    }
}

} // verus!
