//! Rhythm judgements: scoring key-edge events against a lane's next note,
//! and sweeping up notes whose window has closed.

use vstd::prelude::*;

use crate::clock::Rhythm;
use crate::clock::beat_position_spec;
use crate::note::Lane;
use crate::note::Note;
use crate::note::NoteType;
use crate::note::Slider;

verus! {

/// The kind of a key edge.
#[derive(Clone, Copy, Debug, Default, PartialEq, Eq, Hash, Structural)]
pub enum KeyEventType {
    /// The key changed to down on this input.
    #[default]
    Down,
    /// The key changed to up on this input.
    Up,
}

/// For when a key goes down or up on a lane.
///
/// The timestamp is the rhythm clock's position when the event was read, in
/// nanoseconds.
#[derive(Clone, Copy, Debug, PartialEq, Eq, Structural)]
pub struct KeyEvent {
    /// The timestamp of the event.
    pub timestamp: u64,
    /// The number of the lane this event is for.
    pub lane: u32,
    /// The kind of input event.
    pub kind: KeyEventType,
}

/// An event that is created for judgements.
#[derive(Clone, Copy, Debug, PartialEq, Eq, Structural)]
pub struct JudgementEvent {
    /// The identifier of the note that this judgement is for.
    pub note: u64,
    /// The offset in nanoseconds. A positive offset means the note press was
    /// too early, and a negative means the press was too late.
    ///
    /// If the note was missed, this is `None`.
    pub offset: Option<i64>,
}

/// An instanced beatmap: the per-playthrough settings of the judgement
/// engine.
#[derive(Clone, Copy, Debug)]
pub struct BeatmapInstance {
    /// The judgement window, in nanoseconds: how far from its scheduled
    /// position a note still counts as hit.
    pub note_window: u64,
}

impl Default for BeatmapInstance {
    /// The default window: a tenth of a second.
    fn default() -> (r: BeatmapInstance)
        ensures
            r.note_window == 100_000_000u64,
    {
        BeatmapInstance { note_window: 100_000_000 }
    }
}

/// Which key edge judges a note of the given kind: ordinary notes and
/// slider beginnings want a key-down, slider ends a key-up.
pub open spec fn wants_edge(kind: NoteType, edge: KeyEventType) -> bool {
    match kind {
        NoteType::Note => edge is Down,
        NoteType::SliderBegin => edge is Down,
        NoteType::SliderEnd => edge is Up,
    }
}

/// The scheduled position of a note on a clock, in nanoseconds.
pub open spec fn scheduled_at(clock: Rhythm, n: Note) -> int {
    beat_position_spec(clock.crotchet_spec(), clock.offset_spec(), n.beat_spec())
}

/// Whether a key event at `at` lands inside the window around a note.
pub open spec fn inside_window(clock: Rhythm, n: Note, at: u64, window: u64) -> bool {
    -(window as int) <= scheduled_at(clock, n) - at <= window as int
}

/// Whether a note's window has already closed at the clock's position: the
/// position is more than `window` past the scheduled position.
pub open spec fn overdue(clock: Rhythm, n: Note, window: u64) -> bool {
    clock.position_spec() - scheduled_at(clock, n) > window as int
}

/// Judges one key event against the lane's next note.
///
/// If the event's edge is what the note wants and its timestamp lands
/// within `window` of the note's scheduled position, the note is hit: the
/// judgement carries the signed offset (positive when early, negative when
/// late) and the lane advances past the note. Any other event is ignored —
/// no judgement, no cursor movement; a note whose window has passed is
/// reported later by [`create_dropped_judgements`].
pub fn create_judgements(lane: &mut Lane, key: &KeyEvent, window: u64, clock: &Rhythm) -> (r:
    Option<JudgementEvent>)
    requires
        old(lane).wf(),
        clock.wf(),
        window <= i64::MAX,
        old(lane).cursor_spec() < old(lane).notes_spec().len() ==> scheduled_at(
            *clock,
            old(lane).notes_spec()[old(lane).cursor_spec() as int],
        ) <= u64::MAX,
    ensures
        final(lane).wf(),
        final(lane).number_spec() == old(lane).number_spec(),
        final(lane).notes_spec() == old(lane).notes_spec(),
        ({
            let cur = old(lane).cursor_spec();
            let hit = cur < old(lane).notes_spec().len() && {
                let n = old(lane).notes_spec()[cur as int];
                wants_edge(n.kind_spec(), key.kind) && inside_window(
                    *clock,
                    n,
                    key.timestamp,
                    window,
                )
            };
            &&& (r is Some <==> hit)
            &&& (match r {
                Some(j) => {
                    let n = old(lane).notes_spec()[cur as int];
                    &&& j.note == n.id_spec()
                    &&& j.offset == Some((scheduled_at(*clock, n) - key.timestamp) as i64)
                    &&& final(lane).cursor_spec() == cur + 1
                },
                None => final(lane).cursor_spec() == old(lane).cursor_spec(),
            })
        }),
{
    let next = match lane.next_note() {
        Some(n) => n,
        None => {
            return None;
        },
    };
    // compare timing: positive diff means the key came early
    let note_position = clock.beat_position(next.beat());
    let diff: i128 = (note_position as i128) - (key.timestamp as i128);
    let w: i128 = window as i128;
    if -w <= diff && diff <= w {
        let wanted = match next.kind() {
            NoteType::Note => matches!(key.kind, KeyEventType::Down),
            NoteType::SliderBegin => matches!(key.kind, KeyEventType::Down),
            NoteType::SliderEnd => matches!(key.kind, KeyEventType::Up),
        };
        if wanted {
            lane.advance_note();
            return Some(JudgementEvent { note: next.id(), offset: Some(diff as i64) });
        }
    }
    // do not count the input otherwise; dropped notes will get picked up by
    // the dropped-judgement sweep
    None
}

/// Creates a "missed" judgement for every note whose window has closed.
///
/// Scans the lane's unjudged notes in order and, for each note scheduled
/// more than `window` before the clock's current position, emits a
/// judgement with no offset and advances past it; it stops at the first
/// note still inside or ahead of its window. Together with
/// [`create_judgements`] this gives every note exactly one judgement.
pub fn create_dropped_judgements(lane: &mut Lane, window: u64, clock: &Rhythm) -> (r: Vec<
    JudgementEvent,
>)
    requires
        old(lane).wf(),
        clock.wf(),
        forall|k: int|
            0 <= k < old(lane).notes_spec().len() ==> scheduled_at(
                *clock,
                #[trigger] old(lane).notes_spec()[k],
            ) <= u64::MAX,
    ensures
        final(lane).wf(),
        final(lane).number_spec() == old(lane).number_spec(),
        final(lane).notes_spec() == old(lane).notes_spec(),
        final(lane).cursor_spec() == old(lane).cursor_spec() + r.len(),
        forall|m: int|
            0 <= m < r.len() ==> {
                let n = old(lane).notes_spec()[old(lane).cursor_spec() + m];
                #[trigger] r[m] == (JudgementEvent { note: n.id_spec(), offset: None })
                    && overdue(*clock, n, window)
            },
        final(lane).cursor_spec() < final(lane).notes_spec().len() ==> !overdue(
            *clock,
            final(lane).notes_spec()[final(lane).cursor_spec() as int],
            window,
        ),
{
    let mut out: Vec<JudgementEvent> = Vec::new();
    let position = clock.position();
    loop
        invariant
            lane.wf(),
            clock.wf(),
            position == clock.position_spec(),
            lane.number_spec() == old(lane).number_spec(),
            lane.notes_spec() == old(lane).notes_spec(),
            lane.cursor_spec() == old(lane).cursor_spec() + out.len(),
            forall|k: int|
                0 <= k < old(lane).notes_spec().len() ==> scheduled_at(
                    *clock,
                    #[trigger] old(lane).notes_spec()[k],
                ) <= u64::MAX,
            forall|m: int|
                0 <= m < out.len() ==> {
                    let n = old(lane).notes_spec()[old(lane).cursor_spec() + m];
                    #[trigger] out[m] == (JudgementEvent { note: n.id_spec(), offset: None })
                        && overdue(*clock, n, window)
                },
        ensures
            lane.wf(),
            lane.number_spec() == old(lane).number_spec(),
            lane.notes_spec() == old(lane).notes_spec(),
            lane.cursor_spec() == old(lane).cursor_spec() + out.len(),
            forall|m: int|
                0 <= m < out.len() ==> {
                    let n = old(lane).notes_spec()[old(lane).cursor_spec() + m];
                    #[trigger] out[m] == (JudgementEvent { note: n.id_spec(), offset: None })
                        && overdue(*clock, n, window)
                },
            lane.cursor_spec() < lane.notes_spec().len() ==> !overdue(
                *clock,
                lane.notes_spec()[lane.cursor_spec() as int],
                window,
            ),
        decreases lane.notes_spec().len() - lane.cursor_spec(),
    {
        let next = match lane.next_note() {
            Some(n) => n,
            None => {
                break;
            },
        };
        let note_position = clock.beat_position(next.beat());
        // the offset past the scheduled position cannot be greater than the
        // window
        let late = (position as u128) > (note_position as u128) + (window as u128);
        if !late {
            break;
        }
        lane.advance_note();
        out.push(JudgementEvent { note: next.id(), offset: None });
        proof {
            assert(out[out.len() - 1] == (JudgementEvent { note: next.id_spec(), offset: None }));
        }
    }
    out
}

/// Feeds one key event into the slider under the lane's next note: key
/// events contribute whether the slider is held down or not.
pub fn set_slider_down(slider: &mut Slider, kind: KeyEventType)
    ensures
        final(slider).down_spec() == (kind is Down),
        final(slider).held_spec() == old(slider).held_spec(),
{
    slider.set_down(matches!(kind, KeyEventType::Down));
}

} // verus!
