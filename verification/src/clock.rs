//! The interpolated rhythm clock: turns the coarse, bursty consumed-sample
//! counter into a smoothly advancing song position, and converts between
//! song time and beats.
//!
//! Time is in nanoseconds. Beats are in *millibeats*, thousandths of a beat,
//! so that beat positions read from a beatmap have an exact representation.

use vstd::prelude::*;

verus! {

/// Nanoseconds of one minute: sixty seconds.
pub const MINUTE_NANOS: u64 = 60_000_000_000;

/// Millibeats in one beat.
pub const MILLIBEATS: u64 = 1_000;

/// The rhythm clock.
///
/// It runs on the logic thread, well below the audio callback rate: the
/// device timestamp it follows moves in large, irregular steps, once every
/// several ticks. The clock starts **raw**, mirroring the device timestamp
/// until it first moves; from then on it **interpolates**, advancing by the
/// logic tick's own delta and nudging toward the device truth by one eighth
/// of the remaining gap each tick. It never runs backwards, and never
/// overtakes the device timestamp plus the start offset.
pub struct Rhythm {
    bpm: u32,
    crotchet: u64,
    offset: u64,
    timestamp: u64,
    position: u64,
    is_interpolating: bool,
}

impl Rhythm {
    /// The BPM, as a specification value.
    pub closed spec fn bpm_spec(&self) -> u32 {
        self.bpm
    }

    /// The crotchet in nanoseconds, as a specification value.
    pub closed spec fn crotchet_spec(&self) -> u64 {
        self.crotchet
    }

    /// The start offset in nanoseconds, as a specification value.
    pub closed spec fn offset_spec(&self) -> u64 {
        self.offset
    }

    /// The last device timestamp seen, as a specification value.
    pub closed spec fn timestamp_spec(&self) -> u64 {
        self.timestamp
    }

    /// The interpolated position, as a specification value.
    pub closed spec fn position_spec(&self) -> u64 {
        self.position
    }

    /// Whether the clock has left the raw state.
    pub closed spec fn interpolating_spec(&self) -> bool {
        self.is_interpolating
    }

    /// The clock's invariant: the crotchet is derived from the BPM, and the
    /// position never overtakes the device timestamp plus the start offset.
    pub closed spec fn wf(&self) -> bool {
        &&& self.bpm >= 1
        &&& self.crotchet == MINUTE_NANOS as int / self.bpm as int
        &&& self.position <= self.timestamp + self.offset
    }

    /// The crotchet is always at least one nanosecond.
    pub proof fn lemma_wf(&self)
        requires
            self.wf(),
        ensures
            self.crotchet_spec() >= 1,
            self.position_spec() <= self.timestamp_spec() + self.offset_spec(),
    {
        vstd::arithmetic::div_mod::lemma_div_is_ordered_by_denominator(
            MINUTE_NANOS as int,
            self.bpm as int,
            u32::MAX as int,
        );
    }

    /// Initializes a rhythm clock with settings: a tempo and the offset
    /// before the first beat, in nanoseconds.
    pub fn new(bpm: u32, offset: u64) -> (r: Rhythm)
        requires
            bpm >= 1,
        ensures
            r.wf(),
            r.bpm_spec() == bpm,
            r.crotchet_spec() == MINUTE_NANOS as int / bpm as int,
            r.offset_spec() == offset,
            r.timestamp_spec() == 0,
            r.position_spec() == 0,
            !r.interpolating_spec(),
    {
        Rhythm {
            bpm,
            crotchet: MINUTE_NANOS / (bpm as u64),
            offset,
            timestamp: 0,
            position: 0,
            is_interpolating: false,
        }
    }

    /// Returns the BPM of the current song.
    pub fn bpm(&self) -> (r: u32)
        ensures
            r == self.bpm_spec(),
    {
        self.bpm
    }

    /// Returns the crotchet (the time between beats) of the current song,
    /// in nanoseconds.
    pub fn crotchet(&self) -> (r: u64)
        ensures
            r == self.crotchet_spec(),
    {
        self.crotchet
    }

    /// Returns the start offset of the current song, in nanoseconds.
    pub fn offset(&self) -> (r: u64)
        ensures
            r == self.offset_spec(),
    {
        self.offset
    }

    /// The current position of the song, interpolated by the rhythm clock,
    /// in nanoseconds.
    pub fn position(&self) -> (r: u64)
        ensures
            r == self.position_spec(),
    {
        self.position
    }

    /// The timestamp of the song as far as the device has played it,
    /// counted from the start offset.
    ///
    /// This does not update smoothly between frames: it moves once every
    /// several logic ticks, as audio buffers complete. For elapsed time
    /// since the start of the song, use [`Rhythm::position`].
    pub fn dsp_time(&self) -> (r: u64)
        ensures
            r == if self.position_spec() >= self.offset_spec() {
                self.position_spec() - self.offset_spec()
            } else {
                0
            },
    {
        if self.position >= self.offset {
            self.position - self.offset
        } else {
            0
        }
    }
}

impl Default for Rhythm {
    /// A clock at sixty beats per minute with no start offset.
    fn default() -> (r: Rhythm)
        ensures
            r.wf(),
            r.bpm_spec() == 60,
            r.offset_spec() == 0,
            r.position_spec() == 0,
            !r.interpolating_spec(),
    {
        Rhythm::new(60, 0)
    }
}

/// The position of a beat in the song: the start offset plus `beat`
/// millibeats of crotchets, in nanoseconds.
pub open spec fn beat_position_spec(crotchet: u64, offset: u64, beat: u64) -> int {
    offset + (crotchet * beat) as int / (MILLIBEATS as int)
}

/// The beat the song is on at a position, in millibeats: negative while the
/// clock is still inside the start offset. The division truncates toward
/// zero.
pub open spec fn beat_number_spec(crotchet: u64, offset: u64, position: u64) -> int {
    if position >= offset {
        ((position - offset) * MILLIBEATS) as int / (crotchet as int)
    } else {
        -(((offset - position) * MILLIBEATS) as int / (crotchet as int))
    }
}

impl Rhythm {
    /// Returns the position of a beat in the song, in nanoseconds. The beat
    /// is given in millibeats and cannot be negative.
    pub fn beat_position(&self, beat: u64) -> (r: u64)
        requires
            self.wf(),
            beat_position_spec(self.crotchet_spec(), self.offset_spec(), beat) <= u64::MAX,
        ensures
            r == beat_position_spec(self.crotchet_spec(), self.offset_spec(), beat),
    {
        let scaled: u128 = (self.crotchet as u128) * (beat as u128) / (MILLIBEATS as u128);
        proof {
            vstd::arithmetic::div_mod::lemma_div_pos_is_pos(
                (self.crotchet * beat) as int,
                MILLIBEATS as int,
            );
        }
        self.offset + (scaled as u64)
    }

    /// The beat number that the song is on, in millibeats.
    ///
    /// Zero is the first beat; the number is negative while the song has
    /// not yet passed the start offset.
    pub fn beat_number(&self) -> (r: i64)
        requires
            self.wf(),
            -0x7fff_ffff_ffff_ffff <= beat_number_spec(
                self.crotchet_spec(),
                self.offset_spec(),
                self.position_spec(),
            ) <= 0x7fff_ffff_ffff_ffff,
        ensures
            r == beat_number_spec(self.crotchet_spec(), self.offset_spec(), self.position_spec()),
    {
        proof {
            self.lemma_wf();
        }
        if self.position >= self.offset {
            let t: u128 = ((self.position - self.offset) as u128) * (MILLIBEATS as u128);
            let b: u128 = t / (self.crotchet as u128);
            proof {
                vstd::arithmetic::div_mod::lemma_div_pos_is_pos(t as int, self.crotchet as int);
            }
            b as i64
        } else {
            let t: u128 = ((self.offset - self.position) as u128) * (MILLIBEATS as u128);
            let b: u128 = t / (self.crotchet as u128);
            proof {
                vstd::arithmetic::div_mod::lemma_div_pos_is_pos(t as int, self.crotchet as int);
            }
            -(b as i64)
        }
    }
}

/// Where one tick puts the clock: the raw device timestamp before
/// interpolation starts, and otherwise the last position advanced by the
/// tick delta and nudged one eighth of the way toward the device timestamp —
/// in both cases held between the last position (never backwards) and the
/// device timestamp plus the offset (never into unplayed audio).
pub open spec fn tick_target(
    position: u64,
    interpolating: bool,
    delta: u64,
    timestamp: u64,
) -> int {
    if interpolating {
        let cur = position + delta;
        if timestamp >= cur {
            cur + (timestamp - cur) / 8
        } else {
            cur - (cur - timestamp) / 8
        }
    } else {
        timestamp as int
    }
}

/// `tick_target` clamped between the old position and the cap.
pub open spec fn tick_position_spec(
    position: u64,
    interpolating: bool,
    delta: u64,
    timestamp: u64,
    cap: int,
) -> int {
    let t = tick_target(position, interpolating, delta, timestamp);
    if t > cap {
        if position > cap {
            position as int
        } else {
            cap
        }
    } else if t < position {
        position as int
    } else {
        t
    }
}

impl Rhythm {
    /// One logic tick: reads the latest device timestamp (derived from the
    /// consumed-sample counter), advances the interpolated position, and
    /// transitions from raw to interpolating the first time the device
    /// timestamp moves.
    ///
    /// The position never decreases, and never exceeds the device timestamp
    /// plus the start offset.
    pub fn tick(&mut self, delta: u64, device_timestamp: u64)
        requires
            old(self).wf(),
            device_timestamp >= old(self).timestamp_spec(),
            device_timestamp + old(self).offset_spec() <= u64::MAX,
        ensures
            final(self).wf(),
            final(self).bpm_spec() == old(self).bpm_spec(),
            final(self).crotchet_spec() == old(self).crotchet_spec(),
            final(self).offset_spec() == old(self).offset_spec(),
            final(self).timestamp_spec() == device_timestamp,
            final(self).interpolating_spec() == (old(self).interpolating_spec()
                || device_timestamp != old(self).timestamp_spec()),
            final(self).position_spec() == tick_position_spec(
                old(self).position_spec(),
                old(self).interpolating_spec(),
                delta,
                device_timestamp,
                device_timestamp + old(self).offset_spec(),
            ),
            final(self).position_spec() >= old(self).position_spec(),
            final(self).position_spec() <= device_timestamp + old(self).offset_spec(),
    {
        let cap: u64 = device_timestamp + self.offset;
        let target: u128 = if self.is_interpolating {
            let cur: u128 = (self.position as u128) + (delta as u128);
            let ts: u128 = device_timestamp as u128;
            if ts >= cur {
                cur + (ts - cur) / 8
            } else {
                cur - (cur - ts) / 8
            }
        } else {
            device_timestamp as u128
        };
        let new_position: u64 = if target > (cap as u128) {
            if self.position > cap {
                self.position
            } else {
                cap
            }
        } else if target < (self.position as u128) {
            self.position
        } else {
            target as u64
        };
        if !self.is_interpolating && device_timestamp != self.timestamp {
            self.is_interpolating = true;
        }
        self.timestamp = device_timestamp;
        self.position = new_position;
    }
}

/// Converting the current beat number back to a position lands at most one
/// millibeat (and two nanoseconds of rounding) before the position it was
/// read from: the two conversions agree to the clock's resolution.
pub proof fn lemma_beat_round_trip(crotchet: u64, offset: u64, position: u64)
    requires
        crotchet >= 1,
        position >= offset,
        beat_number_spec(crotchet, offset, position) <= u64::MAX,
    ensures
        beat_number_spec(crotchet, offset, position) >= 0,
        beat_position_spec(
            crotchet,
            offset,
            beat_number_spec(crotchet, offset, position) as u64,
        ) <= position,
        position - beat_position_spec(
            crotchet,
            offset,
            beat_number_spec(crotchet, offset, position) as u64,
        ) <= crotchet as int / (MILLIBEATS as int) + 2,
{
    let t = position - offset;
    let b = (t * MILLIBEATS) as int / (crotchet as int);
    assert(beat_number_spec(crotchet, offset, position) == b);
    vstd::arithmetic::div_mod::lemma_div_pos_is_pos((t * MILLIBEATS) as int, crotchet as int);
    vstd::arithmetic::div_mod::lemma_fundamental_div_mod((t * MILLIBEATS) as int, crotchet as int);
    vstd::arithmetic::div_mod::lemma_mod_bound((t * MILLIBEATS) as int, crotchet as int);
    let cb = (crotchet * b) as int;
    assert(cb <= t * MILLIBEATS) by (nonlinear_arith)
        requires
            crotchet >= 1,
            b >= 0,
            cb == crotchet * b,
            t * MILLIBEATS as int == (crotchet as int) * b + (t * MILLIBEATS) as int % (
            crotchet as int),
            (t * MILLIBEATS) as int % (crotchet as int) >= 0,
    ;
    assert(cb > t * MILLIBEATS - crotchet) by (nonlinear_arith)
        requires
            crotchet >= 1,
            cb == crotchet * b,
            t * MILLIBEATS as int == (crotchet as int) * b + (t * MILLIBEATS) as int % (
            crotchet as int),
            (t * MILLIBEATS) as int % (crotchet as int) < crotchet,
    ;
    assert((b as u64) as int == b);
    assert(beat_position_spec(crotchet, offset, b as u64) == offset + cb / (MILLIBEATS as int));
    vstd::arithmetic::div_mod::lemma_div_is_ordered(
        cb,
        (t * MILLIBEATS) as int,
        MILLIBEATS as int,
    );
    vstd::arithmetic::div_mod::lemma_div_by_multiple(t as int, MILLIBEATS as int);
    vstd::arithmetic::mul::lemma_mul_is_commutative(t as int, MILLIBEATS as int);
    assert(cb / (MILLIBEATS as int) <= t);
    vstd::arithmetic::div_mod::lemma_fundamental_div_mod(cb, MILLIBEATS as int);
    vstd::arithmetic::div_mod::lemma_mod_bound(cb, MILLIBEATS as int);
    assert(cb / (MILLIBEATS as int) > t - crotchet as int / (MILLIBEATS as int) - 2) by {
        let q = cb / (MILLIBEATS as int);
        assert(q * MILLIBEATS as int > t * MILLIBEATS as int - crotchet - MILLIBEATS as int)
            by (nonlinear_arith)
            requires
                cb == q * (MILLIBEATS as int) + cb % (MILLIBEATS as int),
                0 <= cb % (MILLIBEATS as int) < MILLIBEATS as int,
                cb > t * MILLIBEATS as int - crotchet,
                MILLIBEATS == 1000,
        ;
        let cq = crotchet as int / (MILLIBEATS as int);
        vstd::arithmetic::div_mod::lemma_fundamental_div_mod(crotchet as int, MILLIBEATS as int);
        vstd::arithmetic::div_mod::lemma_mod_bound(crotchet as int, MILLIBEATS as int);
        assert(q > t - cq - 2) by (nonlinear_arith)
            requires
                q * MILLIBEATS as int > t * MILLIBEATS as int - crotchet - MILLIBEATS as int,
                crotchet == cq * (MILLIBEATS as int) + crotchet as int % (MILLIBEATS as int),
                0 <= crotchet as int % (MILLIBEATS as int) < MILLIBEATS as int,
                MILLIBEATS == 1000,
        ;
    }
}

} // verus!
