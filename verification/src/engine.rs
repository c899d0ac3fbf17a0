//! The compute core of the real-time output callback: choosing a device
//! configuration, counting consumed samples, and filling hardware buffers
//! from the active source with silence padding.
//!
//! The callback loop itself — the hardware thread, the channel that hands
//! over new tracks, and the atomic that publishes the counter — is host
//! plumbing around these functions.

use vstd::prelude::*;

use crate::decode::OggDecoder;
use crate::resample::Resampler;
use crate::source::Source;

verus! {

/// The desired sample rate.
pub const DEFAULT_SAMPLE_RATE: u32 = 48_000;

/// The default channels of audio.
pub const CHANNEL_COUNT: u16 = 2;

/// The consumed-sample counter of one active playback, together with the
/// rate at which the device consumes it. The audio callback is its only
/// writer; the logic thread only reads.
pub struct AudioControl {
    sample_rate: u32,
    timestamp: u64,
}

impl AudioControl {
    /// The sample rate, as a specification value.
    pub closed spec fn rate_spec(&self) -> u32 {
        self.sample_rate
    }

    /// The counter, as a specification value.
    pub closed spec fn timestamp_spec(&self) -> u64 {
        self.timestamp
    }

    /// Creates a control whose counter is zero.
    pub fn new(sample_rate: u32) -> (r: AudioControl)
        requires
            sample_rate >= 1,
        ensures
            r.rate_spec() == sample_rate,
            r.timestamp_spec() == 0,
    {
        AudioControl { sample_rate, timestamp: 0 }
    }

    /// Returns the song position in nanoseconds: the per-sample duration at
    /// the device rate, times the frames consumed so far.
    pub fn position(&self) -> (r: u64)
        requires
            self.rate_spec() >= 1,
            (1_000_000_000u64 / self.rate_spec() as u64) * self.timestamp_spec() <= u64::MAX,
        ensures
            r == (1_000_000_000u64 / self.rate_spec() as u64) * self.timestamp_spec(),
    {
        (1_000_000_000u64 / (self.sample_rate as u64)) * self.timestamp
    }

    /// Returns the timestamp of the audio in samples.
    pub fn timestamp(&self) -> (r: u64)
        ensures
            r == self.timestamp_spec(),
    {
        self.timestamp
    }

    /// Resets the counter to zero: the moment a newly enqueued track is
    /// accepted by the callback.
    pub fn reset(&mut self)
        ensures
            final(self).timestamp_spec() == 0,
            final(self).rate_spec() == old(self).rate_spec(),
    {
        self.timestamp = 0;
    }

    /// Counts frames that were just handed to the device. The counter never
    /// decreases.
    pub fn add_frames(&mut self, frames: u64)
        ensures
            final(self).rate_spec() == old(self).rate_spec(),
            final(self).timestamp_spec() == counter_step(old(self).timestamp_spec(), frames),
            final(self).timestamp_spec() >= old(self).timestamp_spec(),
    {
        self.timestamp = if self.timestamp <= u64::MAX - frames {
            self.timestamp + frames
        } else {
            u64::MAX
        };
    }
}

impl Default for AudioControl {
    /// Creates an unheaded `AudioControl` at the desired default rate.
    fn default() -> (r: AudioControl)
        ensures
            r.rate_spec() == DEFAULT_SAMPLE_RATE,
            r.timestamp_spec() == 0,
    {
        AudioControl { sample_rate: DEFAULT_SAMPLE_RATE, timestamp: 0 }
    }
}

/// The counter value after counting `frames` more frames: a saturating add.
pub open spec fn counter_step(now: u64, frames: u64) -> u64 {
    if now + frames <= u64::MAX {
        (now + frames) as u64
    } else {
        u64::MAX
    }
}

/// The counter value after a whole run of callback invocations, starting
/// from `start`, where invocation `i` counted `frames[i]` frames.
pub open spec fn counter_after(start: u64, frames: Seq<u64>) -> u64
    decreases frames.len(),
{
    if frames.len() == 0 {
        start
    } else {
        counter_step(counter_after(start, frames.drop_last()), frames.last())
    }
}

/// The consumed-sample counter is monotonically non-decreasing across any
/// sequence of callback invocations: after more invocations it is never
/// smaller.
pub proof fn lemma_counter_monotonic(start: u64, frames: Seq<u64>, i: int, j: int)
    requires
        0 <= i <= j <= frames.len(),
    ensures
        counter_after(start, frames.take(i)) <= counter_after(start, frames.take(j)),
    decreases j - i,
{
    if i < j {
        lemma_counter_monotonic(start, frames, i, j - 1);
        assert(frames.take(j).drop_last() =~= frames.take(j - 1));
        assert(counter_after(start, frames.take(j)) == counter_step(
            counter_after(start, frames.take(j - 1)),
            frames.take(j).last(),
        ));
    }
}

/// Where the clamped rate of a supported range lands for a desired rate.
pub open spec fn clamped_rate(lo: u32, hi: u32, desired: u32) -> u32 {
    if desired < lo {
        lo
    } else if desired > hi {
        hi
    } else {
        desired
    }
}

/// The score of a supported range: the absolute distance between the rate it
/// can offer and the desired rate.
pub open spec fn rate_score(lo: u32, hi: u32, desired: u32) -> int {
    vstd::math::abs(clamped_rate(lo, hi, desired) - desired) as int
}

/// Picks the output configuration whose achievable sample rate is closest to
/// `desired`, ties broken by the first match, and returns its index together
/// with the rate to open it at. `None` only when no configuration was
/// offered.
///
/// The input ranges are the `(min, max)` supported rates of each candidate
/// configuration, already filtered to the wanted channel count and sample
/// format.
pub fn select_output_config(configs: &Vec<(u32, u32)>, desired: u32) -> (r: Option<(usize, u32)>)
    requires
        forall|k: int| 0 <= k < configs.len() ==> (#[trigger] configs[k]).0 <= configs[k].1,
    ensures
        r is None <==> configs.len() == 0,
        r matches Some(pick) ==> {
            &&& pick.0 < configs.len()
            &&& pick.1 == clamped_rate(configs[pick.0 as int].0, configs[pick.0 as int].1, desired)
            &&& forall|k: int|
                0 <= k < configs.len() ==> rate_score(
                    (#[trigger] configs[k]).0,
                    configs[k].1,
                    desired,
                ) >= rate_score(configs[pick.0 as int].0, configs[pick.0 as int].1, desired)
            &&& forall|k: int|
                0 <= k < pick.0 ==> rate_score(
                    (#[trigger] configs[k]).0,
                    configs[k].1,
                    desired,
                ) > rate_score(configs[pick.0 as int].0, configs[pick.0 as int].1, desired)
        },
{
    let mut best: Option<(usize, u32)> = None;
    let ghost mut best_score: int = 0int;
    let mut k: usize = 0;
    while k < configs.len()
        invariant
            k <= configs.len(),
            forall|m: int| 0 <= m < configs.len() ==> (#[trigger] configs[m]).0 <= configs[m].1,
            best is None <==> k == 0,
            best matches Some(pick) ==> {
                &&& pick.0 < k
                &&& pick.1 == clamped_rate(
                    configs[pick.0 as int].0,
                    configs[pick.0 as int].1,
                    desired,
                )
                &&& best_score == rate_score(
                    configs[pick.0 as int].0,
                    configs[pick.0 as int].1,
                    desired,
                )
                &&& forall|m: int|
                    0 <= m < k ==> rate_score(
                        (#[trigger] configs[m]).0,
                        configs[m].1,
                        desired,
                    ) >= best_score
                &&& forall|m: int|
                    0 <= m < pick.0 ==> rate_score(
                        (#[trigger] configs[m]).0,
                        configs[m].1,
                        desired,
                    ) > best_score
            },
        decreases configs.len() - k,
    {
        let (lo, hi) = configs[k];
        let rate = if desired < lo {
            lo
        } else if desired > hi {
            hi
        } else {
            desired
        };
        let score = if rate >= desired {
            rate - desired
        } else {
            desired - rate
        };
        let better = match best {
            None => true,
            Some((_, best_rate)) => {
                let prev = if best_rate >= desired {
                    best_rate - desired
                } else {
                    desired - best_rate
                };
                score < prev
            },
        };
        if better {
            best = Some((k, rate));
            proof {
                best_score = rate_score(configs[k as int].0, configs[k as int].1, desired);
            }
        }
        k = k + 1;
    }
    best
}

/// Accepts a newly enqueued track on the callback side: resets the playback
/// counter to zero and wraps the decoder in a resampler matched to the
/// device rate. `None` only for a stream whose own rate is beyond any real
/// device's range.
pub fn accept_track<S>(decoder: OggDecoder, ctl: &mut AudioControl, device_rate: u32) -> (r:
    Option<Resampler<OggDecoder, S>>) where
    S: rubato::Sample + dasp_sample::Sample + dasp_sample::FromSample<i16>,
    i16: dasp_sample::FromSample<S>,

    requires
        decoder.wf(),
        1 <= device_rate <= 100_000_000,
    ensures
        final(ctl).timestamp_spec() == 0,
        final(ctl).rate_spec() == old(ctl).rate_spec(),
        r is Some <==> decoder.rate_spec() <= 100_000_000,
        r matches Some(rs) ==> rs.wf() && rs.rate_spec() == device_rate && rs.chans_spec()
            == decoder.chans_spec(),
{
    ctl.reset();
    proof {
        decoder.lemma_wf();
    }
    if decoder.sample_rate() > 100_000_000 {
        return None;
    }
    match Resampler::new(decoder, device_rate) {
        Ok(rs) => Some(rs),
        Err(_) => None,
    }
}

/// Fills one hardware buffer: pulls samples from the active resampled
/// source, pads any shortfall with silence (the `i16` equilibrium, zero),
/// and reports how many whole frames of real audio were produced — the
/// number the callback adds to the consumed-sample counter — together with
/// whether the source failed. An error is non-fatal: the whole buffer is
/// silence and no frames are counted, so the stream degrades to silence
/// until a new track supersedes it.
#[verifier::spinoff_prover]
pub fn callback_fill<T, S>(source: &mut Resampler<T, S>, out_len: usize) -> (r: (
    Vec<i16>,
    u64,
    bool,
)) where
    T: Source,
    S: rubato::Sample + dasp_sample::Sample + dasp_sample::FromSample<i16>,
    i16: dasp_sample::FromSample<S>,

    requires
        old(source).wf(),
        out_len as int % (old(source).chans_spec() as int) == 0,
    ensures
        final(source).wf(),
        final(source).rate_spec() == old(source).rate_spec(),
        final(source).chans_spec() == old(source).chans_spec(),
        r.0.len() == out_len,
        r.1 as int * (old(source).chans_spec() as int) <= out_len as int,
        forall|i: int|
            r.1 as int * (old(source).chans_spec() as int) <= i < out_len ==> r.0[i] == 0,
        r.2 ==> r.1 == 0,
        old(source).is_exact() ==> {
            let k = vstd::math::min(out_len as int, old(source).stream().len() as int);
            &&& !r.2
            &&& r.0@.subrange(0, k) == old(source).stream().subrange(0, k)
            &&& r.1 == k / (old(source).chans_spec() as int)
            &&& final(source).stream() == old(source).stream().skip(k)
        },
{
    let ghost chans = old(source).chans_spec() as int;
    proof {
        old(source).lemma_wf();
    }
    let ch = source.channels() as u64;
    let mut data: Vec<i16> = vec![0i16; out_len];
    match source.sample(&mut data) {
        Ok(n) => {
            proof {
                vstd::arithmetic::div_mod::lemma_fundamental_div_mod(n as int, chans);
                vstd::arithmetic::div_mod::lemma_div_pos_is_pos(n as int, chans);
                vstd::arithmetic::mul::lemma_mul_is_commutative(n as int / chans, chans);
                if old(source).is_exact() {
                    crate::source::lemma_zero_mod(chans);
                    vstd::arithmetic::div_mod::lemma_mod_bound(n as int, chans);
                }
            }
            let frames = (n as u64) / ch;
            proof {
                assert(frames as int == n as int / chans);
                assert(frames as int * chans == n as int);
                assert(frames as int * chans <= out_len as int);
            }
            (data, frames, false)
        },
        Err(_) => {
            // treat the stream as producing silence until superseded
            let silent: Vec<i16> = vec![0i16; out_len];
            proof {
                assert(0int * chans == 0);
            }
            (silent, 0u64, true)
        },
    }
}

} // verus!
