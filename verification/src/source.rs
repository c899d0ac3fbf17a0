//! The pull-based audio source abstraction: interleaved PCM with sample-rate
//! and channel metadata, plus a position-tracking wrapper and an in-memory
//! source.

use vstd::prelude::*;

verus! {

/// Zero is a multiple of any positive `d`.
pub(crate) proof fn lemma_zero_mod(d: int)
    requires
        d > 0,
    ensures
        0int % d == 0,
{
    vstd::arithmetic::div_mod::lemma_small_mod(0nat, d as nat);
}

/// Two multiples of `d` differ by a multiple of `d`.
pub(crate) proof fn lemma_mod_diff_zero(a: int, b: int, d: int)
    requires
        d > 0,
        0 <= a <= b,
        a % d == 0,
        b % d == 0,
    ensures
        (b - a) % d == 0,
{
    vstd::arithmetic::div_mod::lemma_mod_adds(a, b - a, d);
    vstd::arithmetic::div_mod::lemma_mod_bound(b - a, d);
    assert((b - a) % d == 0) by (nonlinear_arith)
        requires
            d > 0,
            0 <= (b - a) % d < d,
            (b - a) % d == d * (((b - a) % d) / d),
    ;
}

/// The sum of two multiples of `d` is a multiple of `d`.
pub(crate) proof fn lemma_mod_sum_zero(a: int, b: int, d: int)
    requires
        d > 0,
        a >= 0,
        b >= 0,
        a % d == 0,
        b % d == 0,
    ensures
        (a + b) % d == 0,
{
    vstd::arithmetic::div_mod::lemma_mod_adds(a, b, d);
}

/// A source of audio that can be sampled.
///
/// Samples are channel-interleaved `i16` PCM. A read never returns a sample
/// count that splits a frame: the count is always divisible by the channel
/// count. The sample rate and channel count stay constant for the life of the
/// instance.
///
/// A source whose whole remaining stream is known (`is_exact()`) additionally
/// promises that every read returns exactly the next samples of that stream,
/// filling as much of the buffer as the stream can, and never fails.
pub trait Source: Sized {
    type Error;

    /// The sample rate this source reports.
    spec fn rate_spec(&self) -> u32;

    /// The channel count this source reports.
    spec fn chans_spec(&self) -> u8;

    /// Whether the remaining stream of this source is exactly known.
    spec fn is_exact(&self) -> bool;

    /// The remaining interleaved samples, meaningful when `is_exact()`.
    spec fn stream(&self) -> Seq<i16>;

    /// Well-formedness of the source's internal state.
    spec fn wf(&self) -> bool;

    /// Every well-formed source has a nonzero rate and channel count, and an
    /// exact source holds only whole frames.
    proof fn lemma_wf(&self)
        requires
            self.wf(),
        ensures
            self.rate_spec() >= 1,
            self.chans_spec() >= 1,
            self.is_exact() ==> self.stream().len() as int % (self.chans_spec() as int) == 0,
    ;

    /// The sample rate of the audio source.
    fn sample_rate(&self) -> (r: u32)
        requires
            self.wf(),
        ensures
            r == self.rate_spec(),
    ;

    /// The channel count of the audio source.
    fn channels(&self) -> (r: u8)
        requires
            self.wf(),
        ensures
            r == self.chans_spec(),
    ;

    /// Reads some interleaved samples into the front of `buf`.
    ///
    /// Returns how many single samples were read; the tail of `buf` beyond
    /// that count is left as it was. The count never splits a frame. An exact
    /// source fills as much of `buf` as its remaining stream allows, returns
    /// exactly the next samples of that stream, and never fails.
    fn sample(&mut self, buf: &mut Vec<i16>) -> (r: Result<usize, Self::Error>)
        requires
            old(self).wf(),
            old(buf).len() as int % (old(self).chans_spec() as int) == 0,
        ensures
            final(self).wf(),
            final(self).rate_spec() == old(self).rate_spec(),
            final(self).chans_spec() == old(self).chans_spec(),
            final(self).is_exact() == old(self).is_exact(),
            final(buf).len() == old(buf).len(),
            match r {
                Ok(n) => {
                    &&& n <= old(buf).len()
                    &&& n as int % (old(self).chans_spec() as int) == 0
                    &&& (forall|i: int|
                        n <= i < old(buf).len() ==> final(buf)[i] == old(buf)[i])
                    &&& (old(self).is_exact() ==> {
                        &&& n == vstd::math::min(
                            old(buf).len() as int,
                            old(self).stream().len() as int,
                        )
                        &&& final(buf)@.subrange(0, n as int) == old(self).stream().subrange(
                            0,
                            n as int,
                        )
                        &&& final(self).stream() == old(self).stream().skip(n as int)
                    })
                },
                Err(_) => !old(self).is_exact(),
            },
    ;

    /// Seeks the audio source to a position in samples, on a per-channel
    /// basis.
    fn seek(&mut self, position: usize) -> (r: Result<(), Self::Error>)
        requires
            old(self).wf(),
        ensures
            final(self).wf(),
            final(self).rate_spec() == old(self).rate_spec(),
            final(self).chans_spec() == old(self).chans_spec(),
            final(self).is_exact() == old(self).is_exact(),
    ;
}

/// What one read of `size` samples returns at the front of `stream`: as much
/// of `size` as the stream can fill. This is exactly what [`Source::sample`]
/// returns from an exact source handed a buffer of length `size`.
pub open spec fn read_prefix(stream: Seq<i16>, size: int) -> Seq<i16> {
    stream.take(vstd::math::min(size, stream.len() as int))
}

/// What remains of `stream` after such a read.
pub open spec fn read_rest(stream: Seq<i16>, size: int) -> Seq<i16> {
    stream.skip(vstd::math::min(size, stream.len() as int))
}

/// Everything returned by successive reads of the given buffer sizes,
/// concatenated in order.
pub open spec fn reads_concat(stream: Seq<i16>, sizes: Seq<int>) -> Seq<i16>
    decreases sizes.len(),
{
    if sizes.len() == 0 {
        Seq::empty()
    } else {
        read_prefix(stream, sizes[0]) + reads_concat(read_rest(stream, sizes[0]), sizes.drop_first())
    }
}

/// The total size of a sequence of reads.
pub open spec fn total_of(sizes: Seq<int>) -> int
    decreases sizes.len(),
{
    if sizes.len() == 0 {
        0int
    } else {
        sizes[0] + total_of(sizes.drop_first())
    }
}

proof fn lemma_total_of_nonneg(sizes: Seq<int>)
    requires
        forall|i: int| 0 <= i < sizes.len() ==> sizes[i] >= 0,
    ensures
        total_of(sizes) >= 0,
    decreases sizes.len(),
{
    if sizes.len() > 0 {
        assert forall|i: int|
            0 <= i < sizes.drop_first().len() implies #[trigger] sizes.drop_first()[i]
            >= 0 by {
            assert(sizes.drop_first()[i] == sizes[i + 1]);
        }
        lemma_total_of_nonneg(sizes.drop_first());
    }
}

/// Chunking invariance: however a sequence of reads splits a stream, the
/// concatenation of everything returned equals the result of one read with a
/// buffer large enough for all of them together.
pub proof fn lemma_chunked_reads(stream: Seq<i16>, sizes: Seq<int>)
    requires
        forall|i: int| 0 <= i < sizes.len() ==> sizes[i] >= 0,
    ensures
        reads_concat(stream, sizes) == read_prefix(stream, total_of(sizes)),
    decreases sizes.len(),
{
    if sizes.len() == 0 {
        assert(reads_concat(stream, sizes) =~= read_prefix(stream, 0));
    } else {
        let rest = sizes.drop_first();
        assert forall|i: int| 0 <= i < rest.len() implies #[trigger] rest[i] >= 0 by {
            assert(rest[i] == sizes[i + 1]);
        }
        lemma_total_of_nonneg(rest);
        let k = vstd::math::min(sizes[0], stream.len() as int);
        lemma_chunked_reads(stream.skip(k), rest);
        assert(reads_concat(stream, sizes) =~= read_prefix(stream, total_of(sizes)));
    }
}

/// An exact in-memory source over a buffer of interleaved samples.
pub struct MemorySource {
    rate: u32,
    chans: u8,
    data: Vec<i16>,
    cursor: usize,
}

impl MemorySource {
    /// The whole sample buffer, wherever the cursor stands, as a
    /// specification value.
    pub closed spec fn data_spec(&self) -> Seq<i16> {
        self.data@
    }

    /// Creates a source over `data`, positioned at its start.
    pub fn new(rate: u32, chans: u8, data: Vec<i16>) -> (r: MemorySource)
        requires
            rate >= 1,
            chans >= 1,
            data.len() as int % (chans as int) == 0,
        ensures
            r.wf(),
            r.is_exact(),
            r.rate_spec() == rate,
            r.chans_spec() == chans,
            r.stream() == data@,
            r.data_spec() == data@,
    {
        MemorySource { rate, chans, data, cursor: 0 }
    }
}

impl Source for MemorySource {
    type Error = ();

    closed spec fn rate_spec(&self) -> u32 {
        self.rate
    }

    closed spec fn chans_spec(&self) -> u8 {
        self.chans
    }

    closed spec fn is_exact(&self) -> bool {
        true
    }

    closed spec fn stream(&self) -> Seq<i16> {
        self.data@.skip(self.cursor as int)
    }

    closed spec fn wf(&self) -> bool {
        &&& self.rate >= 1
        &&& self.chans >= 1
        &&& self.cursor <= self.data.len()
        &&& self.cursor as int % (self.chans as int) == 0
        &&& self.data.len() as int % (self.chans as int) == 0
    }

    proof fn lemma_wf(&self) {
        lemma_mod_diff_zero(self.cursor as int, self.data.len() as int, self.chans as int);
    }

    fn sample_rate(&self) -> u32 {
        self.rate
    }

    fn channels(&self) -> u8 {
        self.chans
    }

    fn sample(&mut self, buf: &mut Vec<i16>) -> (r: Result<usize, ()>)
        ensures
            final(self).data_spec() == old(self).data_spec(),
    {
        let avail = self.data.len() - self.cursor;
        let n = if buf.len() < avail {
            buf.len()
        } else {
            avail
        };
        proof {
            lemma_mod_diff_zero(
                old(self).cursor as int,
                old(self).data.len() as int,
                old(self).chans as int,
            );
        }
        let mut i: usize = 0;
        while i < n
            invariant
                i <= n,
                n <= buf.len(),
                *self == *old(self),
                old(self).wf(),
                n <= self.data.len() - self.cursor,
                buf.len() == old(buf).len(),
                forall|j: int| 0 <= j < i ==> buf[j] == self.data[self.cursor + j],
                forall|j: int| i <= j < buf.len() ==> buf[j] == old(buf)[j],
            decreases n - i,
        {
            let v = self.data[self.cursor + i];
            buf[i] = v;
            i = i + 1;
        }
        self.cursor = self.cursor + n;
        proof {
            assert(final(buf)@.subrange(0, n as int) =~= old(self).stream().subrange(
                0,
                n as int,
            ));
            assert(final(self).stream() =~= old(self).stream().skip(n as int));
            lemma_mod_sum_zero(old(self).cursor as int, n as int, old(self).chans as int);
        }
        Ok(n)
    }

    /// Moves the cursor to the frame `position`, clamped to the end of the
    /// buffer.
    fn seek(&mut self, position: usize) -> (r: Result<(), ()>)
        ensures
            r is Ok,
            final(self).data_spec() == old(self).data_spec(),
            final(self).stream() == old(self).data_spec().skip(
                (old(self).chans_spec() as int) * vstd::math::min(
                    position as int,
                    old(self).data_spec().len() as int / (old(self).chans_spec() as int),
                ),
            ),
    {
        let frames = self.data.len() / (self.chans as usize);
        let f = if position < frames {
            position
        } else {
            frames
        };
        proof {
            vstd::arithmetic::div_mod::lemma_fundamental_div_mod(
                self.data.len() as int,
                self.chans as int,
            );
            assert(f * (self.chans as int) <= self.data.len()) by (nonlinear_arith)
                requires
                    f <= self.data.len() as int / (self.chans as int),
                    self.chans >= 1,
                    self.data.len() == (self.data.len() as int / (self.chans as int)) * (
                    self.chans as int) + self.data.len() as int % (self.chans as int),
                    self.data.len() as int % (self.chans as int) >= 0,
            ;
            assert((f * (self.chans as int)) % (self.chans as int) == 0) by {
                vstd::arithmetic::div_mod::lemma_mod_multiples_basic(
                    f as int,
                    self.chans as int,
                );
            }
        }
        self.cursor = f * (self.chans as usize);
        proof {
            vstd::arithmetic::mul::lemma_mul_is_commutative(f as int, self.chans as int);
        }
        Ok(())
    }
}

/// A thin wrapper over a [`Source`] that counts position in samples.
pub struct TrackedSource<T> {
    inner: T,
    position: usize,
}

impl<T> TrackedSource<T> {
    /// The count of samples read so far, as a specification value.
    pub closed spec fn position_spec(&self) -> usize {
        self.position
    }

    /// The wrapped source, as a specification value.
    pub closed spec fn inner_spec(&self) -> T {
        self.inner
    }

    /// Creates a new `TrackedSource`.
    pub fn new(inner: T) -> (r: TrackedSource<T>)
        ensures
            r.inner_spec() == inner,
            r.position_spec() == 0,
    {
        TrackedSource { inner, position: 0 }
    }

    /// Returns the position of the reader in samples.
    ///
    /// Specifically, this returns how many samples have cumulatively been
    /// read from the source. If this audio is fed into an audio device, this
    /// is how many samples have been fed *into* the audio device, **not** how
    /// many samples the audio has played.
    ///
    /// For rhythm tracking, use an interpolating clock!
    pub fn position(&self) -> (r: usize)
        ensures
            r == self.position_spec(),
    {
        self.position
    }
}

impl<T> TrackedSource<T> where T: Source {
    /// Returns the current position of the song in nanoseconds, computed from
    /// the per-sample duration at the inner source's rate.
    ///
    /// See [`TrackedSource::position`] for caveats.
    pub fn position_time(&self) -> (r: u64)
        requires
            self.wf(),
            (1_000_000_000u64 / self.rate_spec() as u64) * self.position_spec() <= u64::MAX,
        ensures
            r == (1_000_000_000u64 / self.rate_spec() as u64) * self.position_spec(),
    {
        proof {
            self.inner.lemma_wf();
        }
        let per_sample: u64 = 1_000_000_000u64 / (self.inner.sample_rate() as u64);
        per_sample * (self.position as u64)
    }
}

impl<T> Source for TrackedSource<T> where T: Source {
    type Error = T::Error;

    open spec fn rate_spec(&self) -> u32 {
        self.inner_spec().rate_spec()
    }

    open spec fn chans_spec(&self) -> u8 {
        self.inner_spec().chans_spec()
    }

    open spec fn is_exact(&self) -> bool {
        self.inner_spec().is_exact()
    }

    open spec fn stream(&self) -> Seq<i16> {
        self.inner_spec().stream()
    }

    open spec fn wf(&self) -> bool {
        self.inner_spec().wf()
    }

    proof fn lemma_wf(&self) {
        self.inner.lemma_wf();
    }

    fn sample_rate(&self) -> u32 {
        self.inner.sample_rate()
    }

    fn channels(&self) -> u8 {
        self.inner.channels()
    }

    fn sample(&mut self, buf: &mut Vec<i16>) -> (r: Result<usize, T::Error>)
        ensures
            match r {
                Ok(n) => final(self).position_spec() == vstd::math::min(
                    old(self).position_spec() + n,
                    usize::MAX as int,
                ),
                Err(_) => final(self).position_spec() == old(self).position_spec(),
            },
    {
        let n = match self.inner.sample(buf) {
            Ok(n) => n,
            Err(e) => {
                return Err(e);
            },
        };
        self.position = if self.position <= usize::MAX - n {
            self.position + n
        } else {
            usize::MAX
        };
        Ok(n)
    }

    fn seek(&mut self, position: usize) -> (r: Result<(), T::Error>)
        ensures
            r is Ok ==> final(self).position_spec() == position,
            r is Err ==> final(self).position_spec() == old(self).position_spec(),
    {
        match self.inner.seek(position) {
            Ok(()) => {
                self.position = position;
                Ok(())
            },
            Err(e) => Err(e),
        }
    }
}

} // verus!
