//! Streaming sample-rate conversion over a [`Source`], acting as a
//! transparent passthrough when the rates already match.
//!
//! The buffer management — accumulating de-interleaved input, draining
//! resampled output into the caller's interleaved buffer — is verified; the
//! FFT processing itself is rubato's, behind trusted wrappers. The sample
//! type of the FFT kernel is the type parameter `S` (a float type chosen by
//! the caller); the library's own buffers hold `i16` throughout.

use vstd::prelude::*;

use crate::source::Source;

verus! {

#[verifier::external_type_specification]
#[verifier::external_body]
#[verifier::reject_recursive_types(T)]
pub struct ExFftFixedIn<T>(rubato::FftFixedIn<T>);

#[verifier::external_type_specification]
#[verifier::external_body]
pub struct ExResamplerConstructionError(rubato::ResamplerConstructionError);

/// An error that [`Resampler`] returns.
#[derive(Debug)]
pub enum ResampleError<E> {
    /// The inner source failed.
    Source(E),
    /// The resampling primitive failed.
    Resample,
}

impl<E> From<E> for ResampleError<E> {
    /// An error of the inner source converts into the `Source` variant.
    fn from(source: E) -> (r: ResampleError<E>) {
        ResampleError::Source(source)
    }
}

impl<E> vstd::std_specs::convert::FromSpecImpl<E> for ResampleError<E> {
    open spec fn obeys_from_spec() -> bool {
        true
    }

    open spec fn from_spec(source: E) -> Self {
        ResampleError::Source(source)
    }
}

/// Relies on rubato's `FftFixedIn::new`: it fails exactly when one of the
/// sample rates is zero, and otherwise sets the fixed input chunk size to
/// `chunk`. The size bounds keep its internal arithmetic in range.
#[verifier::external_body]
fn fft_new<S>(from: usize, to: usize, chunk: usize, sub_chunks: usize, channels: usize) -> (r:
    Result<rubato::FftFixedIn<S>, rubato::ResamplerConstructionError>) where
    S: rubato::Sample,

    requires
        1 <= sub_chunks <= chunk,
        chunk <= 1_048_576,
        from <= 100_000_000,
        to <= 100_000_000,
    ensures
        r is Ok <==> (from >= 1 && to >= 1),
{
    rubato::FftFixedIn::new(from, to, chunk, sub_chunks, channels)
}

/// Relies on rubato's `Resampler::process` on an `FftFixedIn` built for at
/// least one input frame: on success it returns one output buffer per input
/// channel, all of one length.
#[verifier::external_body]
fn fft_process<S>(fft: &mut rubato::FftFixedIn<S>, input: &Vec<Vec<i16>>) -> (r: Result<
    Vec<Vec<i16>>,
    (),
>) where
    S: rubato::Sample + dasp_sample::Sample + dasp_sample::FromSample<i16>,
    i16: dasp_sample::FromSample<S>,

    ensures
        r matches Ok(out) ==> {
            &&& out.len() == input.len()
            &&& forall|c: int| 0 <= c < out.len() ==> (#[trigger] out[c])@.len() == out[0]@.len()
        },
{
    let waves: Vec<Vec<S>> = input.iter().map(
        |c| c.iter().map(|s| dasp_sample::Sample::to_sample(*s)).collect(),
    ).collect();
    match rubato::Resampler::process(fft, &waves, None) {
        Ok(o) => Ok(o.iter().map(
            |c| c.iter().map(|s| dasp_sample::Sample::to_sample(*s)).collect(),
        ).collect()),
        Err(_) => Err(()),
    }
}

/// Relies on rubato's `Resampler::reset`: it returns the resampler to its
/// freshly-created state, clearing all internal history.
#[verifier::external_body]
fn fft_reset<S>(fft: &mut rubato::FftFixedIn<S>) where S: rubato::Sample {
    rubato::Resampler::reset(fft)
}

/// The conversion state of an active (non-passthrough) resampler.
#[verifier::reject_recursive_types(S)]
struct RState<S> {
    fft: rubato::FftFixedIn<S>,
    /// The fixed number of input frames one processing step consumes.
    chunk: usize,
    /// Per-channel input frames accumulated for the next processing step.
    from: Vec<Vec<i16>>,
    /// Per-channel output frames of the last processing step.
    out: Vec<Vec<i16>>,
    /// Output frames already handed to the caller.
    out_cursor: usize,
    /// Whether the inner source has ended and the final flush has run.
    eof: bool,
}

/// Well-formedness of the conversion state for a given channel count.
spec fn rstate_wf<S>(st: RState<S>, chans: int) -> bool {
    &&& chans >= 1
    &&& 1 <= st.chunk <= 1_048_576
    &&& st.from.len() == chans
    &&& st.out.len() == chans
    &&& forall|c: int| 0 <= c < chans ==> (#[trigger] st.from[c])@.len() == st.from[0]@.len()
    &&& forall|c: int| 0 <= c < chans ==> (#[trigger] st.out[c])@.len() == st.out[0]@.len()
    &&& st.from[0]@.len() <= st.chunk
    &&& st.out_cursor <= st.out[0]@.len()
}

/// A resampler source that converts between sample rates using rubato's
/// fixed-input-size FFT resampler. This struct intelligently acts as a
/// passthrough in the case that the inner rate already equals `to`.
///
/// It offers the same interface as [`Source`] through inherent methods with
/// the same contracts; Verus cannot yet check a trait implementation whose
/// generics carry bounds on outside traits, which the kernel's sample type
/// `S` needs, so the trait itself is not implemented.
#[verifier::reject_recursive_types(S)]
pub struct Resampler<T, S> {
    inner: T,
    to: u32,
    state: Option<RState<S>>,
}

impl<T, S> Resampler<T, S> where
    T: Source,
    S: rubato::Sample + dasp_sample::Sample + dasp_sample::FromSample<i16>,
    i16: dasp_sample::FromSample<S>,
 {
    /// Creates a new `Resampler` with a default processing chunk size.
    pub fn new(inner: T, to: u32) -> (r: Result<
        Resampler<T, S>,
        rubato::ResamplerConstructionError,
    >)
        requires
            inner.wf(),
            1 <= to <= 100_000_000,
            inner.rate_spec() <= 100_000_000,
        ensures
            r is Ok,
            r matches Ok(rs) ==> {
                &&& rs.wf()
                &&& rs.rate_spec() == to
                &&& rs.chans_spec() == inner.chans_spec()
                &&& rs.is_exact() == (inner.is_exact() && inner.rate_spec() == to)
                &&& (rs.is_passthrough() <==> inner.rate_spec() == to)
                &&& rs.conversion_idle()
                &&& (inner.rate_spec() == to ==> rs.stream() == inner.stream())
            },
    {
        // ideally a number close to the output device's frame size, to
        // prevent lag spikes
        Resampler::new_with_chunk_size(inner, to, 4096)
    }

    /// Creates a new `Resampler` with the provided chunk size.
    pub fn new_with_chunk_size(inner: T, to: u32, chunk_size: usize) -> (r: Result<
        Resampler<T, S>,
        rubato::ResamplerConstructionError,
    >)
        requires
            inner.wf(),
            1 <= to <= 100_000_000,
            inner.rate_spec() <= 100_000_000,
            1 <= chunk_size <= 1_048_576,
        ensures
            r is Ok,
            r matches Ok(rs) ==> {
                &&& rs.wf()
                &&& rs.rate_spec() == to
                &&& rs.chans_spec() == inner.chans_spec()
                &&& rs.is_exact() == (inner.is_exact() && inner.rate_spec() == to)
                &&& (rs.is_passthrough() <==> inner.rate_spec() == to)
                &&& rs.conversion_idle()
                &&& (inner.rate_spec() == to ==> rs.stream() == inner.stream())
            },
    {
        proof {
            inner.lemma_wf();
        }
        let from = inner.sample_rate();
        let channels = inner.channels();
        if from == to {
            // passthrough mode
            Ok(Resampler { inner, to, state: None })
        } else {
            match fft_new::<S>(from as usize, to as usize, chunk_size, 1, channels as usize) {
                Ok(fft) => {
                    let mut from_buffer: Vec<Vec<i16>> = Vec::new();
                    let mut to_buffer: Vec<Vec<i16>> = Vec::new();
                    let mut c: usize = 0;
                    while c < channels as usize
                        invariant
                            c <= channels as usize,
                            from_buffer.len() == c,
                            to_buffer.len() == c,
                            forall|i: int|
                                0 <= i < c ==> (#[trigger] from_buffer[i])@.len() == 0,
                            forall|i: int| 0 <= i < c ==> (#[trigger] to_buffer[i])@.len() == 0,
                        decreases channels as usize - c,
                    {
                        from_buffer.push(Vec::new());
                        to_buffer.push(Vec::new());
                        c = c + 1;
                    }
                    let st = RState {
                        fft,
                        chunk: chunk_size,
                        from: from_buffer,
                        out: to_buffer,
                        out_cursor: 0,
                        eof: false,
                    };
                    Ok(Resampler { inner, to, state: Some(st) })
                },
                Err(e) => Err(e),
            }
        }
    }
}

/// Pushes one sample onto the channel buffer at `c`.
fn vec_push_nested(v: &mut Vec<Vec<i16>>, c: usize, x: i16)
    requires
        c < old(v).len(),
    ensures
        final(v).len() == old(v).len(),
        final(v)[c as int]@ == old(v)[c as int]@.push(x),
        forall|j: int| 0 <= j < old(v).len() && j != c ==> final(v)[j] == old(v)[j],
{
    v[c].push(x);
}

/// Copies `len` samples into `buf` at `at`, interleaving them from the
/// per-channel buffers of `audio_in` starting at frame `start`.
fn interleave_samples(
    audio_in: &Vec<Vec<i16>>,
    start: usize,
    buf: &mut Vec<i16>,
    at: usize,
    len: usize,
)
    requires
        audio_in.len() >= 1,
        forall|c: int|
            0 <= c < audio_in.len() ==> (#[trigger] audio_in[c])@.len() == audio_in[0]@.len(),
        len as int % (audio_in.len() as int) == 0,
        start + len as int / (audio_in.len() as int) <= audio_in[0]@.len(),
        at + len <= old(buf).len(),
    ensures
        final(buf).len() == old(buf).len(),
        forall|i: int| 0 <= i < at ==> final(buf)[i] == old(buf)[i],
        forall|i: int| at + len <= i < old(buf).len() ==> final(buf)[i] == old(buf)[i],
        forall|i: int|
            0 <= i < len ==> #[trigger] final(buf)[at + i] == audio_in[i % (
            audio_in.len() as int)]@[start + i / (audio_in.len() as int)],
{
    let chans = audio_in.len();
    let chan_len = audio_in[0].len();
    proof {
        vstd::arithmetic::div_mod::lemma_fundamental_div_mod(len as int, chans as int);
    }
    let mut i: usize = 0;
    while i < len
        invariant
            chans == audio_in.len(),
            chan_len == audio_in[0]@.len(),
            chans >= 1,
            forall|c: int|
                0 <= c < audio_in.len() ==> (#[trigger] audio_in[c])@.len()
                    == audio_in[0]@.len(),
            len as int % (chans as int) == 0,
            len as int == (chans as int) * (len as int / (chans as int)),
            start + len as int / (chans as int) <= audio_in[0]@.len(),
            at + len <= buf.len(),
            buf.len() == old(buf).len(),
            i <= len,
            forall|k: int| 0 <= k < at ==> buf[k] == old(buf)[k],
            forall|k: int| at + i <= k < buf.len() ==> buf[k] == old(buf)[k],
            forall|k: int|
                0 <= k < i ==> #[trigger] buf[at + k] == audio_in[k % (chans as int)]@[start + k
                    / (chans as int)],
        decreases len - i,
    {
        let c = i % chans;
        let f = i / chans;
        proof {
            vstd::arithmetic::div_mod::lemma_mod_bound(i as int, chans as int);
            vstd::arithmetic::div_mod::lemma_div_pos_is_pos(i as int, chans as int);
            vstd::arithmetic::div_mod::lemma_multiply_divide_lt(
                i as int,
                chans as int,
                len as int / (chans as int),
            );
            assert(f < len as int / (chans as int));
            assert(start + f < chan_len);
        }
        let v = audio_in[c][start + f];
        buf[at + i] = v;
        i = i + 1;
    }
}

/// Appends the first `n` samples of the interleaved buffer `tmp` to the
/// per-channel buffers of `from`, de-interleaving them.
fn deinterleave_samples(from: &mut Vec<Vec<i16>>, tmp: &Vec<i16>, n: usize, chans: usize)
    requires
        chans >= 1,
        old(from).len() == chans,
        forall|c: int|
            0 <= c < chans ==> (#[trigger] old(from)[c])@.len() == old(from)[0]@.len(),
        n <= tmp.len(),
        n as int % (chans as int) == 0,
    ensures
        final(from).len() == chans,
        forall|c: int|
            0 <= c < chans ==> (#[trigger] final(from)[c])@.len() == old(from)[0]@.len() + n as int
                / (chans as int),
        forall|c: int, f: int|
            0 <= c < chans && 0 <= f < old(from)[0]@.len() ==> #[trigger] final(from)[c]@[f]
                == old(from)[c]@[f],
        forall|c: int, f: int|
            0 <= c < chans && 0 <= f < n as int / (chans as int) ==> #[trigger] final(from)[c]@[
            old(from)[0]@.len() + f] == tmp[f * (chans as int) + c],
{
    let frames = n / chans;
    proof {
        vstd::arithmetic::div_mod::lemma_fundamental_div_mod(n as int, chans as int);
    }
    let ghost len0 = old(from)[0]@.len();
    let mut f: usize = 0;
    while f < frames
        invariant
            chans >= 1,
            from.len() == chans,
            frames == n as int / (chans as int),
            n as int == (chans as int) * (frames as int),
            n <= tmp.len(),
            f <= frames,
            forall|c: int| 0 <= c < chans ==> (#[trigger] from[c])@.len() == len0 + f,
            forall|c: int, k: int|
                0 <= c < chans && 0 <= k < len0 ==> #[trigger] from[c]@[k] == old(from)[c]@[k],
            forall|c: int, k: int|
                0 <= c < chans && 0 <= k < f ==> #[trigger] from[c]@[len0 + k] == tmp[k * (
                chans as int) + c],
            len0 == old(from)[0]@.len(),
        decreases frames - f,
    {
        let mut c: usize = 0;
        while c < chans
            invariant
                chans >= 1,
                from.len() == chans,
                frames == n as int / (chans as int),
                n as int == (chans as int) * (frames as int),
                n <= tmp.len(),
                f < frames,
                c <= chans,
                forall|cc: int|
                    c <= cc < chans ==> (#[trigger] from[cc])@.len() == len0 + f,
                forall|cc: int| 0 <= cc < c ==> (#[trigger] from[cc])@.len() == len0 + f + 1,
                forall|cc: int, k: int|
                    0 <= cc < chans && 0 <= k < len0 ==> #[trigger] from[cc]@[k] == old(
                    from,
                )[cc]@[k],
                forall|cc: int, k: int|
                    0 <= cc < chans && 0 <= k < f ==> #[trigger] from[cc]@[len0 + k] == tmp[k * (
                    chans as int) + cc],
                forall|cc: int|
                    0 <= cc < c ==> #[trigger] from[cc]@[len0 + f as int] == tmp[f as int * (
                    chans as int) + cc],
                len0 == old(from)[0]@.len(),
            decreases chans - c,
        {
            proof {
                vstd::arithmetic::mul::lemma_mul_inequality(
                    f as int + 1,
                    frames as int,
                    chans as int,
                );
                vstd::arithmetic::mul::lemma_mul_is_distributive_add_other_way(
                    chans as int,
                    f as int,
                    1,
                );
                vstd::arithmetic::mul::lemma_mul_is_commutative(f as int, chans as int);
                vstd::arithmetic::mul::lemma_mul_is_commutative(frames as int, chans as int);
            }
            let v = tmp[f * chans + c];
            vec_push_nested(from, c, v);
            c = c + 1;
        }
        f = f + 1;
    }
}

/// Pads every channel buffer with silence (zero samples) up to `frames`
/// frames, so a partial final chunk becomes a whole processing step.
fn pad_with_silence(from: &mut Vec<Vec<i16>>, frames: usize, chans: usize)
    requires
        chans >= 1,
        old(from).len() == chans,
        forall|c: int|
            0 <= c < chans ==> (#[trigger] old(from)[c])@.len() == old(from)[0]@.len(),
        old(from)[0]@.len() <= frames,
    ensures
        final(from).len() == chans,
        forall|c: int| 0 <= c < chans ==> (#[trigger] final(from)[c])@.len() == frames,
        forall|c: int, k: int|
            0 <= c < chans && 0 <= k < old(from)[0]@.len() ==> #[trigger] final(from)[c]@[k]
                == old(from)[c]@[k],
        forall|c: int, k: int|
            0 <= c < chans && old(from)[0]@.len() <= k < frames ==> #[trigger] final(
            from)[c]@[k] == 0,
{
    let ghost len0 = old(from)[0]@.len();
    let mut c: usize = 0;
    while c < chans
        invariant
            c <= chans,
            from.len() == chans,
            forall|j: int| 0 <= j < c ==> (#[trigger] from[j])@.len() == frames,
            forall|j: int| c <= j < chans ==> (#[trigger] from[j])@.len() == len0,
            len0 <= frames,
            forall|j: int, k: int|
                0 <= j < chans && 0 <= k < len0 ==> #[trigger] from[j]@[k] == old(from)[j]@[k],
            forall|j: int, k: int|
                0 <= j < c && len0 <= k < frames ==> #[trigger] from[j]@[k] == 0,
            len0 == old(from)[0]@.len(),
        decreases chans - c,
    {
        while from[c].len() < frames
            invariant
                c < chans,
                from.len() == chans,
                forall|j: int| 0 <= j < c ==> (#[trigger] from[j])@.len() == frames,
                forall|j: int| c < j < chans ==> (#[trigger] from[j])@.len() == len0,
                len0 <= from[c as int]@.len() <= frames,
                forall|j: int, k: int|
                    0 <= j < chans && 0 <= k < len0 ==> #[trigger] from[j]@[k] == old(
                    from)[j]@[k],
                forall|j: int, k: int|
                    0 <= j < c && len0 <= k < frames ==> #[trigger] from[j]@[k] == 0,
                forall|k: int| len0 <= k < from[c as int]@.len() ==> from[c as int]@[k] == 0,
                len0 == old(from)[0]@.len(),
            decreases frames - from[c as int]@.len(),
        {
            vec_push_nested(from, c, 0i16);
        }
        c = c + 1;
    }
}

/// Hands out buffered resampled output: copies as many whole frames as fit
/// into `buf` at `at`, interleaving them, and drops them from the front of
/// the output buffer. Returns the sample count copied.
fn consume_buffer<S>(st: &mut RState<S>, buf: &mut Vec<i16>, at: usize, chans: usize) -> (r:
    usize)
    requires
        rstate_wf(*old(st), chans as int),
        at <= old(buf).len(),
        (old(buf).len() - at) as int % (chans as int) == 0,
    ensures
        rstate_wf(*final(st), chans as int),
        final(st).chunk == old(st).chunk,
        final(st).eof == old(st).eof,
        final(st).from == old(st).from,
        final(buf).len() == old(buf).len(),
        r as int % (chans as int) == 0,
        at + r <= old(buf).len(),
        forall|i: int| 0 <= i < at ==> final(buf)[i] == old(buf)[i],
        forall|i: int| at + r <= i < old(buf).len() ==> final(buf)[i] == old(buf)[i],
        r as int == (chans as int) * vstd::math::min(
            old(st).out[0]@.len() - old(st).out_cursor,
            (old(buf).len() - at) as int / (chans as int),
        ),
        forall|i: int|
            0 <= i < r ==> #[trigger] final(buf)[at + i] == old(st).out[i % (
            chans as int)]@[old(st).out_cursor + i / (chans as int)],
        final(st).out[0]@.len() - final(st).out_cursor == old(st).out[0]@.len() - old(
            st,
        ).out_cursor - vstd::math::min(
            old(st).out[0]@.len() - old(st).out_cursor,
            (old(buf).len() - at) as int / (chans as int),
        ),
{
    let avail = st.out[0].len() - st.out_cursor;
    let space = (buf.len() - at) / chans;
    let k = if avail < space {
        avail
    } else {
        space
    };
    proof {
        vstd::arithmetic::div_mod::lemma_fundamental_div_mod(
            (old(buf).len() - at) as int,
            chans as int,
        );
        vstd::arithmetic::div_mod::lemma_mod_bound((old(buf).len() - at) as int, chans as int);
        vstd::arithmetic::mul::lemma_mul_inequality(k as int, space as int, chans as int);
        vstd::arithmetic::mul::lemma_mul_is_commutative(k as int, chans as int);
        vstd::arithmetic::mul::lemma_mul_is_commutative(space as int, chans as int);
        vstd::arithmetic::div_mod::lemma_mod_multiples_basic(k as int, chans as int);
        vstd::arithmetic::div_mod::lemma_div_by_multiple(k as int, chans as int);
    }
    let klen = k * chans;
    interleave_samples(&st.out, st.out_cursor, buf, at, klen);
    st.out_cursor = st.out_cursor + k;
    if st.out_cursor == st.out[0].len() {
        let mut fresh: Vec<Vec<i16>> = Vec::new();
        let mut c: usize = 0;
        while c < chans
            invariant
                c <= chans,
                fresh.len() == c,
                forall|i: int| 0 <= i < c ==> (#[trigger] fresh[i])@.len() == 0,
            decreases chans - c,
        {
            fresh.push(Vec::new());
            c = c + 1;
        }
        st.out = fresh;
        st.out_cursor = 0;
    }
    klen
}

/// One step of the conversion: hand out buffered output if any remains;
/// otherwise accumulate input up to one processing chunk, run a full step —
/// or the final flush if the inner source ended early — and hand out what it
/// produced. Returns the sample count written at `buf[at..]`; `0` with the
/// end-of-stream flag set means the conversion is finished.
fn next_chunk<T, S>(
    inner: &mut T,
    st: &mut RState<S>,
    buf: &mut Vec<i16>,
    at: usize,
) -> (r: Result<usize, ResampleError<T::Error>>) where
    T: Source,
    S: rubato::Sample + dasp_sample::Sample + dasp_sample::FromSample<i16>,
    i16: dasp_sample::FromSample<S>,

    requires
        old(inner).wf(),
        rstate_wf(*old(st), old(inner).chans_spec() as int),
        at < old(buf).len(),
        (old(buf).len() - at) as int % (old(inner).chans_spec() as int) == 0,
    ensures
        final(inner).wf(),
        final(inner).rate_spec() == old(inner).rate_spec(),
        final(inner).chans_spec() == old(inner).chans_spec(),
        final(inner).is_exact() == old(inner).is_exact(),
        rstate_wf(*final(st), old(inner).chans_spec() as int),
        final(buf).len() == old(buf).len(),
        match r {
            Ok(w) => {
                &&& at + w <= old(buf).len()
                &&& w as int % (old(inner).chans_spec() as int) == 0
                &&& (forall|i: int| 0 <= i < at ==> final(buf)[i] == old(buf)[i])
                &&& (forall|i: int|
                    at + w <= i < old(buf).len() ==> final(buf)[i] == old(buf)[i])
                &&& (w == 0 ==> final(st).out[0]@.len() == final(st).out_cursor)
            },
            Err(_) => forall|i: int| 0 <= i < old(buf).len() ==> final(buf)[i] == old(buf)[i],
        },
        ({
            let ch = old(inner).chans_spec() as int;
            let avail = old(st).out[0]@.len() - old(st).out_cursor;
            let space = (old(buf).len() - at) as int / ch;
            avail > 0 ==> {
                &&& *final(inner) == *old(inner)
                &&& final(st).from == old(st).from
                &&& final(st).eof == old(st).eof
                &&& (match r {
                    Ok(w) => {
                        &&& w as int == ch * vstd::math::min(avail, space)
                        &&& w > 0
                        &&& (forall|i: int|
                            0 <= i < w ==> #[trigger] final(buf)[at + i] == old(st).out[i % ch]@[
                            old(st).out_cursor + i / ch])
                    },
                    Err(_) => false,
                })
            }
        }),
        old(st).eof && old(st).out[0]@.len() == old(st).out_cursor ==> {
            &&& *final(st) == *old(st)
            &&& *final(inner) == *old(inner)
            &&& (match r {
                Ok(w) => w == 0,
                Err(_) => false,
            })
        },
{
    let chans = inner.channels() as usize;
    proof {
        old(inner).lemma_wf();
        if old(buf).len() - at < chans {
            vstd::arithmetic::div_mod::lemma_small_mod(
                (old(buf).len() - at) as nat,
                chans as nat,
            );
        }
        vstd::arithmetic::div_mod::lemma_div_is_ordered(
            chans as int,
            (old(buf).len() - at) as int,
            chans as int,
        );
        vstd::arithmetic::div_mod::lemma_div_by_self(chans as int);
        assert((old(buf).len() - at) as int / (chans as int) >= 1);
    }
    let avail = st.out[0].len() - st.out_cursor;
    if avail > 0 {
        let w = consume_buffer(st, buf, at, chans);
        proof {
            let m = vstd::math::min(
                avail as int,
                (old(buf).len() - at) as int / (chans as int),
            );
            assert(m >= 1);
            assert(w as int >= chans as int) by (nonlinear_arith)
                requires
                    w as int == (chans as int) * m,
                    chans as int >= 1,
                    m >= 1,
            ;
        }
        return Ok(w);
    }
    if st.eof {
        return Ok(0);
    }
    // fill the per-channel buffers with frames from the inner source
    let needed = st.chunk;
    let mut have = st.from[0].len();
    while have < needed
        invariant
            inner.wf(),
            inner.rate_spec() == old(inner).rate_spec(),
            inner.chans_spec() == old(inner).chans_spec(),
            inner.is_exact() == old(inner).is_exact(),
            chans == old(inner).chans_spec() as usize,
            rstate_wf(*st, chans as int),
            st.chunk == old(st).chunk,
            old(st).out[0]@.len() == old(st).out_cursor,
            !old(st).eof,
            needed == st.chunk,
            have == st.from[0]@.len(),
            have <= needed,
            buf.len() == old(buf).len(),
            forall|i: int| 0 <= i < old(buf).len() ==> buf[i] == old(buf)[i],
        decreases needed - have,
    {
        let missing = needed - have;
        proof {
            vstd::arithmetic::mul::lemma_mul_inequality(missing as int, 1_048_576, chans as int);
            vstd::arithmetic::mul::lemma_mul_is_commutative(missing as int, chans as int);
            vstd::arithmetic::mul::lemma_mul_inequality(chans as int, 255, missing as int);
        }
        let want = missing * chans;
        let mut tmp: Vec<i16> = vec![0i16; want];
        proof {
            vstd::arithmetic::div_mod::lemma_mod_multiples_basic(missing as int, chans as int);
        }
        match inner.sample(&mut tmp) {
            Ok(n) => {
                if n == 0 {
                    break;
                }
                proof {
                    vstd::arithmetic::div_mod::lemma_div_is_ordered(
                        n as int,
                        want as int,
                        chans as int,
                    );
                    vstd::arithmetic::div_mod::lemma_div_by_multiple(
                        missing as int,
                        chans as int,
                    );
                    if n < chans {
                        vstd::arithmetic::div_mod::lemma_small_mod(n as nat, chans as nat);
                    }
                    vstd::arithmetic::div_mod::lemma_div_is_ordered(
                        chans as int,
                        n as int,
                        chans as int,
                    );
                    vstd::arithmetic::div_mod::lemma_div_by_self(chans as int);
                }
                deinterleave_samples(&mut st.from, &tmp, n, chans);
                have = have + n / chans;
            },
            Err(e) => {
                return Err(ResampleError::Source(e));
            },
        }
    }
    // run a processing step; if the stream ended before a whole chunk was
    // available, pad the remainder with silence and mark the end, so the
    // final flush is an ordinary full step
    if have < needed {
        st.eof = true;
        pad_with_silence(&mut st.from, needed, chans);
    }
    let res = fft_process(&mut st.fft, &st.from);
    match res {
        Ok(o) => {
            let mut fresh: Vec<Vec<i16>> = Vec::new();
            let mut c: usize = 0;
            while c < chans
                invariant
                    c <= chans,
                    fresh.len() == c,
                    forall|i: int| 0 <= i < c ==> (#[trigger] fresh[i])@.len() == 0,
                decreases chans - c,
            {
                fresh.push(Vec::new());
                c = c + 1;
            }
            st.from = fresh;
            st.out = o;
            st.out_cursor = 0;
            let w = consume_buffer(st, buf, at, chans);
            proof {
                if w == 0 {
                    let avail2 = o[0]@.len() - 0int;
                    let space = (old(buf).len() - at) as int / (chans as int);
                    let m = vstd::math::min(avail2, space);
                    assert(m == 0) by (nonlinear_arith)
                        requires
                            (chans as int) * m == 0,
                            chans as int >= 1,
                            m >= 0,
                    ;
                    assert(st.out[0]@.len() == st.out_cursor);
                }
            }
            Ok(w)
        },
        Err(_) => Err(ResampleError::Resample),
    }
}

impl<T, S> Resampler<T, S> where
    T: Source,
    S: rubato::Sample + dasp_sample::Sample + dasp_sample::FromSample<i16>,
    i16: dasp_sample::FromSample<S>,
 {
    /// The sample rate this resampler reports: always the target rate.
    pub closed spec fn rate_spec(&self) -> u32 {
        self.to
    }

    /// The channel count, unchanged from the inner source.
    pub closed spec fn chans_spec(&self) -> u8 {
        self.inner.chans_spec()
    }

    /// Whether the remaining output is exactly known: only in passthrough
    /// mode over an exact inner source.
    pub closed spec fn is_exact(&self) -> bool {
        self.inner.is_exact() && self.state is None
    }

    /// The remaining samples, meaningful when `is_exact()`: in passthrough
    /// mode, exactly the inner stream.
    pub closed spec fn stream(&self) -> Seq<i16> {
        if self.state is None {
            self.inner.stream()
        } else {
            Seq::empty()
        }
    }

    /// Well-formedness: passthrough mode holds no conversion state at all,
    /// and active mode keeps its channel buffers consistent.
    pub closed spec fn wf(&self) -> bool {
        &&& self.inner.wf()
        &&& self.to >= 1
        &&& match self.state {
            Option::None => self.inner.rate_spec() == self.to,
            Option::Some(st) => rstate_wf(st, self.inner.chans_spec() as int),
        }
    }

    /// Whether this resampler is a transparent passthrough.
    pub closed spec fn is_passthrough(&self) -> bool {
        self.state is None
    }

    /// Whether an active conversion has ended and handed out all of its
    /// output: nothing more will ever be produced.
    pub closed spec fn conversion_finished(&self) -> bool {
        match self.state {
            Option::None => false,
            Option::Some(st) => st.eof && st.out_cursor == st.out[0]@.len(),
        }
    }

    /// Whether the conversion holds no buffered input or output and no
    /// end-of-stream mark: freshly constructed, or just restarted by a
    /// seek. A passthrough is always idle.
    pub closed spec fn conversion_idle(&self) -> bool {
        match self.state {
            Option::None => true,
            Option::Some(st) => {
                &&& st.from[0]@.len() == 0
                &&& st.out[0]@.len() == 0
                &&& st.out_cursor == 0
                &&& !st.eof
            },
        }
    }

    /// A well-formed resampler has a nonzero rate and channel count.
    pub proof fn lemma_wf(&self)
        requires
            self.wf(),
        ensures
            self.rate_spec() >= 1,
            self.chans_spec() >= 1,
            self.is_exact() ==> self.stream().len() as int % (self.chans_spec() as int) == 0,
    {
        self.inner.lemma_wf();
    }

    /// The sample rate of the resampled audio: the target rate.
    pub fn sample_rate(&self) -> (r: u32)
        requires
            self.wf(),
        ensures
            r == self.rate_spec(),
    {
        self.to
    }

    /// The channel count of the resampled audio.
    pub fn channels(&self) -> (r: u8)
        requires
            self.wf(),
        ensures
            r == self.chans_spec(),
    {
        self.inner.channels()
    }

    /// Reads some resampled interleaved samples into the front of `buf`.
    ///
    /// In passthrough mode this is one read of the inner source, reproducing
    /// its samples exactly; otherwise the conversion machinery runs, and a
    /// successful read fills the whole buffer unless the stream ended during
    /// the call. A finished conversion keeps returning zero, without error.
    /// The count never splits a frame and the tail of `buf` is left as it
    /// was.
    pub fn sample(&mut self, buf: &mut Vec<i16>) -> (r: Result<usize, ResampleError<T::Error>>)
        requires
            old(self).wf(),
            old(buf).len() as int % (old(self).chans_spec() as int) == 0,
        ensures
            final(self).wf(),
            final(self).rate_spec() == old(self).rate_spec(),
            final(self).chans_spec() == old(self).chans_spec(),
            final(self).is_exact() == old(self).is_exact(),
            final(self).is_passthrough() == old(self).is_passthrough(),
            final(buf).len() == old(buf).len(),
            match r {
                Ok(n) => {
                    &&& n <= old(buf).len()
                    &&& n as int % (old(self).chans_spec() as int) == 0
                    &&& (forall|i: int|
                        n <= i < old(buf).len() ==> final(buf)[i] == old(buf)[i])
                    &&& (old(self).is_exact() ==> {
                        &&& n == vstd::math::min(
                            old(buf).len() as int,
                            old(self).stream().len() as int,
                        )
                        &&& final(buf)@.subrange(0, n as int) == old(self).stream().subrange(
                            0,
                            n as int,
                        )
                        &&& final(self).stream() == old(self).stream().skip(n as int)
                    })
                },
                Err(_) => !old(self).is_exact(),
            },
            old(self).conversion_finished() ==> (match r {
                Ok(n) => n == 0,
                Err(_) => false,
            }),
            !old(self).is_passthrough() ==> (match r {
                Ok(n) => n == old(buf).len() || final(self).conversion_finished(),
                Err(_) => true,
            }),
    {
        match self.state.take() {
            Some(mut st) => {
                // a finished conversion has nothing more to give
                if st.eof && st.out_cursor == st.out[0].len() {
                    self.state = Some(st);
                    return Ok(0);
                }
                let mut cursor: usize = 0;
                // generous bound on processing rounds that produce no output
                // yet; with any real stream, output appears after at most a
                // handful of chunks
                let mut fuel: u128 = buf.len() as u128 + 2_000_000_000;
                proof {
                    old(self).inner.lemma_wf();
                }
                while cursor < buf.len()
                    invariant
                        old(self).wf(),
                        !old(self).is_passthrough(),
                        !old(self).conversion_finished(),
                        self.inner.wf(),
                        self.inner.rate_spec() == old(self).inner.rate_spec(),
                        self.inner.chans_spec() == old(self).inner.chans_spec(),
                        self.inner.is_exact() == old(self).inner.is_exact(),
                        self.to == old(self).to,
                        self.state is None,
                        rstate_wf(st, self.inner.chans_spec() as int),
                        cursor <= buf.len(),
                        cursor as int % (self.inner.chans_spec() as int) == 0,
                        buf.len() == old(buf).len(),
                        old(buf).len() as int % (self.inner.chans_spec() as int) == 0,
                        forall|i: int| cursor <= i < buf.len() ==> buf[i] == old(buf)[i],
                    ensures
                        cursor == buf.len() || (st.eof && st.out_cursor == st.out[0]@.len()),
                    decreases fuel,
                {
                    if fuel == 0 {
                        // no real stream gets here: report the kernel as
                        // having made no progress rather than spin on
                        self.state = Some(st);
                        return Err(ResampleError::Resample);
                    }
                    fuel = fuel - 1;
                    proof {
                        crate::source::lemma_mod_diff_zero(
                            cursor as int,
                            buf.len() as int,
                            self.inner.chans_spec() as int,
                        );
                    }
                    match next_chunk(&mut self.inner, &mut st, buf, cursor) {
                        Ok(w) => {
                            proof {
                                crate::source::lemma_mod_sum_zero(
                                    cursor as int,
                                    w as int,
                                    self.inner.chans_spec() as int,
                                );
                            }
                            cursor = cursor + w;
                            if w == 0 && st.eof {
                                break;
                            }
                        },
                        Err(e) => {
                            self.state = Some(st);
                            return Err(e);
                        },
                    }
                }
                self.state = Some(st);
                Ok(cursor)
            },
            None => {
                match self.inner.sample(buf) {
                    Ok(n) => Ok(n),
                    Err(e) => Err(ResampleError::Source(e)),
                }
            },
        }
    }

    /// Seeks to a position in per-channel samples. In passthrough mode this
    /// delegates to the inner source; otherwise the conversion is restarted
    /// at the new position.
    pub fn seek(&mut self, position: usize) -> (r: Result<(), ResampleError<T::Error>>)
        requires
            old(self).wf(),
        ensures
            final(self).wf(),
            final(self).rate_spec() == old(self).rate_spec(),
            final(self).chans_spec() == old(self).chans_spec(),
            final(self).is_exact() == old(self).is_exact(),
            final(self).is_passthrough() == old(self).is_passthrough(),
            r is Ok ==> final(self).conversion_idle(),
            r is Err ==> {
                &&& final(self).conversion_idle() == old(self).conversion_idle()
                &&& final(self).conversion_finished() == old(self).conversion_finished()
            },
    {
        match self.state.take() {
            Some(mut st) => {
                // restart the conversion at the new position: seek the inner
                // source, reset the kernel and drop all buffered frames
                match self.inner.seek(position) {
                    Ok(()) => {
                        fft_reset(&mut st.fft);
                        let chans = self.inner.channels() as usize;
                        let mut fresh_from: Vec<Vec<i16>> = Vec::new();
                        let mut fresh_out: Vec<Vec<i16>> = Vec::new();
                        let mut c: usize = 0;
                        while c < chans
                            invariant
                                c <= chans,
                                fresh_from.len() == c,
                                fresh_out.len() == c,
                                forall|i: int|
                                    0 <= i < c ==> (#[trigger] fresh_from[i])@.len() == 0,
                                forall|i: int|
                                    0 <= i < c ==> (#[trigger] fresh_out[i])@.len() == 0,
                            decreases chans - c,
                        {
                            fresh_from.push(Vec::new());
                            fresh_out.push(Vec::new());
                            c = c + 1;
                        }
                        st.from = fresh_from;
                        st.out = fresh_out;
                        st.out_cursor = 0;
                        st.eof = false;
                        self.state = Some(st);
                        Ok(())
                    },
                    Err(e) => {
                        self.state = Some(st);
                        Err(ResampleError::Source(e))
                    },
                }
            },
            None => {
                match self.inner.seek(position) {
                    Ok(()) => Ok(()),
                    Err(e) => Err(ResampleError::Source(e)),
                }
            },
        }
    }
}

} // verus!
