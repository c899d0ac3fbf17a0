//! Ogg/Vorbis decoding behind the source abstraction.
//!
//! The buffering logic lives in [`Decoder`], which pulls one decoded packet
//! at a time from a [`PacketSource`] and keeps leftover samples in a pending
//! buffer so that no unread sample is ever discarded. The Vorbis work itself
//! is done by lewton behind a small set of trusted wrappers.

use vstd::prelude::*;

use crate::source::Source;

verus! {

/// An error from decoding a compressed audio stream. Fatal to the stream it
/// came from, never to the process.
#[derive(Clone, Copy, Debug, PartialEq, Eq, Structural)]
pub enum DecodeError {
    /// The container could not be read.
    OggRead,
    /// A header was missing or malformed.
    BadHeader,
    /// An audio packet was malformed.
    BadAudio,
}

/// The lewton stream reader behind an Ogg packet source, opaque to
/// verification. Held whole in one hidden field because Verus cannot declare
/// `OggStreamReader`'s `Read + Seek` bounds.
#[verifier::external_body]
struct OggStream {
    inner: lewton::inside_ogg::OggStreamReader<std::io::Cursor<Vec<u8>>>,
}

#[verifier::external_type_specification]
#[verifier::external_body]
pub struct ExVorbisError(lewton::VorbisError);

/// Relies on lewton's `VorbisError`: it has exactly the three variants mapped
/// here.
#[verifier::external_body]
fn decode_error_of(e: lewton::VorbisError) -> (r: DecodeError) {
    match e {
        lewton::VorbisError::BadAudio(_) => DecodeError::BadAudio,
        lewton::VorbisError::BadHeader(_) => DecodeError::BadHeader,
        lewton::VorbisError::OggError(_) => DecodeError::OggRead,
    }
}

/// Relies on lewton's `OggStreamReader::new`: it reads and validates the
/// three Vorbis headers, rejecting a zero channel count or sample rate.
#[verifier::external_body]
fn ogg_stream_open(bytes: Vec<u8>) -> (r: Result<(OggStream, u32, u8), DecodeError>)
    ensures
        r matches Ok(s) ==> s.1 >= 1 && s.2 >= 1,
{
    match lewton::inside_ogg::OggStreamReader::new(std::io::Cursor::new(bytes)) {
        Ok(inner) => {
            let rate = inner.ident_hdr.audio_sample_rate;
            let chans = inner.ident_hdr.audio_channels;
            Ok((OggStream { inner }, rate, chans))
        },
        Err(e) => Err(decode_error_of(e)),
    }
}

/// Relies on lewton's `read_dec_packet_itl`: it decompresses the next audio
/// packet into interleaved samples, and returns `None` at the end of the
/// stream.
#[verifier::external_body]
fn ogg_next_packet(stream: &mut OggStream) -> (r: Result<Option<Vec<i16>>, DecodeError>) {
    match stream.inner.read_dec_packet_itl() {
        Ok(p) => Ok(p),
        Err(e) => Err(decode_error_of(e)),
    }
}

/// Relies on lewton's `seek_absgp_pg`: it seeks the stream to the page
/// holding the given absolute granule position (in per-channel samples).
#[verifier::external_body]
fn ogg_seek(stream: &mut OggStream, absgp: u64) -> (r: Result<(), DecodeError>) {
    match stream.inner.seek_absgp_pg(absgp) {
        Ok(()) => Ok(()),
        Err(e) => Err(decode_error_of(e)),
    }
}

/// A supply of decoded PCM packets, one at a time.
///
/// An exact packet source knows its remaining packets precisely; each of them
/// holds at least one sample and only whole frames.
pub trait PacketSource: Sized {
    /// The sample rate of the decoded audio.
    spec fn rate_spec(&self) -> u32;

    /// The channel count of the decoded audio.
    spec fn chans_spec(&self) -> u8;

    /// Whether the remaining packets are exactly known.
    spec fn is_exact(&self) -> bool;

    /// The remaining packets, meaningful when `is_exact()`.
    spec fn packets(&self) -> Seq<Seq<i16>>;

    /// Well-formedness of the source's internal state.
    spec fn wf(&self) -> bool;

    /// A well-formed packet source has a nonzero rate and channel count, and
    /// an exact one holds only nonempty whole-frame packets.
    proof fn lemma_wf(&self)
        requires
            self.wf(),
        ensures
            self.rate_spec() >= 1,
            self.chans_spec() >= 1,
            self.is_exact() ==> forall|i: int|
                0 <= i < self.packets().len() ==> (#[trigger] self.packets()[i]).len() > 0
                    && self.packets()[i].len() as int % (self.chans_spec() as int) == 0,
    ;

    /// The sample rate of the decoded audio.
    fn sample_rate(&self) -> (r: u32)
        requires
            self.wf(),
        ensures
            r == self.rate_spec(),
    ;

    /// The channel count of the decoded audio.
    fn channels(&self) -> (r: u8)
        requires
            self.wf(),
        ensures
            r == self.chans_spec(),
    ;

    /// Pulls the next decoded packet, or `None` at the end of the stream.
    fn next_packet(&mut self) -> (r: Result<Option<Vec<i16>>, DecodeError>)
        requires
            old(self).wf(),
        ensures
            final(self).wf(),
            final(self).rate_spec() == old(self).rate_spec(),
            final(self).chans_spec() == old(self).chans_spec(),
            final(self).is_exact() == old(self).is_exact(),
            match r {
                Ok(Some(p)) => old(self).is_exact() ==> {
                    &&& old(self).packets().len() > 0
                    &&& p@ == old(self).packets()[0]
                    &&& final(self).packets() == old(self).packets().drop_first()
                },
                Ok(None) => old(self).is_exact() ==> {
                    &&& old(self).packets().len() == 0
                    &&& final(self).packets() == old(self).packets()
                },
                Err(_) => !old(self).is_exact(),
            },
    ;

    /// Seeks the underlying stream to a position in per-channel samples.
    fn seek(&mut self, position: usize) -> (r: Result<(), DecodeError>)
        requires
            old(self).wf(),
        ensures
            final(self).wf(),
            final(self).rate_spec() == old(self).rate_spec(),
            final(self).chans_spec() == old(self).chans_spec(),
            final(self).is_exact() == old(self).is_exact(),
    ;
}

/// Decoded packets read from an Ogg/Vorbis stream by lewton.
pub struct OggPackets {
    stream: OggStream,
    rate: u32,
    chans: u8,
}

impl OggPackets {
    /// Opens an Ogg/Vorbis stream over the raw bytes of an `.ogg` file.
    pub fn new(bytes: Vec<u8>) -> (r: Result<OggPackets, DecodeError>)
        ensures
            r matches Ok(p) ==> p.wf(),
    {
        match ogg_stream_open(bytes) {
            Ok((stream, rate, chans)) => Ok(OggPackets { stream, rate, chans }),
            Err(e) => Err(e),
        }
    }
}

impl PacketSource for OggPackets {
    closed spec fn rate_spec(&self) -> u32 {
        self.rate
    }

    closed spec fn chans_spec(&self) -> u8 {
        self.chans
    }

    closed spec fn is_exact(&self) -> bool {
        false
    }

    closed spec fn packets(&self) -> Seq<Seq<i16>> {
        Seq::empty()
    }

    closed spec fn wf(&self) -> bool {
        self.rate >= 1 && self.chans >= 1
    }

    proof fn lemma_wf(&self) {
    }

    fn sample_rate(&self) -> u32 {
        self.rate
    }

    fn channels(&self) -> u8 {
        self.chans
    }

    fn next_packet(&mut self) -> (r: Result<Option<Vec<i16>>, DecodeError>) {
        ogg_next_packet(&mut self.stream)
    }

    fn seek(&mut self, position: usize) -> (r: Result<(), DecodeError>) {
        ogg_seek(&mut self.stream, position as u64)
    }
}

/// An exact packet source over a fixed list of packets, for exercising the
/// decoder's buffering without a compressed stream behind it.
pub struct VecPacketSource {
    rate: u32,
    chans: u8,
    list: Vec<Vec<i16>>,
    cursor: usize,
}

impl VecPacketSource {
    /// The whole packet list, wherever the cursor stands, as a
    /// specification value.
    pub closed spec fn all_packets_spec(&self) -> Seq<Seq<i16>> {
        self.list@.map_values(|p: Vec<i16>| p@)
    }

    /// Creates a packet source that yields `list` in order.
    pub fn new(rate: u32, chans: u8, list: Vec<Vec<i16>>) -> (r: VecPacketSource)
        requires
            rate >= 1,
            chans >= 1,
            forall|i: int|
                0 <= i < list.len() ==> (#[trigger] list[i])@.len() > 0 && list[i]@.len() as int
                    % (chans as int) == 0,
        ensures
            r.wf(),
            r.rate_spec() == rate,
            r.chans_spec() == chans,
            r.is_exact(),
            r.packets() == list@.map_values(|p: Vec<i16>| p@),
            r.all_packets_spec() == list@.map_values(|p: Vec<i16>| p@),
    {
        let r = VecPacketSource { rate, chans, list, cursor: 0 };
        proof {
            assert(r.packets() =~= r.list@.map_values(|p: Vec<i16>| p@));
        }
        r
    }
}

impl PacketSource for VecPacketSource {
    closed spec fn rate_spec(&self) -> u32 {
        self.rate
    }

    closed spec fn chans_spec(&self) -> u8 {
        self.chans
    }

    closed spec fn is_exact(&self) -> bool {
        true
    }

    closed spec fn packets(&self) -> Seq<Seq<i16>> {
        self.list@.skip(self.cursor as int).map_values(|p: Vec<i16>| p@)
    }

    closed spec fn wf(&self) -> bool {
        &&& self.rate >= 1
        &&& self.chans >= 1
        &&& self.cursor <= self.list.len()
        &&& forall|i: int|
            0 <= i < self.list.len() ==> (#[trigger] self.list[i])@.len() > 0
                && self.list[i]@.len() as int % (self.chans as int) == 0
    }

    proof fn lemma_wf(&self) {
        assert forall|i: int|
            0 <= i < self.packets().len() implies (#[trigger] self.packets()[i]).len() > 0
            && self.packets()[i].len() as int % (self.chans_spec() as int) == 0 by {
            assert(self.packets()[i] == self.list[self.cursor + i]@);
        }
    }

    fn sample_rate(&self) -> u32 {
        self.rate
    }

    fn channels(&self) -> u8 {
        self.chans
    }

    fn next_packet(&mut self) -> (r: Result<Option<Vec<i16>>, DecodeError>) {
        if self.cursor < self.list.len() {
            let src: &Vec<i16> = &self.list[self.cursor];
            let mut q: Vec<i16> = Vec::new();
            let mut j: usize = 0;
            while j < src.len()
                invariant
                    j <= src.len(),
                    q@ == src@.subrange(0, j as int),
                decreases src.len() - j,
            {
                q.push(src[j]);
                proof {
                    assert(q@ =~= src@.subrange(0, j + 1 as int));
                }
                j = j + 1;
            }
            self.cursor = self.cursor + 1;
            proof {
                assert(q@ =~= src@);
                assert(q@ == old(self).packets()[0]);
                assert(final(self).packets() =~= old(self).packets().drop_first());
            }
            Ok(Some(q))
        } else {
            proof {
                assert(old(self).packets() =~= Seq::<Seq<i16>>::empty());
            }
            Ok(None)
        }
    }

    /// Rewinds to the start whatever the position: an in-memory packet
    /// list carries no granule positions to seek by.
    fn seek(&mut self, position: usize) -> (r: Result<(), DecodeError>)
        ensures
            r is Ok,
            final(self).packets() == old(self).all_packets_spec(),
            final(self).all_packets_spec() == old(self).all_packets_spec(),
    {
        self.cursor = 0;
        proof {
            assert(self.packets() =~= old(self).all_packets_spec());
        }
        Ok(())
    }
}

/// A decoder that keeps one pending block of decoded PCM and serves reads
/// from it, pulling a new packet from the underlying stream only when the
/// pending block is spent. It never discards unread samples.
pub struct Decoder<P> {
    inner: P,
    buffer: Vec<i16>,
    buffer_cursor: usize,
}

impl<P> Decoder<P> where P: PacketSource {
    /// Wraps a packet source with an empty pending buffer.
    pub fn from_packets(inner: P) -> (r: Decoder<P>)
        requires
            inner.wf(),
        ensures
            r.wf(),
            r.rate_spec() == inner.rate_spec(),
            r.chans_spec() == inner.chans_spec(),
            r.is_exact() == inner.is_exact(),
            r.is_exact() ==> r.stream() == inner.packets().flatten(),
    {
        proof {
            inner.lemma_wf();
            crate::source::lemma_zero_mod(inner.chans_spec() as int);
        }
        let r = Decoder { inner, buffer: Vec::new(), buffer_cursor: 0 };
        proof {
            assert(r.stream() =~= r.inner.packets().flatten());
        }
        r
    }

    /// The unread samples of the pending block, as a specification value.
    pub closed spec fn pending_spec(&self) -> Seq<i16> {
        self.buffer@.skip(self.buffer_cursor as int)
    }

    /// How many samples of the pending block are still unread.
    fn remaining(&self) -> (r: usize)
        requires
            self.wf(),
        ensures
            r == self.buffer@.len() - self.buffer_cursor,
    {
        self.buffer.len() - self.buffer_cursor
    }
}

impl Decoder<OggPackets> {
    /// Creates a new decoder over the raw bytes of an `.ogg` file.
    pub fn new(bytes: Vec<u8>) -> (r: Result<Decoder<OggPackets>, DecodeError>)
        ensures
            r matches Ok(d) ==> d.wf(),
    {
        match OggPackets::new(bytes) {
            Ok(p) => Ok(Decoder::from_packets(p)),
            Err(e) => Err(e),
        }
    }
}

/// An `.ogg` decoder for a compressed audio buffer.
pub type OggDecoder = Decoder<OggPackets>;

/// Flattening whole-frame packets yields a whole-frame stream.
proof fn lemma_flatten_frames(s: Seq<Seq<i16>>, d: int)
    requires
        d > 0,
        forall|i: int| 0 <= i < s.len() ==> (#[trigger] s[i]).len() as int % d == 0,
    ensures
        s.flatten().len() as int % d == 0,
    decreases s.len(),
{
    if s.len() == 0 {
        assert(s.flatten().len() == 0);
    } else {
        assert(s[0].len() as int % d == 0);
        assert forall|i: int|
            0 <= i < s.drop_first().len() implies (#[trigger] s.drop_first()[i]).len() as int % d
            == 0 by {
            assert(s.drop_first()[i] == s[i + 1]);
        }
        lemma_flatten_frames(s.drop_first(), d);
        crate::source::lemma_mod_sum_zero(
            s[0].len() as int,
            s.drop_first().flatten().len() as int,
            d,
        );
    }
}

impl<P> Source for Decoder<P> where P: PacketSource {
    type Error = DecodeError;

    closed spec fn rate_spec(&self) -> u32 {
        self.inner.rate_spec()
    }

    closed spec fn chans_spec(&self) -> u8 {
        self.inner.chans_spec()
    }

    closed spec fn is_exact(&self) -> bool {
        self.inner.is_exact()
    }

    closed spec fn stream(&self) -> Seq<i16> {
        self.buffer@.skip(self.buffer_cursor as int) + self.inner.packets().flatten()
    }

    closed spec fn wf(&self) -> bool {
        &&& self.inner.wf()
        &&& self.buffer_cursor <= self.buffer.len()
        &&& self.buffer.len() as int % (self.inner.chans_spec() as int) == 0
        &&& self.buffer_cursor as int % (self.inner.chans_spec() as int) == 0
    }

    proof fn lemma_wf(&self) {
        self.inner.lemma_wf();
        if self.is_exact() {
            let d = self.inner.chans_spec() as int;
            lemma_flatten_frames(self.inner.packets(), d);
            crate::source::lemma_mod_diff_zero(
                self.buffer_cursor as int,
                self.buffer.len() as int,
                d,
            );
            crate::source::lemma_mod_sum_zero(
                self.buffer.len() - self.buffer_cursor as int,
                self.inner.packets().flatten().len() as int,
                d,
            );
        }
    }

    fn sample_rate(&self) -> u32 {
        self.inner.sample_rate()
    }

    fn channels(&self) -> u8 {
        self.inner.channels()
    }

    fn sample(&mut self, buf: &mut Vec<i16>) -> (r: Result<usize, DecodeError>) {
        let ghost s0 = old(self).stream();
        let ghost ch = old(self).inner.chans_spec() as int;
        let mut out: usize = 0;
        // bounds the packet pulls of one call: every nonempty packet fills
        // at least one slot of `buf`, so only a stream of empty packets
        // could ask for more
        let mut pulls: u128 = buf.len() as u128 + 1;
        proof {
            old(self).inner.lemma_wf();
        }
        while out < buf.len()
            invariant
                self.inner.wf(),
                self.inner.rate_spec() == old(self).inner.rate_spec(),
                self.inner.chans_spec() == old(self).inner.chans_spec(),
                self.inner.is_exact() == old(self).inner.is_exact(),
                ch == old(self).inner.chans_spec() as int,
                ch >= 1,
                s0 == old(self).stream(),
                old(self).wf(),
                buf.len() == old(buf).len(),
                out <= buf.len(),
                out as int % ch == 0,
                self.buffer_cursor <= self.buffer.len(),
                self.buffer.len() as int % ch == 0,
                self.buffer_cursor as int % ch == 0,
                forall|i: int| out <= i < buf.len() ==> buf[i] == old(buf)[i],
                old(buf).len() as int % ch == 0,
                old(self).inner.is_exact() ==> {
                    &&& out <= s0.len()
                    &&& buf@.subrange(0, out as int) == s0.subrange(0, out as int)
                    &&& self.buffer@.skip(self.buffer_cursor as int)
                        + self.inner.packets().flatten() == s0.skip(out as int)
                    &&& pulls as int >= buf.len() - out + 1 - (self.buffer.len()
                        - self.buffer_cursor)
                },
            decreases (buf.len() - out) as int + pulls as int,
        {
            let rem = self.buffer.len() - self.buffer_cursor;
            if rem > 0 {
                let space = buf.len() - out;
                let len = if rem < space {
                    rem
                } else {
                    space
                };
                proof {
                    crate::source::lemma_mod_diff_zero(
                        self.buffer_cursor as int,
                        self.buffer.len() as int,
                        ch,
                    );
                    crate::source::lemma_mod_diff_zero(out as int, buf.len() as int, ch);
                }
                let ghost buf_before = buf@;
                let ghost cur0 = self.buffer_cursor as int;
                let ghost dsnap = *self;
                let mut j: usize = 0;
                while j < len
                    invariant
                        j <= len,
                        len <= self.buffer.len() - self.buffer_cursor,
                        out + len <= buf.len(),
                        *self == dsnap,
                        self.buffer_cursor == cur0,
                        buf.len() == buf_before.len(),
                        forall|i: int| 0 <= i < out ==> buf[i] == buf_before[i],
                        forall|i: int|
                            out + j <= i < buf.len() ==> buf[i] == buf_before[i],
                        forall|i: int|
                            out <= i < out + j ==> #[trigger] buf[i] == self.buffer[cur0 + (i
                                - out)],
                    decreases len - j,
                {
                    let v = self.buffer[self.buffer_cursor + j];
                    buf[out + j] = v;
                    j = j + 1;
                }
                self.buffer_cursor = self.buffer_cursor + len;
                proof {
                    crate::source::lemma_mod_sum_zero(out as int, len as int, ch);
                    crate::source::lemma_mod_sum_zero(cur0, len as int, ch);
                    if old(self).inner.is_exact() {
                        let stream_was = self.buffer@.skip(cur0)
                            + self.inner.packets().flatten();
                        assert(stream_was == s0.skip(out as int));
                        assert forall|i: int|
                            0 <= i < out + len implies #[trigger] buf[i] == s0[i] by {
                            if i < out {
                                assert(buf[i] == buf_before[i]);
                                assert(buf_before.subrange(0, out as int)[i] == s0.subrange(
                                    0,
                                    out as int,
                                )[i]);
                            } else {
                                assert(buf[i] == self.buffer[cur0 + (i - out)]);
                                assert(stream_was[i - out] == self.buffer@.skip(cur0)[i
                                    - out]);
                                assert(s0.skip(out as int)[i - out] == s0[i]);
                            }
                        }
                        assert(buf@.subrange(0, out + len as int) =~= s0.subrange(
                            0,
                            out + len as int,
                        ));
                        let tail = self.buffer@.skip(cur0 + len)
                            + self.inner.packets().flatten();
                        assert(tail.len() == s0.skip(out + len as int).len());
                        assert forall|i: int|
                            0 <= i < tail.len() implies #[trigger] tail[i] == s0.skip(out
                            + len as int)[i] by {
                            let r2 = self.buffer.len() - (cur0 + len);
                            assert(stream_was[len + i] == s0.skip(out as int)[len + i]);
                            assert(s0.skip(out as int)[len + i] == s0[out + len + i]);
                            assert(s0.skip(out + len as int)[i] == s0[out + len + i]);
                            if i < r2 {
                                assert(tail[i] == self.buffer@.skip(cur0 + len)[i]);
                                assert(self.buffer@.skip(cur0 + len)[i] == self.buffer[cur0
                                    + len + i]);
                                assert(stream_was[len + i] == self.buffer@.skip(cur0)[len
                                    + i]);
                                assert(self.buffer@.skip(cur0)[len + i] == self.buffer[cur0
                                    + len + i]);
                            } else {
                                assert(tail[i] == self.inner.packets().flatten()[i - r2]);
                                assert(stream_was[len + i] == self.inner.packets().flatten()[
                                    len + i - (self.buffer.len() - cur0)]);
                            }
                        }
                        assert(tail =~= s0.skip(out + len as int));
                    }
                }
                out = out + len;
            } else {
                if pulls == 0 {
                    proof {
                        if old(self).inner.is_exact() {
                            assert(false);
                        }
                    }
                    return Ok(out);
                }
                pulls = pulls - 1;
                proof {
                    self.inner.lemma_wf();
                }
                let ghost packets_before = self.inner.packets();
                match self.inner.next_packet() {
                    Ok(Some(mut p)) => {
                        let chans = self.inner.channels() as usize;
                        let extra = p.len() % chans;
                        proof {
                            vstd::arithmetic::div_mod::lemma_fundamental_div_mod(
                                p.len() as int,
                                chans as int,
                            );
                            vstd::arithmetic::div_mod::lemma_div_pos_is_pos(
                                p.len() as int,
                                chans as int,
                            );
                            vstd::arithmetic::mul::lemma_mul_nonnegative(
                                chans as int,
                                p.len() as int / (chans as int),
                            );
                            vstd::arithmetic::div_mod::lemma_mod_multiples_basic(
                                p.len() as int / (chans as int),
                                chans as int,
                            );
                        }
                        let keep = p.len() - extra;
                        proof {
                            assert((p.len() as int / (chans as int)) * (chans as int) == (
                            chans as int) * (p.len() as int / (chans as int)))
                                by (nonlinear_arith);
                            assert(keep as int % (chans as int) == 0);
                            crate::source::lemma_zero_mod(chans as int);
                        }
                        p.truncate(keep);
                        proof {
                            if old(self).inner.is_exact() {
                                assert(extra == 0);
                                assert(p@ =~= packets_before[0]);
                                assert(packets_before.flatten() == packets_before.first()
                                    + packets_before.drop_first().flatten());
                                assert(p@.skip(0) =~= p@);
                                assert(p@ + self.inner.packets().flatten() =~= s0.skip(
                                    out as int,
                                ));
                            }
                        }
                        self.buffer = p;
                        self.buffer_cursor = 0;
                    },
                    Ok(None) => {
                        proof {
                            if old(self).inner.is_exact() {
                                assert(packets_before.flatten() =~= Seq::<i16>::empty());
                                assert(s0.skip(out as int).len() == 0);
                                assert(out == s0.len());
                                assert(buf@.subrange(0, out as int) == s0.subrange(
                                    0,
                                    out as int,
                                ));
                                assert(self.stream() =~= s0.skip(out as int));
                            }
                        }
                        return Ok(out);
                    },
                    Err(e) => {
                        return Err(e);
                    },
                }
            }
        }
        proof {
            if old(self).inner.is_exact() {
                assert(out == buf.len());
                assert(out <= s0.len());
            }
        }
        Ok(out)
    }

    /// Seeks the underlying stream and discards the pending block, so that
    /// stale decoded samples are never spliced with data from the new
    /// position. On an error the pending block is untouched.
    fn seek(&mut self, position: usize) -> (r: Result<(), DecodeError>)
        ensures
            r is Ok ==> final(self).pending_spec() == Seq::<i16>::empty(),
            r is Err ==> final(self).pending_spec() == old(self).pending_spec(),
    {
        match self.inner.seek(position) {
            Ok(()) => {
                self.buffer.clear();
                self.buffer_cursor = 0;
                proof {
                    self.inner.lemma_wf();
                    crate::source::lemma_zero_mod(self.inner.chans_spec() as int);
                    assert(self.pending_spec() =~= Seq::<i16>::empty());
                }
                Ok(())
            },
            Err(e) => Err(e),
        }
    }
}

} // verus!
