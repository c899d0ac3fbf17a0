//! A rhythm-game timing core: a pull-based PCM source abstraction, an
//! Ogg/Vorbis decoder over it, a streaming resampler, a consumed-sample
//! counter for a real-time output callback, an interpolated rhythm clock,
//! and a judgement engine that scores key events against beat-sorted note
//! lanes.
//!
//! The heart of the crate is the mapping between samples the output device
//! has consumed and game-logic time: the callback publishes a monotonic
//! counter ([`engine::AudioControl`]), the clock ([`clock::Rhythm`]) smooths
//! it into a position that never runs backwards and never overtakes the
//! device, and the judgement engine ([`judgement`]) scores key edges
//! against that position.

pub mod source;
pub mod decode;
pub mod resample;
pub mod engine;
pub mod clock;
pub mod note;
pub mod judgement;
pub mod beatmap;
