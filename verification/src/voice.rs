//! The capability a voice-classification backend has to offer.

use vstd::prelude::*;

verus! {

/// A voice detector: judges frames of audio, one after the other, as voice or silence.
///
/// A backend declares the sample rate it expects and the duration of the frames it judges.
/// It may keep state from one frame to the next, so the frames of a stream have to be handed
/// to one detector, in stream order. Nothing is promised of a judgment: a detector may
/// refuse any frame.
pub trait VoiceDetector: Sized {
    /// Sample rate, per second, of the audio this backend expects.
    const SAMPLE_RATE: usize;

    /// Sets up a detector in its initial state, or says why that failed.
    fn new() -> Result<Self, String>;

    /// Judges one frame: `Ok(true)` for voice, `Ok(false)` for silence.
    fn is_voice_segment(&mut self, chunk: &[i16]) -> Result<bool, String>;

    /// The sample rate that the backend declares: `SAMPLE_RATE`.
    fn expected_sample_rate() -> (rate: usize)
        ensures
            rate == Self::SAMPLE_RATE,
    {
        Self::SAMPLE_RATE
    }

    /// Duration in milliseconds of the frames this backend judges.
    fn expected_chunk_millis() -> usize;
}

/// Number of samples, rounded to the nearest whole, in `chunk_millis` milliseconds of audio at
/// `sample_rate` samples per second.
pub open spec fn samples_per_chunk(chunk_millis: nat, sample_rate: nat) -> nat {
    (chunk_millis * sample_rate + 500) / 1000
}

/// Computes the number of samples in a frame of `chunk_millis` milliseconds at `sample_rate`
/// samples per second, rounded to the nearest whole sample. `None` where that number does
/// not fit in a `usize`.
pub fn chunk_size(chunk_millis: usize, sample_rate: usize) -> (size: Option<usize>)
    ensures
        size == if samples_per_chunk(chunk_millis as nat, sample_rate as nat) <= usize::MAX {
            Some(samples_per_chunk(chunk_millis as nat, sample_rate as nat) as usize)
        } else {
            None
        },
{
    let millis = chunk_millis as u128;
    let rate = sample_rate as u128;
    assert(millis * rate <= 0xffff_ffff_ffff_ffff * 0xffff_ffff_ffff_ffff) by (nonlinear_arith)
        requires
            millis <= 0xffff_ffff_ffff_ffff,
            rate <= 0xffff_ffff_ffff_ffff,
    ;
    let samples = (millis * rate + 500) / 1000;
    if samples <= usize::MAX as u128 {
        Some(samples as usize)
    } else {
        None
    }
}

} // verus!
