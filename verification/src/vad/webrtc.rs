//! The WebRTC voice detector as a backend: frames of 30 milliseconds at 8 kHz.

use crate::voice::VoiceDetector;
use vstd::prelude::*;
use vstd::string::StringExecFns;
use webrtc_vad::{SampleRate, VadMode};

verus! {

/// The detector of the `webrtc-vad` crate. Nothing is known here of what it holds.
#[verifier::external_type_specification]
#[verifier::external_body]
pub struct ExDetector(webrtc_vad::Vad);

/// Sample rate of the audio that the detector is set up for.
pub const SAMPLE_RATE: usize = 8000;

/// Duration of a frame in milliseconds.
pub const CHUNK_MILLIS: usize = 30;

/// Number of samples in a frame.
pub const CHUNK_SIZE: usize = 240;

/// The WebRTC voice detector, set up for 8 kHz audio in low-bitrate mode.
///
/// A detector is made by `new` alone, and nothing changes the sample rate it was set up
/// for.
pub struct WebRtcVad {
    vad: webrtc_vad::Vad,
}

/// What is said of a frame that the detector does not judge.
pub open spec fn refusal_text() -> Seq<char> {
    "webrtc-vad unable to process samples!"@
}

/// Sets up a detector with `webrtc_vad::Vad::new_with_rate_and_mode`, for 8 kHz and the
/// low-bitrate mode. Nothing is claimed of the detector here; that it is set up for 8 kHz is
/// what the claim of `is_voice_segment` below rests on.
#[verifier::external_body]
fn new_with_rate_and_mode() -> WebRtcVad {
    WebRtcVad { vad: webrtc_vad::Vad::new_with_rate_and_mode(SampleRate::Rate8kHz, VadMode::LowBitrate) }
}

/// Has `webrtc_vad::Vad::is_voice_segment` judge a frame.
///
/// The crate judges frames of 10, 20 and 30 milliseconds and refuses every other length;
/// at the 8 kHz that every `WebRtcVad` is set up for, these are 80, 160 and 240 samples. The
/// judgment itself depends on what the detector has heard before, so nothing is claimed of
/// it. An empty frame is left out: the crate reads the first sample before it looks at the
/// length.
#[verifier::external_body]
fn is_voice_segment(detector: &mut WebRtcVad, chunk: &[i16]) -> (outcome: Result<bool, ()>)
    requires
        chunk@.len() > 0,
    ensures
        outcome is Ok <==> chunk@.len() == 80 || chunk@.len() == 160 || chunk@.len() == 240,
{
    detector.vad.is_voice_segment(chunk)
}

impl WebRtcVad {
    /// Turns what the detector returned for a frame into the verdict on it: a judgment
    /// is passed on, a refusal is given its text.
    pub fn verdict(outcome: Result<bool, ()>) -> (verdict: Result<bool, String>)
        ensures
            match outcome {
                Ok(is_voice) => verdict == Ok::<bool, String>(is_voice),
                Err(_) => verdict matches Err(text) && text@ == refusal_text(),
            },
    {
        match outcome {
            Ok(is_voice) => Ok(is_voice),
            Err(_) => Err(String::from_str("webrtc-vad unable to process samples!")),
        }
    }
}

impl VoiceDetector for WebRtcVad {
    const SAMPLE_RATE: usize = 8000;

    fn new() -> (made: Result<Self, String>)
        ensures
            made is Ok,
    {
        Ok(new_with_rate_and_mode())
    }

    /// A frame of `CHUNK_SIZE` samples is judged; a frame of any other length is refused
    /// without asking the detector.
    fn is_voice_segment(&mut self, chunk: &[i16]) -> (verdict: Result<bool, String>)
        ensures
            verdict is Ok <==> chunk@.len() == CHUNK_SIZE,
            verdict matches Err(text) ==> text@ == refusal_text(),
    {
        if chunk.len() != CHUNK_SIZE {
            return Self::verdict(Err(()));
        }
        Self::verdict(is_voice_segment(self, chunk))
    }

    fn expected_sample_rate() -> (rate: usize)
        ensures
            rate == SAMPLE_RATE,
    {
        SAMPLE_RATE
    }

    fn expected_chunk_millis() -> (millis: usize)
        ensures
            millis == CHUNK_MILLIS,
    {
        CHUNK_MILLIS
    }
}

/// The sample rate that the backend declares is 8 kHz.
pub proof fn lemma_sample_rate()
    ensures
        <WebRtcVad as VoiceDetector>::SAMPLE_RATE == SAMPLE_RATE,
{
}

/// A frame of the backend holds as many samples as its duration and its sample rate give.
pub proof fn lemma_chunk_size()
    ensures
        crate::voice::samples_per_chunk(CHUNK_MILLIS as nat, SAMPLE_RATE as nat) == CHUNK_SIZE,
{
}

} // verus!
