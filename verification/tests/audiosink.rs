use alass_util::vad::webrtc::WebRtcVad;
use alass_util::{AudioSink, AudioSinkError, AudioSinkState, VoiceDetector};

/// Judges a frame as voice when its first sample is positive; refuses a frame that starts
/// with `i16::MIN`. Frames hold four samples.
struct FirstSample;

impl VoiceDetector for FirstSample {
    fn new() -> Result<Self, String> {
        Ok(FirstSample)
    }

    fn is_voice_segment(&mut self, chunk: &[i16]) -> Result<bool, String> {
        assert_eq!(chunk.len(), 4);
        if chunk[0] == i16::MIN {
            Err(String::from("refused"))
        } else {
            Ok(chunk[0] > 0)
        }
    }

    const SAMPLE_RATE: usize = 1000;

    fn expected_chunk_millis() -> usize {
        4
    }
}

/// Keeps state from frame to frame: a frame is voice when it is louder than the frame
/// before it. Frames hold three samples.
struct Louder {
    before: i64,
}

impl VoiceDetector for Louder {
    fn new() -> Result<Self, String> {
        Ok(Louder { before: 0 })
    }

    fn is_voice_segment(&mut self, chunk: &[i16]) -> Result<bool, String> {
        assert_eq!(chunk.len(), 3);
        let now: i64 = chunk.iter().map(|s| (*s as i64).abs()).sum();
        let louder = now > self.before;
        self.before = now;
        Ok(louder)
    }

    const SAMPLE_RATE: usize = 1000;

    fn expected_chunk_millis() -> usize {
        3
    }
}

/// A backend that cannot be set up.
struct Broken;

impl VoiceDetector for Broken {
    fn new() -> Result<Self, String> {
        Err(String::from("no model"))
    }

    fn is_voice_segment(&mut self, _chunk: &[i16]) -> Result<bool, String> {
        Ok(false)
    }

    const SAMPLE_RATE: usize = 8000;

    fn expected_chunk_millis() -> usize {
        30
    }
}

/// A backend whose frames hold no sample.
struct NoSamples;

impl VoiceDetector for NoSamples {
    fn new() -> Result<Self, String> {
        Ok(NoSamples)
    }

    fn is_voice_segment(&mut self, _chunk: &[i16]) -> Result<bool, String> {
        Ok(false)
    }

    const SAMPLE_RATE: usize = 499;

    fn expected_chunk_millis() -> usize {
        1
    }
}

fn louder_sink() -> AudioSink<Louder> {
    AudioSink::default().unwrap()
}

fn track_of_pieces(pieces: &[&[i16]]) -> Vec<bool> {
    let mut sink = louder_sink();
    for piece in pieces {
        sink.send_samples(piece).unwrap();
    }
    sink.close().unwrap();
    sink.voice_activity().data
}

#[test]
fn whole_frames_are_judged_at_once() {
    let mut sink = AudioSink::<FirstSample>::default().unwrap();
    assert!(sink.state == AudioSinkState::Open);
    sink.send_samples(&[1, 0, 0, 0, -1, 0, 0, 0, 5, 5]).unwrap();
    let activity = sink.voice_activity();
    assert_eq!(activity.data, vec![true, false, true]);
    assert_eq!(activity.chunk_millis, 4);
    assert!(sink.state == AudioSinkState::Closed);
    assert_eq!(sink.send_samples(&[1]), Err(AudioSinkError::SinkClosed));
}

#[test]
fn samples_wait_for_the_rest_of_their_frame() {
    let mut sink = AudioSink::<FirstSample>::default().unwrap();
    sink.send_samples(&[7]).unwrap();
    sink.send_samples(&[]).unwrap();
    sink.send_samples(&[0, 0]).unwrap();
    // Three samples so far: no frame yet. The fourth completes the frame, the fifth waits.
    sink.send_samples(&[0, -3]).unwrap();
    sink.send_samples(&[0, 0, 0, 9, 9, 9]).unwrap();
    sink.send_samples(&[9]).unwrap();
    assert_eq!(sink.voice_activity().data, vec![true, false, true]);
}

#[test]
fn close_fills_the_last_frame_with_silence() {
    let mut sink = louder_sink();
    sink.send_samples(&[1, 1, 1, 2, 2]).unwrap();
    // The last frame is 2, 2, 0: louder than 1, 1, 1.
    sink.close().unwrap();
    assert_eq!(sink.voice_activity().data, vec![true, true]);

    let mut sink = louder_sink();
    sink.send_samples(&[1, 1, 1, 2]).unwrap();
    // The last frame is 2, 0, 0: not louder than 1, 1, 1.
    sink.close().unwrap();
    assert_eq!(sink.voice_activity().data, vec![true, false]);
}

#[test]
fn close_without_backlog_judges_nothing() {
    let mut sink = louder_sink();
    sink.send_samples(&[1, 1, 1]).unwrap();
    sink.close().unwrap();
    assert_eq!(sink.voice_activity().data, vec![true]);

    let mut sink = louder_sink();
    sink.close().unwrap();
    assert_eq!(sink.voice_activity().data, Vec::<bool>::new());
}

#[test]
fn chunking_is_transparent() {
    let stream: Vec<i16> =
        vec![3, -1, 4, 1, -5, 9, 2, 6, -5, 3, 5, 8, 9, -7, 9, 3, 2, 3, 8, 4, 6, 2, 6];
    let whole = track_of_pieces(&[&stream]);
    assert_eq!(whole, vec![true, true, false, true, true, false, true, false]);

    // Every cut in two.
    for cut in 0..=stream.len() {
        assert_eq!(track_of_pieces(&[&stream[..cut], &stream[cut..]]), whole);
    }
    // Every cut in three.
    for first in 0..=stream.len() {
        for second in first..=stream.len() {
            let pieces = [&stream[..first], &stream[first..second], &stream[second..]];
            assert_eq!(track_of_pieces(&pieces), whole);
        }
    }
    // Sample by sample.
    let singles: Vec<&[i16]> = stream.chunks(1).collect();
    assert_eq!(track_of_pieces(&singles), whole);
}

#[test]
fn close_is_idempotent() {
    let mut sink = louder_sink();
    sink.send_samples(&[1, 1, 1, 2, 2]).unwrap();
    assert_eq!(sink.close(), Ok(()));
    let once = sink.voice_activity().data;
    assert_eq!(sink.close(), Ok(()));
    assert_eq!(sink.close(), Ok(()));
    let twice = sink.voice_activity().data;
    assert_eq!(once, vec![true, true]);
    assert_eq!(twice, once);
    assert!(sink.state == AudioSinkState::Closed);
}

#[test]
fn closed_sink_takes_no_samples() {
    let mut sink = louder_sink();
    sink.send_samples(&[1, 1, 1]).unwrap();
    sink.close().unwrap();
    assert_eq!(sink.send_samples(&[5, 5, 5, 5, 5, 5]), Err(AudioSinkError::SinkClosed));
    assert_eq!(sink.send_samples(&[]), Err(AudioSinkError::SinkClosed));
    assert_eq!(sink.voice_activity().data, vec![true]);
}

#[test]
fn voice_activity_closes_the_sink() {
    let mut sink = louder_sink();
    sink.send_samples(&[1, 1]).unwrap();
    assert!(sink.state == AudioSinkState::Open);
    let activity = sink.voice_activity();
    assert_eq!(activity.data, vec![true]);
    assert_eq!(activity.chunk_millis, 3);
    assert!(sink.state == AudioSinkState::Closed);
}

#[test]
fn refused_first_frame_leaves_the_sink_as_it_was() {
    let mut sink = AudioSink::<FirstSample>::default().unwrap();
    sink.send_samples(&[5, 5]).unwrap();
    // The first frame is 5, 5, MIN, 0 and is judged; the second starts with MIN.
    assert_eq!(
        sink.send_samples(&[i16::MIN, 0, i16::MIN, 0, 0, 0, 1, 1, 1, 1, 2]),
        Err(AudioSinkError::VoiceDetectionError)
    );
    // One frame was judged, the frames behind the refused one are dropped, and the sample
    // behind the last frame waits.
    sink.send_samples(&[0, 0, 0]).unwrap();
    assert_eq!(sink.voice_activity().data, vec![true, true]);

    let mut sink = AudioSink::<FirstSample>::default().unwrap();
    sink.send_samples(&[i16::MIN, 1]).unwrap();
    // The very first frame is refused: nothing is judged and the backlog stays.
    assert_eq!(
        sink.send_samples(&[0, 0, 1, 0, 0, 0, 7]),
        Err(AudioSinkError::VoiceDetectionError)
    );
    assert!(sink.state == AudioSinkState::Open);
    assert_eq!(sink.send_samples(&[0, 0, -1, -1]), Err(AudioSinkError::VoiceDetectionError));
    assert_eq!(sink.voice_activity().data, Vec::<bool>::new());
}

#[test]
fn refused_last_frame_keeps_the_sink_open() {
    let mut sink = AudioSink::<FirstSample>::default().unwrap();
    sink.send_samples(&[1, 0, 0, 0, i16::MIN]).unwrap();
    assert_eq!(sink.close(), Err(AudioSinkError::VoiceDetectionError));
    assert!(sink.state == AudioSinkState::Open);
    let activity = sink.voice_activity();
    assert_eq!(activity.data, vec![true]);
    assert!(sink.state == AudioSinkState::Open);
}

#[test]
fn default_reports_a_detector_that_cannot_be_set_up() {
    match AudioSink::<Broken>::default() {
        Ok(_) => panic!("a sink without a detector"),
        Err(text) => assert_eq!(text, "Error instantiating voice-detector! (no model)"),
    }
    assert_eq!(
        AudioSink::<Broken>::detector_failure("x"),
        "Error instantiating voice-detector! (x)"
    );
}

#[test]
fn default_reports_frames_without_samples() {
    match AudioSink::<NoSamples>::default() {
        Ok(_) => panic!("a sink with empty frames"),
        Err(text) => assert_eq!(
            text,
            "Error instantiating voice-detector! (frame length must be at least one sample)"
        ),
    }
    assert!(AudioSink::with_detector(NoSamples, 0, 8000).is_err());
    assert!(AudioSink::with_detector(NoSamples, 30, 0).is_err());
    assert!(AudioSink::with_detector(NoSamples, usize::MAX, usize::MAX).is_err());
    assert!(AudioSink::with_detector(NoSamples, 1, 500).is_ok());
}

#[test]
fn expected_sample_rate_is_the_backends() {
    assert_eq!(AudioSink::<FirstSample>::expected_sample_rate(), 1000);
    assert_eq!(AudioSink::<Louder>::expected_sample_rate(), 1000);
    assert_eq!(AudioSink::<WebRtcVad>::expected_sample_rate(), 8000);
}

#[test]
fn sink_errors_have_messages() {
    assert_eq!(
        AudioSinkError::SinkClosed.message(),
        "Cannot write samples to sink after it's been closed"
    );
    assert_eq!(
        AudioSinkError::SinkOpen.message(),
        "Cannot cannot access voice-activity data until sink has been closed"
    );
    assert_eq!(
        AudioSinkError::VoiceDetectionError.message(),
        "An error occurred during voice-detection"
    );
}

#[test]
fn webrtc_backend_judges_silence_as_silence() {
    let mut sink = AudioSink::<WebRtcVad>::default().unwrap();
    // 500 samples at 240 a frame: two frames and twenty samples that wait.
    sink.send_samples(&vec![0i16; 500]).unwrap();
    let activity = sink.voice_activity();
    assert_eq!(activity.data, vec![false, false, false]);
    assert_eq!(activity.chunk_millis, 30);
    assert_eq!(WebRtcVad::expected_chunk_millis(), 30);
    assert_eq!(WebRtcVad::expected_sample_rate(), 8000);
}

#[test]
fn declared_sample_rate_is_what_is_expected() {
    assert_eq!(FirstSample::SAMPLE_RATE, 1000);
    assert_eq!(FirstSample::expected_sample_rate(), 1000);
    assert_eq!(NoSamples::expected_sample_rate(), 499);
    assert_eq!(WebRtcVad::SAMPLE_RATE, 8000);
    assert_eq!(WebRtcVad::expected_sample_rate(), 8000);
    assert_eq!(AudioSink::<NoSamples>::expected_sample_rate(), 499);
    assert_eq!(AudioSink::<Broken>::expected_sample_rate(), 8000);
}

#[test]
fn webrtc_verdict_passes_judgments_on_and_names_refusals() {
    assert_eq!(WebRtcVad::verdict(Ok(true)), Ok(true));
    assert_eq!(WebRtcVad::verdict(Ok(false)), Ok(false));
    assert_eq!(
        WebRtcVad::verdict(Err(())),
        Err(String::from("webrtc-vad unable to process samples!"))
    );
}

#[test]
fn webrtc_backend_judges_every_frame_of_its_length() {
    let mut detector = WebRtcVad::new().unwrap();
    let loud: Vec<i16> = (0..240).map(|i| if i % 2 == 0 { 12000 } else { -12000 }).collect();
    let ramp: Vec<i16> = (0..240).map(|i| (i * 100) as i16).collect();
    for frame in [vec![0i16; 240], loud, ramp, vec![i16::MIN; 240], vec![i16::MAX; 240]] {
        assert!(detector.is_voice_segment(&frame).is_ok());
    }
}

#[test]
fn webrtc_backend_refuses_frames_of_other_lengths() {
    let mut detector = WebRtcVad::new().unwrap();
    assert_eq!(detector.is_voice_segment(&[0i16; 240]), Ok(false));
    let refused = Err(String::from("webrtc-vad unable to process samples!"));
    assert_eq!(detector.is_voice_segment(&[0i16; 160]), refused);
    assert_eq!(detector.is_voice_segment(&[0i16; 80]), refused);
    assert_eq!(detector.is_voice_segment(&[0i16; 241]), refused);
    assert_eq!(detector.is_voice_segment(&[0i16; 239]), refused);
    assert_eq!(
        detector.is_voice_segment(&[]),
        Err(String::from("webrtc-vad unable to process samples!"))
    );
}

#[test]
fn sample_data_is_little_endian() {
    assert_eq!(
        AudioSink::<WebRtcVad>::load_sample_data(&[0x01, 0x00, 0xff, 0xff, 0x00, 0x80, 0xff, 0x7f, 0x34, 0x12]),
        vec![1, -1, i16::MIN, i16::MAX, 0x1234]
    );
    // A byte without a partner is not looked at.
    assert_eq!(AudioSink::<WebRtcVad>::load_sample_data(&[0x02, 0x01, 0x7f]), vec![0x0102]);
    assert_eq!(AudioSink::<WebRtcVad>::load_sample_data(&[0x7f]), Vec::<i16>::new());
    assert_eq!(AudioSink::<WebRtcVad>::load_sample_data(&[]), Vec::<i16>::new());
}

#[test]
fn voice_activity_data_is_a_byte_per_frame() {
    assert_eq!(AudioSink::<WebRtcVad>::load_vad_data(&[0, 1, 0, 2, 255]), vec![false, true, false, true, true]);
    assert_eq!(AudioSink::<WebRtcVad>::load_vad_data(&[]), Vec::<bool>::new());
}
