//! The audio sink: takes a sample stream in pieces of any size, cuts it into frames and
//! collects the detector's judgment of each frame.

use crate::framing::{frames, leftover, lemma_frame_bounds, lemma_frame_count, lemma_short_stream, silence};
use crate::voice::{chunk_size, VoiceDetector};
use crate::voice_activity::VoiceActivity;
use crate::wire::{as_signed16, le_value, read_i16};
use vstd::prelude::*;
use vstd::string::StringExecFns;

verus! {

/// Whether a sink still takes samples.
#[derive(PartialEq, Eq, Structural, Clone, Copy, Debug)]
pub enum AudioSinkState {
    Open,
    Closed,
}

/// What can go wrong while samples are processed.
#[derive(PartialEq, Eq, Structural, Clone, Copy, Debug)]
pub enum AudioSinkError {
    SinkClosed,
    SinkOpen,
    VoiceDetectionError,
}

impl AudioSinkError {
    /// The text that `message` returns.
    pub open spec fn message_text(self) -> Seq<char> {
        match self {
            AudioSinkError::SinkClosed => "Cannot write samples to sink after it's been closed"@,
            AudioSinkError::SinkOpen => "Cannot cannot access voice-activity data until sink has been closed"@,
            AudioSinkError::VoiceDetectionError => "An error occurred during voice-detection"@,
        }
    }

    /// Describes the error for a reader.
    pub fn message(&self) -> (text: String)
        ensures
            text@ == self.message_text(),
    {
        match self {
            AudioSinkError::SinkClosed => String::from_str(
                "Cannot write samples to sink after it's been closed",
            ),
            AudioSinkError::SinkOpen => String::from_str(
                "Cannot cannot access voice-activity data until sink has been closed",
            ),
            AudioSinkError::VoiceDetectionError => String::from_str(
                "An error occurred during voice-detection",
            ),
        }
    }
}

/// What a sink is, seen from outside.
pub struct SinkView {
    /// Whether the sink still takes samples.
    pub open: bool,
    /// The samples that wait for the rest of their frame.
    pub backlog: Seq<i16>,
    /// The detector's judgments, one per judged frame.
    pub track: Seq<bool>,
    /// The frames that the detector was handed and has judged, in that order.
    pub judged: Seq<Seq<i16>>,
    /// Number of samples in a frame.
    pub chunk_size: nat,
    /// Duration of a frame in milliseconds.
    pub chunk_millis: nat,
}

impl SinkView {
    /// A sink's backlog is shorter than a frame, and each judgment belongs to one judged frame
    /// of full length.
    pub open spec fn wf(self) -> bool {
        &&& self.chunk_size > 0
        &&& self.backlog.len() < self.chunk_size
        &&& self.track.len() == self.judged.len()
        &&& forall|i: int| 0 <= i < self.judged.len() ==> (#[trigger] self.judged[i]).len() == self.chunk_size
    }

    /// A sink that has seen nothing yet.
    pub open spec fn fresh(chunk_size: nat, chunk_millis: nat) -> SinkView {
        SinkView {
            open: true,
            backlog: Seq::empty(),
            track: Seq::empty(),
            judged: Seq::empty(),
            chunk_size,
            chunk_millis,
        }
    }

    /// `post` differs from `self` at most in that more frames were judged: the judged frames of
    /// `self` and their judgments are kept, `more` and one judgment for each come behind them.
    pub open spec fn judged_more(self, post: SinkView, more: Seq<Seq<i16>>) -> bool {
        &&& post.chunk_size == self.chunk_size
        &&& post.chunk_millis == self.chunk_millis
        &&& post.judged == self.judged + more
        &&& post.track.len() == self.track.len() + more.len()
        &&& post.track.subrange(0, self.track.len() as int) == self.track
    }

    /// How `send_samples` takes a sink from `self` to `post` when it is given `samples`;
    /// `ok` says whether it returned `Ok`.
    ///
    /// A closed sink stays as it is and the call fails. An open sink hands the detector the
    /// complete frames of its backlog followed by `samples`, in order, up to the first one
    /// that the detector refuses. If none is refused, the call succeeds and the samples behind
    /// the last complete frame are the new backlog. If one is refused, the call fails, the
    /// frames before it stay judged and those behind it are dropped; the backlog is then the
    /// same leftover, unless the very first frame was refused: then the sink is as before.
    pub open spec fn sent(self, samples: Seq<i16>, post: SinkView, ok: bool) -> bool {
        let stream = self.backlog + samples;
        let due = frames(stream, self.chunk_size);
        let done = post.judged.len() - self.judged.len();
        if !self.open {
            !ok && post == self
        } else {
            &&& post.open
            &&& 0 <= done <= due.len()
            &&& ok <==> done == due.len()
            &&& self.judged_more(post, due.take(done))
            &&& post.backlog == if ok || done > 0 {
                leftover(stream, self.chunk_size)
            } else {
                self.backlog
            }
        }
    }

    /// How `close` takes a sink from `self` to `post`; `ok` says whether it returned `Ok`.
    ///
    /// A closed sink stays as it is. An open sink with an empty backlog is closed. An open
    /// sink with a backlog hands the detector one more frame, the backlog filled up with
    /// silence: if that frame is judged, the backlog is gone and the sink is closed; if it
    /// is refused, the call fails and the sink is as before.
    pub open spec fn closed(self, post: SinkView, ok: bool) -> bool {
        if !self.open {
            ok && post == self
        } else if self.backlog.len() == 0 {
            ok && post == (SinkView { open: false, ..self })
        } else if ok {
            &&& !post.open
            &&& post.backlog == Seq::<i16>::empty()
            &&& self.judged_more(
                post,
                seq![self.backlog + silence((self.chunk_size - self.backlog.len()) as nat)],
            )
        } else {
            post == self
        }
    }

    /// A sink has judged no frame more than it has.
    proof fn lemma_judged_none_more(self)
        ensures
            self.judged_more(self, Seq::empty()),
    {
        assert(self.judged =~= self.judged + Seq::<Seq<i16>>::empty());
        assert(self.track.subrange(0, self.track.len() as int) =~= self.track);
    }

    /// A change of the backlog alone judges no frame.
    proof fn lemma_backlog_only(self, post: SinkView)
        requires
            post == (SinkView { backlog: post.backlog, ..self }),
        ensures
            self.judged_more(post, Seq::empty()),
    {
        self.lemma_judged_none_more();
    }

    /// Frames judged one run behind the other are judged in all.
    proof fn lemma_judged_more_twice(
        self,
        mid: SinkView,
        post: SinkView,
        first: Seq<Seq<i16>>,
        second: Seq<Seq<i16>>,
    )
        requires
            self.judged_more(mid, first),
            mid.judged_more(post, second),
        ensures
            self.judged_more(post, first + second),
    {
        assert(post.judged =~= self.judged + (first + second));
        assert(post.track.subrange(0, self.track.len() as int) =~= mid.track.subrange(
            0,
            self.track.len() as int,
        ));
    }

    /// Whether each judgment of the track is what `judge` says of the frames handed over up
    /// to and including the judged one.
    pub open spec fn judged_by(self, judge: spec_fn(Seq<Seq<i16>>) -> bool) -> bool {
        &&& self.track.len() == self.judged.len()
        &&& forall|i: int| 0 <= i < self.track.len() ==> self.track[i] == judge(#[trigger] self.judged.take(i + 1))
    }

    /// Chunking transparency: two calls of `send_samples` that succeed, one with `first` and
    /// one with `second`, take a sink where one successful call with `first + second` takes
    /// it. The detector is handed the same frames in the same order, and the same samples
    /// are left waiting.
    pub proof fn lemma_sent_in_pieces(
        self,
        first: Seq<i16>,
        mid: SinkView,
        second: Seq<i16>,
        post: SinkView,
    )
        requires
            self.wf(),
            self.open,
            self.sent(first, mid, true),
            mid.sent(second, post, true),
        ensures
            self.sent(first + second, post, true),
    {
        let size = self.chunk_size;
        let stream = self.backlog + first;
        crate::framing::lemma_frames_of_concat(stream, second, size);
        assert(stream + second =~= self.backlog + (first + second));
        let one = frames(stream, size);
        let two = frames(mid.backlog + second, size);
        assert(one.take(one.len() as int) =~= one);
        assert(two.take(two.len() as int) =~= two);
        self.lemma_judged_more_twice(mid, post, one, two);
        assert((one + two).take((one + two).len() as int) =~= one + two);
    }

    /// Two tracks that hold what one and the same rule says of the frames handed over so far
    /// are equal where the same frames were handed over. With a detector that judges by
    /// such a rule, the track of a stream does not depend on the pieces it arrived in.
    pub proof fn lemma_same_frames_same_track(
        self,
        other: SinkView,
        judge: spec_fn(Seq<Seq<i16>>) -> bool,
    )
        requires
            self.judged_by(judge),
            other.judged_by(judge),
            self.judged == other.judged,
        ensures
            self.track == other.track,
    {
        assert forall|i: int| 0 <= i < self.track.len() implies self.track[i] == other.track[i] by {
            assert(self.track[i] == judge(self.judged.take(i + 1)));
            assert(other.track[i] == judge(other.judged.take(i + 1)));
        }
        assert(self.track =~= other.track);
    }

    /// Chunking transparency up to the track: a stream that is sent in two pieces and a
    /// stream that is sent whole, to sinks that were alike, leave sinks that have judged the
    /// same frames once they are closed; and where the detectors judge by one and the same
    /// rule, the tracks are the same.
    pub proof fn lemma_chunking_transparency(
        self,
        first: Seq<i16>,
        second: Seq<i16>,
        after_first: SinkView,
        after_second: SinkView,
        in_pieces: SinkView,
        after_whole: SinkView,
        at_once: SinkView,
        judge: spec_fn(Seq<Seq<i16>>) -> bool,
    )
        requires
            self.wf(),
            self.open,
            self.sent(first, after_first, true),
            after_first.sent(second, after_second, true),
            after_second.closed(in_pieces, true),
            self.sent(first + second, after_whole, true),
            after_whole.closed(at_once, true),
            in_pieces.judged_by(judge),
            at_once.judged_by(judge),
        ensures
            in_pieces.judged == at_once.judged,
            in_pieces.track == at_once.track,
    {
        self.lemma_sent_in_pieces(first, after_first, second, after_second);
        in_pieces.lemma_same_frames_same_track(at_once, judge);
    }

    /// What a sink has judged in the end: a fresh sink that took `stream` and was closed has
    /// judged the frames of `stream` filled up with silence to whole frames, and its track
    /// holds one judgment for each.
    pub proof fn lemma_closed_stream(self, stream: Seq<i16>, mid: SinkView, post: SinkView)
        requires
            self.wf(),
            self == SinkView::fresh(self.chunk_size, self.chunk_millis),
            self.sent(stream, mid, true),
            mid.closed(post, true),
        ensures
            post.judged == frames(stream + crate::framing::filling(stream, self.chunk_size), self.chunk_size),
            post.track.len() == post.judged.len(),
            !post.open,
    {
        let size = self.chunk_size;
        crate::framing::lemma_frames_of_filled(stream, size);
        assert(self.backlog + stream =~= stream);
        let due = frames(stream, size);
        assert(due.take(due.len() as int) =~= due);
        assert(Seq::<Seq<i16>>::empty() + due =~= due);
        if mid.backlog.len() > 0 {
            assert(due + seq![mid.backlog + crate::framing::filling(stream, size)] =~= due.push(
                mid.backlog + crate::framing::filling(stream, size),
            ));
        }
    }

    /// Closing is idempotent: once `close` has succeeded, another `close` succeeds and changes
    /// nothing, the track least of all.
    pub proof fn lemma_close_idempotent(self, mid: SinkView, post: SinkView, ok: bool)
        requires
            self.closed(mid, true),
            mid.closed(post, ok),
        ensures
            ok,
            post == mid,
            post.track == mid.track,
    {
    }

    /// A closed sink takes nothing: `send_samples` fails on it and leaves it as it is.
    pub proof fn lemma_closed_takes_nothing(self, mid: SinkView, samples: Seq<i16>, post: SinkView, ok: bool)
        requires
            self.closed(mid, true),
            mid.sent(samples, post, ok),
        ensures
            !ok,
            post == mid,
    {
    }
}

/// Receives audio samples, has them judged for voice activity frame by frame, and keeps the
/// judgments as the reference for the synchronization.
pub struct AudioSink<D: VoiceDetector> {
    pub state: AudioSinkState,
    sample_buffer: Vec<i16>,
    vad: D,
    vad_buffer: Vec<bool>,
    chunk_size: usize,
    chunk_millis: usize,
    judged: Ghost<Seq<Seq<i16>>>,
}

impl<D: VoiceDetector> View for AudioSink<D> {
    type V = SinkView;

    closed spec fn view(&self) -> SinkView {
        SinkView {
            open: self.state == AudioSinkState::Open,
            backlog: self.sample_buffer@,
            track: self.vad_buffer@,
            judged: self.judged@,
            chunk_size: self.chunk_size as nat,
            chunk_millis: self.chunk_millis as nat,
        }
    }
}

/// The reason given when a sink cannot be set up because its detector failed with `cause`.
pub open spec fn detector_failure_text(cause: Seq<char>) -> Seq<char> {
    "Error instantiating voice-detector! ("@ + cause + ")"@
}

/// The reason given when a backend declares frames without a usable number of samples.
pub open spec fn chunk_size_failure_text() -> Seq<char> {
    "Error instantiating voice-detector! (frame length must be at least one sample)"@
}

impl<D: VoiceDetector> AudioSink<D> {
    /// Creates a new `AudioSink` that is ready to accept samples, with a detector of its own
    /// in its initial state. Fails where the detector cannot be set up, or where the frames
    /// it declares hold no sample or more than can be counted.
    pub fn default() -> (made: Result<Self, String>)
        ensures
            made matches Ok(sink) ==> sink@.wf() && sink@ == SinkView::fresh(
                sink@.chunk_size,
                sink@.chunk_millis,
            ),
            made matches Err(text) ==> text@ == chunk_size_failure_text() || exists|cause: Seq<char>|
                text@ == #[trigger] detector_failure_text(cause),
    {
        match D::new() {
            Ok(vad) => Self::with_detector(
                vad,
                D::expected_chunk_millis(),
                D::expected_sample_rate(),
            ),
            Err(cause) => {
                let text = Self::detector_failure(cause.as_str());
                assert(text@ == detector_failure_text(cause@));
                Err(text)
            },
        }
    }

    /// The error of `default` for a detector that failed with `cause`.
    pub fn detector_failure(cause: &str) -> (text: String)
        ensures
            text@ == detector_failure_text(cause@),
    {
        let mut text = String::from_str("Error instantiating voice-detector! (");
        text.append(cause);
        text.append(")");
        text
    }

    /// Creates a new `AudioSink` around `vad`, for frames of `chunk_millis` milliseconds at
    /// `sample_rate` samples per second. Fails exactly where such a frame holds no sample
    /// or more than can be counted.
    pub fn with_detector(vad: D, chunk_millis: usize, sample_rate: usize) -> (made: Result<Self, String>)
        ensures
            match made {
                Ok(sink) => {
                    &&& 0 < crate::voice::samples_per_chunk(chunk_millis as nat, sample_rate as nat) <= usize::MAX
                    &&& sink@.wf()
                    &&& sink@ == SinkView::fresh(
                        crate::voice::samples_per_chunk(chunk_millis as nat, sample_rate as nat),
                        chunk_millis as nat,
                    )
                },
                Err(text) => {
                    &&& !(0 < crate::voice::samples_per_chunk(chunk_millis as nat, sample_rate as nat) <= usize::MAX)
                    &&& text@ == chunk_size_failure_text()
                },
            },
    {
        match chunk_size(chunk_millis, sample_rate) {
            Some(size) if size > 0 => Ok(
                AudioSink {
                    state: AudioSinkState::Open,
                    sample_buffer: Vec::new(),
                    vad,
                    vad_buffer: Vec::new(),
                    chunk_size: size,
                    chunk_millis,
                    judged: Ghost(Seq::empty()),
                },
            ),
            _ => Err(
                String::from_str(
                    "Error instantiating voice-detector! (frame length must be at least one sample)",
                ),
            ),
        }
    }

    /// Has one frame judged and keeps the judgment.
    ///
    /// A chunk that is not exactly one frame long is refused without asking the detector.
    fn process_chunk(&mut self, chunk: &[i16]) -> (done: Result<(), AudioSinkError>)
        requires
            old(self)@.wf(),
        ensures
            final(self)@.wf(),
            final(self)@.open == old(self)@.open,
            final(self)@.backlog == old(self)@.backlog,
            final(self).state == old(self).state,
            done is Err ==> done == Err::<(), AudioSinkError>(AudioSinkError::VoiceDetectionError)
                && final(self)@ == old(self)@,
            done is Ok ==> chunk@.len() == old(self)@.chunk_size && old(self)@.judged_more(
                final(self)@,
                seq![chunk@],
            ),
    {
        if chunk.len() != self.chunk_size {
            return Err(AudioSinkError::VoiceDetectionError);
        }
        let verdict = self.vad.is_voice_segment(chunk);
        self.record(Ghost(chunk@), verdict)
    }

    /// Keeps the detector's verdict on `frame`: a judgment is added to the track, a refusal
    /// becomes the sink's error and leaves the sink as it is.
    fn record(&mut self, frame: Ghost<Seq<i16>>, verdict: Result<bool, String>) -> (done: Result<
        (),
        AudioSinkError,
    >)
        requires
            old(self)@.wf(),
            frame@.len() == old(self)@.chunk_size,
        ensures
            final(self)@.wf(),
            final(self)@.open == old(self)@.open,
            final(self)@.backlog == old(self)@.backlog,
            final(self).state == old(self).state,
            done is Ok <==> verdict is Ok,
            done is Err ==> done == Err::<(), AudioSinkError>(AudioSinkError::VoiceDetectionError)
                && final(self)@ == old(self)@,
            verdict matches Ok(is_voice) ==> old(self)@.judged_more(final(self)@, seq![frame@])
                && final(self)@.track.last() == is_voice,
    {
        match verdict {
            Ok(is_voice) => {
                self.vad_buffer.push(is_voice);
                self.judged = Ghost(self.judged@.push(frame@));
                assert(self.judged@ =~= old(self).judged@ + seq![frame@]);
                assert(self.vad_buffer@.subrange(0, old(self).vad_buffer@.len() as int) =~= old(
                    self,
                ).vad_buffer@);
                Ok(())
            },
            Err(_) => Err(AudioSinkError::VoiceDetectionError),
        }
    }

    /// Receives incoming samples.
    ///
    /// The samples are put behind those that still wait for the rest of their frame. Every
    /// frame that is complete is judged at once, in stream order; what remains is kept for
    /// the next call or for `close`. How a stream is cut into calls makes no difference to
    /// the frames that are judged. A closed sink takes no samples.
    pub fn send_samples(&mut self, samples: &[i16]) -> (done: Result<(), AudioSinkError>)
        requires
            old(self)@.wf(),
        ensures
            final(self)@.wf(),
            old(self)@.sent(samples@, final(self)@, done is Ok),
            done is Err ==> done == Err::<(), AudioSinkError>(
                if old(self)@.open {
                    AudioSinkError::VoiceDetectionError
                } else {
                    AudioSinkError::SinkClosed
                },
            ),
    {
        if self.state == AudioSinkState::Open {
            let size = self.chunk_size;
            let held = self.sample_buffer.len();
            let ghost pre = self@;
            let ghost stream = pre.backlog + samples@;
            let ghost due = frames(stream, size as nat);
            proof {
                pre.lemma_judged_none_more();
            }
            if samples.len() >= size - held {
                // The backlog and the head of the incoming samples make the first frame.
                let len2 = size - held;
                let mut first_chunk: Vec<i16> = Vec::with_capacity(size);
                first_chunk.extend_from_slice(self.sample_buffer.as_slice());
                first_chunk.extend_from_slice(vstd::slice::slice_subrange(samples, 0, len2));

                // The rest of the incoming samples holds `count` more frames.
                let count = (samples.len() - len2) / size;
                proof {
                    lemma_frame_bounds((samples@.len() - len2) as nat, size as nat);
                    assert((1 + count) * size == size + count * size) by (nonlinear_arith);
                    lemma_frame_count(stream.len(), size as nat, (1 + count) as nat);
                    assert(first_chunk@ =~= due[0]);
                    assert(due.take(1) =~= seq![due[0]]);
                }
                let tail_start = len2 + count * size;
                match self.process_chunk(first_chunk.as_slice()) {
                    Ok(()) => {},
                    Err(e) => {
                        assert(due.take(0) =~= Seq::<Seq<i16>>::empty());
                        return Err(e);
                    },
                }

                // What is left behind the last frame waits for the next call.
                self.sample_buffer.clear();
                self.sample_buffer.extend_from_slice(
                    vstd::slice::slice_subrange(samples, tail_start, samples.len()),
                );
                assert(self.sample_buffer@ =~= leftover(stream, size as nat));

                let mut k: usize = 0;
                while k < count
                    invariant
                        self@.wf(),
                        self@.open,
                        pre.wf(),
                        pre.open,
                        pre == old(self)@,
                        size == pre.chunk_size,
                        stream == pre.backlog + samples@,
                        due == frames(stream, size as nat),
                        due.len() == 1 + count,
                        len2 == size - pre.backlog.len(),
                        len2 + count * size <= samples@.len() <= usize::MAX,
                        self@.backlog == leftover(stream, size as nat),
                        k <= count,
                        pre.judged_more(self@, due.take(k + 1)),
                    decreases count - k,
                {
                    proof {
                        assert((k + 1) * size <= count * size) by (nonlinear_arith)
                            requires
                                k + 1 <= count,
                                size > 0,
                        ;
                        assert((k + 1) * size == k * size + size) by (nonlinear_arith);
                        assert((k + 2) * size == k * size + size + size) by (nonlinear_arith);
                        assert(0 <= k * size) by (nonlinear_arith);
                    }
                    let from = len2 + k * size;
                    let chunk = vstd::slice::slice_subrange(samples, from, from + size);
                    assert(chunk@ =~= due[k + 1]);
                    let ghost before = self@;
                    match self.process_chunk(chunk) {
                        Ok(()) => {},
                        Err(e) => {
                            return Err(e);
                        },
                    }
                    proof {
                        assert(due.take(k + 1) + seq![due[k + 1]] =~= due.take(k + 2));
                        pre.lemma_judged_more_twice(before, self@, due.take(k + 1), seq![due[k + 1]]);
                    }
                    k += 1;
                }
                assert(due.take(due.len() as int) =~= due);
            } else {
                // Not enough for a complete frame: the samples wait for the next call.
                self.sample_buffer.extend_from_slice(samples);
                proof {
                    assert(self.sample_buffer@ =~= stream);
                    lemma_short_stream(stream, size as nat);
                    assert(due.take(0) =~= Seq::<Seq<i16>>::empty());
                    pre.lemma_backlog_only(self@);
                }
            }
            Ok(())
        } else {
            Err(AudioSinkError::SinkClosed)
        }
    }

    /// Closes the `AudioSink`.
    ///
    /// Samples that still wait for the rest of their frame are filled up with silence to a
    /// full frame, which is judged like any other. The sink accepts no samples once closed.
    /// Closing a closed sink does nothing and succeeds.
    pub fn close(&mut self) -> (done: Result<(), AudioSinkError>)
        requires
            old(self)@.wf(),
        ensures
            final(self)@.wf(),
            old(self)@.closed(final(self)@, done is Ok),
            done is Err ==> done == Err::<(), AudioSinkError>(AudioSinkError::VoiceDetectionError),
    {
        if self.state == AudioSinkState::Open {
            let buf_len = self.sample_buffer.len();
            if buf_len > 0 {
                let mut chunk: Vec<i16> = Vec::new();
                let mut i: usize = 0;
                while i < self.chunk_size
                    invariant
                        i <= self.chunk_size,
                        buf_len == self.sample_buffer@.len(),
                        buf_len < self.chunk_size,
                        chunk@.len() == i,
                        forall|k: int|
                            0 <= k < i ==> chunk@[k] == if k < buf_len {
                                self.sample_buffer@[k]
                            } else {
                                0i16
                            },
                    decreases self.chunk_size - i,
                {
                    if i < buf_len {
                        chunk.push(self.sample_buffer[i]);
                    } else {
                        chunk.push(0i16);
                    }
                    i += 1;
                }
                assert(chunk@ =~= self.sample_buffer@ + silence((self.chunk_size - buf_len) as nat));
                match self.process_chunk(chunk.as_slice()) {
                    Ok(()) => {},
                    Err(e) => {
                        return Err(e);
                    },
                }
                self.sample_buffer.clear();
            }
            self.state = AudioSinkState::Closed;
        }
        Ok(())
    }

    /// Returns the voice-activity track, closing the `AudioSink` first if it is still open.
    /// Where the last, filled-up frame is refused, the track ends before it and the sink
    /// stays open.
    pub fn voice_activity(&mut self) -> (activity: VoiceActivity)
        requires
            old(self)@.wf(),
        ensures
            final(self)@.wf(),
            old(self)@.closed(final(self)@, true) || old(self)@.closed(final(self)@, false),
            activity.data@ == final(self)@.track,
            activity.chunk_millis == final(self)@.chunk_millis,
    {
        let _ = self.close();
        VoiceActivity {
            data: vstd::slice::slice_to_vec(self.vad_buffer.as_slice()),
            chunk_millis: self.chunk_millis,
        }
    }

    /// Returns the sample rate, per second, that the voice detector expects.
    pub fn expected_sample_rate() -> (rate: usize)
        ensures
            rate == D::SAMPLE_RATE,
    {
        D::expected_sample_rate()
    }

    /// Reads samples from raw sample data: 16-bit signed little-endian mono.
    pub fn load_sample_data(bytes: &[u8]) -> (samples: Vec<i16>)
        ensures
            samples@ == samples_of(bytes@),
    {
        let count = bytes.len() / 2;
        let mut samples: Vec<i16> = Vec::new();
        let mut i: usize = 0;
        while i < count
            invariant
                count == bytes@.len() / 2,
                bytes@.len() <= usize::MAX,
                i <= count,
                samples@.len() == i,
                forall|k: int|
                    0 <= k < i ==> #[trigger] samples@[k] as int == as_signed16(
                        le_value(bytes@.subrange(2 * k, 2 * k + 2)),
                    ),
            decreases count - i,
        {
            let pair = vstd::slice::slice_subrange(bytes, 2 * i, 2 * i + 2);
            assert(pair@.take(2) =~= bytes@.subrange(2 * i, 2 * i + 2));
            samples.push(read_i16(pair));
            i += 1;
        }
        assert(samples@ =~= samples_of(bytes@));
        samples
    }

    /// Reads judgments from raw voice-activity data: one byte per frame, zero for silence.
    pub fn load_vad_data(bytes: &[u8]) -> (data: Vec<bool>)
        ensures
            data@ == judgments_of(bytes@),
    {
        let mut data: Vec<bool> = Vec::new();
        let mut i: usize = 0;
        while i < bytes.len()
            invariant
                i <= bytes@.len(),
                data@.len() == i,
                forall|k: int| 0 <= k < i ==> #[trigger] data@[k] == (bytes@[k] != 0),
            decreases bytes@.len() - i,
        {
            data.push(bytes[i] != 0);
            i += 1;
        }
        assert(data@ =~= judgments_of(bytes@));
        data
    }
}

/// The samples that raw sample data holds: sample `i` is spelled by bytes `2i` and `2i + 1`,
/// least significant byte first, in two's complement. A last byte without a partner is
/// not looked at.
pub open spec fn samples_of(bytes: Seq<u8>) -> Seq<i16> {
    Seq::new(
        bytes.len() / 2,
        |i: int| as_signed16(le_value(bytes.subrange(2 * i, 2 * i + 2))) as i16,
    )
}

/// The judgments that raw voice-activity data holds: one byte per frame, zero for silence.
pub open spec fn judgments_of(bytes: Seq<u8>) -> Seq<bool> {
    Seq::new(bytes.len(), |i: int| bytes[i] != 0)
}

} // verus!
