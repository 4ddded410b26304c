//! Voice-activity extraction for subtitle alignment: audio samples are cut into frames, each
//! frame is judged voice or silence, the judgments are cleaned with morphological operators
//! and turned into time intervals that serve as the reference when a subtitle track is re-timed.

pub mod audiosink;
pub mod framing;
pub mod morph;
pub mod result_codes;
pub mod sync;
pub mod timespans;
pub mod util;
pub mod vad;
pub mod voice;
pub mod voice_activity;
pub mod wire;

pub use audiosink::{AudioSink, AudioSinkError, AudioSinkState};
pub use sync::{is_format_supported, SyncError};
pub use timespans::{TimeSpan, TimeSpans, TimeSpansLoadError, TimeSpansSaveError};
pub use voice::VoiceDetector;
pub use voice_activity::VoiceActivity;
