//! Voice-detection backends.

pub mod webrtc;
