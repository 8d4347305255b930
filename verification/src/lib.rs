//! The decisions behind a push-to-talk dictation tool: what counts as a pause,
//! which part of a recording is kept, how a recording is written as WAV, what
//! the settings hold and how they change, and which microphone is opened.
//! Everything here is plain integer, byte and string logic with its contract
//! proved; the audio maths on floating-point samples and all I/O live outside.

pub mod indicator;
pub mod microphone;
pub mod models;
pub mod recording;
pub mod settings;
pub mod shortcut;
pub mod speech;
pub mod storage;
pub mod text;
pub mod transcription;
pub mod tray;
pub mod wav;
