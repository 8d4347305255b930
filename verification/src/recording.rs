//! The decisions around one dictation: whether a recording may start or
//! stop, what the dictation key does, whether a model has to be loaded first,
//! and what text is typed once the model has answered.

use vstd::prelude::*;
use vstd::string::*;
use crate::text::trim_owned;

verus! {

/// Why a recording could not start.
#[derive(Clone, Debug)]
pub enum StartError {
    AlreadyRecording,
    NoModelChosen,
    ModelNotDownloaded(String),
}

/// What the user is told when a recording cannot start.
pub open spec fn start_error_message(e: StartError) -> Seq<char> {
    match e {
        StartError::AlreadyRecording => "Already recording"@,
        StartError::NoModelChosen => "No model chosen. Open Settings and pick one to download."@,
        StartError::ModelNotDownloaded(id) => "The "@ + id@ + " model is not downloaded. Open Settings and download it."@,
    }
}

impl StartError {
    /// The sentence shown for this error.
    pub fn message(&self) -> (m: String)
        ensures
            m@ == start_error_message(*self),
    {
        match self {
            StartError::AlreadyRecording => "Already recording".to_owned(),
            StartError::NoModelChosen => "No model chosen. Open Settings and pick one to download.".to_owned(),
            StartError::ModelNotDownloaded(id) => {
                let mut m = "The ".to_owned();
                m.append(id.as_str());
                m.append(" model is not downloaded. Open Settings and download it.");
                m
            },
        }
    }
}

/// Whether a recording may start, and with which model: never while one is
/// running, and only with a chosen model that is on disk. `downloaded` says
/// whether the chosen model is on disk.
pub fn check_start(recording: bool, active_model: &Option<String>, downloaded: bool) -> (r: Result<String, StartError>)
    ensures
        recording ==> r matches Err(StartError::AlreadyRecording),
        !recording && active_model is None ==> r matches Err(StartError::NoModelChosen),
        !recording ==> (active_model matches Some(id) ==> {
            if downloaded {
                r matches Ok(m) && m@ == id@
            } else {
                r matches Err(StartError::ModelNotDownloaded(m)) && m@ == id@
            }
        }),
{
    if recording {
        return Err(StartError::AlreadyRecording);
    }
    match active_model {
        None => Err(StartError::NoModelChosen),
        Some(id) => {
            if downloaded {
                Ok(id.clone())
            } else {
                Err(StartError::ModelNotDownloaded(id.clone()))
            }
        },
    }
}

/// Why a recording could not be stopped and saved.
#[derive(Clone, Copy, Debug, PartialEq, Eq, Structural)]
pub enum StopError {
    NotRecording,
    NoAudio,
}

/// What the user is told when stopping fails.
pub open spec fn stop_error_message(e: StopError) -> Seq<char> {
    match e {
        StopError::NotRecording => "Not recording"@,
        StopError::NoAudio => "No audio data recorded"@,
    }
}

impl StopError {
    /// The sentence shown for this error.
    pub fn message(&self) -> (m: String)
        ensures
            m@ == stop_error_message(*self),
    {
        match self {
            StopError::NotRecording => "Not recording".to_owned(),
            StopError::NoAudio => "No audio data recorded".to_owned(),
        }
    }
}

/// Whether a recording may be stopped: only while one is running.
pub fn check_stop(recording: bool) -> (r: Result<(), StopError>)
    ensures
        r is Ok <==> recording,
        !recording ==> r == Err::<(), StopError>(StopError::NotRecording),
{
    if recording { Ok(()) } else { Err(StopError::NotRecording) }
}

/// The sample rate assumed when the device never said what it records at.
pub const FALLBACK_SAMPLE_RATE: u32 = 48000;

/// Whether a stopped recording is saved, and at which sample rate: nothing is
/// saved when no sample arrived, and an unknown rate is taken to be 48 kHz.
pub fn recording_to_save(sample_count: usize, sample_rate: Option<u32>) -> (r: Result<u32, StopError>)
    ensures
        sample_count == 0 ==> r == Err::<u32, StopError>(StopError::NoAudio),
        sample_count > 0 ==> r == Ok::<u32, StopError>(match sample_rate {
            Some(rate) => rate,
            None => FALLBACK_SAMPLE_RATE,
        }),
{
    if sample_count == 0 {
        return Err(StopError::NoAudio);
    }
    match sample_rate {
        Some(rate) => Ok(rate),
        None => Ok(FALLBACK_SAMPLE_RATE),
    }
}

/// What one press of the dictation key does.
#[derive(Clone, Copy, Debug, PartialEq, Eq, Structural)]
pub enum KeyAction {
    Start,
    Stop,
}

/// What the dictation key does in a state: stop a running recording, start
/// one otherwise.
pub open spec fn key_action(recording: bool) -> KeyAction {
    if recording { KeyAction::Stop } else { KeyAction::Start }
}

/// The dictation key stops a running recording and starts one otherwise.
pub fn dictation_key_action(recording: bool) -> (action: KeyAction)
    ensures
        action == key_action(recording),
{
    if recording { KeyAction::Stop } else { KeyAction::Start }
}

/// Whatever the state, what the dictation key asks for is never refused for
/// the state it finds: it only starts when no recording runs, and it only
/// stops while one runs.
pub proof fn dictation_key_is_never_refused_for_the_state(recording: bool)
    ensures
        key_action(recording) == KeyAction::Start ==> !recording,
        key_action(recording) == KeyAction::Stop ==> recording,
{
}

/// The model has to be loaded before transcribing unless it is the one
/// already loaded.
pub fn needs_model_load(loaded: Option<&str>, model_id: &str) -> (load: bool)
    ensures
        load == !(loaded matches Some(id) && id@ == model_id@),
{
    match loaded {
        Some(id) => {
            let a = id.to_owned();
            let b = model_id.to_owned();
            !(a == b)
        },
        None => true,
    }
}

/// What is typed for the model's answer: the text without leading and
/// trailing whitespace, followed by one space so the next dictation does not
/// run into it; nothing when the answer is blank.
pub fn text_to_type(answer: &str) -> (typed: Option<String>)
    ensures
        crate::text::trimmed(answer@).len() == 0 ==> typed is None,
        crate::text::trimmed(answer@).len() > 0 ==> (typed matches Some(t) && t@ == crate::text::trimmed(answer@) + " "@),
{
    let mut text = trim_owned(answer);
    if text.as_str().is_empty() {
        None
    } else {
        text.append(" ");
        Some(text)
    }
}

} // verus!
