use omegawhisper::indicator::{hide_indicator_in, hide_is_due};
use omegawhisper::recording::{
    check_start, check_stop, dictation_key_action, needs_model_load, recording_to_save,
    text_to_type, KeyAction, StartError, StopError,
};
use omegawhisper::transcription::TranscriptionManager;

#[test]
fn a_recording_only_starts_with_a_model_on_disk() {
    let model = Some("whisper-turbo".to_string());
    assert_eq!(check_start(false, &model, true).unwrap(), "whisper-turbo");

    let already = check_start(true, &model, true).unwrap_err();
    assert!(matches!(already, StartError::AlreadyRecording));
    assert_eq!(already.message(), "Already recording");

    let none = check_start(false, &None, true).unwrap_err();
    assert_eq!(
        none.message(),
        "No model chosen. Open Settings and pick one to download."
    );

    let missing = check_start(false, &model, false).unwrap_err();
    assert_eq!(
        missing.message(),
        "The whisper-turbo model is not downloaded. Open Settings and download it."
    );
}

#[test]
fn a_recording_only_stops_while_one_runs() {
    assert_eq!(check_stop(true), Ok(()));
    assert_eq!(check_stop(false), Err(StopError::NotRecording));
    assert_eq!(StopError::NotRecording.message(), "Not recording");
}

#[test]
fn an_empty_recording_is_not_saved_and_the_rate_falls_back() {
    assert_eq!(recording_to_save(0, Some(44_100)), Err(StopError::NoAudio));
    assert_eq!(StopError::NoAudio.message(), "No audio data recorded");
    assert_eq!(recording_to_save(10, Some(44_100)), Ok(44_100));
    assert_eq!(recording_to_save(10, None), Ok(48_000));
}

#[test]
fn the_dictation_key_starts_and_stops() {
    assert_eq!(dictation_key_action(false), KeyAction::Start);
    assert_eq!(dictation_key_action(true), KeyAction::Stop);
}

#[test]
fn a_model_is_loaded_only_when_another_one_is_in_memory() {
    assert!(needs_model_load(None, "whisper-turbo"));
    assert!(needs_model_load(Some("whisper-small"), "whisper-turbo"));
    assert!(!needs_model_load(Some("whisper-turbo"), "whisper-turbo"));
}

#[test]
fn the_answer_is_typed_trimmed_with_one_space_after() {
    assert_eq!(text_to_type("  Hello there. \n"), Some("Hello there. ".to_string()));
    assert_eq!(text_to_type("\n\t "), None, "a blank answer types nothing");
    assert_eq!(text_to_type(""), None);
}

#[test]
fn the_indicator_only_ever_leaves_later() {
    assert_eq!(hide_indicator_in(None, 400), Some(400));
    assert_eq!(hide_indicator_in(Some(10_000), 400), Some(10_000), "an error stays readable");
    assert_eq!(hide_indicator_in(Some(400), 10_000), Some(10_000));
    assert!(!hide_is_due(None, 1_000_000));
    assert!(!hide_is_due(Some(500), 499));
    assert!(hide_is_due(Some(500), 500));
}

#[test]
fn the_same_model_is_not_loaded_twice() {
    let mut manager: TranscriptionManager<u32> = TranscriptionManager::new();
    assert_eq!(manager.get_loaded_model_id(), None);
    let mut loads = 0;
    assert!(manager
        .load_model("whisper-turbo", true, true, || {
            loads += 1;
            Ok(7)
        })
        .is_ok());
    assert_eq!(manager.get_loaded_model_id(), Some("whisper-turbo"));
    assert!(manager
        .load_model("whisper-turbo", true, true, || {
            loads += 1;
            Ok(8)
        })
        .is_ok());
    assert_eq!(loads, 1, "already loaded: the engine is not loaded again");
    let answer = manager.transcribe(|engine| (engine, Ok(engine * 2)));
    assert_eq!(answer, Ok(14), "the first engine is still the one in use");
}

#[test]
fn a_failed_load_leaves_nothing_loaded() {
    let mut manager: TranscriptionManager<u32> = TranscriptionManager::new();
    manager.load_model("whisper-small", true, true, || Ok(1)).unwrap();
    let failed = manager.load_model("whisper-turbo", true, true, || {
        Err("Failed to load Whisper model: bad file".to_string())
    });
    assert_eq!(failed, Err("Failed to load Whisper model: bad file".to_string()));
    assert_eq!(manager.get_loaded_model_id(), None);
    let answer: Result<String, String> = manager.transcribe(|e| (e, Ok(String::new())));
    assert_eq!(answer, Err("No model loaded".to_string()));
}

#[test]
fn unloading_forgets_the_model() {
    let mut manager: TranscriptionManager<u32> = TranscriptionManager::new();
    manager.load_model("parakeet", true, true, || Ok(3)).unwrap();
    assert_eq!(manager.unload_model(), Some("parakeet".to_string()));
    assert_eq!(manager.get_loaded_model_id(), None);
    assert_eq!(manager.unload_model(), None);
}

#[test]
fn an_engine_error_keeps_the_model_loaded() {
    let mut manager: TranscriptionManager<u32> = TranscriptionManager::new();
    manager.load_model("whisper-turbo", true, true, || Ok(5)).unwrap();
    let failed: Result<String, String> = manager.transcribe(|e| (e, Err("Whisper transcription error".to_string())));
    assert!(failed.is_err());
    assert_eq!(manager.get_loaded_model_id(), Some("whisper-turbo"));
    assert_eq!(manager.transcribe(|e| (e, Ok(e))), Ok(5));
}

#[test]
fn an_unknown_or_missing_model_is_refused_before_loading() {
    let mut manager: TranscriptionManager<u32> = TranscriptionManager::new();
    manager.load_model("whisper-small", true, true, || Ok(1)).unwrap();
    let mut asked = false;
    let unknown = manager.load_model("whisper-huge", false, false, || {
        asked = true;
        Ok(2)
    });
    assert_eq!(unknown, Err("Unknown model: whisper-huge".to_string()));
    assert_eq!(manager.get_loaded_model_id(), None, "the old model was unloaded first");
    let answer: Result<u32, String> = manager.transcribe(|e| (e, Ok(e)));
    assert_eq!(answer, Err("No model loaded".to_string()));

    manager.load_model("whisper-small", true, true, || Ok(1)).unwrap();
    let missing = manager.load_model("parakeet", true, false, || {
        asked = true;
        Ok(3)
    });
    assert_eq!(missing, Err("Model parakeet is not downloaded".to_string()));
    assert_eq!(manager.get_loaded_model_id(), None);
    assert!(!asked, "a refused model is never read from disk");
}
