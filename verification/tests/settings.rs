use omegawhisper::models::{check_model_loadable, set_active_model, unload_before_delete, ModelError};
use omegawhisper::settings::{
    apply_browser_settings, default_pause_cutoff_ms, default_pause_opening_ms, default_shortcut,
    default_true, pause_rules, set_pause_cutoff_ms, set_pause_opening_ms, set_selected_microphone,
    BrowserSettings, Prefs,
};
use omegawhisper::shortcut::{
    chosen_shortcut, key_after_change, key_taken, not_a_key_combination, KeyAfterChange,
    ShortcutError,
};

// Browser storage keeps everything as text, so every value arrives as text.
fn browser(pairs: &[(&str, &str)]) -> BrowserSettings {
    let get = |key: &str| {
        pairs
            .iter()
            .find(|(k, _)| *k == key)
            .map(|(_, v)| v.to_string())
    };
    BrowserSettings {
        active_local_model_id: get("active_local_model_id"),
    }
}

#[test]
fn settings_saved_in_the_browser_are_carried_over() {
    let mut prefs = Prefs::default();
    let copied = apply_browser_settings(
        &mut prefs,
        browser(&[("active_local_model_id", "parakeet-v3-int8")]),
    );

    assert!(copied);
    assert_eq!(
        prefs.active_local_model_id.as_deref(),
        Some("parakeet-v3-int8")
    );
    assert!(prefs.migrated_from_browser, "and it is marked as done");
}

#[test]
fn the_copy_happens_once_and_never_undoes_a_later_change() {
    let mut prefs = Prefs::default();
    apply_browser_settings(
        &mut prefs,
        browser(&[("active_local_model_id", "whisper-small")]),
    );
    assert_eq!(
        prefs.active_local_model_id.as_deref(),
        Some("whisper-small")
    );

    // The user then picks a different model in Settings.
    prefs.active_local_model_id = Some("whisper-turbo".to_string());

    // The browser still holds the old value, but it must not win again.
    let copied = apply_browser_settings(
        &mut prefs,
        browser(&[("active_local_model_id", "whisper-small")]),
    );
    assert!(!copied, "the second attempt does nothing");
    assert_eq!(
        prefs.active_local_model_id.as_deref(),
        Some("whisper-turbo")
    );
}

#[test]
fn empty_browser_values_are_left_behind() {
    let mut prefs = Prefs {
        active_local_model_id: Some("already-here".to_string()),
        ..Prefs::default()
    };
    apply_browser_settings(&mut prefs, browser(&[("active_local_model_id", "")]));

    assert_eq!(
        prefs.active_local_model_id.as_deref(),
        Some("already-here"),
        "a blank name must not wipe a real one"
    );
}

#[test]
fn a_browser_that_never_saved_a_model_changes_only_the_flag() {
    let mut prefs = Prefs {
        active_local_model_id: Some("whisper-turbo".to_string()),
        ..Prefs::default()
    };
    assert!(apply_browser_settings(&mut prefs, browser(&[])));
    assert_eq!(prefs.active_local_model_id.as_deref(), Some("whisper-turbo"));
    assert!(prefs.migrated_from_browser);
}

#[test]
fn fresh_settings_hold_the_documented_defaults() {
    let prefs = Prefs::default();
    assert!(!prefs.debug_stats);
    assert_eq!(prefs.shortcut, "F3");
    assert!(prefs.active_local_model_id.is_none());
    assert!(prefs.selected_microphone.is_none());
    assert!(!prefs.pause_shortening, "pause-shortening is off unless switched on");
    assert_eq!(prefs.pause_cutoff_ms, 2200, "the cutoff starts at 2.2 s");
    assert!(prefs.pause_protect_opening, "the opening is protected");
    assert_eq!(prefs.pause_opening_ms, 3000, "the opening starts at 3 s");
    assert!(!prefs.migrated_from_browser);
    assert_eq!(default_shortcut(), "F3");
    assert_eq!(default_pause_cutoff_ms(), 2200);
    assert_eq!(default_pause_opening_ms(), 3000);
    assert!(default_true());
}

#[test]
fn the_pause_cutoff_is_kept_within_its_limits() {
    // (asked for, kept, why)
    let cases: &[(u32, u32, &str)] = &[
        (0, 500, "below the floor: nothing would be left to remove"),
        (499, 500, "one under the floor"),
        (500, 500, "exactly the floor"),
        (3500, 3500, "an ordinary value is kept as it is"),
        (30_000, 30_000, "exactly the ceiling"),
        (30_001, 30_000, "one over the ceiling"),
        (u32::MAX, 30_000, "a hand-edited file can hold anything"),
    ];
    for &(asked, kept, what) in cases {
        let mut prefs = Prefs::default();
        assert_eq!(set_pause_cutoff_ms(&mut prefs, asked), kept, "{what}");
        assert_eq!(prefs.pause_cutoff_ms, kept, "{what}: stored");
        assert_eq!(prefs.pause_opening_ms, 3000, "{what}: nothing else changes");
    }
}

#[test]
fn the_protected_opening_is_at_most_thirty_seconds() {
    let cases: &[(u32, u32)] = &[(0, 0), (8000, 8000), (30_000, 30_000), (45_000, 30_000)];
    for &(asked, kept) in cases {
        let mut prefs = Prefs::default();
        assert_eq!(set_pause_opening_ms(&mut prefs, asked), kept);
        assert_eq!(prefs.pause_opening_ms, kept);
        assert_eq!(prefs.pause_cutoff_ms, 2200);
    }
}

#[test]
fn a_blank_microphone_name_means_the_system_default() {
    let cases: &[(Option<&str>, Option<&str>, &str)] = &[
        (Some("MacBook Pro Microphone"), Some("MacBook Pro Microphone"), "a real name"),
        (Some(""), None, "nothing typed"),
        (Some("   \t"), None, "only spaces"),
        (Some("\u{3000}"), None, "an ideographic space is whitespace too"),
        (Some(" USB Mic "), Some(" USB Mic "), "kept as given, spaces and all"),
        (None, None, "cleared"),
    ];
    for &(name, want, what) in cases {
        let mut prefs = Prefs {
            selected_microphone: Some("old".to_string()),
            ..Prefs::default()
        };
        set_selected_microphone(&mut prefs, name.map(|n| n.to_string()));
        assert_eq!(prefs.selected_microphone.as_deref(), want, "{what}");
    }
}

#[test]
fn a_dictation_key_must_be_chosen() {
    assert_eq!(chosen_shortcut("  Alt+Space \n"), Ok("Alt+Space".to_string()));
    assert_eq!(chosen_shortcut("F3"), Ok("F3".to_string()));
    for blank in ["", "   ", "\t\n"] {
        let refused = chosen_shortcut(blank);
        assert!(matches!(refused, Err(ShortcutError::NoKeyChosen)), "{blank:?}");
        assert_eq!(refused.unwrap_err().message(), "No key was chosen.");
    }
}

#[test]
fn shortcut_failures_say_what_went_wrong() {
    assert_eq!(
        not_a_key_combination("Ctrl+", "missing key"),
        "\"Ctrl+\" is not a key combination (missing key)"
    );
    assert_eq!(
        key_taken("F3", "already registered"),
        "F3 could not be registered. Another app is probably using it. (already registered)"
    );
}

#[test]
fn only_a_downloaded_model_can_be_chosen() {
    let mut prefs = Prefs::default();
    let refused = set_active_model(&mut prefs, "whisper-large".to_string(), false);
    match refused {
        Err(e @ ModelError::NotDownloaded(_)) => {
            assert_eq!(e.message(), "Model whisper-large is not downloaded")
        }
        Err(other) => panic!("refused for the wrong reason: {}", other.message()),
        Ok(()) => panic!("a model that is not on disk was accepted"),
    }
    assert!(prefs.active_local_model_id.is_none(), "nothing changed");

    assert!(set_active_model(&mut prefs, "whisper-turbo".to_string(), true).is_ok());
    assert_eq!(prefs.active_local_model_id.as_deref(), Some("whisper-turbo"));
}

#[test]
fn only_the_loaded_model_is_unloaded_before_deleting() {
    let loaded = Some("whisper-turbo".to_string());
    assert!(unload_before_delete(&loaded, "whisper-turbo"));
    assert!(!unload_before_delete(&loaded, "whisper-small"));
    assert!(!unload_before_delete(&None, "whisper-turbo"));
}

#[test]
fn a_refused_key_falls_back_to_the_previous_one() {
    assert_eq!(key_after_change(true, true), KeyAfterChange::New);
    assert_eq!(key_after_change(false, true), KeyAfterChange::New);
    assert_eq!(key_after_change(true, false), KeyAfterChange::Previous);
    assert_eq!(key_after_change(false, false), KeyAfterChange::Neither);
}

#[test]
fn only_a_known_model_on_disk_is_loaded() {
    match check_model_loadable("whisper-huge", false, false) {
        Err(e @ ModelError::Unknown(_)) => assert_eq!(e.message(), "Unknown model: whisper-huge"),
        _ => panic!("an unknown model was not refused as unknown"),
    }
    match check_model_loadable("whisper-huge", false, true) {
        Err(ModelError::Unknown(id)) => assert_eq!(id, "whisper-huge"),
        _ => panic!("an unknown model is refused as unknown before anything else"),
    }
    match check_model_loadable("parakeet", true, false) {
        Err(e @ ModelError::NotDownloaded(_)) => {
            assert_eq!(e.message(), "Model parakeet is not downloaded")
        }
        _ => panic!("a model not on disk was not refused"),
    }
    assert!(check_model_loadable("parakeet", true, true).is_ok());
}

#[test]
fn pause_shortening_follows_its_settings() {
    let mut prefs = Prefs::default();
    assert!(pause_rules(&prefs).is_none(), "off by default");

    prefs.pause_shortening = true;
    let rules = pause_rules(&prefs).expect("on once switched on");
    assert_eq!(rules.cutoff_ms, 2200);
    assert_eq!(rules.protect_opening_ms, Some(3000));

    prefs.pause_protect_opening = false;
    prefs.pause_cutoff_ms = 1500;
    let rules = pause_rules(&prefs).expect("still on");
    assert_eq!(rules.cutoff_ms, 1500);
    assert_eq!(rules.protect_opening_ms, None, "the opening is no longer protected");
    assert_eq!(prefs.pause_opening_ms, 3000, "but its length is remembered");
}
