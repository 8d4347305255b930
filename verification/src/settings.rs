//! Everything the app remembers between runs, and the rules for changing it.
//! Reading and writing the settings file happens outside; what a setting may
//! be set to, and what a change does to the others, is here.

use vstd::prelude::*;
use crate::text::is_blank;
use crate::speech::PauseRules;

verus! {

/// Every saved setting.
#[derive(Clone, Debug)]
pub struct Prefs {
    /// Live microphone numbers and the per-dictation line. Off unless asked for.
    pub debug_stats: bool,
    /// The key that starts and stops dictation, written the way the shortcut
    /// parser reads it: "F3", "CommandOrControl+Shift+D".
    pub shortcut: String,
    pub active_local_model_id: Option<String>,
    /// Which microphone to record from, by the name the system gives it.
    /// `None` means whichever one the system has set as default.
    pub selected_microphone: Option<String>,
    /// Shorten long pauses in the middle of a recording before the model
    /// reads it. Off by default.
    pub pause_shortening: bool,
    /// How long a pause has to be before any of it is removed.
    pub pause_cutoff_ms: u32,
    /// Never shorten a pause in the first seconds after the first spoken word.
    pub pause_protect_opening: bool,
    /// How much of the opening that covers; remembered while the switch above
    /// is off.
    pub pause_opening_ms: u32,
    /// Set once the settings held in the browser have been copied in here.
    pub migrated_from_browser: bool,
}

/// The default cutoff for pause-shortening: 2.2 seconds.
pub open spec fn spec_default_pause_cutoff_ms() -> u32 {
    2200
}

/// The default protected opening: 3 seconds.
pub open spec fn spec_default_pause_opening_ms() -> u32 {
    3000
}

/// The dictation key until one is chosen: F3.
pub fn default_shortcut() -> (key: String)
    ensures
        key@ == "F3"@,
{
    "F3".to_owned()
}

/// 2.2 seconds. Shorter than this and it starts editing the breaths between
/// sentences, which is where the model gets its full stops from.
pub fn default_pause_cutoff_ms() -> (ms: u32)
    ensures
        ms == spec_default_pause_cutoff_ms(),
{
    2200
}

/// 3 seconds: long enough to cover the first sentence.
pub fn default_pause_opening_ms() -> (ms: u32)
    ensures
        ms == spec_default_pause_opening_ms(),
{
    3000
}

/// The default of the settings that are on unless switched off.
pub fn default_true() -> (on: bool)
    ensures
        on,
{
    true
}

/// `prefs` are the settings of a fresh install.
pub open spec fn is_default_prefs(prefs: Prefs) -> bool {
    &&& !prefs.debug_stats
    &&& prefs.shortcut@ == "F3"@
    &&& prefs.active_local_model_id is None
    &&& prefs.selected_microphone is None
    &&& !prefs.pause_shortening
    &&& prefs.pause_cutoff_ms == spec_default_pause_cutoff_ms()
    &&& prefs.pause_protect_opening
    &&& prefs.pause_opening_ms == spec_default_pause_opening_ms()
    &&& !prefs.migrated_from_browser
}

impl Default for Prefs {
    fn default() -> (prefs: Self)
        ensures
            is_default_prefs(prefs),
    {
        Prefs {
            debug_stats: false,
            shortcut: default_shortcut(),
            active_local_model_id: None,
            selected_microphone: None,
            pause_shortening: false,
            pause_cutoff_ms: default_pause_cutoff_ms(),
            pause_protect_opening: default_true(),
            pause_opening_ms: default_pause_opening_ms(),
            migrated_from_browser: false,
        }
    }
}

/// What is left of the settings the hidden window kept in browser storage.
/// A missing value means that window never saved it.
#[derive(Clone, Debug)]
pub struct BrowserSettings {
    pub active_local_model_id: Option<String>,
}

/// The settings once the browser's have been copied in: only the first time,
/// and only values the browser actually had; an empty one is left behind.
pub open spec fn with_browser_settings(prefs: Prefs, from: BrowserSettings) -> Prefs {
    if prefs.migrated_from_browser {
        prefs
    } else {
        Prefs {
            migrated_from_browser: true,
            active_local_model_id: match from.active_local_model_id {
                Some(id) => if id@.len() > 0 { Some(id) } else { prefs.active_local_model_id },
                None => prefs.active_local_model_id,
            },
            ..prefs
        }
    }
}

/// Copies the settings out of the window that used to hold them, once.
/// Returns whether anything was done: `false` when they were copied before,
/// in which case nothing changes, so a later change made here is never
/// undone.
pub fn apply_browser_settings(prefs: &mut Prefs, from: BrowserSettings) -> (copied: bool)
    ensures
        copied == !old(prefs).migrated_from_browser,
        *final(prefs) == with_browser_settings(*old(prefs), from),
{
    if prefs.migrated_from_browser {
        return false;
    }
    prefs.migrated_from_browser = true;
    match from.active_local_model_id {
        Some(id) => {
            if !id.as_str().is_empty() {
                prefs.active_local_model_id = Some(id);
            }
        },
        None => {},
    }
    true
}

/// The copy out of the browser happens once: after it, copying again from
/// any browser values is refused and changes nothing.
pub proof fn browser_settings_are_copied_once(prefs: Prefs, first: BrowserSettings, again: BrowserSettings)
    ensures
        with_browser_settings(prefs, first).migrated_from_browser,
        with_browser_settings(with_browser_settings(prefs, first), again) == with_browser_settings(prefs, first),
{
}

/// Copying from the browser keeps a model id the browser actually held,
/// whatever the settings held before: when the copy has not happened yet and
/// the browser has a non-empty id, that id becomes the active model. An empty
/// or missing browser id leaves the active model as it was, and nothing but
/// the model and the copied mark ever changes.
pub proof fn the_browser_model_is_carried_over(prefs: Prefs, from: BrowserSettings)
    ensures
        !prefs.migrated_from_browser && (from.active_local_model_id matches Some(id) && id@.len() > 0)
            ==> with_browser_settings(prefs, from).active_local_model_id == from.active_local_model_id,
        !(from.active_local_model_id matches Some(id) && id@.len() > 0)
            ==> with_browser_settings(prefs, from).active_local_model_id == prefs.active_local_model_id,
        prefs.migrated_from_browser ==> with_browser_settings(prefs, from) == prefs,
        with_browser_settings(prefs, from) == (Prefs {
            active_local_model_id: with_browser_settings(prefs, from).active_local_model_id,
            migrated_from_browser: true,
            ..prefs
        }),
{
}

/// The shortest pause cutoff the settings accept: below this nothing is left
/// to remove once the kept gap is taken out.
pub const MIN_PAUSE_CUTOFF_MS: u32 = 500;

/// The longest cutoff, and the longest protected opening.
pub const MAX_PAUSE_MS: u32 = 30_000;

/// `ms` pulled into the accepted cutoffs.
pub open spec fn clamp_cutoff(ms: u32) -> u32 {
    if ms < MIN_PAUSE_CUTOFF_MS { MIN_PAUSE_CUTOFF_MS } else if ms > MAX_PAUSE_MS { MAX_PAUSE_MS } else { ms }
}

/// Sets how long a pause has to be before it is shortened, pulled into
/// 0.5 s to 30 s whatever is asked for, and returns the value kept.
pub fn set_pause_cutoff_ms(prefs: &mut Prefs, milliseconds: u32) -> (kept: u32)
    ensures
        kept == clamp_cutoff(milliseconds),
        *final(prefs) == (Prefs { pause_cutoff_ms: kept, ..*old(prefs) }),
{
    let kept = if milliseconds < MIN_PAUSE_CUTOFF_MS {
        MIN_PAUSE_CUTOFF_MS
    } else if milliseconds > MAX_PAUSE_MS {
        MAX_PAUSE_MS
    } else {
        milliseconds
    };
    prefs.pause_cutoff_ms = kept;
    kept
}

/// Sets how much of the opening is protected, at most 30 s, and returns the
/// value kept.
pub fn set_pause_opening_ms(prefs: &mut Prefs, milliseconds: u32) -> (kept: u32)
    ensures
        kept == (if milliseconds > MAX_PAUSE_MS { MAX_PAUSE_MS } else { milliseconds }),
        *final(prefs) == (Prefs { pause_opening_ms: kept, ..*old(prefs) }),
{
    let kept = if milliseconds > MAX_PAUSE_MS { MAX_PAUSE_MS } else { milliseconds };
    prefs.pause_opening_ms = kept;
    kept
}

/// Chooses the microphone to record from. A blank name means none is chosen,
/// and the system's own choice is used.
pub fn set_selected_microphone(prefs: &mut Prefs, name: Option<String>)
    ensures
        *final(prefs) == (Prefs {
            selected_microphone: match name {
                Some(n) => if crate::text::all_white(n@) { None } else { Some(n) },
                None => None,
            },
            ..*old(prefs)
        }),
{
    let chosen = match name {
        Some(n) => if is_blank(n.as_str()) { None } else { Some(n) },
        None => None,
    };
    prefs.selected_microphone = chosen;
}

/// The rules pause-shortening runs with, or `None` when it is switched off:
/// the cutoff as set, and the protected opening only while its switch is on.
pub open spec fn spec_pause_rules(prefs: Prefs) -> Option<PauseRules> {
    if !prefs.pause_shortening {
        None
    } else {
        Some(PauseRules {
            cutoff_ms: prefs.pause_cutoff_ms,
            protect_opening_ms: if prefs.pause_protect_opening { Some(prefs.pause_opening_ms) } else { None },
        })
    }
}

/// What the settings say pause-shortening should do before the model reads
/// a recording: nothing when it is off, otherwise shorten pauses longer than
/// the cutoff, leaving the opening alone when that is asked for.
pub fn pause_rules(prefs: &Prefs) -> (r: Option<PauseRules>)
    ensures
        r == spec_pause_rules(*prefs),
{
    if !prefs.pause_shortening {
        return None;
    }
    let protect_opening_ms = if prefs.pause_protect_opening { Some(prefs.pause_opening_ms) } else { None };
    Some(PauseRules { cutoff_ms: prefs.pause_cutoff_ms, protect_opening_ms })
}

/// Pause-shortening runs only when it is switched on: whatever the cutoff
/// and the opening hold, switched off there are no rules. Switched on, the
/// cutoff is the one set, and the opening is protected exactly when its
/// switch is on, for the length set.
pub proof fn pause_shortening_runs_only_when_on(prefs: Prefs)
    ensures
        !prefs.pause_shortening ==> spec_pause_rules(prefs) is None,
        prefs.pause_shortening ==> spec_pause_rules(prefs) is Some,
        spec_pause_rules(prefs) matches Some(rules) ==> {
            &&& rules.cutoff_ms == prefs.pause_cutoff_ms
            &&& (rules.protect_opening_ms is Some <==> prefs.pause_protect_opening)
            &&& (rules.protect_opening_ms matches Some(ms) ==> ms == prefs.pause_opening_ms)
        },
{
}

/// Whatever is asked for, the cutoff and the protected opening that are kept
/// stay within the limits the settings window shows.
pub proof fn pause_settings_stay_in_range(cutoff: u32, opening: u32)
    ensures
        MIN_PAUSE_CUTOFF_MS <= clamp_cutoff(cutoff) <= MAX_PAUSE_MS,
        MIN_PAUSE_CUTOFF_MS <= cutoff <= MAX_PAUSE_MS ==> clamp_cutoff(cutoff) == cutoff,
        (if opening > MAX_PAUSE_MS { MAX_PAUSE_MS } else { opening }) <= MAX_PAUSE_MS,
{
}

} // verus!
