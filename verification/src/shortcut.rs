//! The key that starts and stops dictation. Registering it with the system
//! happens outside; what may be chosen, and what the user is told when it
//! cannot be used, is here.

use vstd::prelude::*;
use vstd::string::*;
use crate::text::trim_owned;

verus! {

/// Why a dictation key was not taken.
#[derive(Clone, Copy, Debug, PartialEq, Eq, Structural)]
pub enum ShortcutError {
    NoKeyChosen,
}

impl ShortcutError {
    /// The sentence shown for this error.
    pub fn message(&self) -> (m: String)
        ensures
            m@ == "No key was chosen."@,
    {
        "No key was chosen.".to_owned()
    }
}

/// The key combination asked for, without surrounding whitespace; refused
/// when nothing is left.
pub fn chosen_shortcut(accelerator: &str) -> (r: Result<String, ShortcutError>)
    ensures
        crate::text::trimmed(accelerator@).len() == 0 ==> r == Err::<String, ShortcutError>(ShortcutError::NoKeyChosen),
        crate::text::trimmed(accelerator@).len() > 0 ==> (r matches Ok(k) && k@ == crate::text::trimmed(accelerator@)),
{
    let key = trim_owned(accelerator);
    if key.as_str().is_empty() {
        Err(ShortcutError::NoKeyChosen)
    } else {
        Ok(key)
    }
}

/// What the user is told when the text asked for is not a key combination.
pub open spec fn not_a_key_message(accelerator: Seq<char>, reason: Seq<char>) -> Seq<char> {
    "\""@ + accelerator + "\" is not a key combination ("@ + reason + ")"@
}

/// The sentence for a key combination the shortcut parser refused, with the
/// parser's own reason.
pub fn not_a_key_combination(accelerator: &str, reason: &str) -> (m: String)
    ensures
        m@ == not_a_key_message(accelerator@, reason@),
{
    let mut m = "\"".to_owned();
    m.append(accelerator);
    m.append("\" is not a key combination (");
    m.append(reason);
    m.append(")");
    m
}

/// What the user is told when the system would not register the key.
pub open spec fn key_taken_message(accelerator: Seq<char>, reason: Seq<char>) -> Seq<char> {
    accelerator + " could not be registered. Another app is probably using it. ("@ + reason + ")"@
}

/// The sentence for a key the system would not register, with its reason.
pub fn key_taken(accelerator: &str, reason: &str) -> (m: String)
    ensures
        m@ == key_taken_message(accelerator@, reason@),
{
    let mut m = accelerator.to_owned();
    m.append(" could not be registered. Another app is probably using it. (");
    m.append(reason);
    m.append(")");
    m
}


/// Which key is registered once a change of dictation key has been tried.
#[derive(Clone, Copy, Debug, PartialEq, Eq, Structural)]
pub enum KeyAfterChange {
    /// The new key is registered.
    New,
    /// The new key was refused; the previous one has to be registered again.
    Previous,
    /// The new key was refused and the previous one was not a key either.
    Neither,
}

/// What a change of dictation key leaves registered, given whether the
/// previous key is a valid key combination and whether the system took the
/// new one. A refused key never leaves the app without the shortcut it had.
pub fn key_after_change(previous_is_key: bool, new_registered: bool) -> (after: KeyAfterChange)
    ensures
        new_registered ==> after == KeyAfterChange::New,
        !new_registered && previous_is_key ==> after == KeyAfterChange::Previous,
        !new_registered && !previous_is_key ==> after == KeyAfterChange::Neither,
{
    if new_registered {
        KeyAfterChange::New
    } else if previous_is_key {
        KeyAfterChange::Previous
    } else {
        KeyAfterChange::Neither
    }
}

} // verus!
