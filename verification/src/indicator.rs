//! When the on-screen indicator goes away. Times are milliseconds on one
//! clock; reading the clock and moving the window happen outside.

use vstd::prelude::*;

verus! {

/// The moment the indicator is due to leave after asking for it to go at
/// `due`: the later of that and the moment already set, so an error that
/// needs ten seconds on screen is not cut short by a dictation finishing
/// right after it.
pub open spec fn later_hide(hide_at: Option<u64>, due: u64) -> Option<u64> {
    match hide_at {
        Some(current) => if due > current { Some(due) } else { Some(current) },
        None => Some(due),
    }
}

/// Asks for the indicator to leave at `due`; returns when it now leaves.
pub fn hide_indicator_in(hide_at: Option<u64>, due: u64) -> (next: Option<u64>)
    ensures
        next == later_hide(hide_at, due),
{
    match hide_at {
        Some(current) => if due > current { Some(due) } else { Some(current) },
        None => Some(due),
    }
}

/// Whether the indicator has to leave now.
pub fn hide_is_due(hide_at: Option<u64>, now: u64) -> (due: bool)
    ensures
        due == (hide_at matches Some(at) && now >= at),
{
    match hide_at {
        Some(at) => now >= at,
        None => false,
    }
}

/// Asking for the indicator to go only ever moves its leaving further out:
/// never earlier than it was set to leave, and never before the moment
/// just asked for.
pub proof fn hiding_only_moves_later(hide_at: Option<u64>, due: u64)
    ensures
        later_hide(hide_at, due) matches Some(next) && next >= due,
        hide_at matches Some(current) ==> (later_hide(hide_at, due) matches Some(next) && next >= current),
{
}

} // verus!
