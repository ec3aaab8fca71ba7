//! Screen-lock state. The platform query itself is outside work; what it
//! reported about the console is interpreted here.

use vstd::prelude::*;

verus! {

/// Whether the screen is locked, as far as the platform would say.
#[derive(Clone, Copy, Debug, PartialEq, Eq, Structural)]
pub enum LockedState {
    Locked,
    Unlocked,
    Unknown,
}

/// Interprets the platform's console-locked report: a present boolean decides
/// locked or unlocked, and a query that produced no boolean decides nothing.
pub fn locked_state_of(console_locked: Option<bool>) -> (r: LockedState)
    ensures
        console_locked == Some(true) ==> r == LockedState::Locked,
        console_locked == Some(false) ==> r == LockedState::Unlocked,
        console_locked is None ==> r == LockedState::Unknown,
{
    match console_locked {
        Some(true) => LockedState::Locked,
        Some(false) => LockedState::Unlocked,
        None => LockedState::Unknown,
    }
}

} // verus!
