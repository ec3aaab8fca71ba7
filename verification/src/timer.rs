//! The instant timer's state machine. A timer is armed with the delay to its
//! first occurrence; once that sleep elapses it fires and re-arms itself for
//! exactly one week, again and again. Cancellation is terminal: a cancelled
//! timer never fires again, and a replacement belongs to a new generation.

use crate::calendar::WEEK_SECONDS;
use vstd::prelude::*;

verus! {

/// Where a live timer stands.
#[derive(Clone, Copy, Debug, PartialEq, Eq, Structural)]
pub enum TimerPhase {
    /// Sleeping toward the first occurrence.
    Armed,
    /// Sleeping in weekly repetition.
    Repeating,
    /// Cancelled; terminal.
    Stopped,
}

/// What a sleeping timer observes when it wakes.
#[derive(Clone, Copy, Debug, PartialEq, Eq, Structural)]
pub enum TimerEvent {
    /// The sleep ran to completion.
    SleepElapsed,
    /// The generation's cancellation was requested.
    CancelRequested,
}

/// What one step of the timer decides.
#[derive(Clone, Copy, Debug, PartialEq, Eq, Structural)]
pub struct TimerStep {
    /// The phase after the step.
    pub phase: TimerPhase,
    /// Whether the instant fires now.
    pub fire: bool,
    /// How long to sleep next, or `None` when the timer is done.
    pub sleep_secs: Option<u64>,
}

/// One step of a live timer: an elapsed sleep fires the instant and re-arms a
/// week-long sleep; a cancellation stops the timer without a fire. These are
/// the only transitions.
pub fn timer_step(phase: TimerPhase, event: TimerEvent) -> (r: TimerStep)
    requires
        phase != TimerPhase::Stopped,
    ensures
        event == TimerEvent::CancelRequested ==> r == (TimerStep {
            phase: TimerPhase::Stopped,
            fire: false,
            sleep_secs: None,
        }),
        event == TimerEvent::SleepElapsed ==> r == (TimerStep {
            phase: TimerPhase::Repeating,
            fire: true,
            sleep_secs: Some(WEEK_SECONDS),
        }),
{
    match event {
        TimerEvent::CancelRequested => TimerStep {
            phase: TimerPhase::Stopped,
            fire: false,
            sleep_secs: None,
        },
        TimerEvent::SleepElapsed => TimerStep {
            phase: TimerPhase::Repeating,
            fire: true,
            sleep_secs: Some(WEEK_SECONDS),
        },
    }
}

} // verus!
