//! The timer commands.
//!
//! No timer runs yet: the state reported is always the inactive one, and
//! stopping has nothing to stop.

use vstd::prelude::*;

verus! {

/// What the timer is doing.
#[derive(Clone, Debug, PartialEq, Eq)]
pub struct TimerState {
    /// Whether the timer runs.
    pub active: bool,
    /// What is being timed, while the timer runs.
    pub title: Option<String>,
    /// The seconds since the timer was started, while it runs.
    pub elapsed_seconds: Option<u64>,
}

impl TimerState {
    /// The timer does not run, and so has neither a title nor an elapsed
    /// time.
    pub open spec fn is_inactive(self) -> bool {
        &&& !self.active
        &&& self.title is None
        &&& self.elapsed_seconds is None
    }
}

/// Reports the state of the timer, which is inactive.
pub fn get_timer_state() -> (state: TimerState)
    ensures
        state.is_inactive(),
{
    TimerState { active: false, title: None, elapsed_seconds: None }
}

/// Stops the timer. There is nothing to stop, so this succeeds and changes
/// nothing.
pub fn stop_timer() -> (outcome: Result<(), String>)
    ensures
        outcome == Ok::<(), String>(()),
{
    Ok(())
}

} // verus!
