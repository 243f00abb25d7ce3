//! The developer tools command.
//!
//! Toggling the developer tools is the user interface's work. The command
//! only notifies it, with an event that carries no payload and expects no
//! answer.

use vstd::prelude::*;

verus! {

/// The name of the event that asks the user interface to toggle its
/// developer tools.
pub const DEVTOOLS_EVENT: &'static str = "open-devtools";

/// Settles the outcome of the command once the event has been sent.
///
/// `emitted` tells whether the event could be handed to the user interface.
/// Nobody waits for an answer to it, so the command succeeds either way.
#[allow(unused_variables)]
pub fn toggle_devtools(emitted: bool) -> (outcome: Result<(), String>)
    ensures
        outcome == Ok::<(), String>(()),
{
    Ok(())
}

} // verus!
