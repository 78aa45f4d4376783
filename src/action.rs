//! What an interaction handler asks of the map underneath it.

use vstd::prelude::*;

verus! {

/// Represents the result of an interaction handler.
///
/// It controls whether the map underneath should also receive the event
/// (e.g. for panning) or whether the event is captured.
#[derive(Debug, Clone, Copy, PartialEq, Eq)]
pub enum Action<Message> {
    /// No action taken. Event propagates to map.
    Ignore,
    /// Publish a message, but let the event propagate to the map.
    Publish(Message),
    /// Publish a message and capture the event (preventing map interaction).
    Capture(Message),
}

impl<Message> Action<Message> {
    /// Whether the event still reaches the map.
    pub fn propagates(&self) -> (r: bool)
        ensures
            r == !(self is Capture),
    {
        !matches!(self, Action::Capture(_))
    }
}

} // verus!
