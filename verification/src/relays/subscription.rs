//! A subscription while the client collects its stored events from every
//! relay before passing them on.
use vstd::prelude::*;
use crate::relays::model::RelayMessage;

verus! {

/// A subscription: the events collected so far (one per event id), the
/// relays asked and those that have sent all their stored events, when it
/// started (in milliseconds of a clock the caller keeps), whether its
/// collected events have been passed on, and the end-of-stored-events
/// message to pass on after them.
pub struct NostrSubscription {
    pub name: String,
    pub data: Vec<RelayMessage>,
    pub asked_relays: Vec<String>,
    pub responded_relays: Vec<String>,
    pub started: u64,
    pub done: bool,
    pub end_of_stored_events_message: Option<RelayMessage>,
}

impl NostrSubscription {
    /// A subscription named `name` started at `started`, with nothing
    /// collected yet.
    pub fn new(name: String, started: u64) -> (s: Self)
        ensures
            s.name == name,
            s.data@.len() == 0,
            s.asked_relays@.len() == 0,
            s.responded_relays@.len() == 0,
            s.started == started,
            !s.done,
            s.end_of_stored_events_message is None,
    {
        NostrSubscription {
            name,
            data: Vec::new(),
            asked_relays: Vec::new(),
            responded_relays: Vec::new(),
            started,
            done: false,
            end_of_stored_events_message: None,
        }
    }
}

} // verus!
