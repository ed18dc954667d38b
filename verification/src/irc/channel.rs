//! A nostr channel as the IRC server keeps it.
use vstd::prelude::*;
use crate::irc::messages::ServerMessage;
use crate::relays::model::{ClientMessage, RelayMessage};

verus! {

/// Something that reaches a channel: a line from IRC, a relay message or a
/// client message.
pub enum IRCChannelMessage {
    IRC(String),
    Relay(RelayMessage),
    Client(ClientMessage),
}

/// A channel: its id (lowercase hexadecimal), its topic once known, the
/// users seen writing in it and the messages written so far, which are
/// replayed to whoever joins.
pub struct IRCChannel {
    pub id: String,
    pub topic: Option<String>,
    pub warming_up: bool,
    pub got_metadata: bool,
    pub got_messages: bool,
    pub got_nicks: bool,
    pub known_users: Vec<String>,
    pub warm_up_events: Vec<RelayMessage>,
    pub messages: Vec<ServerMessage>,
}

impl IRCChannel {
    /// Whether `c` is a channel just opened with id `id`: no topic, no users,
    /// no messages, still warming up.
    pub open spec fn is_fresh(c: IRCChannel, id: String) -> bool {
        &&& c.id == id
        &&& c.topic is None
        &&& c.warming_up
        &&& !c.got_metadata
        &&& !c.got_messages
        &&& !c.got_nicks
        &&& c.known_users@.len() == 0
        &&& c.warm_up_events@.len() == 0
        &&& c.messages@.len() == 0
    }

    pub fn new(id: String) -> (c: Self)
        ensures
            Self::is_fresh(c, id),
    {
        IRCChannel {
            id,
            topic: None,
            warming_up: true,
            got_metadata: false,
            got_messages: false,
            got_nicks: false,
            known_users: Vec::new(),
            warm_up_events: Vec::new(),
            messages: Vec::new(),
        }
    }
}

} // verus!
