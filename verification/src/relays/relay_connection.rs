//! The connection to one relay. Its network input and output belong to the
//! program around the library; what it reads is taken here.
use vstd::prelude::*;
use crate::outside::{json_array_len, parse_relay_message, relay_frame_readable, relay_message_of};
use crate::relays::model::RelayMessage;

verus! {

/// A connection to a relay.
pub struct NostrRelayConnection {}

impl NostrRelayConnection {
    pub fn new() -> (c: Self) {
        NostrRelayConnection {}
    }

    /// Reads a text frame that the relay at `url` sent: a relay message is
    /// handed on with the relay it came from; text that is no relay message
    /// is dropped. A non-empty frame that is a JSON array without elements
    /// is left out (see [`relay_frame_readable`]).
    pub fn forward_relay_message(&self, url: String, text: String) -> (r: Option<
        (String, RelayMessage),
    >)
        requires
            relay_frame_readable(text@),
        ensures
            r == match relay_message_of(text@) {
                Some(m) => Some((url, m)),
                None => None,
            },
    {
        match parse_relay_message(text.as_str()) {
            Some(m) => Some((url, m)),
            None => None,
        }
    }

    /// [`NostrRelayConnection::forward_relay_message`] where the frame can
    /// be read; `None` where it cannot (a non-empty JSON array without
    /// elements).
    pub fn try_forward_relay_message(&self, url: String, text: String) -> (r: Option<
        Option<(String, RelayMessage)>,
    >)
        ensures
            r is Some == relay_frame_readable(text@),
            r matches Some(f) ==> f == match relay_message_of(text@) {
                Some(m) => Some((url, m)),
                None => None,
            },
    {
        if !text.as_str().is_empty() {
            match json_array_len(text.as_str()) {
                Some(n) => {
                    if n == 0 {
                        return None;
                    }
                },
                None => {},
            }
        }
        Some(self.forward_relay_message(url, text))
    }
}

} // verus!
