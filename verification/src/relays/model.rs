//! The nostr messages that the protocol logic reads and writes, held as
//! plain values: ids and keys as their lowercase hexadecimal text, kinds as
//! numbers, tags as lists of strings.
use vstd::prelude::*;

verus! {

/// The kind number of user metadata events.
pub const KIND_METADATA: u16 = 0;

/// The kind number of channel creation events.
pub const KIND_CHANNEL_CREATION: u16 = 40;

/// The kind number of channel metadata events.
pub const KIND_CHANNEL_METADATA: u16 = 41;

/// The kind number of channel message events.
pub const KIND_CHANNEL_MESSAGE: u16 = 42;

/// A signed nostr event.
pub struct NostrEvent {
    pub id: String,
    pub pubkey: String,
    pub created_at: u64,
    pub kind: u16,
    pub tags: Vec<Vec<String>>,
    pub content: String,
    pub sig: String,
}

/// A message from a relay. `OkResult` is the relay's `OK` answer to a
/// published event.
pub enum RelayMessage {
    Event { event: NostrEvent, subscription_id: String },
    Notice { message: String },
    EndOfStoredEvents { subscription_id: String },
    OkResult { event_id: String, status: bool, message: String },
    Empty,
}

/// Which events a subscription asks for; an absent field does not restrict.
pub struct SubscriptionFilter {
    pub ids: Option<Vec<String>>,
    pub authors: Option<Vec<String>>,
    pub kinds: Option<Vec<u16>>,
    pub events: Option<Vec<String>>,
    pub pubkeys: Option<Vec<String>>,
    pub since: Option<u64>,
    pub until: Option<u64>,
    pub limit: Option<u16>,
}

/// A [`SubscriptionFilter`] with its strings taken as character sequences.
pub struct FilterView {
    pub ids: Option<Seq<Seq<char>>>,
    pub authors: Option<Seq<Seq<char>>>,
    pub kinds: Option<Seq<u16>>,
    pub events: Option<Seq<Seq<char>>>,
    pub pubkeys: Option<Seq<Seq<char>>>,
    pub since: Option<u64>,
    pub until: Option<u64>,
    pub limit: Option<u16>,
}

/// The texts of an optional list of strings.
pub open spec fn opt_texts(v: Option<Vec<String>>) -> Option<Seq<Seq<char>>> {
    match v {
        Some(v) => Some(v@.map_values(|s: String| s@)),
        None => None,
    }
}

impl View for SubscriptionFilter {
    type V = FilterView;

    open spec fn view(&self) -> FilterView {
        FilterView {
            ids: opt_texts(self.ids),
            authors: opt_texts(self.authors),
            kinds: match self.kinds {
                Some(k) => Some(k@),
                None => None,
            },
            events: opt_texts(self.events),
            pubkeys: opt_texts(self.pubkeys),
            since: self.since,
            until: self.until,
            limit: self.limit,
        }
    }
}

/// A message from a client to relays: a signed event to publish, a
/// subscription request, or the end of a subscription.
pub enum ClientMessage {
    Event { event: NostrEvent },
    Req { subscription_id: String, filters: Vec<SubscriptionFilter> },
    Close { subscription_id: String },
}

/// How a relay message reached the server: `is_history` when it was
/// collected for a new subscription before being passed on.
pub struct RelayMessageMetadata {
    pub is_history: bool,
}

} // verus!
