//! An IRC server that speaks nostr on the other side: IRC commands become
//! nostr requests and events, and nostr events from a set of relays become
//! IRC lines. This crate holds the protocol logic; the network loops drive it.
pub mod text;
pub mod irc;
pub mod outside;
pub mod relays;
pub mod lookup;
