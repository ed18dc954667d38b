//! The nostr side: the messages, the subscriptions and the client that merges
//! the streams of several relays.
pub mod client;
pub mod model;
pub mod properties;
pub mod relay_connection;
pub mod subscription;
