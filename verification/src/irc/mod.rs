//! The IRC side: command parsing, the per-connection peer and the server
//! that joins peers to nostr channels.
pub mod channel;
pub mod client_data;
pub mod message;
pub mod messages;
pub mod nickname;
pub mod peer;
pub mod properties;
pub mod server;
