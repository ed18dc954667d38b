[package]
name = "nostr_irc"
version = "0.1.0"
edition = "2021"
publish = false

[dependencies]
nostr = "0.8"
serde_json = "=1.0.154"
tokio = { version = "=1.54.1", features = ["full"] }
tokio-stream = "=0.1.19"
tokio-tungstenite = { version = "=0.17.2", default-features = false, features = ["connect", "rustls-tls-webpki-roots"] }
futures-util = "=0.3.34"
async-stream = "=0.3.6"
log = "=0.4.35"
env_logger = "=0.9.3"
