# nostr_irc

An IRC server whose channels are nostr channels. Connect with an IRC
client, give a nostr secret key as the password, and `JOIN #<channel id>`:
channel messages (kind 42) from a set of relays show up as IRC lines, and
what you write is signed and published to every relay. `JOIN #<name>`
creates a channel of that name; `NICK` publishes your metadata.

## Layout

- `src/` is the verified library (Verus). It holds the protocol logic as
  state machines over plain values:
  - `irc::message` parses IRC lines, `irc::peer` decides what one IRC
    connection does with a line or with a message from the server, and
    `irc::server` keeps the users, channels and peers and decides what to
    tell peers and relays.
  - `relays::client` merges the streams of several relays: stored events of
    a new subscription are collected for five seconds and passed on in time
    order, and no event is passed on twice.
  - `outside` holds the calls into the nostr crate (ids, keys, metadata,
    relay addresses, signing), each with the contract it is trusted for.
  - `irc::properties` and `relays::properties` state and prove what holds
    across calls.
- `app/` is the program around it: sockets, tasks, timers and the
  conversions between the nostr crate's types and the library's.
- `tests/` runs the library on concrete values.
