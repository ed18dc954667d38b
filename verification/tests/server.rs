use nostr_irc::irc::client_data::Identity;
use nostr_irc::irc::messages::{PeerMessage, ServerMessage};
use nostr_irc::irc::server::{IRCServer, ServerAction};
use nostr_irc::relays::model::{NostrEvent, RelayMessage, RelayMessageMetadata};

const SECRET: &str = "0000000000000000000000000000000000000000000000000000000000000001";
const PUBLIC: &str = "79be667ef9dcbbac55a06295ce870b07029bfcdb2dce28d959f2815b16f81798";
const CHANNEL: &str = "abcdef0123456789abcdef0123456789abcdef0123456789abcdef0123456789";
const OTHER: &str = "1111111111111111111111111111111111111111111111111111111111111111";

fn keys() -> Identity {
    Identity { secret_key: SECRET.to_string(), public_key: PUBLIC.to_string() }
}

fn to_peer(a: &ServerAction) -> (u64, &ServerMessage) {
    match a {
        ServerAction::ToPeer { peer_id, message } => (*peer_id, message),
        _ => panic!("expected a message to a peer"),
    }
}

fn event(id: &str, pubkey: &str, kind: u16, tags: Vec<Vec<&str>>, content: &str) -> NostrEvent {
    NostrEvent {
        id: id.to_string(),
        pubkey: pubkey.to_string(),
        created_at: 10,
        kind,
        tags: tags.into_iter().map(|t| t.into_iter().map(|s| s.to_string()).collect()).collect(),
        content: content.to_string(),
        sig: "sig".to_string(),
    }
}

fn relay_event(e: NostrEvent) -> RelayMessage {
    RelayMessage::Event { event: e, subscription_id: "sub".to_string() }
}

fn live() -> RelayMessageMetadata {
    RelayMessageMetadata { is_history: false }
}

/// A server with one peer that has given its keys.
fn server_with_peer() -> (IRCServer, u64) {
    let mut s = IRCServer::new();
    let peer_id = s.handle_irc_client();
    s.try_handle_peer_message(PeerMessage::SetKeys { peer_id, keys: keys() }).unwrap();
    (s, peer_id)
}

#[test]
fn peers_get_fresh_increasing_ids() {
    let mut s = IRCServer::new();
    assert_eq!(s.handle_irc_client(), 1);
    assert_eq!(s.handle_irc_client(), 2);
    assert_eq!(s.peers.len(), 2);
    assert!(s.peers[1].1.keys.is_none());
}

#[test]
fn keys_must_match() {
    let mut s = IRCServer::new();
    let peer_id = s.handle_irc_client();
    let wrong = Identity { secret_key: SECRET.to_string(), public_key: OTHER.to_string() };
    assert!(s.try_handle_peer_message(PeerMessage::SetKeys { peer_id, keys: wrong }).is_none());
    assert!(s.peers[0].1.keys.is_none());
    assert!(s.try_handle_peer_message(PeerMessage::SetKeys { peer_id, keys: keys() }).is_some());
    assert_eq!(s.peers[0].1.keys.as_ref().unwrap().public_key, PUBLIC);
}

#[test]
fn a_new_user_is_named_by_key_and_their_metadata_is_asked_for() {
    let (mut s, peer_id) = server_with_peer();
    let actions = s.try_handle_peer_message(PeerMessage::AddNickname { peer_id, public_key: PUBLIC.to_string() }).unwrap();
    assert_eq!(actions.len(), 1);
    match &actions[0] {
        ServerAction::Subscribe { subscription_id, filter } => {
            assert_eq!(subscription_id, &format!("{PUBLIC}-user-metadata"));
            assert_eq!(filter.authors, Some(vec![PUBLIC.to_string()]));
            assert_eq!(filter.kinds, Some(vec![0]));
            assert_eq!(filter.limit, Some(1));
            assert!(filter.ids.is_none() && filter.events.is_none());
        }
        _ => panic!("expected a subscription"),
    }
    let again = s.try_handle_peer_message(PeerMessage::AddNickname { peer_id, public_key: PUBLIC.to_string() }).unwrap();
    assert!(again.is_empty());
}

#[test]
fn joining_a_new_channel_subscribes_to_it_and_joining_twice_does_nothing() {
    let (mut s, peer_id) = server_with_peer();
    s.try_handle_peer_message(PeerMessage::AddNickname { peer_id, public_key: PUBLIC.to_string() }).unwrap();
    let actions = s.try_handle_peer_message(PeerMessage::AddChannel { peer_id, public_key: CHANNEL.to_string() }).unwrap();
    assert_eq!(actions.len(), 4);
    match to_peer(&actions[0]) {
        (p, ServerMessage::ChangeTopic { channel, topic }) => {
            assert_eq!(p, peer_id);
            assert_eq!(channel, CHANNEL);
            assert_eq!(topic, "Channel is loading...");
        }
        _ => panic!("expected the loading topic"),
    }
    match &actions[1] {
        ServerAction::Subscribe { subscription_id, filter } => {
            assert_eq!(subscription_id, &format!("{CHANNEL}-info"));
            assert_eq!(filter.ids, Some(vec![CHANNEL.to_string()]));
        }
        _ => panic!("expected the info subscription"),
    }
    match &actions[2] {
        ServerAction::Subscribe { subscription_id, filter } => {
            assert_eq!(subscription_id, &format!("{CHANNEL}-messages"));
            assert_eq!(filter.kinds, Some(vec![42]));
            assert_eq!(filter.events, Some(vec![CHANNEL.to_string()]));
            assert_eq!(filter.limit, Some(200));
        }
        _ => panic!("expected the messages subscription"),
    }
    match to_peer(&actions[3]) {
        (_, ServerMessage::PeerJoined { channel, nickname }) => {
            assert_eq!(channel, CHANNEL);
            assert_eq!(nickname, PUBLIC);
        }
        _ => panic!("expected the peer's own join"),
    }
    assert_eq!(s.channels.len(), 1);
    let again = s.try_handle_peer_message(PeerMessage::AddChannel { peer_id, public_key: CHANNEL.to_string() }).unwrap();
    assert!(again.is_empty());
    assert_eq!(s.peers[0].1.channels.len(), 1);
}

#[test]
fn a_peer_without_keys_cannot_join() {
    let mut s = IRCServer::new();
    let peer_id = s.handle_irc_client();
    assert!(s.try_handle_peer_message(PeerMessage::AddChannel { peer_id, public_key: CHANNEL.to_string() }).is_none());
    let actions = s.try_handle_peer_message(PeerMessage::LeaveChannel { peer_id, public_key: CHANNEL.to_string() }).unwrap();
    assert!(actions.is_empty());
}

#[test]
fn the_last_peer_leaving_ends_the_subscriptions_quietly() {
    let (mut s, peer_id) = server_with_peer();
    s.try_handle_peer_message(PeerMessage::AddNickname { peer_id, public_key: PUBLIC.to_string() }).unwrap();
    s.try_handle_peer_message(PeerMessage::AddChannel { peer_id, public_key: CHANNEL.to_string() }).unwrap();
    let actions = s.try_handle_peer_message(PeerMessage::LeaveChannel { peer_id, public_key: CHANNEL.to_string() }).unwrap();
    assert_eq!(actions.len(), 2);
    assert!(matches!(&actions[0], ServerAction::Unsubscribe { subscription_id } if *subscription_id == format!("{CHANNEL}-info")));
    assert!(matches!(&actions[1], ServerAction::Unsubscribe { subscription_id } if *subscription_id == format!("{CHANNEL}-messages")));
    assert!(s.peers[0].1.channels.is_empty());
}

#[test]
fn subscriptions_stay_while_another_peer_is_in_the_channel() {
    let (mut s, first) = server_with_peer();
    s.try_handle_peer_message(PeerMessage::AddChannel { peer_id: first, public_key: CHANNEL.to_string() }).unwrap();
    let second = s.handle_irc_client();
    s.try_handle_peer_message(PeerMessage::SetKeys { peer_id: second, keys: keys() }).unwrap();
    let joined = s.try_handle_peer_message(PeerMessage::AddChannel { peer_id: second, public_key: CHANNEL.to_string() }).unwrap();
    assert!(joined.iter().all(|a| !matches!(a, ServerAction::Subscribe { .. })));
    let left = s.try_handle_peer_message(PeerMessage::LeaveChannel { peer_id: first, public_key: CHANNEL.to_string() }).unwrap();
    assert!(left.is_empty());
    let left = s.try_handle_peer_message(PeerMessage::LeaveChannel { peer_id: second, public_key: CHANNEL.to_string() }).unwrap();
    assert_eq!(left.len(), 2);
}

#[test]
fn rejoining_an_empty_channel_asks_for_it_again() {
    let (mut s, peer_id) = server_with_peer();
    s.try_handle_peer_message(PeerMessage::AddChannel { peer_id, public_key: CHANNEL.to_string() }).unwrap();
    s.try_handle_nostr_message(relay_event(event("m1", OTHER, 42, vec![vec!["e", CHANNEL]], "kept")), live()).unwrap();
    s.try_handle_peer_message(PeerMessage::LeaveChannel { peer_id, public_key: CHANNEL.to_string() }).unwrap();
    let actions = s.try_handle_peer_message(PeerMessage::AddChannel { peer_id, public_key: CHANNEL.to_string() }).unwrap();
    assert_eq!(actions.len(), 3);
    assert!(matches!(to_peer(&actions[0]).1, ServerMessage::SendMessage { message, .. } if message == "kept"));
    assert!(matches!(&actions[1], ServerAction::Subscribe { subscription_id, .. } if *subscription_id == format!("{CHANNEL}-info")));
    assert!(matches!(&actions[2], ServerAction::Subscribe { subscription_id, .. } if *subscription_id == format!("{CHANNEL}-messages")));
}

#[test]
fn channel_messages_announce_new_authors_once() {
    let (mut s, peer_id) = server_with_peer();
    s.try_handle_peer_message(PeerMessage::AddChannel { peer_id, public_key: CHANNEL.to_string() }).unwrap();
    let msg = |id: &str, content: &str| relay_event(event(id, OTHER, 42, vec![vec!["e", CHANNEL]], content));
    let actions = s.try_handle_nostr_message(msg("m1", "hello"), live()).unwrap();
    assert_eq!(actions.len(), 3);
    assert!(matches!(&actions[0], ServerAction::Subscribe { subscription_id, .. } if *subscription_id == format!("{OTHER}-user-metadata")));
    assert!(matches!(to_peer(&actions[1]), (p, ServerMessage::Join { channel, nickname }) if p == peer_id && channel == CHANNEL && nickname == OTHER));
    assert!(matches!(to_peer(&actions[2]).1, ServerMessage::SendMessage { channel, message, nickname } if channel == CHANNEL && message == "hello" && nickname == OTHER));
    let actions = s.try_handle_nostr_message(msg("m2", "again"), live()).unwrap();
    assert_eq!(actions.len(), 1);
    assert!(matches!(to_peer(&actions[0]).1, ServerMessage::SendMessage { message, .. } if message == "again"));
    assert_eq!(s.channels[0].messages.len(), 2);
}

#[test]
fn own_live_messages_are_not_echoed_but_history_is_shown() {
    let (mut s, peer_id) = server_with_peer();
    s.try_handle_peer_message(PeerMessage::AddChannel { peer_id, public_key: CHANNEL.to_string() }).unwrap();
    s.try_handle_peer_message(PeerMessage::AddNickname { peer_id, public_key: PUBLIC.to_string() }).unwrap();
    let own = relay_event(event("m1", PUBLIC, 42, vec![vec!["e", CHANNEL]], "mine"));
    assert!(s.try_handle_nostr_message(own, live()).unwrap().is_empty());
    let own = relay_event(event("m2", PUBLIC, 42, vec![vec!["e", CHANNEL]], "old"));
    let actions = s.try_handle_nostr_message(own, RelayMessageMetadata { is_history: true }).unwrap();
    assert_eq!(actions.len(), 1);
    assert!(matches!(to_peer(&actions[0]).1, ServerMessage::SendMessage { message, .. } if message == "old"));
}

#[test]
fn history_is_replayed_to_a_later_joiner() {
    let (mut s, peer_id) = server_with_peer();
    s.try_handle_peer_message(PeerMessage::AddChannel { peer_id, public_key: CHANNEL.to_string() }).unwrap();
    s.try_handle_nostr_message(relay_event(event("m1", OTHER, 42, vec![vec!["e", CHANNEL]], "first")), live()).unwrap();
    let second = s.handle_irc_client();
    s.try_handle_peer_message(PeerMessage::SetKeys { peer_id: second, keys: keys() }).unwrap();
    let actions = s.try_handle_peer_message(PeerMessage::AddChannel { peer_id: second, public_key: CHANNEL.to_string() }).unwrap();
    assert_eq!(actions.len(), 1);
    assert!(matches!(to_peer(&actions[0]), (p, ServerMessage::SendMessage { message, nickname, .. }) if p == second && message == "first" && nickname == OTHER));
}

#[test]
fn messages_for_unknown_channels_are_ignored() {
    let (mut s, _) = server_with_peer();
    let e = relay_event(event("m1", OTHER, 42, vec![vec!["e", CHANNEL]], "x"));
    assert!(s.try_handle_nostr_message(e, live()).unwrap().is_empty());
    let e = relay_event(event("m1", OTHER, 42, vec![vec!["p", OTHER]], "x"));
    assert!(s.try_handle_nostr_message(e, live()).unwrap().is_empty());
    let e = relay_event(event("m1", OTHER, 42, vec![vec!["e", "not-an-id"]], "x"));
    assert!(s.try_handle_nostr_message(e, live()).is_none());
}

#[test]
fn metadata_renames_known_users_to_plain_names() {
    let (mut s, peer_id) = server_with_peer();
    s.try_handle_peer_message(PeerMessage::AddNickname { peer_id, public_key: OTHER.to_string() }).unwrap();
    let meta = relay_event(event("x", OTHER, 0, vec![], r#"{"name":"Bob Smith!"}"#));
    let actions = s.try_handle_nostr_message(meta, live()).unwrap();
    assert_eq!(actions.len(), 1);
    match to_peer(&actions[0]) {
        (p, ServerMessage::ChangeNickname { public_key, old_nickname, new_nickname }) => {
            assert_eq!(p, peer_id);
            assert_eq!(public_key, OTHER);
            assert_eq!(old_nickname, OTHER);
            assert_eq!(new_nickname, "BobSmith");
        }
        _ => panic!("expected a rename"),
    }
    let same = relay_event(event("y", OTHER, 0, vec![], r#"{"name":"BobSmith"}"#));
    assert!(s.try_handle_nostr_message(same, live()).unwrap().is_empty());
    let unknown = relay_event(event("z", PUBLIC, 0, vec![], r#"{"name":"Al"}"#));
    assert!(s.try_handle_nostr_message(unknown, live()).unwrap().is_empty());
    let broken = relay_event(event("w", OTHER, 0, vec![], "not json"));
    assert!(s.try_handle_nostr_message(broken, live()).is_none());
}

#[test]
fn a_known_user_joining_later_gets_their_name() {
    let (mut s, peer_id) = server_with_peer();
    s.try_handle_peer_message(PeerMessage::AddNickname { peer_id, public_key: OTHER.to_string() }).unwrap();
    s.try_handle_nostr_message(relay_event(event("x", OTHER, 0, vec![], r#"{"name":"bob"}"#)), live()).unwrap();
    let actions = s.try_handle_peer_message(PeerMessage::AddNickname { peer_id, public_key: OTHER.to_string() }).unwrap();
    assert_eq!(actions.len(), 1);
    assert!(matches!(to_peer(&actions[0]).1, ServerMessage::ChangeNickname { public_key, old_nickname, new_nickname } if public_key == OTHER && old_nickname == OTHER && new_nickname == "bob"));
}

#[test]
fn channel_creation_sets_the_topic() {
    let (mut s, peer_id) = server_with_peer();
    s.try_handle_peer_message(PeerMessage::AddChannel { peer_id, public_key: CHANNEL.to_string() }).unwrap();
    let created = relay_event(event(CHANNEL, OTHER, 40, vec![], r#"{"name":"rust","about":""}"#));
    let actions = s.try_handle_nostr_message(created, live()).unwrap();
    assert_eq!(actions.len(), 1);
    assert!(matches!(to_peer(&actions[0]).1, ServerMessage::ChangeTopic { channel, topic } if channel == CHANNEL && topic == "rust"));
    assert_eq!(s.channels[0].topic, Some("rust".to_string()));
    let unnamed = relay_event(event(CHANNEL, OTHER, 40, vec![], "{}"));
    let actions = s.try_handle_nostr_message(unnamed, live()).unwrap();
    assert!(matches!(to_peer(&actions[0]).1, ServerMessage::ChangeTopic { topic, .. } if topic == "No topic"));
}

/// The event as the nostr crate holds it, after checking that its id is the
/// one computed from its fields and that its signature checks.
fn verified(e: &NostrEvent) -> nostr::Event {
    let event = nostr::Event {
        id: e.id.parse().unwrap(),
        pubkey: e.pubkey.parse().unwrap(),
        created_at: e.created_at,
        kind: serde_json::from_str(&e.kind.to_string()).unwrap(),
        tags: e.tags.iter().map(|t| nostr::Tag::from(t.clone())).collect(),
        content: e.content.clone(),
        sig: e.sig.parse().unwrap(),
    };
    event.verify().unwrap();
    let id = nostr::EventBuilder::gen_id(&event.pubkey, event.created_at, &event.kind, &event.tags, &event.content);
    assert_eq!(id, event.id);
    event
}

#[test]
fn nicknames_and_messages_are_published_signed() {
    let (mut s, peer_id) = server_with_peer();
    let actions = s.try_handle_peer_message(PeerMessage::ChangeNickname {
        peer_id,
        public_key: PUBLIC.to_string(),
        nickname: "alice".to_string(),
    }).unwrap();
    assert_eq!(actions.len(), 1);
    assert!(matches!(&actions[0], ServerAction::SetMetadata { name, .. } if name == "alice"));
    let (signed, after) = s.publish(&actions[0]).unwrap();
    assert!(after.is_empty());
    assert_eq!(signed.pubkey, PUBLIC);
    assert_eq!(signed.kind, 0);
    assert!(signed.tags.is_empty());
    let metadata: nostr::Metadata = serde_json::from_str(&signed.content).unwrap();
    assert_eq!(metadata.name, Some("alice".to_string()));
    assert_eq!(signed.id.len(), 64);
    verified(&signed);

    let actions = s.try_handle_peer_message(PeerMessage::SendMessage {
        peer_id,
        channel: CHANNEL.to_string(),
        message: "hi all".to_string(),
    }).unwrap();
    assert!(matches!(&actions[0], ServerAction::ChannelMessage { channel, content, .. } if channel == CHANNEL && content == "hi all"));
    let (signed, after) = s.publish(&actions[0]).unwrap();
    assert!(after.is_empty());
    assert_eq!(signed.kind, 42);
    assert_eq!(signed.pubkey, PUBLIC);
    assert_eq!(signed.content, "hi all");
    assert_eq!(signed.tags, vec![vec!["e".to_string(), CHANNEL.to_string()]]);
    verified(&signed);
}

#[test]
fn a_created_channel_is_announced_to_its_creator_and_named_by_its_event() {
    let (mut s, peer_id) = server_with_peer();
    let actions = s.try_handle_peer_message(PeerMessage::CreateChannel { peer_id, name: "my-chan".to_string() }).unwrap();
    assert_eq!(actions.len(), 1);
    let (signed, after) = s.publish(&actions[0]).unwrap();
    assert_eq!(signed.kind, 40);
    assert!(signed.tags.is_empty());
    verified(&signed);
    assert_eq!(after.len(), 1);
    let id = signed.id.clone();
    assert!(matches!(to_peer(&after[0]), (p, ServerMessage::CreatedChannel { channel }) if p == peer_id && *channel == id));
    // the peer joins the new channel; when the creation event comes back
    // from a relay, the channel is named after it
    s.try_handle_peer_message(PeerMessage::AddChannel { peer_id, public_key: id.clone() }).unwrap();
    let actions = s.try_handle_nostr_message(relay_event(signed), live()).unwrap();
    assert_eq!(actions.len(), 1);
    assert!(matches!(to_peer(&actions[0]).1, ServerMessage::ChangeTopic { channel, topic } if *channel == id && topic == "my-chan"));
}

#[test]
fn a_published_message_comes_back_to_its_channel_without_echo() {
    let (mut s, peer_id) = server_with_peer();
    s.try_handle_peer_message(PeerMessage::AddChannel { peer_id, public_key: CHANNEL.to_string() }).unwrap();
    let actions = s.try_handle_peer_message(PeerMessage::SendMessage {
        peer_id,
        channel: CHANNEL.to_string(),
        message: "echo?".to_string(),
    }).unwrap();
    let (signed, _) = s.publish(&actions[0]).unwrap();
    let actions = s.try_handle_nostr_message(relay_event(signed), live()).unwrap();
    assert_eq!(actions.len(), 1);
    assert!(matches!(&actions[0], ServerAction::Subscribe { subscription_id, .. } if *subscription_id == format!("{PUBLIC}-user-metadata")));
    assert_eq!(s.channels[0].messages.len(), 1);
}

#[test]
fn names_nostr_refuses_are_not_taken() {
    let (mut s, peer_id) = server_with_peer();
    let nick = |n: &str| PeerMessage::ChangeNickname { peer_id, public_key: PUBLIC.to_string(), nickname: n.to_string() };
    assert!(s.try_handle_peer_message(nick("al")).is_none());
    assert!(s.try_handle_peer_message(nick("-alice")).is_none());
    assert!(s.try_handle_peer_message(nick("ali ce")).is_none());
    assert!(s.try_handle_peer_message(nick("a_l-i")).is_some());
    assert!(s.try_handle_peer_message(PeerMessage::CreateChannel { peer_id, name: "x!".to_string() }).is_none());
    let bad = ServerAction::SetMetadata { keys: keys(), name: "no!".to_string() };
    assert!(s.publish(&bad).is_none());
    let bad_keys = ServerAction::ChannelMessage {
        keys: Identity { secret_key: "zz".to_string(), public_key: PUBLIC.to_string() },
        channel: CHANNEL.to_string(),
        content: "x".to_string(),
    };
    assert!(s.publish(&bad_keys).is_none());
}

#[test]
fn a_peer_without_keys_publishes_nothing() {
    let mut s = IRCServer::new();
    let peer_id = s.handle_irc_client();
    let actions = s.try_handle_peer_message(PeerMessage::ChangeNickname { peer_id, public_key: PUBLIC.to_string(), nickname: "x".to_string() }).unwrap();
    assert!(actions.is_empty());
    let actions = s.try_handle_peer_message(PeerMessage::SendMessage { peer_id, channel: CHANNEL.to_string(), message: "m".to_string() }).unwrap();
    assert!(actions.is_empty());
}

#[test]
fn channel_metadata_sets_the_topic() {
    let (mut s, peer_id) = server_with_peer();
    s.try_handle_peer_message(PeerMessage::AddChannel { peer_id, public_key: CHANNEL.to_string() }).unwrap();
    let meta = relay_event(event("x", OTHER, 41, vec![vec!["e", CHANNEL]], r#"{"name":"renamed","about":"a"}"#));
    let actions = s.try_handle_nostr_message(meta, live()).unwrap();
    assert_eq!(actions.len(), 1);
    assert!(matches!(to_peer(&actions[0]), (p, ServerMessage::ChangeTopic { channel, topic }) if p == peer_id && channel == CHANNEL && topic == "renamed"));
    assert_eq!(s.channels[0].topic, Some("renamed".to_string()));
}

#[test]
fn channel_metadata_without_a_known_channel_or_name_is_ignored() {
    let (mut s, peer_id) = server_with_peer();
    s.try_handle_peer_message(PeerMessage::AddChannel { peer_id, public_key: CHANNEL.to_string() }).unwrap();
    let no_name = relay_event(event("x", OTHER, 41, vec![vec!["e", CHANNEL]], r#"{"about":"a"}"#));
    assert!(s.try_handle_nostr_message(no_name, live()).unwrap().is_empty());
    let not_json = relay_event(event("x", OTHER, 41, vec![vec!["e", CHANNEL]], "nope"));
    assert!(s.try_handle_nostr_message(not_json, live()).unwrap().is_empty());
    let unknown = relay_event(event("x", OTHER, 41, vec![vec!["e", OTHER]], r#"{"name":"n"}"#));
    assert!(s.try_handle_nostr_message(unknown, live()).unwrap().is_empty());
    let bad_tag = relay_event(event("x", OTHER, 41, vec![vec!["e", "zz"]], r#"{"name":"n"}"#));
    assert!(s.try_handle_nostr_message(bad_tag, live()).unwrap().is_empty());
    assert!(s.channels[0].topic.is_none());
}
