use nostr_irc::relays::client::NostrClient;
use nostr_irc::relays::model::{ClientMessage, NostrEvent, RelayMessage, SubscriptionFilter};
use nostr_irc::relays::relay_connection::NostrRelayConnection;
use nostr_irc::relays::subscription::NostrSubscription;

const R1: &str = "wss://relay.one/";
const R2: &str = "wss://relay.two/";

fn client() -> NostrClient {
    NostrClient::new(vec!["wss://relay.one".to_string(), "wss://RELAY.two/".to_string()])
}

fn filter() -> SubscriptionFilter {
    SubscriptionFilter { ids: None, authors: None, kinds: Some(vec![42]), events: None, pubkeys: None, since: None, until: None, limit: Some(200) }
}

fn req(id: &str) -> ClientMessage {
    ClientMessage::Req { subscription_id: id.to_string(), filters: vec![filter()] }
}

fn ev(id: &str, sub: &str, at: u64) -> RelayMessage {
    RelayMessage::Event {
        event: NostrEvent {
            id: id.to_string(),
            pubkey: "p".to_string(),
            created_at: at,
            kind: 42,
            tags: vec![],
            content: format!("content of {id}"),
            sig: "s".to_string(),
        },
        subscription_id: sub.to_string(),
    }
}

fn eose(sub: &str) -> RelayMessage {
    RelayMessage::EndOfStoredEvents { subscription_id: sub.to_string() }
}

fn id_of(m: &RelayMessage) -> Option<String> {
    match m {
        RelayMessage::Event { event, .. } => Some(event.id.clone()),
        _ => None,
    }
}

#[test]
fn relay_addresses_are_normalised() {
    let c = client();
    assert_eq!(c.relays, vec![R1.to_string(), R2.to_string()]);
    assert!(c.subscriptions.is_empty() && c.seen_ids.is_empty());
    assert!(NostrClient::try_new(vec!["not a url".to_string()]).is_none());
    assert!(NostrClient::try_new(vec!["wss://ok.example".to_string()]).is_some());
    let _connection = NostrRelayConnection::new();
}

#[test]
fn a_subscription_is_asked_for_once() {
    let mut c = client();
    let targets = c.handle_client_message(&req("s1"), 1000);
    assert_eq!(targets, vec![R1.to_string(), R2.to_string()]);
    assert_eq!(c.subscriptions.len(), 1);
    assert_eq!(c.subscriptions[0].name, "s1");
    assert_eq!(c.subscriptions[0].started, 1000);
    assert_eq!(c.subscriptions[0].asked_relays, vec![R1.to_string(), R2.to_string()]);
    assert!(c.handle_client_message(&req("s1"), 2000).is_empty());
    assert_eq!(c.subscriptions.len(), 1);
    let close = ClientMessage::Close { subscription_id: "s1".to_string() };
    assert_eq!(c.handle_client_message(&close, 2000), vec![R1.to_string(), R2.to_string()]);
    assert!(c.subscriptions.is_empty());
    // a subscription that was ended is asked for again
    assert_eq!(c.handle_client_message(&req("s1"), 3000), vec![R1.to_string(), R2.to_string()]);
    assert_eq!(c.subscriptions[0].started, 3000);
}

#[test]
fn events_outside_subscriptions_pass_once() {
    let mut c = client();
    let first = c.handle_relay_message(R1.to_string(), ev("e1", "other", 5)).unwrap();
    assert_eq!(first.0, R1);
    assert_eq!(id_of(&first.1), Some("e1".to_string()));
    assert!(c.handle_relay_message(R2.to_string(), ev("e1", "other", 5)).is_none());
    assert_eq!(c.seen_ids, vec!["e1".to_string()]);
    let notice = RelayMessage::Notice { message: "hello".to_string() };
    assert!(matches!(c.handle_relay_message(R2.to_string(), notice), Some((r, RelayMessage::Notice { message })) if r == R2 && message == "hello"));
    assert!(c.handle_relay_message(R2.to_string(), eose("unknown")).is_none());
}

#[test]
fn stored_events_are_collected_then_passed_on_in_time_order() {
    let mut c = client();
    c.handle_client_message(&req("s1"), 1000);
    assert!(c.handle_relay_message(R1.to_string(), ev("late", "s1", 30)).is_none());
    assert!(c.handle_relay_message(R1.to_string(), ev("early", "s1", 10)).is_none());
    assert!(c.handle_relay_message(R2.to_string(), ev("early", "s1", 10)).is_none());
    assert!(c.handle_relay_message(R2.to_string(), ev("middle", "s1", 20)).is_none());
    assert_eq!(c.subscriptions[0].data.len(), 3);
    assert!(c.handle_relay_message(R2.to_string(), eose("s1")).is_none());
    assert_eq!(c.subscriptions[0].responded_relays, vec![R2.to_string()]);
    // after its end of stored events, a relay's events pass directly
    let live = c.handle_relay_message(R2.to_string(), ev("new", "s1", 40)).unwrap();
    assert_eq!(id_of(&live.1), Some("new".to_string()));

    assert!(c.check_subscriptions(5000).is_empty());
    assert!(!c.subscriptions[0].done);

    let out = c.check_subscriptions(7000);
    let ids: Vec<Option<String>> = out.iter().map(|(_, m)| id_of(m)).collect();
    assert_eq!(ids, vec![Some("early".to_string()), Some("middle".to_string()), Some("late".to_string()), None]);
    assert!(out.iter().all(|(r, _)| r == R2));
    assert!(matches!(&out[3].1, RelayMessage::EndOfStoredEvents { subscription_id } if subscription_id == "s1"));
    assert!(c.subscriptions[0].done);
    assert!(c.subscriptions[0].data.is_empty());
    assert!(c.subscriptions[0].end_of_stored_events_message.is_none());

    // a finished subscription passes nothing more and drops what comes late
    assert!(c.check_subscriptions(9000).is_empty());
    assert!(c.handle_relay_message(R1.to_string(), ev("stray", "s1", 50)).is_none());
    assert_eq!(c.subscriptions[0].data.len(), 1);
    assert!(c.check_subscriptions(9500).is_empty());
    assert!(c.subscriptions[0].data.is_empty());
}

#[test]
fn events_already_passed_are_not_passed_again_by_the_check() {
    let mut c = client();
    c.handle_relay_message(R1.to_string(), ev("dup", "other", 1)).unwrap();
    c.handle_client_message(&req("s2"), 0);
    c.handle_relay_message(R1.to_string(), ev("dup", "s2", 1));
    c.handle_relay_message(R1.to_string(), ev("fresh", "s2", 2));
    c.handle_relay_message(R1.to_string(), eose("s2"));
    let out = c.check_subscriptions(6000);
    let ids: Vec<Option<String>> = out.iter().map(|(_, m)| id_of(m)).collect();
    assert_eq!(ids, vec![Some("fresh".to_string()), None]);
}

#[test]
fn without_any_relay_finished_the_end_comes_from_the_first_relay() {
    let mut c = client();
    c.handle_client_message(&req("s3"), 100);
    c.handle_relay_message(R2.to_string(), ev("x", "s3", 1));
    let out = c.check_subscriptions(5101);
    assert_eq!(out.len(), 1);
    assert_eq!(out[0].0, R1);
    assert!(matches!(&out[0].1, RelayMessage::EndOfStoredEvents { subscription_id } if subscription_id == "s3"));
    assert!(c.subscriptions[0].done);
    assert_eq!(c.seen_ids.len(), 0);
}

#[test]
fn a_new_subscription_is_empty() {
    let s = NostrSubscription::new("n".to_string(), 42);
    assert_eq!(s.name, "n");
    assert_eq!(s.started, 42);
    assert!(!s.done && s.data.is_empty() && s.asked_relays.is_empty() && s.responded_relays.is_empty());
    assert!(s.end_of_stored_events_message.is_none());
}

#[test]
fn relay_frames_are_read_as_relay_messages() {
    let conn = NostrRelayConnection::new();
    let notice = conn.forward_relay_message(R1.to_string(), r#"["NOTICE","slow down"]"#.to_string());
    assert!(matches!(notice, Some((r, RelayMessage::Notice { message })) if r == R1 && message == "slow down"));
    let eose = conn.forward_relay_message(R2.to_string(), r#"["EOSE","s1"]"#.to_string());
    assert!(matches!(eose, Some((r, RelayMessage::EndOfStoredEvents { subscription_id })) if r == R2 && subscription_id == "s1"));
    assert!(conn.forward_relay_message(R1.to_string(), "not json".to_string()).is_none());
    assert!(conn.forward_relay_message(R1.to_string(), r#"["WHAT"]"#.to_string()).is_none());

    let keys: nostr::Keys = "0000000000000000000000000000000000000000000000000000000000000001".parse().unwrap();
    let signed = nostr::EventBuilder::new(nostr::Kind::Base(nostr::KindBase::ChannelMessage), "hello", &[])
        .to_event(&keys)
        .unwrap();
    let frame = format!(r#"["EVENT","s1",{}]"#, signed.as_json().unwrap());
    match conn.forward_relay_message(R1.to_string(), frame) {
        Some((r, RelayMessage::Event { event, subscription_id })) => {
            assert_eq!(r, R1);
            assert_eq!(subscription_id, "s1");
            assert_eq!(event.id, signed.id.to_string());
            assert_eq!(event.pubkey, "79be667ef9dcbbac55a06295ce870b07029bfcdb2dce28d959f2815b16f81798");
            assert_eq!(event.kind, 42);
            assert_eq!(event.content, "hello");
            assert_eq!(event.created_at, signed.created_at);
            assert_eq!(event.sig, signed.sig.to_string());
        }
        _ => panic!("expected an event"),
    }
}

#[test]
fn a_check_without_relays_is_refused_only_when_it_must_close_a_subscription() {
    let mut c = NostrClient::new(vec![]);
    assert!(c.handle_client_message(&req("s"), 1000).is_empty());
    assert!(c.try_check_subscriptions(2000).unwrap().is_empty());
    assert!(c.try_check_subscriptions(7000).is_none());
    assert!(!c.subscriptions[0].done);
    let mut c = client();
    c.handle_client_message(&req("s"), 1000);
    assert_eq!(c.try_check_subscriptions(7000).unwrap().len(), 1);
}

#[test]
fn an_empty_json_array_is_no_readable_frame() {
    let conn = NostrRelayConnection::new();
    assert!(conn.try_forward_relay_message(R1.to_string(), "[]".to_string()).is_none());
    assert!(conn.try_forward_relay_message(R1.to_string(), " [ ] ".to_string()).is_none());
    let empty = conn.try_forward_relay_message(R1.to_string(), "".to_string()).unwrap();
    assert!(matches!(empty, Some((r, RelayMessage::Empty)) if r == R1));
    let notice = conn.try_forward_relay_message(R1.to_string(), r#"["NOTICE","x"]"#.to_string()).unwrap();
    assert!(matches!(notice, Some((_, RelayMessage::Notice { message })) if message == "x"));
    assert!(conn.try_forward_relay_message(R1.to_string(), "{}".to_string()).unwrap().is_none());
}

#[test]
fn a_relay_given_twice_is_kept_and_sent_to_once() {
    let mut c = NostrClient::new(vec![
        "wss://relay.one".to_string(),
        "wss://relay.one/".to_string(),
        "wss://relay.two".to_string(),
        "WSS://RELAY.ONE".to_string(),
    ]);
    assert_eq!(c.relays, vec![R1.to_string(), R2.to_string()]);
    assert_eq!(c.handle_client_message(&req("s"), 0), vec![R1.to_string(), R2.to_string()]);
    assert_eq!(c.subscriptions[0].asked_relays, vec![R1.to_string(), R2.to_string()]);
}
