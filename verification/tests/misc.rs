use nostr_irc::irc::channel::IRCChannel;
use nostr_irc::irc::nickname::IRCNickname;
use nostr_irc::irc::server::PeerInfo;
use nostr_irc::text::{check_metadata_name, parse_i32};

#[test]
fn a_new_channel_is_empty_and_warming_up() {
    let c = IRCChannel::new("abc".to_string());
    assert_eq!(c.id, "abc");
    assert!(c.topic.is_none());
    assert!(c.warming_up && !c.got_metadata && !c.got_messages && !c.got_nicks);
    assert!(c.known_users.is_empty() && c.warm_up_events.is_empty() && c.messages.is_empty());
}

#[test]
fn the_displayed_name_is_the_nick_or_the_key() {
    assert_eq!(IRCNickname::Nick("bob".to_string()).get_displayed_name(), "bob");
    assert_eq!(IRCNickname::Key("abcd".to_string()).get_displayed_name(), "abcd");
}

#[test]
fn a_new_peer_info_has_nothing() {
    let p = PeerInfo::new();
    assert!(p.keys.is_none() && p.channels.is_empty());
}

#[test]
fn metadata_names_follow_the_pattern() {
    assert!(check_metadata_name("abc"));
    assert!(check_metadata_name("a-b_c9"));
    assert!(!check_metadata_name("ab"));
    assert!(!check_metadata_name("_abc"));
    assert!(!check_metadata_name("abc-"));
    assert!(!check_metadata_name("ab c"));
    assert!(!check_metadata_name("héllo"));
}

#[test]
fn numbers_are_read_as_std_reads_them() {
    for s in ["0", "7", "+12", "-12", "2147483647", "-2147483648", "007", "-0"] {
        assert_eq!(parse_i32(s), s.parse::<i32>().ok(), "{s}");
    }
    for s in ["", "+", "-", "2147483648", "-2147483649", "99999999999999", "12a", " 1", "1 ", "--1", "+-1", "١"] {
        assert_eq!(parse_i32(s), None, "{s}");
        assert_eq!(s.parse::<i32>().ok(), None, "{s}");
    }
}
