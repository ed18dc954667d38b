use nostr_irc::irc::message::{get_parts, IRCMessage};

fn strings(v: &[&str]) -> Vec<String> {
    v.iter().map(|s| s.to_string()).collect()
}

#[test]
fn parts_keep_the_trailing_parameter_whole() {
    assert_eq!(
        get_parts("PRIVMSG #abc :hello world, how are you".to_string()),
        strings(&["PRIVMSG", "#abc", "hello world, how are you"])
    );
}

#[test]
fn parts_split_on_single_spaces() {
    assert_eq!(get_parts("NICK alice".to_string()), strings(&["NICK", "alice"]));
    assert_eq!(get_parts("a  b".to_string()), strings(&["a", "", "b"]));
}

#[test]
fn parts_of_the_empty_line() {
    assert_eq!(get_parts("".to_string()), strings(&[""]));
}

#[test]
fn a_later_colon_starts_the_trailing_parameter_again() {
    assert_eq!(get_parts("a :b :c d".to_string()), strings(&["a", "c d"]));
}

#[test]
fn a_colon_inside_the_trailing_parameter_is_kept() {
    assert_eq!(get_parts("PRIVMSG #x :see: this".to_string()), strings(&["PRIVMSG", "#x", "see: this"]));
}

#[test]
fn cap_with_a_version() {
    match IRCMessage::from_string("CAP LS 302".to_string()) {
        IRCMessage::CAP(s, v) => {
            assert_eq!(s, "LS");
            assert_eq!(v, Some(302));
        }
        m => panic!("unexpected {:?}", m),
    }
}

#[test]
fn cap_without_a_number() {
    match IRCMessage::from_string("CAP LS x302".to_string()) {
        IRCMessage::CAP(s, v) => {
            assert_eq!(s, "LS");
            assert_eq!(v, None);
        }
        m => panic!("unexpected {:?}", m),
    }
    match IRCMessage::from_string("CAP END".to_string()) {
        IRCMessage::CAP(s, v) => {
            assert_eq!(s, "END");
            assert_eq!(v, None);
        }
        m => panic!("unexpected {:?}", m),
    }
}

#[test]
fn cap_with_a_negative_number() {
    match IRCMessage::from_string("CAP LS -7".to_string()) {
        IRCMessage::CAP(_, v) => assert_eq!(v, Some(-7)),
        m => panic!("unexpected {:?}", m),
    }
}

#[test]
fn the_commands_with_one_parameter() {
    assert!(matches!(IRCMessage::from_string("NICK bob".to_string()), IRCMessage::NICK(n) if n == "bob"));
    assert!(matches!(IRCMessage::from_string("QUIT :bye all".to_string()), IRCMessage::QUIT(n) if n == "bye all"));
    assert!(matches!(IRCMessage::from_string("JOIN #a,#b".to_string()), IRCMessage::JOIN(n) if n == "#a,#b"));
    assert!(matches!(IRCMessage::from_string("PART #a".to_string()), IRCMessage::PART(n) if n == "#a"));
    assert!(matches!(IRCMessage::from_string("PASS secret".to_string()), IRCMessage::PASS(n) if n == "secret"));
}

#[test]
fn privmsg_and_user() {
    match IRCMessage::from_string("PRIVMSG #chan :hi there".to_string()) {
        IRCMessage::PRIVMSG(c, m) => {
            assert_eq!(c, "#chan");
            assert_eq!(m, "hi there");
        }
        m => panic!("unexpected {:?}", m),
    }
    match IRCMessage::from_string("USER alice 0 * :Alice Smith".to_string()) {
        IRCMessage::USER(a, b, c, d) => {
            assert_eq!((a.as_str(), b.as_str(), c.as_str(), d.as_str()), ("alice", "0", "*", "Alice Smith"));
        }
        m => panic!("unexpected {:?}", m),
    }
}

#[test]
fn list_and_unknown() {
    assert!(matches!(IRCMessage::from_string("LIST".to_string()), IRCMessage::LIST()));
    match IRCMessage::from_string("PING :server".to_string()) {
        IRCMessage::UNKNOWN(parts) => assert_eq!(parts, strings(&["PING", "server"])),
        m => panic!("unexpected {:?}", m),
    }
    match IRCMessage::from_string("".to_string()) {
        IRCMessage::UNKNOWN(parts) => assert_eq!(parts, strings(&[""])),
        m => panic!("unexpected {:?}", m),
    }
}

#[test]
fn commands_need_their_parameters() {
    assert!(!IRCMessage::has_required_parts(&"NICK".to_string()));
    assert!(!IRCMessage::has_required_parts(&"PRIVMSG #a".to_string()));
    assert!(!IRCMessage::has_required_parts(&"USER a b c".to_string()));
    assert!(IRCMessage::has_required_parts(&"USER a b c d".to_string()));
    assert!(IRCMessage::has_required_parts(&"CAP LS".to_string()));
    assert!(IRCMessage::has_required_parts(&"LIST".to_string()));
    assert!(IRCMessage::has_required_parts(&"WHATEVER".to_string()));
}

#[test]
fn a_trailing_text_may_itself_start_with_a_colon() {
    assert_eq!(get_parts("PRIVMSG #a ::) ok".to_string()), strings(&["PRIVMSG", "#a", ":) ok"]));
}
