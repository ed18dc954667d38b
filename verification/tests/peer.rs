use nostr_irc::irc::client_data::IRCClientData;
use nostr_irc::irc::messages::{PeerMessage, ServerMessage};
use nostr_irc::irc::peer::{IRCPeer, PeerAction};

const SECRET: &str = "0000000000000000000000000000000000000000000000000000000000000001";
const PUBLIC: &str = "79be667ef9dcbbac55a06295ce870b07029bfcdb2dce28d959f2815b16f81798";
const CHANNEL_UPPER: &str = "ABCDEF0123456789ABCDEF0123456789ABCDEF0123456789ABCDEF0123456789";
const CHANNEL: &str = "abcdef0123456789abcdef0123456789abcdef0123456789abcdef0123456789";

fn write(a: &PeerAction) -> String {
    match a {
        PeerAction::Write(line) => line.clone(),
        PeerAction::Send(_) => panic!("expected a line for the IRC client"),
    }
}

fn sent(a: &PeerAction) -> &PeerMessage {
    match a {
        PeerAction::Send(m) => m,
        PeerAction::Write(_) => panic!("expected a message for the server"),
    }
}

fn greeted_peer() -> IRCPeer {
    let mut peer = IRCPeer::new(7);
    peer.try_handle_irc_message(format!("PASS {SECRET}")).unwrap();
    peer
}

#[test]
fn client_data_takes_a_secret_key() {
    let mut d = IRCClientData::new();
    assert_eq!(d.get_public_key(), None);
    assert!(!d.try_set_private_key("not a key".to_string()));
    assert_eq!(d.get_private_key(), None);
    assert!(d.try_set_private_key(SECRET.to_string()));
    assert_eq!(d.get_private_key(), Some(SECRET.to_string()));
    assert_eq!(d.get_public_key(), Some(PUBLIC.to_string()));
    let id = d.identity.unwrap();
    assert_eq!(id.secret_key, SECRET);
    assert_eq!(id.public_key, PUBLIC);
}

#[test]
fn cap_ls_is_acknowledged() {
    let mut peer = IRCPeer::new(1);
    let actions = peer.try_handle_irc_message("CAP LS 302".to_string()).unwrap();
    assert_eq!(actions.len(), 1);
    assert_eq!(write(&actions[0]), "CAP * LS\r\n");
    let actions = peer.try_handle_irc_message("CAP END".to_string()).unwrap();
    assert!(actions.is_empty());
}

#[test]
fn quit_is_echoed() {
    let mut peer = IRCPeer::new(1);
    let actions = peer.try_handle_irc_message("QUIT :bye".to_string()).unwrap();
    assert_eq!(actions.len(), 1);
    assert_eq!(write(&actions[0]), "QUIT\r\n");
}

#[test]
fn pass_sets_the_keys_and_asks_for_the_name() {
    let mut peer = IRCPeer::new(7);
    let actions = peer.try_handle_irc_message(format!("PASS {SECRET}")).unwrap();
    assert_eq!(actions.len(), 2);
    match sent(&actions[0]) {
        PeerMessage::AddNickname { peer_id, public_key } => {
            assert_eq!(*peer_id, 7);
            assert_eq!(public_key, PUBLIC);
        }
        _ => panic!("expected AddNickname"),
    }
    match sent(&actions[1]) {
        PeerMessage::SetKeys { peer_id, keys } => {
            assert_eq!(*peer_id, 7);
            assert_eq!(keys.secret_key, SECRET);
            assert_eq!(keys.public_key, PUBLIC);
        }
        _ => panic!("expected SetKeys"),
    }
    assert_eq!(peer.client_data.get_public_key(), Some(PUBLIC.to_string()));
}

#[test]
fn a_password_that_is_no_secret_key_is_refused() {
    let mut peer = IRCPeer::new(7);
    assert!(peer.try_handle_irc_message("PASS hunter2".to_string()).is_none());
    assert_eq!(peer.client_data.get_public_key(), None);
}

#[test]
fn nick_needs_keys() {
    let mut peer = IRCPeer::new(7);
    assert!(peer.try_handle_irc_message("NICK alice".to_string()).unwrap().is_empty());
    let mut peer = greeted_peer();
    let actions = peer.try_handle_irc_message("NICK alice".to_string()).unwrap();
    assert_eq!(actions.len(), 1);
    match sent(&actions[0]) {
        PeerMessage::ChangeNickname { peer_id, public_key, nickname } => {
            assert_eq!(*peer_id, 7);
            assert_eq!(public_key, PUBLIC);
            assert_eq!(nickname, "alice");
        }
        _ => panic!("expected ChangeNickname"),
    }
}

#[test]
fn join_names_channels_by_id_or_creates_them() {
    let mut peer = IRCPeer::new(3);
    let actions = peer.try_handle_irc_message(format!("JOIN #{CHANNEL_UPPER},#lobby")).unwrap();
    assert_eq!(actions.len(), 2);
    match sent(&actions[0]) {
        PeerMessage::AddChannel { peer_id, public_key } => {
            assert_eq!(*peer_id, 3);
            assert_eq!(public_key, CHANNEL);
        }
        _ => panic!("expected AddChannel"),
    }
    match sent(&actions[1]) {
        PeerMessage::CreateChannel { peer_id, name } => {
            assert_eq!(*peer_id, 3);
            assert_eq!(name, "lobby");
        }
        _ => panic!("expected CreateChannel"),
    }
}

#[test]
fn join_without_hash_is_refused() {
    let mut peer = IRCPeer::new(3);
    assert!(peer.try_handle_irc_message("JOIN lobby".to_string()).is_none());
}

#[test]
fn part_and_privmsg_take_channel_ids() {
    let mut peer = IRCPeer::new(3);
    let actions = peer.try_handle_irc_message(format!("PART #{CHANNEL}")).unwrap();
    assert_eq!(actions.len(), 1);
    assert!(matches!(sent(&actions[0]), PeerMessage::LeaveChannel { peer_id: 3, public_key } if public_key == CHANNEL));
    let actions = peer.try_handle_irc_message(format!("PRIVMSG #{CHANNEL} :hello there")).unwrap();
    assert_eq!(actions.len(), 1);
    match sent(&actions[0]) {
        PeerMessage::SendMessage { peer_id, channel, message } => {
            assert_eq!(*peer_id, 3);
            assert_eq!(channel, CHANNEL);
            assert_eq!(message, "hello there");
        }
        _ => panic!("expected SendMessage"),
    }
    assert!(peer.try_handle_irc_message("PART #lobby".to_string()).is_none());
    assert!(peer.try_handle_irc_message("PRIVMSG #lobby :hi".to_string()).is_none());
    assert!(peer.try_handle_irc_message("PRIVMSG".to_string()).is_none());
}

#[test]
fn other_commands_do_nothing() {
    let mut peer = IRCPeer::new(3);
    assert!(peer.try_handle_irc_message("LIST".to_string()).unwrap().is_empty());
    assert!(peer.try_handle_irc_message("USER a 0 * :A".to_string()).unwrap().is_empty());
    assert!(peer.try_handle_irc_message("PING :x".to_string()).unwrap().is_empty());
}

#[test]
fn the_first_own_rename_greets() {
    let mut peer = greeted_peer();
    let rename = |new: &str| ServerMessage::ChangeNickname {
        public_key: PUBLIC.to_string(),
        old_nickname: PUBLIC.to_string(),
        new_nickname: new.to_string(),
    };
    let actions = peer.handle_server_message(rename("alice"));
    assert_eq!(actions.len(), 2);
    assert_eq!(write(&actions[0]), "001 alice :Welcome to the Internet Relay Network");
    assert_eq!(write(&actions[1]), "NICK alice\r\n");
    assert!(peer.sent_welcome);
    let actions = peer.handle_server_message(rename("alicia"));
    assert_eq!(actions.len(), 1);
    assert_eq!(write(&actions[0]), "NICK alicia\r\n");
}

#[test]
fn renames_need_keys() {
    let mut peer = IRCPeer::new(3);
    let actions = peer.handle_server_message(ServerMessage::ChangeNickname {
        public_key: PUBLIC.to_string(),
        old_nickname: "a".to_string(),
        new_nickname: "b".to_string(),
    });
    assert!(actions.is_empty());
    assert!(!peer.sent_welcome);
}

#[test]
fn server_messages_become_irc_lines() {
    let mut peer = greeted_peer();
    let a = peer.handle_server_message(ServerMessage::ChangeNickname {
        public_key: "someone".to_string(),
        old_nickname: "old".to_string(),
        new_nickname: "new".to_string(),
    });
    assert_eq!(write(&a[0]), ":old NICK new\r\n");
    let a = peer.handle_server_message(ServerMessage::SendMessage {
        channel: "c".to_string(),
        message: "hi you".to_string(),
        nickname: "bob".to_string(),
    });
    assert_eq!(write(&a[0]), ":bob PRIVMSG #c :hi you\r\n");
    let a = peer.handle_server_message(ServerMessage::ChangeTopic { channel: "c".to_string(), topic: "T".to_string() });
    assert_eq!(write(&a[0]), ":admin TOPIC #c :T\r\n");
    let a = peer.handle_server_message(ServerMessage::PeerJoined { channel: "c".to_string(), nickname: "n".to_string() });
    assert_eq!(a.len(), 3);
    assert_eq!(write(&a[0]), ":n JOIN #c\r\n");
    assert_eq!(write(&a[1]), "353 n = #c :n\r\n");
    assert_eq!(write(&a[2]), "366 n = #c :End of NAMES list\r\n");
    let a = peer.handle_server_message(ServerMessage::PeerLeft { channel: "c".to_string(), nickname: "n".to_string() });
    assert_eq!(write(&a[0]), ":n PART #c\r\n");
    let a = peer.handle_server_message(ServerMessage::Join { channel: "c".to_string(), nickname: "m".to_string() });
    assert_eq!(write(&a[0]), ":m JOIN #c\r\n");
    let a = peer.handle_server_message(ServerMessage::CreatedChannel { channel: CHANNEL.to_string() });
    assert!(matches!(sent(&a[0]), PeerMessage::AddChannel { peer_id: 7, public_key } if public_key == CHANNEL));
}
