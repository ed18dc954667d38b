//! One IRC connection: what to answer to the user's commands and how to
//! render what the server reports.
use vstd::prelude::*;
use crate::irc::client_data::{IRCClientData, Identity};
use crate::irc::message::{has_required_parts, parse_line, IRCMessage, IRCMessageView};
use crate::irc::messages::{IdentityView, PeerMessage, PeerMessageView, ServerMessage};
use crate::outside::{
    channel_id_from_text, parse_channel_id, public_key_from_secret, public_key_of_secret,
};
use crate::text::{after_first, split_after_first, split_on, split_on_char};

verus! {

broadcast use vstd::string::group_string_axioms;

/// Something a peer does: write a line to its IRC client, or send a
/// message to the server.
pub enum PeerAction {
    Write(String),
    Send(PeerMessage),
}

/// A [`PeerAction`] with its strings taken as character sequences.
pub enum PeerActionView {
    Write(Seq<char>),
    Send(PeerMessageView),
}

impl View for PeerAction {
    type V = PeerActionView;

    open spec fn view(&self) -> PeerActionView {
        match self {
            PeerAction::Write(line) => PeerActionView::Write(line@),
            PeerAction::Send(m) => PeerActionView::Send(m@),
        }
    }
}

/// The views of a list of actions.
pub open spec fn actions_view(v: Seq<PeerAction>) -> Seq<PeerActionView> {
    v.map_values(|a: PeerAction| a@)
}

/// The state of one IRC connection that its decisions depend on.
pub struct IRCPeer {
    pub peer_id: u64,
    pub client_data: IRCClientData,
    pub sent_welcome: bool,
}

/// The channel id that a `#name` entry of a `JOIN`, `PART` or `PRIVMSG`
/// names: what follows its first `#`, read as a channel id.
pub open spec fn named_channel(entry: Seq<char>) -> Option<Seq<char>> {
    match after_first(entry, '#') {
        Some(rest) => channel_id_from_text(rest),
        None => None,
    }
}

/// What a peer sends for one entry of a `JOIN`: join the channel if the
/// entry names a channel id, create a channel of that name otherwise.
pub open spec fn join_entry(peer_id: u64, entry: Seq<char>) -> PeerActionView {
    let rest = after_first(entry, '#')->Some_0;
    match channel_id_from_text(rest) {
        Some(id) => PeerActionView::Send(PeerMessageView::AddChannel { peer_id, public_key: id }),
        None => PeerActionView::Send(PeerMessageView::CreateChannel { peer_id, name: rest }),
    }
}

/// What a peer sends for one entry of a `PART`.
pub open spec fn part_entry(peer_id: u64, entry: Seq<char>) -> PeerActionView {
    PeerActionView::Send(
        PeerMessageView::LeaveChannel { peer_id, public_key: named_channel(entry)->Some_0 },
    )
}

/// The lines on which the connection would stop: a recognised command
/// without its parameters, a channel entry without `#`, a `PART` or
/// `PRIVMSG` target that is not a channel id, a password that is not a
/// secret key.
pub open spec fn irc_line_accepted(line: Seq<char>) -> bool {
    has_required_parts(line) && match parse_line(line) {
        IRCMessageView::JOIN(channels) => forall|i: int|
            0 <= i < split_on(channels, ',').len() ==> (#[trigger] after_first(
                split_on(channels, ',')[i],
                '#',
            )) is Some,
        IRCMessageView::PART(channels) => forall|i: int|
            0 <= i < split_on(channels, ',').len() ==> (#[trigger] named_channel(
                split_on(channels, ',')[i])) is Some,
        IRCMessageView::PRIVMSG(channel, _) => named_channel(channel) is Some,
        IRCMessageView::PASS(secret) => public_key_of_secret(secret) is Some,
        _ => true,
    }
}

/// The IRC line that acknowledges a capability listing request.
pub open spec fn cap_ls_line() -> Seq<char> {
    "CAP * LS\r\n"@
}

/// What a peer with id `peer_id` and public key `public_key` does for the
/// IRC line `line`.
pub open spec fn irc_line_actions(
    peer_id: u64,
    public_key: Option<Seq<char>>,
    line: Seq<char>,
) -> Seq<PeerActionView> {
    match parse_line(line) {
        IRCMessageView::CAP(s, _) => if s == "LS"@ {
            seq![PeerActionView::Write(cap_ls_line())]
        } else {
            seq![]
        },
        IRCMessageView::QUIT(_) => seq![PeerActionView::Write("QUIT\r\n"@)],
        IRCMessageView::JOIN(channels) => split_on(channels, ',').map_values(
            |e: Seq<char>| join_entry(peer_id, e),
        ),
        IRCMessageView::PART(channels) => split_on(channels, ',').map_values(
            |e: Seq<char>| part_entry(peer_id, e),
        ),
        IRCMessageView::PRIVMSG(channel, message) => seq![
            PeerActionView::Send(
                PeerMessageView::SendMessage {
                    peer_id,
                    channel: named_channel(channel)->Some_0,
                    message,
                },
            ),
        ],
        IRCMessageView::PASS(secret) => {
            let key = public_key_of_secret(secret)->Some_0;
            seq![
                PeerActionView::Send(PeerMessageView::AddNickname { peer_id, public_key: key }),
                PeerActionView::Send(
                    PeerMessageView::SetKeys {
                        peer_id,
                        keys: IdentityView { secret_key: secret, public_key: key },
                    },
                ),
            ]
        },
        IRCMessageView::NICK(nickname) => match public_key {
            Some(key) => seq![
                PeerActionView::Send(
                    PeerMessageView::ChangeNickname { peer_id, public_key: key, nickname },
                ),
            ],
            None => seq![],
        },
        _ => seq![],
    }
}

/// The concatenation of the texts of `pieces`.
pub open spec fn concat_views(pieces: Seq<&str>) -> Seq<char>
    decreases pieces.len(),
{
    if pieces.len() == 0 {
        Seq::empty()
    } else {
        concat_views(pieces.drop_last()) + pieces.last()@
    }
}

/// The keys that a `PASS` with secret key `secret` leaves in a
/// connection: the secret key, the public key nostr derives from it, and
/// both together as the connection's identity.
pub open spec fn keys_set_from(d: IRCClientData, secret: Seq<char>) -> bool {
    &&& d.private_key matches Some(p) && p@ == secret
    &&& d.public_key matches Some(k) && public_key_of_secret(secret) == Some(k@)
    &&& d.identity matches Some(id) && id.secret_key@ == secret && Some(id.public_key@)
        == public_key_of_secret(secret)
}

/// The public key of a peer, as text.
pub open spec fn key_view(k: Option<String>) -> Option<Seq<char>> {
    match k {
        Some(s) => Some(s@),
        None => None,
    }
}

/// `:{nickname} PRIVMSG #{channel} :{message}` and a line end.
pub open spec fn privmsg_line(nickname: Seq<char>, channel: Seq<char>, message: Seq<char>) -> Seq<
    char,
> {
    ":"@ + nickname + " PRIVMSG #"@ + channel + " :"@ + message + "\r\n"@
}

/// The welcome greeting, without a line end.
pub open spec fn welcome_line(nickname: Seq<char>) -> Seq<char> {
    "001 "@ + nickname + " :Welcome to the Internet Relay Network"@
}

/// `NICK {nickname}` and a line end.
pub open spec fn own_nick_line(nickname: Seq<char>) -> Seq<char> {
    "NICK "@ + nickname + "\r\n"@
}

/// `:{old} NICK {new}` and a line end.
pub open spec fn nick_line(old: Seq<char>, new: Seq<char>) -> Seq<char> {
    ":"@ + old + " NICK "@ + new + "\r\n"@
}

/// `:admin TOPIC #{channel} :{topic}` and a line end.
pub open spec fn topic_line(channel: Seq<char>, topic: Seq<char>) -> Seq<char> {
    ":admin TOPIC #"@ + channel + " :"@ + topic + "\r\n"@
}

/// `:{nickname} JOIN #{channel}` and a line end.
pub open spec fn join_line(nickname: Seq<char>, channel: Seq<char>) -> Seq<char> {
    ":"@ + nickname + " JOIN #"@ + channel + "\r\n"@
}

/// `353 {nickname} = #{channel} :{nickname}` and a line end.
pub open spec fn names_line(nickname: Seq<char>, channel: Seq<char>) -> Seq<char> {
    "353 "@ + nickname + " = #"@ + channel + " :"@ + nickname + "\r\n"@
}

/// `366 {nickname} = #{channel} :End of NAMES list` and a line end.
pub open spec fn end_of_names_line(nickname: Seq<char>, channel: Seq<char>) -> Seq<char> {
    "366 "@ + nickname + " = #"@ + channel + " :End of NAMES list\r\n"@
}

/// `:{nickname} PART #{channel}` and a line end.
pub open spec fn part_line(nickname: Seq<char>, channel: Seq<char>) -> Seq<char> {
    ":"@ + nickname + " PART #"@ + channel + "\r\n"@
}

/// What a peer does for a message from the server, given its id, public
/// key and whether it has greeted its user; and whether it has greeted
/// afterwards.
pub open spec fn server_message_actions(
    peer_id: u64,
    public_key: Option<Seq<char>>,
    sent_welcome: bool,
    m: ServerMessage,
) -> (Seq<PeerActionView>, bool) {
    match m {
        ServerMessage::SendMessage { channel, message, nickname } => (
            seq![PeerActionView::Write(privmsg_line(nickname@, channel@, message@))],
            sent_welcome,
        ),
        ServerMessage::ChangeNickname { public_key: key, old_nickname, new_nickname } =>
            match public_key {
            Some(own) => if key@ == own {
                if !sent_welcome {
                    (
                        seq![
                            PeerActionView::Write(welcome_line(new_nickname@)),
                            PeerActionView::Write(own_nick_line(new_nickname@)),
                        ],
                        true,
                    )
                } else {
                    (seq![PeerActionView::Write(own_nick_line(new_nickname@))], sent_welcome)
                }
            } else {
                (
                    seq![PeerActionView::Write(nick_line(old_nickname@, new_nickname@))],
                    sent_welcome,
                )
            },
            None => (seq![], sent_welcome),
        },
        ServerMessage::ChangeTopic { channel, topic } => (
            seq![PeerActionView::Write(topic_line(channel@, topic@))],
            sent_welcome,
        ),
        ServerMessage::PeerJoined { channel, nickname } => (
            seq![
                PeerActionView::Write(join_line(nickname@, channel@)),
                PeerActionView::Write(names_line(nickname@, channel@)),
                PeerActionView::Write(end_of_names_line(nickname@, channel@)),
            ],
            sent_welcome,
        ),
        ServerMessage::PeerLeft { channel, nickname } => (
            seq![PeerActionView::Write(part_line(nickname@, channel@))],
            sent_welcome,
        ),
        ServerMessage::Join { channel, nickname } => (
            seq![PeerActionView::Write(join_line(nickname@, channel@))],
            sent_welcome,
        ),
        ServerMessage::CreatedChannel { channel } => (
            seq![
                PeerActionView::Send(
                    PeerMessageView::AddChannel { peer_id, public_key: channel@ },
                ),
            ],
            sent_welcome,
        ),
    }
}

/// The concatenation of the given pieces of text.
fn text_of(pieces: Vec<&str>) -> (r: String)
    ensures
        r@ == concat_views(pieces@),
{
    let mut r = String::new();
    let mut i: usize = 0;
    while i < pieces.len()
        invariant
            i <= pieces@.len(),
            r@ == concat_views(pieces@.take(i as int)),
        decreases pieces@.len() - i,
    {
        proof {
            assert(pieces@.take(i + 1).drop_last() =~= pieces@.take(i as int));
        }
        r.append(pieces[i]);
        i = i + 1;
    }
    proof {
        assert(pieces@.take(pieces@.len() as int) =~= pieces@);
    }
    r
}

impl IRCPeer {
    /// A new connection with id `peer_id`, without keys and not greeted.
    pub fn new(peer_id: u64) -> (p: Self)
        ensures
            p.peer_id == peer_id,
            p.client_data.private_key is None,
            p.client_data.public_key is None,
            p.client_data.identity is None,
            !p.sent_welcome,
    {
        IRCPeer { peer_id, client_data: IRCClientData::new(), sent_welcome: false }
    }

    /// Renders a message from the server for the IRC user (see
    /// [`server_message_actions`]).
    pub fn handle_server_message(&mut self, message: ServerMessage) -> (actions: Vec<PeerAction>)
        ensures
            (actions_view(actions@), final(self).sent_welcome) == server_message_actions(
                old(self).peer_id,
                key_view(old(self).client_data.public_key),
                old(self).sent_welcome,
                message,
            ),
            final(self).peer_id == old(self).peer_id,
            final(self).client_data == old(self).client_data,
    {
        let ghost m = message;
        proof {
            reveal_with_fuel(concat_views, 8);
        }
        let mut actions: Vec<PeerAction> = Vec::new();
        match message {
            ServerMessage::SendMessage { channel, message, nickname } => {
                let line = text_of(vec![":", nickname.as_str(), " PRIVMSG #", channel.as_str(), " :", message.as_str(), "\r\n"]);
                proof {
                    assert(line@ =~= privmsg_line(nickname@, channel@, message@));
                }
                actions.push(PeerAction::Write(line));
            },
            ServerMessage::ChangeNickname { public_key, old_nickname, new_nickname } => {
                match &self.client_data.public_key {
                    Some(own) => {
                        if public_key == *own {
                            if !self.sent_welcome {
                                self.sent_welcome = true;
                                let line = text_of(vec!["001 ", new_nickname.as_str(), " :Welcome to the Internet Relay Network"]);
                                proof {
                                    assert(line@ =~= welcome_line(new_nickname@));
                                }
                                actions.push(PeerAction::Write(line));
                            }
                            let line = text_of(vec!["NICK ", new_nickname.as_str(), "\r\n"]);
                            proof {
                                assert(line@ =~= own_nick_line(new_nickname@));
                            }
                            actions.push(PeerAction::Write(line));
                        } else {
                            let line = text_of(vec![":", old_nickname.as_str(), " NICK ", new_nickname.as_str(), "\r\n"]);
                            proof {
                                assert(line@ =~= nick_line(old_nickname@, new_nickname@));
                            }
                            actions.push(PeerAction::Write(line));
                        }
                    },
                    None => {},
                }
            },
            ServerMessage::ChangeTopic { channel, topic } => {
                let line = text_of(vec![":admin TOPIC #", channel.as_str(), " :", topic.as_str(), "\r\n"]);
                proof {
                    assert(line@ =~= topic_line(channel@, topic@));
                }
                actions.push(PeerAction::Write(line));
            },
            ServerMessage::PeerJoined { channel, nickname } => {
                let l1 = text_of(vec![":", nickname.as_str(), " JOIN #", channel.as_str(), "\r\n"]);
                let l2 = text_of(vec!["353 ", nickname.as_str(), " = #", channel.as_str(), " :", nickname.as_str(), "\r\n"]);
                let l3 = text_of(vec!["366 ", nickname.as_str(), " = #", channel.as_str(), " :End of NAMES list\r\n"]);
                proof {
                    assert(l1@ =~= join_line(nickname@, channel@));
                    assert(l2@ =~= names_line(nickname@, channel@));
                    assert(l3@ =~= end_of_names_line(nickname@, channel@));
                }
                actions.push(PeerAction::Write(l1));
                actions.push(PeerAction::Write(l2));
                actions.push(PeerAction::Write(l3));
            },
            ServerMessage::PeerLeft { channel, nickname } => {
                let line = text_of(vec![":", nickname.as_str(), " PART #", channel.as_str(), "\r\n"]);
                proof {
                    assert(line@ =~= part_line(nickname@, channel@));
                }
                actions.push(PeerAction::Write(line));
            },
            ServerMessage::Join { channel, nickname } => {
                let line = text_of(vec![":", nickname.as_str(), " JOIN #", channel.as_str(), "\r\n"]);
                proof {
                    assert(line@ =~= join_line(nickname@, channel@));
                }
                actions.push(PeerAction::Write(line));
            },
            ServerMessage::CreatedChannel { channel } => {
                actions.push(
                    PeerAction::Send(
                        PeerMessage::AddChannel { peer_id: self.peer_id, public_key: channel },
                    ),
                );
            },
        }
        proof {
            assert(actions_view(actions@) =~= server_message_actions(
                old(self).peer_id,
                key_view(old(self).client_data.public_key),
                old(self).sent_welcome,
                m,
            ).0);
        }
        actions
    }
    /// Whether [`IRCPeer::handle_irc_message`] can take `line` (see
    /// [`irc_line_accepted`]).
    fn accepts_irc_line(line: &String) -> (b: bool)
        ensures
            b == irc_line_accepted(line@),
    {
        if !IRCMessage::has_required_parts(line) {
            return false;
        }
        let m = IRCMessage::from_string(line.clone());
        match m {
            IRCMessage::JOIN(channels) => {
                let entries = split_on_char(channels.as_str(), ',');
                let ghost ev = entries@.map_values(|p: String| p@);
                let mut i: usize = 0;
                while i < entries.len()
                    invariant
                        i <= entries@.len(),
                        ev == entries@.map_values(|p: String| p@),
                        ev == split_on(channels@, ','),
                        has_required_parts(line@),
                        parse_line(line@) == IRCMessageView::JOIN(channels@),
                        forall|j: int| 0 <= j < i ==> (#[trigger] after_first(ev[j], '#')) is Some,
                    decreases entries@.len() - i,
                {
                    proof {
                        assert(ev[i as int] == entries@[i as int]@);
                    }
                    if split_after_first(entries[i].as_str(), '#').is_none() {
                        proof {
                            assert(after_first(ev[i as int], '#') is None);
                        }
                        return false;
                    }
                    i = i + 1;
                }
                true
            },
            IRCMessage::PART(channels) => {
                let entries = split_on_char(channels.as_str(), ',');
                let ghost ev = entries@.map_values(|p: String| p@);
                let mut i: usize = 0;
                while i < entries.len()
                    invariant
                        i <= entries@.len(),
                        ev == entries@.map_values(|p: String| p@),
                        ev == split_on(channels@, ','),
                        has_required_parts(line@),
                        parse_line(line@) == IRCMessageView::PART(channels@),
                        forall|j: int| 0 <= j < i ==> (#[trigger] named_channel(ev[j])) is Some,
                    decreases entries@.len() - i,
                {
                    proof {
                        assert(ev[i as int] == entries@[i as int]@);
                    }
                    match split_after_first(entries[i].as_str(), '#') {
                        Some(rest) => {
                            if parse_channel_id(rest.as_str()).is_none() {
                                proof {
                                    assert(named_channel(ev[i as int]) is None);
                                }
                                return false;
                            }
                        },
                        None => {
                            proof {
                                assert(named_channel(ev[i as int]) is None);
                            }
                            return false;
                        },
                    }
                    i = i + 1;
                }
                true
            },
            IRCMessage::PRIVMSG(channel, _) => {
                match split_after_first(channel.as_str(), '#') {
                    Some(rest) => parse_channel_id(rest.as_str()).is_some(),
                    None => false,
                }
            },
            IRCMessage::PASS(secret) => public_key_from_secret(secret.as_str()).is_some(),
            _ => true,
        }
    }

    /// Answers the IRC line `message` (see [`irc_line_actions`]). A `PASS`
    /// sets the connection's keys; nothing else changes the peer.
    pub fn handle_irc_message(&mut self, message: String) -> (actions: Vec<PeerAction>)
        requires
            irc_line_accepted(message@),
        ensures
            actions_view(actions@) == irc_line_actions(
                old(self).peer_id,
                key_view(old(self).client_data.public_key),
                message@,
            ),
            final(self).peer_id == old(self).peer_id,
            final(self).sent_welcome == old(self).sent_welcome,
            match parse_line(message@) {
                IRCMessageView::PASS(secret) => keys_set_from(final(self).client_data, secret),
                _ => final(self).client_data == old(self).client_data,
            },
    {
        let ghost line = message@;
        let ghost key = key_view(old(self).client_data.public_key);
        let m = IRCMessage::from_string(message);
        let mut actions: Vec<PeerAction> = Vec::new();
        let peer_id = self.peer_id;
        match m {
            IRCMessage::CAP(s, _) => {
                if s == "LS".to_string() {
                    actions.push(PeerAction::Write("CAP * LS\r\n".to_string()));
                }
            },
            IRCMessage::QUIT(_) => {
                actions.push(PeerAction::Write("QUIT\r\n".to_string()));
            },
            IRCMessage::LIST() => {},
            IRCMessage::JOIN(channels) => {
                let entries = split_on_char(channels.as_str(), ',');
                let ghost ev = entries@.map_values(|p: String| p@);
                let mut i: usize = 0;
                proof {
                    assert(ev.take(0).map_values(|e: Seq<char>| join_entry(peer_id, e))
                        =~= actions_view(actions@));
                }
                while i < entries.len()
                    invariant
                        i <= entries@.len(),
                        ev == entries@.map_values(|p: String| p@),
                        ev == split_on(channels@, ','),
                        forall|j: int|
                            0 <= j < ev.len() ==> (#[trigger] after_first(ev[j], '#')) is Some,
                        actions_view(actions@) == ev.take(i as int).map_values(
                            |e: Seq<char>| join_entry(peer_id, e),
                        ),
                    decreases entries@.len() - i,
                {
                    proof {
                        assert(ev[i as int] == entries@[i as int]@);
                        assert(after_first(ev[i as int], '#') is Some);
                    }
                    let ghost before = actions_view(actions@);
                    let rest = match split_after_first(entries[i].as_str(), '#') {
                        Some(r) => r,
                        None => {
                            proof {
                                assert(false);
                            }
                            String::new()
                        },
                    };
                    match parse_channel_id(rest.as_str()) {
                        Some(id) => {
                            actions.push(
                                PeerAction::Send(PeerMessage::AddChannel { peer_id, public_key: id }),
                            );
                        },
                        None => {
                            actions.push(
                                PeerAction::Send(PeerMessage::CreateChannel { peer_id, name: rest }),
                            );
                        },
                    }
                    proof {
                        assert(actions_view(actions@) =~= before.push(join_entry(peer_id, ev[i as int])));
                        assert(ev.take(i + 1).map_values(|e: Seq<char>| join_entry(peer_id, e))
                            =~= ev.take(i as int).map_values(|e: Seq<char>| join_entry(peer_id, e)).push(
                            join_entry(peer_id, ev[i as int]),
                        ));
                    }
                    i = i + 1;
                }
                proof {
                    assert(ev.take(ev.len() as int) =~= ev);
                }
            },
            IRCMessage::PART(channels) => {
                let entries = split_on_char(channels.as_str(), ',');
                let ghost ev = entries@.map_values(|p: String| p@);
                let mut i: usize = 0;
                proof {
                    assert(ev.take(0).map_values(|e: Seq<char>| part_entry(peer_id, e))
                        =~= actions_view(actions@));
                }
                while i < entries.len()
                    invariant
                        i <= entries@.len(),
                        ev == entries@.map_values(|p: String| p@),
                        ev == split_on(channels@, ','),
                        forall|j: int|
                            0 <= j < ev.len() ==> (#[trigger] named_channel(ev[j])) is Some,
                        actions_view(actions@) == ev.take(i as int).map_values(
                            |e: Seq<char>| part_entry(peer_id, e),
                        ),
                    decreases entries@.len() - i,
                {
                    proof {
                        assert(ev[i as int] == entries@[i as int]@);
                        assert(named_channel(ev[i as int]) is Some);
                    }
                    let ghost before = actions_view(actions@);
                    let id = match split_after_first(entries[i].as_str(), '#') {
                        Some(rest) => match parse_channel_id(rest.as_str()) {
                            Some(id) => id,
                            None => {
                                proof {
                                    assert(false);
                                }
                                String::new()
                            },
                        },
                        None => {
                            proof {
                                assert(false);
                            }
                            String::new()
                        },
                    };
                    actions.push(PeerAction::Send(PeerMessage::LeaveChannel { peer_id, public_key: id }));
                    proof {
                        assert(actions_view(actions@) =~= before.push(part_entry(peer_id, ev[i as int])));
                        assert(ev.take(i + 1).map_values(|e: Seq<char>| part_entry(peer_id, e))
                            =~= ev.take(i as int).map_values(|e: Seq<char>| part_entry(peer_id, e)).push(
                            part_entry(peer_id, ev[i as int]),
                        ));
                    }
                    i = i + 1;
                }
                proof {
                    assert(ev.take(ev.len() as int) =~= ev);
                }
            },
            IRCMessage::PRIVMSG(channel, message) => {
                let id = match split_after_first(channel.as_str(), '#') {
                    Some(rest) => match parse_channel_id(rest.as_str()) {
                        Some(id) => id,
                        None => {
                            proof {
                                assert(false);
                            }
                            String::new()
                        },
                    },
                    None => {
                        proof {
                            assert(false);
                        }
                        String::new()
                    },
                };
                actions.push(
                    PeerAction::Send(PeerMessage::SendMessage { peer_id, channel: id, message }),
                );
            },
            IRCMessage::PASS(secret) => {
                self.client_data.set_private_key(secret.clone());
                let public_key = self.client_data.get_public_key();
                match public_key {
                    Some(public_key) => {
                        let keys = match &self.client_data.identity {
                            Some(identity) => identity.clone(),
                            None => {
                                proof {
                                    assert(false);
                                }
                                Identity { secret_key: String::new(), public_key: String::new() }
                            },
                        };
                        actions.push(PeerAction::Send(PeerMessage::AddNickname { peer_id, public_key }));
                        actions.push(PeerAction::Send(PeerMessage::SetKeys { peer_id, keys }));
                    },
                    None => {},
                }
            },
            IRCMessage::NICK(nickname) => {
                let public_key = self.client_data.get_public_key();
                match public_key {
                    Some(public_key) => {
                        actions.push(
                            PeerAction::Send(
                                PeerMessage::ChangeNickname { peer_id, public_key, nickname },
                            ),
                        );
                    },
                    None => {},
                }
            },
            IRCMessage::USER(_, _, _, _) => {},
            IRCMessage::UNKNOWN(_) => {},
        }
        proof {
            assert(actions_view(actions@) =~= irc_line_actions(peer_id, key, line));
        }
        actions
    }

    /// [`IRCPeer::handle_irc_message`] where the line is one it can take;
    /// `None`, with nothing changed, where the connection would stop on it.
    pub fn try_handle_irc_message(&mut self, message: String) -> (r: Option<Vec<PeerAction>>)
        ensures
            r is Some == irc_line_accepted(message@),
            r is None ==> *final(self) == *old(self),
            r matches Some(actions) ==> {
                &&& actions_view(actions@) == irc_line_actions(
                    old(self).peer_id,
                    key_view(old(self).client_data.public_key),
                    message@,
                )
                &&& final(self).peer_id == old(self).peer_id
                &&& final(self).sent_welcome == old(self).sent_welcome
                &&& match parse_line(message@) {
                    IRCMessageView::PASS(secret) => keys_set_from(final(self).client_data, secret),
                    _ => final(self).client_data == old(self).client_data,
                }
            },
    {
        if Self::accepts_irc_line(&message) {
            Some(self.handle_irc_message(message))
        } else {
            None
        }
    }
}


} // verus!
