//! What the IRC side promises across calls: leaving a channel leaves it,
//! joining a channel twice is joining it once, a user's arrival in a
//! channel is announced once, names taken from metadata are plain IRC
//! nicknames, a channel message is relayed under its author's name, a
//! channel's topic is told to exactly the peers in it, and a connection
//! greets its user once.
use vstd::prelude::*;
use crate::irc::messages::{PeerMessage, ServerMessage, ServerMessageView};
use crate::irc::nickname::IRCNickname;
use crate::irc::peer::{own_nick_line, server_message_actions, welcome_line, PeerActionView};
use crate::irc::server::{
    channel_key, chat_broadcast, chat_for_peer, is_e_tag, is_publishing, keys_valid, peer_key,
    publish_accepted, published_event, topic_broadcast, IRCServer, PeerInfo, ServerActionView,
};
use crate::lookup::{
    contains_text, first_match, lemma_first_match_same, lemma_first_match_spec,
    lemma_without_text_distinct, law_without_text_keeps_others,
};
use crate::relays::model::{
    NostrEvent, KIND_CHANNEL_CREATION, KIND_CHANNEL_MESSAGE, KIND_CHANNEL_METADATA, KIND_METADATA,
};
use crate::text::{is_ascii_alnum, keep_ascii_alnum, split_on, starts_with_char};
use crate::irc::message::{irc_parts, scan_piece, scan_pieces};

verus! {

/// The peers of `new` sit where those of `old` do.
proof fn lemma_same_peer_ids(old: IRCServer, new: IRCServer, id: u64)
    requires
        new.peers@.len() == old.peers@.len(),
        forall|j: int| 0 <= j < old.peers@.len() ==> (#[trigger] new.peers@[j]).0 == old.peers@[j].0,
    ensures
        new.peer_pos(id) == old.peer_pos(id),
{
    assert forall|j: int| 0 <= j < old.peers@.len() implies (peer_key(id))(
        #[trigger] old.peers@[j],
    ) == (peer_key(id))(new.peers@[j]) by {
        assert(new.peers@[j].0 == old.peers@[j].0);
    }
    lemma_first_match_same(old.peers@, peer_key(id), new.peers@, peer_key(id));
}

/// The channels of `new` sit where those of `old` do.
proof fn lemma_same_channel_ids(old: IRCServer, new: IRCServer, k: Seq<char>)
    requires
        new.channels@.len() == old.channels@.len(),
        forall|j: int|
            0 <= j < old.channels@.len() ==> (#[trigger] new.channels@[j]).id == old.channels@[j].id,
    ensures
        new.channel_pos(k) == old.channel_pos(k),
{
    assert forall|j: int| 0 <= j < old.channels@.len() implies (channel_key(k))(
        #[trigger] old.channels@[j],
    ) == (channel_key(k))(new.channels@[j]) by {
        assert(new.channels@[j].id == old.channels@[j].id);
    }
    lemma_first_match_same(old.channels@, channel_key(k), new.channels@, channel_key(k));
}

/// A peer that leaves a channel is no longer in it, and stays in every
/// other channel it was in (and joins none).
pub proof fn law_leave_channel_leaves(s: IRCServer, peer_id: u64, public_key: String, s2: IRCServer)
    requires
        s.wf(),
        s.peer_pos(peer_id) is Some,
        s.peer_message_state(PeerMessage::LeaveChannel { peer_id, public_key }, s2),
    ensures
        s2.peer_pos(peer_id) == s.peer_pos(peer_id),
        !contains_text(s2.peers@[s.peer_pos(peer_id)->Some_0].1.channels@, public_key@),
        forall|x: Seq<char>|
            #[trigger] contains_text(s2.peers@[s.peer_pos(peer_id)->Some_0].1.channels@, x) <==> (
            contains_text(s.peers@[s.peer_pos(peer_id)->Some_0].1.channels@, x) && x
                != public_key@),
{
    let i = s.peer_pos(peer_id)->Some_0;
    lemma_first_match_spec(s.peers@, peer_key(peer_id));
    assert forall|j: int| 0 <= j < s.peers@.len() implies (#[trigger] s2.peers@[j]).0
        == s.peers@[j].0 by {
        if j != i {
            assert(s2.peers@[j] == s.peers@[j]);
        }
    }
    lemma_same_peer_ids(s, s2, peer_id);
    lemma_without_text_distinct(s.peers@[i].1.channels@, public_key@);
    law_without_text_keeps_others(s.peers@[i].1.channels@, public_key@);
}

/// Joining a channel twice is joining it once: after a peer joins a
/// channel, the same request again does nothing and changes nothing.
pub proof fn law_join_twice_is_join_once(
    s: IRCServer,
    m: PeerMessage,
    s1: IRCServer,
    s2: IRCServer,
)
    requires
        s.wf(),
        m is AddChannel,
        s.peer_message_state(m, s1),
        s1.peer_message_state(m, s2),
    ensures
        s1.peer_message_actions(m) == Seq::<crate::irc::server::ServerActionView>::empty(),
        s2 == s1,
{
    let peer_id = m->AddChannel_peer_id;
    let key = m->AddChannel_public_key;
    if s.peer_pos(peer_id) is Some {
        let i = s.peer_pos(peer_id)->Some_0;
        lemma_first_match_spec(s.peers@, peer_key(peer_id));
        if !contains_text(s.peers@[i].1.channels@, key@) {
            assert forall|j: int| 0 <= j < s.peers@.len() implies (#[trigger] s1.peers@[j]).0
                == s.peers@[j].0 by {
                if j != i {
                    assert(s1.peers@[j] == s.peers@[j]);
                }
            }
            lemma_same_peer_ids(s, s1, peer_id);
            let chans = s1.peers@[i].1.channels@;
            assert(chans[chans.len() - 1] == key);
        }
    }
}

/// A user's arrival in a channel is announced once: once a message of
/// theirs has been recorded in a channel, the channel still sits where it
/// did and knows them, so their later messages there come without a join.
pub proof fn law_author_announced_once(s: IRCServer, event: NostrEvent, s1: IRCServer)
    requires
        s.wf(),
        event.kind == KIND_CHANNEL_MESSAGE,
        s.chat_channel(event) is Some,
        s.nostr_event_state(event, s1),
    ensures
        s1.chat_channel(event) == s.chat_channel(event),
        contains_text(
            s1.channels@[s.chat_channel(event)->Some_0].known_users@,
            event.pubkey@,
        ),
{
    let c = s.chat_channel(event)->Some_0;
    assert forall|j: int| 0 <= j < s.channels@.len() implies (#[trigger] s1.channels@[j]).id
        == s.channels@[j].id by {
        if j != c {
            assert(s1.channels@[j] == s.channels@[j]);
        }
    }
    match first_match(event.tags@, crate::irc::server::is_e_tag()) {
        Some(t) => {
            let k = crate::outside::channel_id_from_text(event.tags@[t]@[1]@)->Some_0;
            lemma_same_channel_ids(s, s1, k);
        },
        None => {},
    }
    let users = s1.channels@[c].known_users@;
    if !contains_text(s.channels@[c].known_users@, event.pubkey@) {
        assert(users[users.len() - 1] == event.pubkey);
    }
}

proof fn lemma_keep_ascii_alnum(s: Seq<char>)
    ensures
        forall|k: int|
            0 <= k < keep_ascii_alnum(s).len() ==> is_ascii_alnum(#[trigger] keep_ascii_alnum(s)[k]),
    decreases s.len(),
{
    if s.len() > 0 {
        lemma_keep_ascii_alnum(s.drop_last());
        let r = keep_ascii_alnum(s.drop_last());
        if is_ascii_alnum(s.last()) {
            assert forall|k: int| 0 <= k < r.push(s.last()).len() implies is_ascii_alnum(
                #[trigger] r.push(s.last())[k],
            ) by {
                if k < r.len() {
                    assert(r.push(s.last())[k] == r[k]);
                }
            }
        }
    }
}

/// A name taken from a user's metadata is a plain IRC nickname: every name
/// that metadata changes holds only ASCII letters and digits.
pub proof fn law_metadata_names_are_alphanumeric(s: IRCServer, event: NostrEvent, s1: IRCServer)
    requires
        event.kind == KIND_METADATA,
        s.nostr_event_state(event, s1),
    ensures
        forall|j: int|
            0 <= j < s1.nicknames@.len() && j < s.nicknames@.len() && #[trigger] s1.nicknames@[j]
                != s.nicknames@[j] ==> (s1.nicknames@[j].1 matches IRCNickname::Nick(name)
                && forall|k: int| 0 <= k < name@.len() ==> is_ascii_alnum(#[trigger] name@[k])),
{
    match crate::outside::metadata_name_of(event.content@)->Some_0 {
        Some(name) => lemma_keep_ascii_alnum(name),
        None => {},
    }
}

/// Whether action `a`, if it tells a peer of a message or of an arrival,
/// gives the author the name `name`.
pub open spec fn names_author(a: ServerActionView, name: Seq<char>) -> bool {
    match a {
        ServerActionView::ToPeer { peer_id: _, message } => match message {
            ServerMessageView::SendMessage { channel: _, message: _, nickname } => nickname == name,
            ServerMessageView::Join { channel: _, nickname } => nickname == name,
            _ => true,
        },
        _ => true,
    }
}

proof fn lemma_chat_broadcast_names_author(
    peers: Seq<(u64, PeerInfo)>,
    channel: Seq<char>,
    author: Seq<char>,
    is_history: bool,
    send_join: bool,
    nickname: Seq<char>,
    content: Seq<char>,
)
    ensures
        forall|i: int|
            0 <= i < chat_broadcast(
                peers,
                channel,
                author,
                is_history,
                send_join,
                nickname,
                content,
            ).len() ==> names_author(
                #[trigger] chat_broadcast(
                    peers,
                    channel,
                    author,
                    is_history,
                    send_join,
                    nickname,
                    content,
                )[i],
                nickname,
            ),
    decreases peers.len(),
{
    if peers.len() > 0 {
        lemma_chat_broadcast_names_author(
            peers.drop_last(),
            channel,
            author,
            is_history,
            send_join,
            nickname,
            content,
        );
        let a = chat_broadcast(
            peers.drop_last(),
            channel,
            author,
            is_history,
            send_join,
            nickname,
            content,
        );
        let b = chat_for_peer(peers.last(), channel, author, is_history, send_join, nickname, content);
        let r = chat_broadcast(peers, channel, author, is_history, send_join, nickname, content);
        assert forall|i: int| 0 <= i < r.len() implies names_author(#[trigger] r[i], nickname) by {
            if i < a.len() {
                assert(r[i] == a[i]);
            } else {
                assert(r[i] == b[i - a.len()]);
            }
        }
    }
}

/// A channel message is relayed under its author's IRC name: the message
/// recorded in the channel, and every message and arrival line sent to a
/// peer for it, carry the name of the author's entry in the name table
/// (the name from their metadata once it is known, their key before), or
/// the author's key when the table has no entry for them yet.
pub proof fn law_channel_message_under_author_name(
    s: IRCServer,
    event: NostrEvent,
    is_history: bool,
    s1: IRCServer,
)
    requires
        s.wf(),
        event.kind == KIND_CHANNEL_MESSAGE,
        s.chat_channel(event) is Some,
        s.nostr_event_state(event, s1),
    ensures
        ({
            let name = match s.nick_pos(event.pubkey@) {
                Some(n) => match s.nicknames@[n].1 {
                    IRCNickname::Nick(x) => x@,
                    IRCNickname::Key(k) => k@,
                },
                None => event.pubkey@,
            };
            let c = s.chat_channel(event)->Some_0;
            &&& s1.channels@[c].messages@.last()@ == ServerMessageView::SendMessage {
                channel: s.channels@[c].id@,
                message: event.content@,
                nickname: name,
            }
            &&& forall|i: int|
                0 <= i < s.nostr_event_actions(event, is_history).len() ==> names_author(
                    #[trigger] s.nostr_event_actions(event, is_history)[i],
                    name,
                )
        }),
{
    let name = match s.nick_pos(event.pubkey@) {
        Some(n) => match s.nicknames@[n].1 {
            IRCNickname::Nick(x) => x@,
            IRCNickname::Key(k) => k@,
        },
        None => event.pubkey@,
    };
    let c = s.chat_channel(event)->Some_0;
    let channel = s.channels@[c].id@;
    let join = !contains_text(s.channels@[c].known_users@, event.pubkey@);
    lemma_chat_broadcast_names_author(
        s.peers@,
        channel,
        event.pubkey@,
        is_history,
        join,
        name,
        event.content@,
    );
    let acts = s.nostr_event_actions(event, is_history);
    let head: Seq<ServerActionView> = if s.nick_pos(event.pubkey@) is None {
        seq![crate::irc::server::user_metadata_subscription(event.pubkey@)]
    } else {
        seq![]
    };
    let cb = chat_broadcast(s.peers@, channel, event.pubkey@, is_history, join, name, event.content@);
    assert(acts == head + cb);
    assert forall|i: int| 0 <= i < acts.len() implies names_author(#[trigger] acts[i], name) by {
        if i >= head.len() {
            assert(acts[i] == cb[i - head.len()]);
        }
    }
}

/// A channel's new topic is told to exactly the peers in that channel: one
/// topic line for each peer whose channel list holds it, in the order of
/// the peers, and none for any other peer.
pub proof fn law_topic_told_to_channel_peers(
    peers: Seq<(u64, PeerInfo)>,
    channel: Seq<char>,
    topic: Seq<char>,
)
    ensures
        topic_broadcast(peers, channel, topic) == peers.filter(
            |p: (u64, PeerInfo)| contains_text(p.1.channels@, channel),
        ).map_values(
            |p: (u64, PeerInfo)|
                ServerActionView::ToPeer {
                    peer_id: p.0,
                    message: ServerMessageView::ChangeTopic { channel, topic },
                },
        ),
    decreases peers.len(),
{
    reveal(Seq::filter);
    let keep = |p: (u64, PeerInfo)| contains_text(p.1.channels@, channel);
    let tell = |p: (u64, PeerInfo)|
        ServerActionView::ToPeer {
            peer_id: p.0,
            message: ServerMessageView::ChangeTopic { channel, topic },
        };
    if peers.len() > 0 {
        law_topic_told_to_channel_peers(peers.drop_last(), channel, topic);
        let before = peers.drop_last().filter(keep);
        if keep(peers.last()) {
            assert(before.push(peers.last()).map_values(tell) =~= before.map_values(tell) + seq![
                tell(peers.last()),
            ]);
        } else {
            assert(topic_broadcast(peers, channel, topic) =~= topic_broadcast(
                peers.drop_last(),
                channel,
                topic,
            ));
        }
    }
}

/// A topic from a channel's creation or metadata event goes only to peers
/// in that channel: every action the server takes for such an event is a
/// topic line to a peer whose channel list holds the channel it names.
pub proof fn law_topic_goes_to_channel_peers_only(s: IRCServer, event: NostrEvent, is_history: bool)
    requires
        event.kind == KIND_CHANNEL_CREATION || event.kind == KIND_CHANNEL_METADATA,
    ensures
        forall|i: int|
            0 <= i < s.nostr_event_actions(event, is_history).len() ==> (#[trigger] s.nostr_event_actions(
                event,
                is_history,
            )[i] matches ServerActionView::ToPeer {
                peer_id,
                message: ServerMessageView::ChangeTopic { channel, topic: _ },
            } && exists|j: int|
                0 <= j < s.peers@.len() && s.peers@[j].0 == peer_id && contains_text(
                    (#[trigger] s.peers@[j]).1.channels@,
                    channel,
                )),
{
    let acts = s.nostr_event_actions(event, is_history);
    let peers = s.peers@;
    assert forall|i: int| 0 <= i < acts.len() implies (#[trigger] acts[i] matches ServerActionView::ToPeer {
        peer_id,
        message: ServerMessageView::ChangeTopic { channel, topic: _ },
    } && exists|j: int|
        0 <= j < peers.len() && peers[j].0 == peer_id && contains_text(
            (#[trigger] peers[j]).1.channels@,
            channel,
        )) by {
        let (ch, t) = if event.kind == KIND_CHANNEL_CREATION {
            (event.id@, crate::irc::server::creation_topic(event.content@))
        } else {
            (
                s.channels@[s.metadata_channel(event.tags@)->Some_0].id@,
                crate::outside::metadata_name_of(event.content@)->Some_0->Some_0,
            )
        };
        assert(acts == topic_broadcast(peers, ch, t));
        law_topic_told_to_channel_peers(peers, ch, t);
        let kept = |p: (u64, PeerInfo)| contains_text(p.1.channels@, ch);
        let f = peers.filter(kept);
        assert(acts[i] == ServerActionView::ToPeer {
            peer_id: f[i].0,
            message: ServerMessageView::ChangeTopic { channel: ch, topic: t },
        });
        peers.lemma_filter_pred(kept, i);
        assert(f.contains(f[i]));
        peers.lemma_filter_contains_rev(kept, f[i]);
        let j = choose|j: int| 0 <= j < peers.len() && peers[j] == f[i];
        assert(peers[j].0 == f[i].0);
    }
}

/// A connection greets its user once: the first rename of the user's own
/// key greets them, and once greeted a connection stays greeted and
/// answers such a rename with its nickname line alone.
pub proof fn law_greeting_once(
    peer_id: u64,
    own: Seq<char>,
    key: String,
    old_nickname: String,
    new_nickname: String,
    other: ServerMessage,
)
    requires
        key@ == own,
    ensures
        server_message_actions(
            peer_id,
            Some(own),
            false,
            ServerMessage::ChangeNickname { public_key: key, old_nickname, new_nickname },
        ) == (
            seq![
                PeerActionView::Write(welcome_line(new_nickname@)),
                PeerActionView::Write(own_nick_line(new_nickname@)),
            ],
            true,
        ),
        server_message_actions(
            peer_id,
            Some(own),
            true,
            ServerMessage::ChangeNickname { public_key: key, old_nickname, new_nickname },
        ) == (seq![PeerActionView::Write(own_nick_line(new_nickname@))], true),
        server_message_actions(peer_id, Some(own), true, other).1,
{
}

/// What the server asks to publish for a message it takes can be signed:
/// the keys are a secret key nostr reads and every name is one nostr's
/// metadata takes.
pub proof fn law_published_actions_can_be_signed(s: IRCServer, m: PeerMessage)
    requires
        s.wf(),
        s.peer_message_accepted(m),
    ensures
        forall|j: int|
            0 <= j < s.peer_message_actions(m).len() && is_publishing(
                #[trigger] s.peer_message_actions(m)[j],
            ) ==> publish_accepted(s.peer_message_actions(m)[j]),
{
    let acts = s.peer_message_actions(m);
    match m {
        PeerMessage::AddChannel { peer_id, public_key } => {
            lemma_first_match_spec(s.peers@, peer_key(peer_id));
            lemma_first_match_spec(s.channels@, channel_key(public_key@));
            match s.peer_pos(peer_id) {
                Some(i) => {
                    if !contains_text(s.peers@[i].1.channels@, public_key@) {
                        let pid = s.peers@[i].0;
                        let entry = s.channel_entry_actions(i, public_key@);
                        let joined = s.joined_actions(i, public_key@);
                        assert forall|j: int| 0 <= j < acts.len() implies !is_publishing(
                            #[trigger] acts[j],
                        ) by {
                            if j < entry.len() {
                                assert(acts[j] == entry[j]);
                                match s.channel_pos(public_key@) {
                                    Some(c) => {
                                        let n: int = if s.channels@[c].topic is Some {
                                            1
                                        } else {
                                            0
                                        };
                                        let replay = crate::irc::server::replay_actions(
                                            pid,
                                            s.channels@[c].messages@,
                                        );
                                        if n <= j < n + replay.len() {
                                            assert(entry[j] == replay[j - n]);
                                        }
                                    },
                                    None => {},
                                }
                            } else {
                                assert(acts[j] == joined[j - entry.len()]);
                            }
                        }
                    }
                },
                None => {},
            }
        },
        _ => {
            let pid = match m {
                PeerMessage::ChangeNickname { peer_id, public_key: _, nickname: _ } => peer_id,
                PeerMessage::CreateChannel { peer_id, name: _ } => peer_id,
                PeerMessage::SendMessage { peer_id, channel: _, message: _ } => peer_id,
                PeerMessage::LeaveChannel { peer_id, public_key: _ } => peer_id,
                PeerMessage::AddNickname { peer_id, public_key: _ } => peer_id,
                PeerMessage::SetKeys { peer_id, keys: _ } => peer_id,
                PeerMessage::AddChannel { peer_id, public_key: _ } => peer_id,
            };
            match s.peer_pos(pid) {
                Some(i) => {
                    lemma_first_match_spec(s.peers@, peer_key(pid));
                    assert(s.peers@[i].1.keys matches Some(k) ==> keys_valid(k@));
                },
                None => {},
            }
        },
    }
}

/// A channel is named as its creator asked: when the creation event that
/// [`IRCServer::publish`] signed for a new channel comes back from a relay
/// to a server that keeps the channel, the channel's topic is the name.
pub proof fn law_created_channel_is_named(
    s: IRCServer,
    action: ServerActionView,
    e: NostrEvent,
    s1: IRCServer,
)
    requires
        action is NewChannel,
        published_event(action, e),
        s.channel_pos(e.id@) is Some,
        s.nostr_event_state(e, s1),
    ensures
        s.nostr_event_accepted(e),
        s1.channels@[s.channel_pos(e.id@)->Some_0].topic matches Some(t) && t@
            == action->NewChannel_name,
{
}

/// A message a peer sends comes back to the channel it was sent to, and
/// is not echoed live to the peers of its author: the event that
/// [`IRCServer::publish`] signed for it names, in its first `e` tag, the
/// channel it was sent to.
pub proof fn law_sent_message_comes_back_to_its_channel(
    s: IRCServer,
    action: ServerActionView,
    e: NostrEvent,
    p: (u64, PeerInfo),
)
    requires
        action is ChannelMessage,
        published_event(action, e),
        crate::outside::channel_id_from_text(action->ChannelMessage_channel) == Some(
            action->ChannelMessage_channel,
        ),
        p.1.keys matches Some(k) && k.public_key@ == e.pubkey@,
    ensures
        s.nostr_event_accepted(e),
        s.chat_channel(e) == s.channel_pos(action->ChannelMessage_channel),
        forall|join: bool, nickname: Seq<char>|
            #[trigger] chat_for_peer(
                p,
                action->ChannelMessage_channel,
                e.pubkey@,
                false,
                join,
                nickname,
                e.content@,
            ) == Seq::<ServerActionView>::empty(),
{
    assert(is_e_tag()(e.tags@[0]));
    crate::lookup::lemma_first_match_at(e.tags@, is_e_tag(), 0);
}

/// One step of the server takes it from `a` to `b`: a message from a peer,
/// a message from the relays, or anything that leaves the channels as they
/// are (such as a new connection).
pub open spec fn server_step(a: IRCServer, b: IRCServer) -> bool {
    ||| exists|m: PeerMessage| #[trigger] a.peer_message_state(m, b)
    ||| exists|m: crate::relays::model::RelayMessage| #[trigger] a.nostr_message_state(m, b)
    ||| b.channels == a.channels
}

/// A run of the server: `states[k + 1]` follows `states[k]` by one step.
pub open spec fn server_run(states: Seq<IRCServer>) -> bool {
    forall|k: int| 0 <= k < states.len() - 1 ==> server_step(#[trigger] states[k], states[k + 1])
}

/// Channel number `c` of `s` has id `id` and knows user `u`.
pub open spec fn knows_user(s: IRCServer, c: int, id: Seq<char>, u: Seq<char>) -> bool {
    &&& 0 <= c < s.channels@.len()
    &&& s.channels@[c].id@ == id
    &&& contains_text(s.channels@[c].known_users@, u)
}

proof fn lemma_step_keeps_known(a: IRCServer, b: IRCServer, c: int, id: Seq<char>, u: Seq<char>)
    requires
        server_step(a, b),
        knows_user(a, c, id, u),
    ensures
        knows_user(b, c, id, u),
{
    let users = a.channels@[c].known_users@;
    let w = choose|w: int| 0 <= w < users.len() && (#[trigger] users[w])@ == u;
    if exists|m: PeerMessage| #[trigger] a.peer_message_state(m, b) {
        let m = choose|m: PeerMessage| #[trigger] a.peer_message_state(m, b);
        if b.channels != a.channels {
            assert(b.channels@[c] == a.channels@[c]);
        }
    } else if exists|m: crate::relays::model::RelayMessage| #[trigger] a.nostr_message_state(m, b) {
        let m = choose|m: crate::relays::model::RelayMessage| #[trigger] a.nostr_message_state(m, b);
        if b.channels != a.channels {
            assert(b.channels@[c].known_users@[w] == users[w]);
        }
    }
}

/// A user's arrival in a channel is announced once over any run of the
/// server: once a channel knows a user, it stays where it is and keeps
/// knowing them at every later state, so their later messages there are
/// announced without a join (see the channel message case of
/// [`IRCServer::nostr_message_actions`]).
pub proof fn law_run_announces_author_once(
    states: Seq<IRCServer>,
    i: int,
    j: int,
    c: int,
    id: Seq<char>,
    u: Seq<char>,
)
    requires
        server_run(states),
        0 <= i <= j < states.len(),
        knows_user(states[i], c, id, u),
    ensures
        knows_user(states[j], c, id, u),
    decreases j - i,
{
    if j > i {
        law_run_announces_author_once(states, i, j - 1, c, id, u);
        assert(server_step(states[j - 1], states[j]));
        lemma_step_keeps_known(states[j - 1], states[j], c, id, u);
    }
}

/// The words of `w` joined by single spaces.
pub open spec fn join_words(w: Seq<Seq<char>>) -> Seq<char>
    decreases w.len(),
{
    if w.len() <= 1 {
        if w.len() == 1 {
            w[0]
        } else {
            Seq::empty()
        }
    } else {
        join_words(w.drop_last()) + seq![' '] + w.last()
    }
}

/// A word: no space in it.
pub open spec fn is_word(x: Seq<char>) -> bool {
    !x.contains(' ')
}

/// The pieces scanned from `state` on (see [`scan_pieces`]).
pub open spec fn scan_from(
    state: (Seq<Seq<char>>, Option<Seq<char>>),
    pieces: Seq<Seq<char>>,
) -> (Seq<Seq<char>>, Option<Seq<char>>)
    decreases pieces.len(),
{
    if pieces.len() == 0 {
        state
    } else {
        scan_piece(scan_from(state, pieces.drop_last()), pieces.last())
    }
}

proof fn lemma_split_nonempty(x: Seq<char>)
    ensures
        split_on(x, ' ').len() >= 1,
    decreases x.len(),
{
    if x.len() > 0 {
        lemma_split_nonempty(x.drop_last());
    }
}

proof fn lemma_split_concat(x: Seq<char>, y: Seq<char>)
    ensures
        split_on(x + seq![' '] + y, ' ') == split_on(x, ' ') + split_on(y, ' '),
    decreases y.len(),
{
    let xs = x + seq![' '];
    if y.len() == 0 {
        assert(xs + y =~= xs);
        assert(xs.drop_last() =~= x);
        assert(split_on(x, ' ').push(Seq::<char>::empty()) =~= split_on(x, ' ') + split_on(y, ' '));
    } else {
        let y2 = y.drop_last();
        lemma_split_concat(x, y2);
        lemma_split_nonempty(y2);
        assert((xs + y).drop_last() =~= xs + y2);
        assert((xs + y).last() == y.last());
        let a = split_on(x, ' ');
        let b = split_on(y2, ' ');
        if y.last() == ' ' {
            assert((a + b).push(Seq::<char>::empty()) =~= a + b.push(Seq::<char>::empty()));
        } else {
            let ab = a + b;
            assert(ab.update(ab.len() - 1, ab.last().push(y.last())) =~= a + b.update(
                b.len() - 1,
                b.last().push(y.last()),
            ));
        }
    }
}

proof fn lemma_split_word(x: Seq<char>)
    requires
        is_word(x),
    ensures
        split_on(x, ' ') == seq![x],
    decreases x.len(),
{
    if x.len() == 0 {
        assert(x =~= Seq::<char>::empty());
    } else {
        let x2 = x.drop_last();
        assert(x2.push(x.last()) =~= x);
        assert(!x2.contains(' ')) by {
            if x2.contains(' ') {
                let k = choose|k: int| 0 <= k < x2.len() && x2[k] == ' ';
                assert(x[k] == ' ');
            }
        }
        lemma_split_word(x2);
        assert(x.last() != ' ') by {
            assert(x[x.len() - 1] == x.last());
        }
        assert(split_on(x, ' ') == split_on(x2, ' ').update(0, x2.push(x.last())));
        assert(seq![x2].update(0, x2.push(x.last())) =~= seq![x]);
    }
}

proof fn lemma_split_join(w: Seq<Seq<char>>)
    requires
        w.len() >= 1,
        forall|k: int| 0 <= k < w.len() ==> is_word(#[trigger] w[k]),
    ensures
        split_on(join_words(w), ' ') == w,
    decreases w.len(),
{
    if w.len() == 1 {
        lemma_split_word(w[0]);
        assert(seq![w[0]] =~= w);
    } else {
        let w2 = w.drop_last();
        assert forall|k: int| 0 <= k < w2.len() implies is_word(#[trigger] w2[k]) by {
            assert(w2[k] == w[k]);
        }
        lemma_split_join(w2);
        lemma_split_concat(join_words(w2), w.last());
        assert(is_word(w[w.len() - 1]));
        lemma_split_word(w.last());
        assert(w2 + seq![w.last()] =~= w);
    }
}

proof fn lemma_split_prefix(c: char, x: Seq<char>)
    requires
        c != ' ',
    ensures
        split_on(seq![c] + x, ' ') == split_on(x, ' ').update(0, seq![c] + split_on(x, ' ')[0]),
    decreases x.len(),
{
    lemma_split_nonempty(x);
    if x.len() == 0 {
        let e = Seq::<char>::empty();
        assert(seq![c] + x =~= seq![c]);
        assert(seq![c].drop_last() =~= e);
        assert(seq![c].last() == c);
        assert(x =~= e);
        assert(split_on(e, ' ') == seq![e]);
        assert(split_on(seq![c], ' ') == split_on(e, ' ').update(0, e.push(c)));
        assert(seq![c] + split_on(x, ' ')[0] =~= seq![c]);
        assert(e.push(c) =~= seq![c]);
        assert(seq![e].update(0, seq![c]) =~= seq![seq![c]]);
    } else {
        let x2 = x.drop_last();
        lemma_split_prefix(c, x2);
        lemma_split_nonempty(x2);
        assert((seq![c] + x).drop_last() =~= seq![c] + x2);
        assert((seq![c] + x).last() == x.last());
        let b = split_on(x2, ' ');
        let d = x.last();
        let cx2 = seq![c] + x2;
        let bc = split_on(cx2, ' ');
        assert(bc == b.update(0, seq![c] + b[0]));
        if d == ' ' {
            assert(split_on(x, ' ') == b.push(Seq::<char>::empty()));
            assert(split_on(seq![c] + x, ' ') == bc.push(Seq::<char>::empty()));
            assert(b.update(0, seq![c] + b[0]).push(Seq::<char>::empty()) =~= b.push(
                Seq::<char>::empty(),
            ).update(0, seq![c] + b.push(Seq::<char>::empty())[0]));
        } else {
            let bu = b.update(0, seq![c] + b[0]);
            let bl = b.update(b.len() - 1, b.last().push(d));
            assert(split_on(x, ' ') == bl);
            assert(split_on(seq![c] + x, ' ') == bu.update(bu.len() - 1, bu.last().push(d)));
            if b.len() == 1 {
                assert((seq![c] + b[0]).push(d) =~= seq![c] + b[0].push(d));
                assert(bu.update(bu.len() - 1, bu.last().push(d)) =~= bl.update(0, seq![c] + bl[0]));
            } else {
                assert(bu.update(bu.len() - 1, bu.last().push(d)) =~= bl.update(0, seq![c] + bl[0]));
            }
        }
    }
}

proof fn lemma_scan_concat(a: Seq<Seq<char>>, b: Seq<Seq<char>>)
    ensures
        scan_pieces(a + b) == scan_from(scan_pieces(a), b),
    decreases b.len(),
{
    if b.len() == 0 {
        assert(a + b =~= a);
    } else {
        lemma_scan_concat(a, b.drop_last());
        assert((a + b).drop_last() =~= a + b.drop_last());
        assert((a + b).last() == b.last());
    }
}

proof fn lemma_scan_words(w: Seq<Seq<char>>)
    requires
        forall|k: int| 0 <= k < w.len() ==> !starts_with_char(#[trigger] w[k], ':'),
    ensures
        scan_pieces(w) == (w, None::<Seq<char>>),
    decreases w.len(),
{
    if w.len() > 0 {
        let w2 = w.drop_last();
        assert forall|k: int| 0 <= k < w2.len() implies !starts_with_char(#[trigger] w2[k], ':') by {
            assert(w2[k] == w[k]);
        }
        lemma_scan_words(w2);
        assert(!starts_with_char(w[w.len() - 1], ':'));
        assert(w2.push(w.last()) =~= w);
    }
}

proof fn lemma_scan_trailing(done: Seq<Seq<char>>, p: Seq<Seq<char>>)
    requires
        p.len() >= 1,
        starts_with_char(p[0], ':'),
        forall|k: int| 1 <= k < p.len() ==> !starts_with_char(#[trigger] p[k], ':'),
    ensures
        scan_from((done, None), p) == (done, Some(join_words(p.update(0, p[0].drop_first())))),
    decreases p.len(),
{
    if p.len() > 1 {
        let p2 = p.drop_last();
        assert forall|k: int| 1 <= k < p2.len() implies !starts_with_char(#[trigger] p2[k], ':') by {
            assert(p2[k] == p[k]);
        }
        lemma_scan_trailing(done, p2);
        assert(!starts_with_char(p[p.len() - 1], ':'));
        let q = p.update(0, p[0].drop_first());
        assert(q.drop_last() =~= p2.update(0, p2[0].drop_first()));
        assert(q.last() == p.last());
        assert(join_words(q) == join_words(q.drop_last()) + seq![' '] + q.last());
        assert(scan_from((done, None), p) == scan_piece(scan_from((done, None), p2), p.last()));
    } else {
        let e = Seq::<Seq<char>>::empty();
        assert(p.drop_last() =~= e);
        assert(scan_from((done, None), e) == (done, None::<Seq<char>>));
        assert(p.last() == p[0]);
        assert(scan_from((done, None), p) == scan_piece((done, None), p[0]));
        let q = p.update(0, p[0].drop_first());
        assert(q =~= seq![p[0].drop_first()]);
        assert(join_words(q) == q[0]);
    }
}

/// The trailing parameter of an IRC line comes back whole: a line of
/// words (no spaces, none starting with `:`) and then ` :` and a text
/// (words joined by single spaces, none but the first starting with `:`)
/// reads back as those words and that text, its spaces kept and its `:`
/// dropped (see [`crate::irc::message::get_parts`]).
pub proof fn law_trailing_parameter_read_back(w: Seq<Seq<char>>, tw: Seq<Seq<char>>)
    requires
        w.len() >= 1,
        tw.len() >= 1,
        forall|k: int| 0 <= k < w.len() ==> is_word(#[trigger] w[k]) && !starts_with_char(w[k], ':'),
        forall|k: int| 0 <= k < tw.len() ==> is_word(#[trigger] tw[k]),
        forall|k: int| 1 <= k < tw.len() ==> !starts_with_char(#[trigger] tw[k], ':'),
    ensures
        irc_parts(join_words(w) + seq![' ', ':'] + join_words(tw)) == w.push(join_words(tw)),
{
    let t = join_words(tw);
    let line = join_words(w) + seq![' ', ':'] + t;
    assert(line =~= join_words(w) + seq![' '] + (seq![':'] + t));
    lemma_split_concat(join_words(w), seq![':'] + t);
    assert forall|k: int| 0 <= k < w.len() implies is_word(#[trigger] w[k]) by {}
    lemma_split_join(w);
    lemma_split_join(tw);
    lemma_split_prefix(':', t);
    let p = tw.update(0, seq![':'] + tw[0]);
    assert(split_on(line, ' ') == w + p);
    lemma_scan_concat(w, p);
    assert forall|k: int| 0 <= k < w.len() implies !starts_with_char(#[trigger] w[k], ':') by {}
    lemma_scan_words(w);
    assert(starts_with_char(p[0], ':'));
    assert forall|k: int| 1 <= k < p.len() implies !starts_with_char(#[trigger] p[k], ':') by {
        assert(p[k] == tw[k]);
    }
    lemma_scan_trailing(w, p);
    assert((seq![':'] + tw[0]).drop_first() =~= tw[0]);
    assert(p.update(0, p[0].drop_first()) =~= tw);
}

/// The number of spaces in `s`.
pub open spec fn space_count(s: Seq<char>) -> nat
    decreases s.len(),
{
    if s.len() == 0 {
        0
    } else {
        space_count(s.drop_last()) + if s.last() == ' ' {
            1nat
        } else {
            0nat
        }
    }
}

proof fn lemma_join_split(s: Seq<char>)
    ensures
        split_on(s, ' ').len() == space_count(s) + 1,
        join_words(split_on(s, ' ')) == s,
        forall|k: int|
            0 <= k < split_on(s, ' ').len() ==> is_word(#[trigger] split_on(s, ' ')[k]),
    decreases s.len(),
{
    lemma_split_nonempty(s);
    if s.len() == 0 {
        let e = Seq::<char>::empty();
        assert(s =~= e);
        assert(split_on(e, ' ') == seq![e]);
        assert(join_words(seq![e]) == e);
        assert forall|k: int| 0 <= k < split_on(s, ' ').len() implies is_word(
            #[trigger] split_on(s, ' ')[k],
        ) by {
            assert(!e.contains(' '));
        }
    } else {
        let s2 = s.drop_last();
        let c = s.last();
        lemma_join_split(s2);
        lemma_split_nonempty(s2);
        let w = split_on(s2, ' ');
        assert(s2.push(c) =~= s);
        if c == ' ' {
            let w2 = w.push(Seq::<char>::empty());
            assert(split_on(s, ' ') == w2);
            assert(w2.drop_last() =~= w);
            assert(join_words(w2) == join_words(w) + seq![' '] + Seq::<char>::empty());
            assert(join_words(w) + seq![' '] + Seq::<char>::empty() =~= s);
            assert forall|k: int| 0 <= k < w2.len() implies is_word(#[trigger] w2[k]) by {
                if k < w.len() {
                    assert(w2[k] == w[k]);
                } else {
                    assert(!Seq::<char>::empty().contains(' '));
                }
            }
        } else {
            let l = w.len() - 1;
            let w2 = w.update(l, w.last().push(c));
            assert(split_on(s, ' ') == w2);
            if w.len() == 1 {
                assert(join_words(w2) == w2[0]);
                assert(join_words(w) == w[0]);
                assert(w2[0] =~= s);
            } else {
                assert(w2.drop_last() =~= w.drop_last());
                assert(join_words(w2) == join_words(w2.drop_last()) + seq![' '] + w2.last());
                assert(join_words(w) == join_words(w.drop_last()) + seq![' '] + w.last());
                assert(join_words(w2) =~= join_words(w).push(c));
            }
            assert forall|k: int| 0 <= k < w2.len() implies is_word(#[trigger] w2[k]) by {
                if k < l {
                    assert(w2[k] == w[k]);
                } else {
                    assert(is_word(w[l]));
                    let x = w.last().push(c);
                    if x.contains(' ') {
                        let j = choose|j: int| 0 <= j < x.len() && x[j] == ' ';
                        if j < w.last().len() {
                            assert(w.last()[j] == ' ');
                            assert(w.last().contains(' '));
                        }
                    }
                }
            }
        }
    }
}

/// A line without a piece that starts with `:` reads back as its plain
/// split at single spaces (empty pieces kept, as `str::split` keeps them):
/// one more parameter than spaces, none holding a space, and the
/// parameters joined by single spaces are the line again.
pub proof fn law_plain_line_read_back(s: Seq<char>)
    requires
        forall|k: int|
            0 <= k < split_on(s, ' ').len() ==> !starts_with_char(#[trigger] split_on(s, ' ')[k], ':'),
    ensures
        irc_parts(s) == split_on(s, ' '),
        irc_parts(s).len() == space_count(s) + 1,
        forall|k: int| 0 <= k < irc_parts(s).len() ==> is_word(#[trigger] irc_parts(s)[k]),
        join_words(irc_parts(s)) == s,
{
    lemma_scan_words(split_on(s, ' '));
    lemma_join_split(s);
}

/// No space in `t` is followed by a `:`.
pub open spec fn no_space_colon(t: Seq<char>) -> bool {
    forall|i: int| 1 <= i < t.len() && t[i - 1] == ' ' ==> #[trigger] t[i] != ':'
}

proof fn lemma_split_no_colon(t: Seq<char>)
    requires
        no_space_colon(t),
    ensures
        forall|k: int|
            1 <= k < split_on(t, ' ').len() ==> !starts_with_char(#[trigger] split_on(t, ' ')[k], ':'),
        split_on(t, ' ').len() >= 2 && split_on(t, ' ').last().len() == 0 ==> t.len() > 0
            && t.last() == ' ',
    decreases t.len(),
{
    lemma_split_nonempty(t);
    if t.len() > 0 {
        let t2 = t.drop_last();
        let c = t.last();
        assert forall|i: int| 1 <= i < t2.len() && t2[i - 1] == ' ' implies #[trigger] t2[i] != ':' by {
            assert(t2[i] == t[i]);
            assert(t2[i - 1] == t[i - 1]);
        }
        lemma_split_no_colon(t2);
        lemma_split_nonempty(t2);
        let w = split_on(t2, ' ');
        if c == ' ' {
            let w2 = w.push(Seq::<char>::empty());
            assert(split_on(t, ' ') == w2);
            assert forall|k: int| 1 <= k < w2.len() implies !starts_with_char(#[trigger] w2[k], ':') by {
                if k < w.len() {
                    assert(w2[k] == w[k]);
                }
            }
        } else {
            let l = w.len() - 1;
            let x = w.last().push(c);
            let w2 = w.update(l, x);
            assert(split_on(t, ' ') == w2);
            assert forall|k: int| 1 <= k < w2.len() implies !starts_with_char(#[trigger] w2[k], ':') by {
                if k < l {
                    assert(w2[k] == w[k]);
                } else {
                    if w.last().len() > 0 {
                        assert(x[0] == w.last()[0]);
                        assert(!starts_with_char(w[l], ':'));
                    } else {
                        assert(t2.len() > 0 && t2.last() == ' ');
                        assert(t[t.len() - 2] == ' ');
                        assert(t[t.len() - 1] != ':');
                        assert(x[0] == c);
                    }
                }
            }
        }
    }
}

/// The trailing parameter of an IRC line comes back whole: words (no
/// spaces, none starting with `:`), then ` :` and any text in which no
/// space is followed by `:`, read back as those words and that text.
pub proof fn law_trailing_text_read_back(w: Seq<Seq<char>>, t: Seq<char>)
    requires
        w.len() >= 1,
        forall|k: int| 0 <= k < w.len() ==> is_word(#[trigger] w[k]) && !starts_with_char(w[k], ':'),
        no_space_colon(t),
    ensures
        irc_parts(join_words(w) + seq![' ', ':'] + t) == w.push(t),
{
    lemma_join_split(t);
    lemma_split_no_colon(t);
    law_trailing_parameter_read_back(w, split_on(t, ' '));
}

} // verus!
