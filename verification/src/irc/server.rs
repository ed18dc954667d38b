//! The IRC server's bookkeeping: which peers are connected, which channels
//! they are in, what every nostr user is called, and what to tell peers and
//! relays when a peer asks for something or a relay reports an event.
use vstd::prelude::*;
use crate::irc::channel::IRCChannel;
use crate::irc::client_data::Identity;
pub use crate::irc::messages::{PeerMessage, ServerMessage};
use crate::irc::messages::{IdentityView, ServerMessageView};
use crate::irc::nickname::IRCNickname;
use crate::lookup::{
    contains_string, contains_text, first_match, lemma_first_match_at, lemma_first_match_none,
    lemma_first_match_spec, lemma_without_text_distinct, remove_text, texts_distinct,
    without_text,
};
use crate::outside::{
    channel_id_from_text, metadata_name, metadata_name_of, parse_channel_id,
    public_key_from_secret, public_key_of_secret, sign_channel_creation, sign_channel_message,
    sign_metadata, signed_by,
};
use crate::relays::model::{
    FilterView, NostrEvent, RelayMessage, RelayMessageMetadata, SubscriptionFilter,
    KIND_CHANNEL_CREATION, KIND_CHANNEL_MESSAGE, KIND_CHANNEL_METADATA, KIND_METADATA,
};
use crate::text::{check_metadata_name, filter_ascii_alnum, is_metadata_name, keep_ascii_alnum};

verus! {

broadcast use vstd::string::group_string_axioms;

/// What the server knows of a connected peer: its keys once it has given a
/// password, and the channels it is in.
pub struct PeerInfo {
    pub keys: Option<Identity>,
    pub channels: Vec<String>,
}

impl PeerInfo {
    pub fn new() -> (p: Self)
        ensures
            p.keys is None,
            p.channels@.len() == 0,
    {
        PeerInfo { keys: None, channels: Vec::new() }
    }
}

/// Something the server does: tell a peer something, subscribe to events
/// on the relays or end a subscription, or have an event signed with a
/// user's keys and published (see [`IRCServer::publish`]): the user's
/// metadata with a new name, a new channel, or a message in a channel.
pub enum ServerAction {
    ToPeer { peer_id: u64, message: ServerMessage },
    Subscribe { subscription_id: String, filter: SubscriptionFilter },
    Unsubscribe { subscription_id: String },
    SetMetadata { keys: Identity, name: String },
    NewChannel { peer_id: u64, keys: Identity, name: String },
    ChannelMessage { keys: Identity, channel: String, content: String },
}

/// A [`ServerAction`] with its strings taken as character sequences.
pub enum ServerActionView {
    ToPeer { peer_id: u64, message: ServerMessageView },
    Subscribe { subscription_id: Seq<char>, filter: FilterView },
    Unsubscribe { subscription_id: Seq<char> },
    SetMetadata { keys: IdentityView, name: Seq<char> },
    NewChannel { peer_id: u64, keys: IdentityView, name: Seq<char> },
    ChannelMessage { keys: IdentityView, channel: Seq<char>, content: Seq<char> },
}

impl View for ServerAction {
    type V = ServerActionView;

    open spec fn view(&self) -> ServerActionView {
        match self {
            ServerAction::ToPeer { peer_id, message } => ServerActionView::ToPeer {
                peer_id: *peer_id,
                message: message@,
            },
            ServerAction::Subscribe { subscription_id, filter } => ServerActionView::Subscribe {
                subscription_id: subscription_id@,
                filter: filter@,
            },
            ServerAction::Unsubscribe { subscription_id } => ServerActionView::Unsubscribe {
                subscription_id: subscription_id@,
            },
            ServerAction::SetMetadata { keys, name } => ServerActionView::SetMetadata {
                keys: keys@,
                name: name@,
            },
            ServerAction::NewChannel { peer_id, keys, name } => ServerActionView::NewChannel {
                peer_id: *peer_id,
                keys: keys@,
                name: name@,
            },
            ServerAction::ChannelMessage { keys, channel, content } =>
                ServerActionView::ChannelMessage {
                keys: keys@,
                channel: channel@,
                content: content@,
            },
        }
    }
}

/// The views of a list of server actions.
pub open spec fn server_actions_view(v: Seq<ServerAction>) -> Seq<ServerActionView> {
    v.map_values(|a: ServerAction| a@)
}

/// The filter that asks for the event with id `id`.
pub open spec fn info_filter(id: Seq<char>) -> FilterView {
    FilterView {
        ids: Some(seq![id]),
        authors: None,
        kinds: None,
        events: None,
        pubkeys: None,
        since: None,
        until: None,
        limit: None,
    }
}

/// The filter that asks for the last 200 messages of channel `id`.
pub open spec fn channel_messages_filter(id: Seq<char>) -> FilterView {
    FilterView {
        ids: None,
        authors: None,
        kinds: Some(seq![KIND_CHANNEL_MESSAGE]),
        events: Some(seq![id]),
        pubkeys: None,
        since: None,
        until: None,
        limit: Some(200),
    }
}

/// The filter that asks for the latest metadata of user `key`.
pub open spec fn user_metadata_filter(key: Seq<char>) -> FilterView {
    FilterView {
        ids: None,
        authors: Some(seq![key]),
        kinds: Some(seq![KIND_METADATA]),
        events: None,
        pubkeys: None,
        since: None,
        until: None,
        limit: Some(1),
    }
}

/// The subscription for a user's metadata.
pub open spec fn user_metadata_subscription(key: Seq<char>) -> ServerActionView {
    ServerActionView::Subscribe {
        subscription_id: key + "-user-metadata"@,
        filter: user_metadata_filter(key),
    }
}

/// Whether a nickname entry belongs to the user with key `k`.
pub open spec fn nick_key(k: Seq<char>) -> spec_fn((String, IRCNickname)) -> bool {
    |e: (String, IRCNickname)| e.0@ == k
}

/// Whether a channel has id `k`.
pub open spec fn channel_key(k: Seq<char>) -> spec_fn(IRCChannel) -> bool {
    |c: IRCChannel| c.id@ == k
}

/// A secret key that nostr reads, with its public key.
pub open spec fn keys_valid(k: IdentityView) -> bool {
    public_key_of_secret(k.secret_key) == Some(k.public_key)
}

/// Whether a peer entry belongs to the peer `id`.
pub open spec fn peer_key(id: u64) -> spec_fn((u64, PeerInfo)) -> bool {
    |e: (u64, PeerInfo)| e.0 == id
}

/// A position found by an executable search, as an integer.
pub open spec fn as_pos(r: Option<usize>) -> Option<int> {
    match r {
        Some(i) => Some(i as int),
        None => None,
    }
}

/// The IRC server's tables: the name of every nostr user it has seen, the
/// channels that peers have joined, and the connected peers.
pub struct IRCServer {
    pub nicknames: Vec<(String, IRCNickname)>,
    pub channels: Vec<IRCChannel>,
    pub peers: Vec<(u64, PeerInfo)>,
    pub peer_id_counter: u64,
}

impl IRCServer {
    /// Where the name of user `k` is kept.
    pub open spec fn nick_pos(self, k: Seq<char>) -> Option<int> {
        first_match(self.nicknames@, nick_key(k))
    }

    /// Where channel `k` is kept.
    pub open spec fn channel_pos(self, k: Seq<char>) -> Option<int> {
        first_match(self.channels@, channel_key(k))
    }

    /// Where peer `id` is kept.
    pub open spec fn peer_pos(self, id: u64) -> Option<int> {
        first_match(self.peers@, peer_key(id))
    }

    /// The tables are consistent: one entry per user, channel and peer; a
    /// peer id never above the counter; a peer in a channel has keys; no
    /// channel twice in a peer's list and no user twice in a channel's; a
    /// peer's keys are a secret key and its public key.
    pub open spec fn wf(self) -> bool {
        &&& forall|a: int, b: int|
            0 <= a < b < self.nicknames@.len() ==> (#[trigger] self.nicknames@[a]).0@
                != (#[trigger] self.nicknames@[b]).0@
        &&& forall|a: int, b: int|
            0 <= a < b < self.channels@.len() ==> (#[trigger] self.channels@[a]).id@
                != (#[trigger] self.channels@[b]).id@
        &&& forall|a: int, b: int|
            0 <= a < b < self.peers@.len() ==> (#[trigger] self.peers@[a]).0 != (
            #[trigger] self.peers@[b]).0
        &&& forall|a: int|
            0 <= a < self.peers@.len() ==> (#[trigger] self.peers@[a]).0 <= self.peer_id_counter
        &&& forall|a: int|
            0 <= a < self.peers@.len() ==> ((#[trigger] self.peers@[a]).1.channels@.len() > 0
                ==> self.peers@[a].1.keys is Some)
        &&& forall|a: int|
            0 <= a < self.peers@.len() ==> texts_distinct((#[trigger] self.peers@[a]).1.channels@)
        &&& forall|a: int|
            0 <= a < self.channels@.len() ==> texts_distinct(
                (#[trigger] self.channels@[a]).known_users@,
            )
        &&& forall|a: int|
            0 <= a < self.peers@.len() ==> ((#[trigger] self.peers@[a]).1.keys matches Some(k)
                ==> keys_valid(k@))
    }

    /// No users, channels or peers.
    pub fn new() -> (s: Self)
        ensures
            s.wf(),
            s.nicknames@.len() == 0,
            s.channels@.len() == 0,
            s.peers@.len() == 0,
            s.peer_id_counter == 0,
    {
        IRCServer {
            nicknames: Vec::new(),
            channels: Vec::new(),
            peers: Vec::new(),
            peer_id_counter: 0,
        }
    }

    /// Registers a newly connected IRC client under the next peer id, which
    /// is returned; the peer starts without keys and channels.
    pub fn handle_irc_client(&mut self) -> (peer_id: u64)
        requires
            old(self).wf(),
            old(self).peer_id_counter < u64::MAX,
        ensures
            final(self).wf(),
            peer_id == old(self).peer_id_counter + 1,
            final(self).peer_id_counter == peer_id,
            old(self).peer_pos(peer_id) is None,
            final(self).peers@.len() == old(self).peers@.len() + 1,
            forall|i: int|
                0 <= i < old(self).peers@.len() ==> final(self).peers@[i] == old(self).peers@[i],
            final(self).peers@.last().0 == peer_id,
            final(self).peers@.last().1.keys is None,
            final(self).peers@.last().1.channels@.len() == 0,
            final(self).nicknames == old(self).nicknames,
            final(self).channels == old(self).channels,
    {
        self.peer_id_counter = self.peer_id_counter + 1;
        let peer_id = self.peer_id_counter;
        proof {
            assert forall|j: int| 0 <= j < old(self).peers@.len() implies !(peer_key(peer_id))(
                #[trigger] old(self).peers@[j],
            ) by {}
            lemma_first_match_none(old(self).peers@, peer_key(peer_id));
        }
        self.peers.push((peer_id, PeerInfo::new()));
        proof {
            assert forall|a: int| 0 <= a < self.peers@.len() implies texts_distinct(
                (#[trigger] self.peers@[a]).1.channels@,
            ) by {
                if a < old(self).peers@.len() {
                    assert(self.peers@[a] == old(self).peers@[a]);
                }
            }
        }
        peer_id
    }

    fn find_nickname(&self, key: &String) -> (r: Option<usize>)
        ensures
            as_pos(r) == self.nick_pos(key@),
            r matches Some(i) ==> i < self.nicknames@.len() && self.nicknames@[i as int].0@ == key@,
    {
        let mut i: usize = 0;
        while i < self.nicknames.len()
            invariant
                i <= self.nicknames@.len(),
                forall|j: int| 0 <= j < i ==> !(nick_key(key@))(#[trigger] self.nicknames@[j]),
            decreases self.nicknames@.len() - i,
        {
            if self.nicknames[i].0 == *key {
                proof {
                    lemma_first_match_at(self.nicknames@, nick_key(key@), i as int);
                }
                return Some(i);
            }
            i = i + 1;
        }
        proof {
            lemma_first_match_none(self.nicknames@, nick_key(key@));
        }
        None
    }

    fn find_channel(&self, id: &String) -> (r: Option<usize>)
        ensures
            as_pos(r) == self.channel_pos(id@),
            r matches Some(i) ==> i < self.channels@.len() && self.channels@[i as int].id@ == id@,
    {
        let mut i: usize = 0;
        while i < self.channels.len()
            invariant
                i <= self.channels@.len(),
                forall|j: int| 0 <= j < i ==> !(channel_key(id@))(#[trigger] self.channels@[j]),
            decreases self.channels@.len() - i,
        {
            if self.channels[i].id == *id {
                proof {
                    lemma_first_match_at(self.channels@, channel_key(id@), i as int);
                }
                return Some(i);
            }
            i = i + 1;
        }
        proof {
            lemma_first_match_none(self.channels@, channel_key(id@));
        }
        None
    }

    fn find_peer(&self, peer_id: u64) -> (r: Option<usize>)
        ensures
            as_pos(r) == self.peer_pos(peer_id),
            r matches Some(i) ==> i < self.peers@.len() && self.peers@[i as int].0 == peer_id,
    {
        let mut i: usize = 0;
        while i < self.peers.len()
            invariant
                i <= self.peers@.len(),
                forall|j: int| 0 <= j < i ==> !(peer_key(peer_id))(#[trigger] self.peers@[j]),
            decreases self.peers@.len() - i,
        {
            if self.peers[i].0 == peer_id {
                proof {
                    lemma_first_match_at(self.peers@, peer_key(peer_id), i as int);
                }
                return Some(i);
            }
            i = i + 1;
        }
        proof {
            lemma_first_match_none(self.peers@, peer_key(peer_id));
        }
        None
    }

    /// Whether a peer other than number `i` is in channel `k` (see
    /// [`others_in`]).
    fn others_in_channel(&self, i: usize, k: &String) -> (b: bool)
        ensures
            b == others_in(self.peers@, i as int, k@),
    {
        let mut j: usize = 0;
        while j < self.peers.len()
            invariant
                j <= self.peers@.len(),
                forall|a: int|
                    0 <= a < j && a != i ==> !contains_text(
                        #[trigger] self.peers@[a].1.channels@,
                        k@,
                    ),
            decreases self.peers@.len() - j,
        {
            if j != i && contains_string(&self.peers[j].1.channels, k) {
                return true;
            }
            j = j + 1;
        }
        false
    }

    /// What the creation of channel `channel` on behalf of peer `peer_id`
    /// leads to: the peer is told the new channel's id, if it is still
    /// connected.
    pub open spec fn created_actions(self, peer_id: u64, channel: Seq<char>) -> Seq<
        ServerActionView,
    > {
        match self.peer_pos(peer_id) {
            Some(_) => seq![
                ServerActionView::ToPeer {
                    peer_id,
                    message: ServerMessageView::CreatedChannel { channel },
                },
            ],
            None => seq![],
        }
    }

    /// The answer to the creation of channel `channel` on behalf of peer
    /// `peer_id` (see [`IRCServer::created_actions`]).
    pub fn handle_channel_created(&self, peer_id: u64, channel: String) -> (actions: Vec<
        ServerAction,
    >)
        ensures
            server_actions_view(actions@) == self.created_actions(peer_id, channel@),
    {
        let mut actions: Vec<ServerAction> = Vec::new();
        if self.find_peer(peer_id).is_some() {
            actions.push(
                ServerAction::ToPeer { peer_id, message: ServerMessage::CreatedChannel { channel } },
            );
        }
        proof {
            assert(server_actions_view(actions@) =~= match self.peer_pos(peer_id) {
                Some(_) => seq![
                    ServerActionView::ToPeer {
                        peer_id,
                        message: ServerMessageView::CreatedChannel { channel: channel@ },
                    },
                ],
                None => seq![],
            });
        }
        actions
    }
}

/// An action that has an event signed and published.
pub open spec fn is_publishing(a: ServerActionView) -> bool {
    a is SetMetadata || a is NewChannel || a is ChannelMessage
}

/// Whether a publishing action can be signed: its keys are a secret key
/// that nostr reads and, for metadata or a new channel, the name is one
/// that nostr's metadata takes.
pub open spec fn publish_accepted(a: ServerActionView) -> bool {
    match a {
        ServerActionView::SetMetadata { keys, name } => public_key_of_secret(keys.secret_key)
            is Some && is_metadata_name(name),
        ServerActionView::NewChannel { peer_id: _, keys, name } => public_key_of_secret(
            keys.secret_key,
        ) is Some && is_metadata_name(name),
        ServerActionView::ChannelMessage { keys, channel: _, content: _ } => public_key_of_secret(
            keys.secret_key,
        ) is Some,
        _ => false,
    }
}

/// The event `e` is what the publishing action `a` asks for: signed by
/// its keys, of the kind it names, and carrying its name (as metadata that
/// reads back with it) or its message (with the channel in an `e` tag).
pub open spec fn published_event(a: ServerActionView, e: NostrEvent) -> bool {
    match a {
        ServerActionView::SetMetadata { keys, name } => {
            &&& signed_by(e, keys.secret_key)
            &&& e.kind == KIND_METADATA
            &&& e.tags@.len() == 0
            &&& metadata_name_of(e.content@) == Some(Some(name))
        },
        ServerActionView::NewChannel { peer_id: _, keys, name } => {
            &&& signed_by(e, keys.secret_key)
            &&& e.kind == KIND_CHANNEL_CREATION
            &&& e.tags@.len() == 0
            &&& metadata_name_of(e.content@) == Some(Some(name))
        },
        ServerActionView::ChannelMessage { keys, channel, content } => {
            &&& signed_by(e, keys.secret_key)
            &&& e.kind == KIND_CHANNEL_MESSAGE
            &&& e.tags@.len() == 1
            &&& e.tags@[0]@.len() == 2
            &&& e.tags@[0]@[0]@ == "e"@
            &&& e.tags@[0]@[1]@ == channel
            &&& e.content@ == content
        },
        _ => false,
    }
}

impl IRCServer {
    /// Signs the event that a publishing action asks for, with the keys it
    /// carries (see [`published_event`]), and gives it with what follows
    /// once it is published: a new channel, whose id is its creation
    /// event's, goes to the peer that created it (see
    /// [`IRCServer::created_actions`]). `None` where the action cannot be
    /// signed (see [`publish_accepted`]). The event is authentic: its id is
    /// computed from its fields and its signature checks under the signing
    /// key; its time comes from the clock and its signature from a random
    /// source.
    pub fn publish(&self, action: &ServerAction) -> (r: Option<(NostrEvent, Vec<ServerAction>)>)
        ensures
            r is Some == publish_accepted(action@),
            r matches Some((e, after)) ==> {
                &&& published_event(action@, e)
                &&& server_actions_view(after@) == match action@ {
                    ServerActionView::NewChannel { peer_id, keys: _, name: _ } => self.created_actions(
                        peer_id,
                        e.id@,
                    ),
                    _ => Seq::<ServerActionView>::empty(),
                }
            },
    {
        match action {
            ServerAction::SetMetadata { keys, name } => {
                if public_key_from_secret(keys.secret_key.as_str()).is_none() {
                    return None;
                }
                match sign_metadata(keys.secret_key.as_str(), name.as_str()) {
                    Some(e) => Some((e, Vec::new())),
                    None => None,
                }
            },
            ServerAction::NewChannel { peer_id, keys, name } => {
                if public_key_from_secret(keys.secret_key.as_str()).is_none() {
                    return None;
                }
                match sign_channel_creation(keys.secret_key.as_str(), name.as_str()) {
                    Some(e) => {
                        let after = self.handle_channel_created(*peer_id, e.id.clone());
                        Some((e, after))
                    },
                    None => None,
                }
            },
            ServerAction::ChannelMessage { keys, channel, content } => {
                if public_key_from_secret(keys.secret_key.as_str()).is_none() {
                    return None;
                }
                match sign_channel_message(
                    keys.secret_key.as_str(),
                    channel.as_str(),
                    content.as_str(),
                ) {
                    Some(e) => Some((e, Vec::new())),
                    None => None,
                }
            },
            _ => None,
        }
    }
}

/// The entries of `old` and `new` agree but for the one at `i`, which keeps
/// its peer id.
pub open spec fn peers_same_except(
    old: Seq<(u64, PeerInfo)>,
    new: Seq<(u64, PeerInfo)>,
    i: int,
) -> bool {
    &&& new.len() == old.len()
    &&& 0 <= i < old.len()
    &&& new[i].0 == old[i].0
    &&& forall|j: int| 0 <= j < old.len() && j != i ==> new[j] == old[j]
}

/// `new` is `old` with a fresh channel of id `id` added at the end.
pub open spec fn channel_opened(old: Seq<IRCChannel>, new: Seq<IRCChannel>, id: String) -> bool {
    &&& new.len() == old.len() + 1
    &&& forall|j: int| 0 <= j < old.len() ==> new[j] == old[j]
    &&& IRCChannel::is_fresh(new.last(), id)
}

/// The messages `msgs` replayed to peer `peer_id`.
pub open spec fn replay_actions(peer_id: u64, msgs: Seq<ServerMessage>) -> Seq<ServerActionView> {
    msgs.map_values(|m: ServerMessage| ServerActionView::ToPeer { peer_id, message: m@ })
}

/// The topic shown while a newly opened channel is loading.
pub open spec fn loading_topic() -> Seq<char> {
    "Channel is loading..."@
}

/// The subscriptions that show `channel`: its creation event and its last
/// messages.
pub open spec fn subscribe_actions(channel: Seq<char>) -> Seq<ServerActionView> {
    seq![
        ServerActionView::Subscribe {
            subscription_id: channel + "-info"@,
            filter: info_filter(channel),
        },
        ServerActionView::Subscribe {
            subscription_id: channel + "-messages"@,
            filter: channel_messages_filter(channel),
        },
    ]
}

/// Whether a peer other than number `i` is in `channel`.
pub open spec fn others_in(peers: Seq<(u64, PeerInfo)>, i: int, channel: Seq<char>) -> bool {
    exists|j: int| 0 <= j < peers.len() && j != i && contains_text(#[trigger] peers[j].1.channels@, channel)
}

/// The ends of the subscriptions of [`subscribe_actions`].
pub open spec fn close_actions(channel: Seq<char>) -> Seq<ServerActionView> {
    seq![
        ServerActionView::Unsubscribe { subscription_id: channel + "-info"@ },
        ServerActionView::Unsubscribe { subscription_id: channel + "-messages"@ },
    ]
}

impl IRCServer {
    /// What peer number `i` is told about itself joining `channel`: its own
    /// name, if the server knows it.
    pub open spec fn joined_actions(self, i: int, channel: Seq<char>) -> Seq<ServerActionView> {
        let peer_id = self.peers@[i].0;
        let key = self.peers@[i].1.keys->Some_0.public_key@;
        match self.nick_pos(key) {
            Some(n) => seq![
                ServerActionView::ToPeer {
                    peer_id,
                    message: ServerMessageView::PeerJoined {
                        channel,
                        nickname: self.nicknames@[n].1.displayed_name(),
                    },
                },
            ],
            None => seq![],
        }
    }

    /// What peer number `i` is sent first on joining `channel`: a known
    /// channel sends its topic and its history, and is subscribed to again
    /// if no other peer is in it (its subscriptions ended when the last one
    /// left); an unknown one shows a loading topic and is subscribed to.
    pub open spec fn channel_entry_actions(self, i: int, channel: Seq<char>) -> Seq<
        ServerActionView,
    > {
        let peer_id = self.peers@[i].0;
        match self.channel_pos(channel) {
            Some(c) => (match self.channels@[c].topic {
                Some(t) => seq![
                    ServerActionView::ToPeer {
                        peer_id,
                        message: ServerMessageView::ChangeTopic { channel, topic: t@ },
                    },
                ],
                None => seq![],
            }) + replay_actions(peer_id, self.channels@[c].messages@) + if others_in(
                self.peers@,
                i,
                channel,
            ) {
                Seq::<ServerActionView>::empty()
            } else {
                subscribe_actions(channel)
            },
            None => seq![
                ServerActionView::ToPeer {
                    peer_id,
                    message: ServerMessageView::ChangeTopic { channel, topic: loading_topic() },
                },
            ] + subscribe_actions(channel),
        }
    }

    /// What happens when peer number `i` joins `channel`: the channel's
    /// entry (see [`IRCServer::channel_entry_actions`]) and then the peer's
    /// own arrival.
    pub open spec fn add_channel_actions(self, i: int, channel: Seq<char>) -> Seq<
        ServerActionView,
    > {
        self.channel_entry_actions(i, channel) + self.joined_actions(i, channel)
    }

    /// The messages on which the server would stop: a peer without keys
    /// joining a channel it is not in yet; a peer with keys
    /// taking a nickname or creating a channel under a name that nostr's
    /// metadata does not take; keys that are not a secret key and its
    /// public key.
    pub open spec fn peer_message_accepted(self, m: PeerMessage) -> bool {
        match m {
            PeerMessage::ChangeNickname { peer_id, public_key: _, nickname } => match self.peer_pos(
                peer_id,
            ) {
                Some(i) => self.peers@[i].1.keys is Some ==> is_metadata_name(nickname@),
                None => true,
            },
            PeerMessage::CreateChannel { peer_id, name } => match self.peer_pos(peer_id) {
                Some(i) => self.peers@[i].1.keys is Some ==> is_metadata_name(name@),
                None => true,
            },
            PeerMessage::SetKeys { peer_id, keys } => match self.peer_pos(peer_id) {
                Some(_) => keys_valid(keys@),
                None => true,
            },
            PeerMessage::AddChannel { peer_id, public_key } => match self.peer_pos(peer_id) {
                Some(i) => !contains_text(self.peers@[i].1.channels@, public_key@)
                    ==> self.peers@[i].1.keys is Some,
                None => true,
            },
            _ => true,
        }
    }

    /// What the server does for a message from a peer: a new nickname, a
    /// new channel or a message is published with the peer's keys; joining
    /// a channel shows it (see [`IRCServer::add_channel_actions`]); the last
    /// peer leaving a channel ends its subscriptions, and the peer's IRC
    /// client is not told; a new user's
    /// metadata is subscribed to, a known user's name is told.
    pub open spec fn peer_message_actions(self, m: PeerMessage) -> Seq<ServerActionView> {
        match m {
            PeerMessage::ChangeNickname { peer_id, public_key: _, nickname } => match self.peer_pos(
                peer_id,
            ) {
                Some(i) => match self.peers@[i].1.keys {
                    Some(k) => seq![ServerActionView::SetMetadata { keys: k@, name: nickname@ }],
                    None => seq![],
                },
                None => seq![],
            },
            PeerMessage::CreateChannel { peer_id, name } => match self.peer_pos(peer_id) {
                Some(i) => match self.peers@[i].1.keys {
                    Some(k) => seq![ServerActionView::NewChannel { peer_id, keys: k@, name: name@ }],
                    None => seq![],
                },
                None => seq![],
            },
            PeerMessage::AddChannel { peer_id, public_key } => match self.peer_pos(peer_id) {
                Some(i) => if contains_text(self.peers@[i].1.channels@, public_key@) {
                    seq![]
                } else {
                    self.add_channel_actions(i, public_key@)
                },
                None => seq![],
            },
            PeerMessage::LeaveChannel { peer_id, public_key } => match self.peer_pos(peer_id) {
                Some(i) => if self.channel_pos(public_key@) is Some && !others_in(
                    self.peers@,
                    i,
                    public_key@,
                ) {
                    close_actions(public_key@)
                } else {
                    Seq::<ServerActionView>::empty()
                },
                None => seq![],
            },
            PeerMessage::AddNickname { peer_id, public_key } => match self.peer_pos(peer_id) {
                Some(_) => match self.nick_pos(public_key@) {
                    Some(n) => match self.nicknames@[n].1 {
                        IRCNickname::Nick(name) => seq![
                            ServerActionView::ToPeer {
                                peer_id,
                                message: ServerMessageView::ChangeNickname {
                                    public_key: public_key@,
                                    old_nickname: public_key@,
                                    new_nickname: name@,
                                },
                            },
                        ],
                        IRCNickname::Key(_) => seq![],
                    },
                    None => seq![user_metadata_subscription(public_key@)],
                },
                None => seq![],
            },
            PeerMessage::SetKeys { peer_id: _, keys: _ } => seq![],
            PeerMessage::SendMessage { peer_id, channel, message } => match self.peer_pos(peer_id) {
                Some(i) => match self.peers@[i].1.keys {
                    Some(k) => seq![
                        ServerActionView::ChannelMessage {
                            keys: k@,
                            channel: channel@,
                            content: message@,
                        },
                    ],
                    None => seq![],
                },
                None => seq![],
            },
        }
    }

    /// How the tables change for a message from a peer: a peer joining a
    /// channel records it (and opens the channel if it is new), a peer
    /// leaving drops it, a new user gets their key as name, a password
    /// sets the peer's keys; nothing else changes.
    pub open spec fn peer_message_state(self, m: PeerMessage, new: IRCServer) -> bool {
        match m {
            PeerMessage::AddChannel { peer_id, public_key } => match self.peer_pos(peer_id) {
                Some(i) => if contains_text(self.peers@[i].1.channels@, public_key@) {
                    new == self
                } else {
                    &&& new.nicknames == self.nicknames
                    &&& new.peer_id_counter == self.peer_id_counter
                    &&& peers_same_except(self.peers@, new.peers@, i)
                    &&& new.peers@[i].1.keys == self.peers@[i].1.keys
                    &&& new.peers@[i].1.channels@ == self.peers@[i].1.channels@.push(public_key)
                    &&& match self.channel_pos(public_key@) {
                        Some(_) => new.channels == self.channels,
                        None => channel_opened(self.channels@, new.channels@, public_key),
                    }
                },
                None => new == self,
            },
            PeerMessage::LeaveChannel { peer_id, public_key } => match self.peer_pos(peer_id) {
                Some(i) => {
                    &&& new.nicknames == self.nicknames
                    &&& new.channels == self.channels
                    &&& new.peer_id_counter == self.peer_id_counter
                    &&& peers_same_except(self.peers@, new.peers@, i)
                    &&& new.peers@[i].1.keys == self.peers@[i].1.keys
                    &&& new.peers@[i].1.channels@ == without_text(
                        self.peers@[i].1.channels@,
                        public_key@,
                    )
                },
                None => new == self,
            },
            PeerMessage::AddNickname { peer_id, public_key } => match self.peer_pos(peer_id) {
                Some(_) => match self.nick_pos(public_key@) {
                    Some(_) => new == self,
                    None => {
                        &&& new.nicknames@ == self.nicknames@.push(
                            (public_key, IRCNickname::Key(public_key)),
                        )
                        &&& new.channels == self.channels
                        &&& new.peers == self.peers
                        &&& new.peer_id_counter == self.peer_id_counter
                    },
                },
                None => new == self,
            },
            PeerMessage::SetKeys { peer_id, keys } => match self.peer_pos(peer_id) {
                Some(i) => {
                    &&& new.nicknames == self.nicknames
                    &&& new.channels == self.channels
                    &&& new.peer_id_counter == self.peer_id_counter
                    &&& peers_same_except(self.peers@, new.peers@, i)
                    &&& new.peers@[i].1.keys == Some(keys)
                    &&& new.peers@[i].1.channels == self.peers@[i].1.channels
                },
                None => new == self,
            },
            _ => new == self,
        }
    }
}

/// Adds the subscriptions that show channel `public_key` (see
/// [`subscribe_actions`]) to `actions`.
fn push_subscriptions(actions: &mut Vec<ServerAction>, public_key: &String)
    ensures
        server_actions_view(final(actions)@) == server_actions_view(old(actions)@)
            + subscribe_actions(public_key@),
{
    let ghost before = server_actions_view(actions@);
    let ids = vec![public_key.clone()];
    proof {
        assert(ids@.map_values(|s: String| s@) =~= seq![public_key@]);
    }
    let info = SubscriptionFilter {
        ids: Some(ids),
        authors: None,
        kinds: None,
        events: None,
        pubkeys: None,
        since: None,
        until: None,
        limit: None,
    };
    actions.push(
        ServerAction::Subscribe {
            subscription_id: public_key.clone().concat("-info"),
            filter: info,
        },
    );
    let kinds = vec![KIND_CHANNEL_MESSAGE];
    let events = vec![public_key.clone()];
    proof {
        assert(kinds@ =~= seq![KIND_CHANNEL_MESSAGE]);
        assert(events@.map_values(|s: String| s@) =~= seq![public_key@]);
    }
    let history = SubscriptionFilter {
        ids: None,
        authors: None,
        kinds: Some(kinds),
        events: Some(events),
        pubkeys: None,
        since: None,
        until: None,
        limit: Some(200),
    };
    actions.push(
        ServerAction::Subscribe {
            subscription_id: public_key.clone().concat("-messages"),
            filter: history,
        },
    );
    proof {
        assert(server_actions_view(actions@) =~= before + subscribe_actions(public_key@));
    }
}

/// The subscription request for a user's metadata.
fn user_metadata_request(key: &String) -> (a: ServerAction)
    ensures
        a@ == user_metadata_subscription(key@),
{
    let authors = vec![key.clone()];
    let kinds = vec![KIND_METADATA];
    proof {
        assert(authors@.map_values(|s: String| s@) =~= seq![key@]);
        assert(kinds@ =~= seq![KIND_METADATA]);
    }
    let filter = SubscriptionFilter {
        ids: None,
        authors: Some(authors),
        kinds: Some(kinds),
        events: None,
        pubkeys: None,
        since: None,
        until: None,
        limit: Some(1),
    };
    let a = ServerAction::Subscribe {
        subscription_id: key.clone().concat("-user-metadata"),
        filter,
    };
    proof {
        assert(a@ =~= user_metadata_subscription(key@));
    }
    a
}

impl IRCServer {
    /// Peer number `i` joins `public_key`, which it is not in yet (see
    /// [`IRCServer::add_channel_actions`]).
    fn add_channel(&mut self, i: usize, public_key: String) -> (actions: Vec<ServerAction>)
        requires
            old(self).wf(),
            i < old(self).peers@.len(),
            !contains_text(old(self).peers@[i as int].1.channels@, public_key@),
            old(self).peers@[i as int].1.keys is Some,
        ensures
            final(self).wf(),
            server_actions_view(actions@) == old(self).add_channel_actions(i as int, public_key@),
            final(self).nicknames == old(self).nicknames,
            final(self).peer_id_counter == old(self).peer_id_counter,
            peers_same_except(old(self).peers@, final(self).peers@, i as int),
            final(self).peers@[i as int].1.keys == old(self).peers@[i as int].1.keys,
            final(self).peers@[i as int].1.channels@ == old(self).peers@[i as int].1.channels@.push(
                public_key,
            ),
            match old(self).channel_pos(public_key@) {
                Some(_) => final(self).channels == old(self).channels,
                None => channel_opened(old(self).channels@, final(self).channels@, public_key),
            },
    {
        let ghost s0 = *old(self);
        let peer_id = self.peers[i].0;
        let others = self.others_in_channel(i, &public_key);
        self.peers[i].1.channels.push(public_key.clone());
        proof {
            let ch = self.peers@[i as int].1.channels@;
            assert forall|a: int, b: int| 0 <= a < b < ch.len() implies (#[trigger] ch[a])@ != (
            #[trigger] ch[b])@ by {
                if b == ch.len() - 1 {
                    assert(ch[a] == s0.peers@[i as int].1.channels@[a]);
                } else {
                    assert(ch[a] == s0.peers@[i as int].1.channels@[a]);
                    assert(ch[b] == s0.peers@[i as int].1.channels@[b]);
                }
            }
        }
        let mut actions: Vec<ServerAction> = Vec::new();
        match self.find_channel(&public_key) {
            Some(c) => {
                match &self.channels[c].topic {
                    Some(t) => {
                        actions.push(
                            ServerAction::ToPeer {
                                peer_id,
                                message: ServerMessage::ChangeTopic {
                                    channel: public_key.clone(),
                                    topic: t.clone(),
                                },
                            },
                        );
                    },
                    None => {},
                }
                let ghost first = server_actions_view(actions@);
                let n: usize = self.channels[c].messages.len();
                let mut k: usize = 0;
                while k < n
                    invariant
                        c < self.channels@.len(),
                        self.channels == s0.channels,
                        n == self.channels@[c as int].messages@.len(),
                        k <= n,
                        server_actions_view(actions@) == first + replay_actions(
                            peer_id,
                            self.channels@[c as int].messages@.take(k as int),
                        ),
                    decreases n - k,
                {
                    let ghost before = server_actions_view(actions@);
                    let m = self.channels[c].messages[k].clone();
                    actions.push(ServerAction::ToPeer { peer_id, message: m });
                    proof {
                        let msgs = self.channels@[c as int].messages@;
                        assert(msgs.take(k + 1) =~= msgs.take(k as int).push(msgs[k as int]));
                        assert(replay_actions(peer_id, msgs.take(k + 1)) =~= replay_actions(
                            peer_id,
                            msgs.take(k as int),
                        ).push(ServerActionView::ToPeer { peer_id, message: msgs[k as int]@ }));
                        assert(server_actions_view(actions@) =~= before.push(
                            ServerActionView::ToPeer { peer_id, message: msgs[k as int]@ },
                        ));
                    }
                    k = k + 1;
                }
                proof {
                    let msgs = self.channels@[c as int].messages@;
                    assert(msgs.take(n as int) =~= msgs);
                }
                if !others {
                    push_subscriptions(&mut actions, &public_key);
                }
                proof {
                    assert(server_actions_view(actions@) =~= s0.channel_entry_actions(
                        i as int,
                        public_key@,
                    ));
                }
            },
            None => {
                self.channels.push(IRCChannel::new(public_key.clone()));
                proof {
                    assert forall|a: int, b: int|
                        0 <= a < b < self.channels@.len() implies (#[trigger] self.channels@[a]).id@
                        != (#[trigger] self.channels@[b]).id@ by {
                        if b == self.channels@.len() - 1 {
                            assert(self.channels@[a] == s0.channels@[a]);
                            assert(!(channel_key(public_key@))(s0.channels@[a])) by {
                                lemma_first_match_spec(s0.channels@, channel_key(public_key@));
                            }
                        } else {
                            assert(self.channels@[a] == s0.channels@[a]);
                            assert(self.channels@[b] == s0.channels@[b]);
                        }
                    }
                    assert forall|a: int| 0 <= a < self.channels@.len() implies texts_distinct(
                        (#[trigger] self.channels@[a]).known_users@,
                    ) by {
                        if a < s0.channels@.len() {
                            assert(self.channels@[a] == s0.channels@[a]);
                        }
                    }
                }
                actions.push(
                    ServerAction::ToPeer {
                        peer_id,
                        message: ServerMessage::ChangeTopic {
                            channel: public_key.clone(),
                            topic: "Channel is loading...".to_string(),
                        },
                    },
                );
                push_subscriptions(&mut actions, &public_key);
                proof {
                    assert(server_actions_view(actions@) =~= s0.channel_entry_actions(
                        i as int,
                        public_key@,
                    ));
                }
            },
        }
        let ghost entry = server_actions_view(actions@);
        let key = match &self.peers[i].1.keys {
            Some(k) => k.public_key.clone(),
            None => {
                proof {
                    assert(false);
                }
                String::new()
            },
        };
        match self.find_nickname(&key) {
            Some(n) => {
                let nickname = self.nicknames[n].1.get_displayed_name();
                actions.push(
                    ServerAction::ToPeer {
                        peer_id,
                        message: ServerMessage::PeerJoined { channel: public_key.clone(), nickname },
                    },
                );
            },
            None => {},
        }
        proof {
            assert(server_actions_view(actions@) =~= entry + s0.joined_actions(
                i as int,
                public_key@,
            ));
        }
        proof {
            assert(server_actions_view(actions@) =~= s0.add_channel_actions(i as int, public_key@));
        }
        actions
    }

    /// Answers a message from a peer (see [`IRCServer::peer_message_actions`]
    /// and [`IRCServer::peer_message_state`]).
    pub fn handle_peer_message(&mut self, message: PeerMessage) -> (actions: Vec<ServerAction>)
        requires
            old(self).wf(),
            old(self).peer_message_accepted(message),
        ensures
            final(self).wf(),
            server_actions_view(actions@) == old(self).peer_message_actions(message),
            old(self).peer_message_state(message, *final(self)),
    {
        let ghost s0 = *old(self);
        let ghost m0 = message;
        let mut actions: Vec<ServerAction> = Vec::new();
        match message {
            PeerMessage::ChangeNickname { peer_id, public_key: _, nickname } => {
                match self.find_peer(peer_id) {
                    Some(i) => match &self.peers[i].1.keys {
                        Some(keys) => {
                            actions.push(ServerAction::SetMetadata { keys: keys.clone(), name: nickname });
                        },
                        None => {},
                    },
                    None => {},
                }
            },
            PeerMessage::CreateChannel { peer_id, name } => {
                match self.find_peer(peer_id) {
                    Some(i) => match &self.peers[i].1.keys {
                        Some(keys) => {
                            actions.push(ServerAction::NewChannel { peer_id, keys: keys.clone(), name });
                        },
                        None => {},
                    },
                    None => {},
                }
            },
            PeerMessage::AddChannel { peer_id, public_key } => {
                match self.find_peer(peer_id) {
                    Some(i) => {
                        if !contains_string(&self.peers[i].1.channels, &public_key) {
                            actions = self.add_channel(i, public_key);
                        }
                    },
                    None => {},
                }
            },
            PeerMessage::LeaveChannel { peer_id, public_key } => {
                match self.find_peer(peer_id) {
                    Some(i) => {
                        let others = self.others_in_channel(i, &public_key);
                        let known = self.find_channel(&public_key).is_some();
                        let kept = remove_text(&self.peers[i].1.channels, &public_key);
                        proof {
                            lemma_without_text_distinct(s0.peers@[i as int].1.channels@, public_key@);
                        }
                        self.peers[i].1.channels = kept;
                        if known && !others {
                            actions.push(
                                ServerAction::Unsubscribe {
                                    subscription_id: public_key.clone().concat("-info"),
                                },
                            );
                            actions.push(
                                ServerAction::Unsubscribe {
                                    subscription_id: public_key.concat("-messages"),
                                },
                            );
                        }
                    },
                    None => {},
                }
            },
            PeerMessage::AddNickname { peer_id, public_key } => {
                match self.find_peer(peer_id) {
                    Some(_) => match self.find_nickname(&public_key) {
                        Some(n) => match &self.nicknames[n].1 {
                            IRCNickname::Nick(name) => {
                                actions.push(
                                    ServerAction::ToPeer {
                                        peer_id,
                                        message: ServerMessage::ChangeNickname {
                                            public_key: public_key.clone(),
                                            old_nickname: public_key.clone(),
                                            new_nickname: name.clone(),
                                        },
                                    },
                                );
                            },
                            IRCNickname::Key(_) => {},
                        },
                        None => {
                            self.nicknames.push((public_key.clone(), IRCNickname::Key(public_key.clone())));
                            proof {
                                lemma_first_match_spec(s0.nicknames@, nick_key(public_key@));
                                assert forall|a: int, b: int|
                                    0 <= a < b < self.nicknames@.len() implies (
                                    #[trigger] self.nicknames@[a]).0@ != (
                                    #[trigger] self.nicknames@[b]).0@ by {
                                    assert(self.nicknames@[a] == s0.nicknames@[a]);
                                    if b < s0.nicknames@.len() {
                                        assert(self.nicknames@[b] == s0.nicknames@[b]);
                                    } else {
                                        assert(!(nick_key(public_key@))(s0.nicknames@[a]));
                                    }
                                }
                            }
                            actions.push(user_metadata_request(&public_key));
                        },
                    },
                    None => {},
                }
            },
            PeerMessage::SetKeys { peer_id, keys } => {
                match self.find_peer(peer_id) {
                    Some(i) => {
                        self.peers[i].1.keys = Some(keys);
                    },
                    None => {},
                }
            },
            PeerMessage::SendMessage { peer_id, channel, message } => {
                match self.find_peer(peer_id) {
                    Some(i) => match &self.peers[i].1.keys {
                        Some(keys) => {
                            actions.push(
                                ServerAction::ChannelMessage {
                                    keys: keys.clone(),
                                    channel,
                                    content: message,
                                },
                            );
                        },
                        None => {},
                    },
                    None => {},
                }
            },
        }
        proof {
            assert(server_actions_view(actions@) =~= s0.peer_message_actions(m0));
            assert forall|a: int| 0 <= a < self.peers@.len() implies texts_distinct(
                (#[trigger] self.peers@[a]).1.channels@,
            ) && ((self.peers@[a].1.channels@.len() > 0 ==> self.peers@[a].1.keys is Some)) by {
                if self.peers@.len() == s0.peers@.len() && self.peers@[a] != s0.peers@[a] {
                } else {
                }
            }
        }
        actions
    }
}

/// Whether a tag is an `e` tag (a reference to an event).
pub open spec fn is_e_tag() -> spec_fn(Vec<String>) -> bool {
    |t: Vec<String>| t@.len() > 0 && t@[0]@ == "e"@
}

/// The same channel with possibly another topic.
pub open spec fn same_but_topic(old: IRCChannel, new: IRCChannel) -> bool {
    &&& new.id == old.id
    &&& new.warming_up == old.warming_up
    &&& new.got_metadata == old.got_metadata
    &&& new.got_messages == old.got_messages
    &&& new.got_nicks == old.got_nicks
    &&& new.known_users == old.known_users
    &&& new.warm_up_events == old.warm_up_events
    &&& new.messages == old.messages
}

/// The channels of `old` and `new` agree but for the one at `c`.
pub open spec fn channels_same_except(old: Seq<IRCChannel>, new: Seq<IRCChannel>, c: int) -> bool {
    &&& new.len() == old.len()
    &&& 0 <= c < old.len()
    &&& forall|j: int| 0 <= j < old.len() && j != c ==> new[j] == old[j]
}

/// Every peer is told that user `key` changed name from `old` to `new`.
pub open spec fn rename_broadcast(
    peers: Seq<(u64, PeerInfo)>,
    key: Seq<char>,
    old: Seq<char>,
    new: Seq<char>,
) -> Seq<ServerActionView> {
    peers.map_values(
        |p: (u64, PeerInfo)|
            ServerActionView::ToPeer {
                peer_id: p.0,
                message: ServerMessageView::ChangeNickname {
                    public_key: key,
                    old_nickname: old,
                    new_nickname: new,
                },
            },
    )
}

/// Every peer in channel `channel` is told its new topic.
pub open spec fn topic_broadcast(
    peers: Seq<(u64, PeerInfo)>,
    channel: Seq<char>,
    topic: Seq<char>,
) -> Seq<ServerActionView>
    decreases peers.len(),
{
    if peers.len() == 0 {
        seq![]
    } else {
        let p = peers.last();
        topic_broadcast(peers.drop_last(), channel, topic) + if contains_text(
            p.1.channels@,
            channel,
        ) {
            seq![
                ServerActionView::ToPeer {
                    peer_id: p.0,
                    message: ServerMessageView::ChangeTopic { channel, topic },
                },
            ]
        } else {
            seq![]
        }
    }
}

/// What one peer is told of a message by `author` in `channel`: nothing if
/// it is not in the channel, or if it is the author's own live message
/// (its IRC client shows it already); otherwise the author's arrival if
/// the author is new to the channel, and the message.
pub open spec fn chat_for_peer(
    p: (u64, PeerInfo),
    channel: Seq<char>,
    author: Seq<char>,
    is_history: bool,
    send_join: bool,
    nickname: Seq<char>,
    content: Seq<char>,
) -> Seq<ServerActionView> {
    if !contains_text(p.1.channels@, channel) {
        seq![]
    } else if p.1.keys->Some_0.public_key@ == author && !is_history {
        seq![]
    } else {
        (if send_join {
            seq![
                ServerActionView::ToPeer {
                    peer_id: p.0,
                    message: ServerMessageView::Join { channel, nickname },
                },
            ]
        } else {
            seq![]
        }) + seq![
            ServerActionView::ToPeer {
                peer_id: p.0,
                message: ServerMessageView::SendMessage { channel, message: content, nickname },
            },
        ]
    }
}

/// [`chat_for_peer`] for every peer, in order.
pub open spec fn chat_broadcast(
    peers: Seq<(u64, PeerInfo)>,
    channel: Seq<char>,
    author: Seq<char>,
    is_history: bool,
    send_join: bool,
    nickname: Seq<char>,
    content: Seq<char>,
) -> Seq<ServerActionView>
    decreases peers.len(),
{
    if peers.len() == 0 {
        seq![]
    } else {
        chat_broadcast(peers.drop_last(), channel, author, is_history, send_join, nickname, content)
            + chat_for_peer(peers.last(), channel, author, is_history, send_join, nickname, content)
    }
}

/// The topic a channel creation event gives: the name in its metadata, or
/// "No topic".
pub open spec fn creation_topic(content: Seq<char>) -> Seq<char> {
    match metadata_name_of(content)->Some_0 {
        Some(name) => name,
        None => "No topic"@,
    }
}

impl IRCServer {
    /// The relay messages on which the server would stop: metadata that is
    /// not JSON metadata, the creation event of a known channel with such
    /// content, a channel message whose first `e` tag does not hold a
    /// channel id.
    pub open spec fn nostr_message_accepted(self, m: RelayMessage) -> bool {
        match m {
            RelayMessage::Event { event, subscription_id: _ } => self.nostr_event_accepted(event),
            _ => true,
        }
    }

    /// The channel a channel message is for, if it names one the server
    /// keeps: the one its first `e` tag names.
    pub open spec fn chat_channel(self, event: NostrEvent) -> Option<int> {
        match first_match(event.tags@, is_e_tag()) {
            Some(t) => self.channel_pos(channel_id_from_text(event.tags@[t]@[1]@)->Some_0),
            None => None,
        }
    }

    /// The channel that metadata with tags `tags` is for: the known
    /// channel whose id its first `e` tag holds, if it holds one.
    pub open spec fn metadata_channel(self, tags: Seq<Vec<String>>) -> Option<int> {
        match first_match(tags, is_e_tag()) {
            Some(t) => if tags[t]@.len() >= 2 {
                match channel_id_from_text(tags[t]@[1]@) {
                    Some(id) => self.channel_pos(id),
                    None => None,
                }
            } else {
                None
            },
            None => None,
        }
    }

    /// The name user `key` has once a message of theirs has been seen.
    pub open spec fn author_name(self, key: Seq<char>) -> Seq<char> {
        match self.nick_pos(key) {
            Some(n) => self.nicknames@[n].1.displayed_name(),
            None => key,
        }
    }

    /// What the server does for a message from the relays: renames are
    /// told to every peer, a channel's new topic to the peers in it, and a
    /// channel message to the peers in its channel.
    pub open spec fn nostr_message_actions(self, m: RelayMessage, is_history: bool) -> Seq<
        ServerActionView,
    > {
        match m {
            RelayMessage::Event { event, subscription_id: _ } => self.nostr_event_actions(event, is_history),
            _ => seq![],
        }
    }

    /// How the tables change for a message from the relays: a user's
    /// metadata renames them (to the ASCII letters and digits of the new
    /// name) if the server knows them, a channel creation event sets the
    /// topic of a known channel, so does a channel metadata event with a
    /// name for the known channel its first `e` tag names, a channel
    /// message is recorded in its
    /// channel, which learns its author, and an unknown author gets their
    /// key as name. Nothing else changes.
    pub open spec fn nostr_message_state(self, m: RelayMessage, new: IRCServer) -> bool {
        match m {
            RelayMessage::Event { event, subscription_id: _ } => self.nostr_event_state(event, new),
            _ => new == self,
        }
    }
}


impl IRCServer {
    /// The events on which the server would stop (see
    /// [`IRCServer::nostr_message_accepted`]).
    pub open spec fn nostr_event_accepted(self, event: NostrEvent) -> bool {
        if event.kind == KIND_METADATA {
                metadata_name_of(event.content@) is Some
            } else if event.kind == KIND_CHANNEL_CREATION {
                self.channel_pos(event.id@) is Some ==> metadata_name_of(event.content@) is Some
            } else if event.kind == KIND_CHANNEL_MESSAGE {
                match first_match(event.tags@, is_e_tag()) {
                    Some(t) => event.tags@[t]@.len() >= 2 && channel_id_from_text(
                        event.tags@[t]@[1]@,
                    ) is Some,
                    None => true,
                }
            } else {
                true
            }
    }

    /// What the server does for an event from the relays (see
    /// [`IRCServer::nostr_message_actions`]).
    pub open spec fn nostr_event_actions(self, event: NostrEvent, is_history: bool) -> Seq<
        ServerActionView,
    > {
        if event.kind == KIND_METADATA {
                match metadata_name_of(event.content@)->Some_0 {
                    Some(name) => match self.nick_pos(event.pubkey@) {
                        Some(n) => {
                            let old = self.nicknames@[n].1.displayed_name();
                            let new = keep_ascii_alnum(name);
                            if old != new {
                                rename_broadcast(self.peers@, event.pubkey@, old, new)
                            } else {
                                seq![]
                            }
                        },
                        None => seq![],
                    },
                    None => seq![],
                }
            } else if event.kind == KIND_CHANNEL_CREATION {
                match self.channel_pos(event.id@) {
                    Some(_) => topic_broadcast(
                        self.peers@,
                        event.id@,
                        creation_topic(event.content@),
                    ),
                    None => seq![],
                }
            } else if event.kind == KIND_CHANNEL_METADATA {
                match (self.metadata_channel(event.tags@), metadata_name_of(event.content@)) {
                    (Some(c), Some(Some(name))) => topic_broadcast(
                        self.peers@,
                        self.channels@[c].id@,
                        name,
                    ),
                    _ => seq![],
                }
            } else if event.kind == KIND_CHANNEL_MESSAGE {
                match self.chat_channel(event) {
                    Some(c) => {
                        let channel = self.channels@[c].id@;
                        (if self.nick_pos(event.pubkey@) is None {
                            seq![user_metadata_subscription(event.pubkey@)]
                        } else {
                            seq![]
                        }) + chat_broadcast(
                            self.peers@,
                            channel,
                            event.pubkey@,
                            is_history,
                            !contains_text(self.channels@[c].known_users@, event.pubkey@),
                            self.author_name(event.pubkey@),
                            event.content@,
                        )
                    },
                    None => seq![],
                }
            } else {
                seq![]
            }
    }

    /// How the tables change for an event from the relays (see
    /// [`IRCServer::nostr_message_state`]).
    pub open spec fn nostr_event_state(self, event: NostrEvent, new: IRCServer) -> bool {
        if event.kind == KIND_METADATA {
                match (metadata_name_of(event.content@)->Some_0, self.nick_pos(event.pubkey@)) {
                    (Some(name), Some(n)) => if self.nicknames@[n].1.displayed_name()
                        != keep_ascii_alnum(name) {
                        &&& new.channels == self.channels
                        &&& new.peers == self.peers
                        &&& new.peer_id_counter == self.peer_id_counter
                        &&& new.nicknames@.len() == self.nicknames@.len()
                        &&& forall|j: int|
                            0 <= j < self.nicknames@.len() && j != n ==> new.nicknames@[j]
                                == self.nicknames@[j]
                        &&& new.nicknames@[n].0 == self.nicknames@[n].0
                        &&& new.nicknames@[n].1 matches IRCNickname::Nick(s) && s@
                            == keep_ascii_alnum(name)
                    } else {
                        new == self
                    },
                    _ => new == self,
                }
            } else if event.kind == KIND_CHANNEL_CREATION {
                match self.channel_pos(event.id@) {
                    Some(c) => {
                        &&& new.nicknames == self.nicknames
                        &&& new.peers == self.peers
                        &&& new.peer_id_counter == self.peer_id_counter
                        &&& channels_same_except(self.channels@, new.channels@, c)
                        &&& same_but_topic(self.channels@[c], new.channels@[c])
                        &&& new.channels@[c].topic matches Some(t) && t@ == creation_topic(
                            event.content@,
                        )
                    },
                    None => new == self,
                }
            } else if event.kind == KIND_CHANNEL_METADATA {
                match (self.metadata_channel(event.tags@), metadata_name_of(event.content@)) {
                    (Some(c), Some(Some(name))) => {
                        &&& new.nicknames == self.nicknames
                        &&& new.peers == self.peers
                        &&& new.peer_id_counter == self.peer_id_counter
                        &&& channels_same_except(self.channels@, new.channels@, c)
                        &&& same_but_topic(self.channels@[c], new.channels@[c])
                        &&& new.channels@[c].topic matches Some(t) && t@ == name
                    },
                    _ => new == self,
                }
            } else if event.kind == KIND_CHANNEL_MESSAGE {
                match self.chat_channel(event) {
                    Some(c) => {
                        let old_channel = self.channels@[c];
                        let new_channel = new.channels@[c];
                        &&& new.nicknames@ == if self.nick_pos(event.pubkey@) is None {
                            self.nicknames@.push(
                                (event.pubkey, IRCNickname::Key(event.pubkey)),
                            )
                        } else {
                            self.nicknames@
                        }
                        &&& new.peers == self.peers
                        &&& new.peer_id_counter == self.peer_id_counter
                        &&& channels_same_except(self.channels@, new.channels@, c)
                        &&& new_channel.id == old_channel.id
                        &&& new_channel.topic == old_channel.topic
                        &&& new_channel.warming_up == old_channel.warming_up
                        &&& new_channel.got_metadata == old_channel.got_metadata
                        &&& new_channel.got_messages == old_channel.got_messages
                        &&& new_channel.got_nicks == old_channel.got_nicks
                        &&& new_channel.warm_up_events == old_channel.warm_up_events
                        &&& new_channel.known_users@ == if contains_text(
                            old_channel.known_users@,
                            event.pubkey@,
                        ) {
                            old_channel.known_users@
                        } else {
                            old_channel.known_users@.push(event.pubkey)
                        }
                        &&& new_channel.messages@.len() == old_channel.messages@.len() + 1
                        &&& forall|j: int|
                            0 <= j < old_channel.messages@.len() ==> new_channel.messages@[j]
                                == old_channel.messages@[j]
                        &&& new_channel.messages@.last()@ == ServerMessageView::SendMessage {
                            channel: old_channel.id@,
                            message: event.content@,
                            nickname: self.author_name(event.pubkey@),
                        }
                    },
                    None => new == self,
                }
            } else {
                new == self
            }
    }
}

impl IRCServer {
    /// A user's metadata (see the metadata case of
    /// [`IRCServer::nostr_message_actions`]).
    fn apply_metadata(&mut self, pubkey: String, content: &String) -> (actions: Vec<ServerAction>)
        requires
            old(self).wf(),
            metadata_name_of(content@) is Some,
        ensures
            final(self).wf(),
            server_actions_view(actions@) == match metadata_name_of(content@)->Some_0 {
                Some(name) => match old(self).nick_pos(pubkey@) {
                    Some(n) => {
                        let old_name = old(self).nicknames@[n].1.displayed_name();
                        let new_name = keep_ascii_alnum(name);
                        if old_name != new_name {
                            rename_broadcast(old(self).peers@, pubkey@, old_name, new_name)
                        } else {
                            seq![]
                        }
                    },
                    None => seq![],
                },
                None => seq![],
            },
            match (metadata_name_of(content@)->Some_0, old(self).nick_pos(pubkey@)) {
                (Some(name), Some(n)) => if old(self).nicknames@[n].1.displayed_name()
                    != keep_ascii_alnum(name) {
                    &&& final(self).channels == old(self).channels
                    &&& final(self).peers == old(self).peers
                    &&& final(self).peer_id_counter == old(self).peer_id_counter
                    &&& final(self).nicknames@.len() == old(self).nicknames@.len()
                    &&& forall|j: int|
                        0 <= j < old(self).nicknames@.len() && j != n
                            ==> final(self).nicknames@[j] == old(self).nicknames@[j]
                    &&& final(self).nicknames@[n].0 == old(self).nicknames@[n].0
                    &&& final(self).nicknames@[n].1 matches IRCNickname::Nick(s) && s@
                        == keep_ascii_alnum(name)
                } else {
                    *final(self) == *old(self)
                },
                _ => *final(self) == *old(self),
            },
    {
        let ghost s0 = *old(self);
        let mut actions: Vec<ServerAction> = Vec::new();
        let name = match metadata_name(content.as_str()) {
            Some(name) => name,
            None => {
                proof {
                    assert(false);
                }
                None
            },
        };
        match name {
            Some(name) => {
                let new_name = filter_ascii_alnum(name.as_str());
                match self.find_nickname(&pubkey) {
                    Some(n) => {
                        let old_name = self.nicknames[n].1.get_displayed_name();
                        if !(old_name == new_name) {
                            self.nicknames[n].1 = IRCNickname::Nick(new_name.clone());
                            proof {
                                assert forall|a: int, b: int|
                                    0 <= a < b < self.nicknames@.len() implies (
                                    #[trigger] self.nicknames@[a]).0@ != (
                                    #[trigger] self.nicknames@[b]).0@ by {
                                    assert(self.nicknames@[a].0 == s0.nicknames@[a].0);
                                    assert(self.nicknames@[b].0 == s0.nicknames@[b].0);
                                }
                            }
                            let mut k: usize = 0;
                            while k < self.peers.len()
                                invariant
                                    k <= self.peers@.len(),
                                    self.peers == s0.peers,
                                    server_actions_view(actions@) == rename_broadcast(
                                        self.peers@.take(k as int),
                                        pubkey@,
                                        old_name@,
                                        new_name@,
                                    ),
                                decreases self.peers@.len() - k,
                            {
                                let ghost before = server_actions_view(actions@);
                                let peer_id = self.peers[k].0;
                                actions.push(
                                    ServerAction::ToPeer {
                                        peer_id,
                                        message: ServerMessage::ChangeNickname {
                                            public_key: pubkey.clone(),
                                            old_nickname: old_name.clone(),
                                            new_nickname: new_name.clone(),
                                        },
                                    },
                                );
                                proof {
                                    let item = ServerActionView::ToPeer {
                                        peer_id,
                                        message: ServerMessageView::ChangeNickname {
                                            public_key: pubkey@,
                                            old_nickname: old_name@,
                                            new_nickname: new_name@,
                                        },
                                    };
                                    assert(self.peers@.take(k + 1) =~= self.peers@.take(k as int).push(
                                        self.peers@[k as int],
                                    ));
                                    assert(server_actions_view(actions@) =~= before.push(item));
                                    assert(rename_broadcast(
                                        self.peers@.take(k + 1),
                                        pubkey@,
                                        old_name@,
                                        new_name@,
                                    ) =~= rename_broadcast(
                                        self.peers@.take(k as int),
                                        pubkey@,
                                        old_name@,
                                        new_name@,
                                    ).push(item));
                                    assert(server_actions_view(actions@) =~= rename_broadcast(
                                        self.peers@.take(k + 1),
                                        pubkey@,
                                        old_name@,
                                        new_name@,
                                    ));
                                }
                                k = k + 1;
                            }
                            proof {
                                assert(self.peers@.take(self.peers@.len() as int) =~= self.peers@);
                            }
                        }
                    },
                    None => {},
                }
            },
            None => {},
        }
        proof {
            if actions@.len() == 0 {
                assert(server_actions_view(actions@) =~= seq![]);
            }
        }
        actions
    }

    /// Gives channel number `c` the topic `topic` and tells every peer in
    /// it.
    fn set_topic(&mut self, c: usize, topic: String) -> (actions: Vec<ServerAction>)
        requires
            old(self).wf(),
            c < old(self).channels@.len(),
        ensures
            final(self).wf(),
            server_actions_view(actions@) == topic_broadcast(
                old(self).peers@,
                old(self).channels@[c as int].id@,
                topic@,
            ),
            final(self).nicknames == old(self).nicknames,
            final(self).peers == old(self).peers,
            final(self).peer_id_counter == old(self).peer_id_counter,
            channels_same_except(old(self).channels@, final(self).channels@, c as int),
            same_but_topic(old(self).channels@[c as int], final(self).channels@[c as int]),
            final(self).channels@[c as int].topic == Some(topic),
    {
        let ghost s0 = *old(self);
        let mut actions: Vec<ServerAction> = Vec::new();
        let id = self.channels[c].id.clone();
        self.channels[c].topic = Some(topic.clone());
        proof {
            assert forall|a: int, b: int|
                0 <= a < b < self.channels@.len() implies (#[trigger] self.channels@[a]).id@
                != (#[trigger] self.channels@[b]).id@ by {
                assert(self.channels@[a].id == s0.channels@[a].id);
                assert(self.channels@[b].id == s0.channels@[b].id);
            }
            assert forall|a: int| 0 <= a < self.channels@.len() implies texts_distinct(
                (#[trigger] self.channels@[a]).known_users@,
            ) by {
                assert(self.channels@[a].known_users == s0.channels@[a].known_users);
            }
        }
        let mut k: usize = 0;
        while k < self.peers.len()
            invariant
                k <= self.peers@.len(),
                self.peers == s0.peers,
                server_actions_view(actions@) == topic_broadcast(
                    self.peers@.take(k as int),
                    id@,
                    topic@,
                ),
            decreases self.peers@.len() - k,
        {
            proof {
                assert(self.peers@.take(k + 1).drop_last() =~= self.peers@.take(k as int));
                assert(self.peers@.take(k + 1).last() == self.peers@[k as int]);
            }
            if contains_string(&self.peers[k].1.channels, &id) {
                let peer_id = self.peers[k].0;
                actions.push(
                    ServerAction::ToPeer {
                        peer_id,
                        message: ServerMessage::ChangeTopic { channel: id.clone(), topic: topic.clone() },
                    },
                );
            }
            proof {
                assert(server_actions_view(actions@) =~= topic_broadcast(
                    self.peers@.take(k + 1),
                    id@,
                    topic@,
                ));
            }
            k = k + 1;
        }
        proof {
            assert(self.peers@.take(self.peers@.len() as int) =~= self.peers@);
        }
        actions
    }

    /// A channel creation event (see the channel creation case of
    /// [`IRCServer::nostr_message_actions`]).
    fn apply_channel_creation(&mut self, id: String, content: &String) -> (actions: Vec<
        ServerAction,
    >)
        requires
            old(self).wf(),
            old(self).channel_pos(id@) is Some ==> metadata_name_of(content@) is Some,
        ensures
            final(self).wf(),
            server_actions_view(actions@) == match old(self).channel_pos(id@) {
                Some(_) => topic_broadcast(old(self).peers@, id@, creation_topic(content@)),
                None => seq![],
            },
            match old(self).channel_pos(id@) {
                Some(c) => {
                    &&& final(self).nicknames == old(self).nicknames
                    &&& final(self).peers == old(self).peers
                    &&& final(self).peer_id_counter == old(self).peer_id_counter
                    &&& channels_same_except(old(self).channels@, final(self).channels@, c)
                    &&& same_but_topic(old(self).channels@[c], final(self).channels@[c])
                    &&& final(self).channels@[c].topic matches Some(t) && t@ == creation_topic(
                        content@,
                    )
                },
                None => *final(self) == *old(self),
            },
    {
        match self.find_channel(&id) {
            Some(c) => {
                proof {
                    lemma_first_match_spec(self.channels@, channel_key(id@));
                }
                let name = match metadata_name(content.as_str()) {
                    Some(name) => name,
                    None => {
                        proof {
                            assert(false);
                        }
                        None
                    },
                };
                let topic = match name {
                    Some(name) => name,
                    None => "No topic".to_string(),
                };
                self.set_topic(c, topic)
            },
            None => Vec::new(),
        }
    }

    /// A channel's metadata (see the channel metadata case of
    /// [`IRCServer::nostr_message_actions`]).
    fn apply_channel_metadata(&mut self, tags: &Vec<Vec<String>>, content: &String) -> (actions:
        Vec<ServerAction>)
        requires
            old(self).wf(),
        ensures
            final(self).wf(),
            server_actions_view(actions@) == match (
                old(self).metadata_channel(tags@),
                metadata_name_of(content@),
            ) {
                (Some(c), Some(Some(name))) => topic_broadcast(
                    old(self).peers@,
                    old(self).channels@[c].id@,
                    name,
                ),
                _ => seq![],
            },
            match (old(self).metadata_channel(tags@), metadata_name_of(content@)) {
                (Some(c), Some(Some(name))) => {
                    &&& final(self).nicknames == old(self).nicknames
                    &&& final(self).peers == old(self).peers
                    &&& final(self).peer_id_counter == old(self).peer_id_counter
                    &&& channels_same_except(old(self).channels@, final(self).channels@, c)
                    &&& same_but_topic(old(self).channels@[c], final(self).channels@[c])
                    &&& final(self).channels@[c].topic matches Some(t) && t@ == name
                },
                _ => *final(self) == *old(self),
            },
    {
        match Self::find_e_tag(tags) {
            Some(t) => {
                if tags[t].len() >= 2 {
                    match parse_channel_id(tags[t][1].as_str()) {
                        Some(id) => match self.find_channel(&id) {
                            Some(c) => {
                                proof {
                                    lemma_first_match_spec(self.channels@, channel_key(id@));
                                }
                                match metadata_name(content.as_str()) {
                                    Some(Some(name)) => {
                                        return self.set_topic(c, name);
                                    },
                                    _ => {},
                                }
                            },
                            None => {},
                        },
                        None => {},
                    }
                }
            },
            None => {},
        }
        Vec::new()
    }
}

impl IRCServer {
    /// Where the first `e` tag of `tags` is.
    fn find_e_tag(tags: &Vec<Vec<String>>) -> (r: Option<usize>)
        ensures
            as_pos(r) == first_match(tags@, is_e_tag()),
            r matches Some(t) ==> t < tags@.len(),
    {
        let mut t: usize = 0;
        while t < tags.len()
            invariant
                t <= tags@.len(),
                forall|j: int| 0 <= j < t ==> !(is_e_tag())(#[trigger] tags@[j]),
            decreases tags@.len() - t,
        {
            if tags[t].len() > 0 && tags[t][0] == "e".to_string() {
                proof {
                    lemma_first_match_at(tags@, is_e_tag(), t as int);
                }
                return Some(t);
            }
            t = t + 1;
        }
        proof {
            lemma_first_match_none(tags@, is_e_tag());
        }
        None
    }

    /// A message in a channel (see the channel message case of
    /// [`IRCServer::nostr_message_actions`]).
    fn apply_channel_message(&mut self, event: NostrEvent, is_history: bool) -> (actions: Vec<
        ServerAction,
    >)
        requires
            old(self).wf(),
            old(self).nostr_event_accepted(event),
            event.kind == KIND_CHANNEL_MESSAGE,
        ensures
            final(self).wf(),
            server_actions_view(actions@) == old(self).nostr_event_actions(event, is_history),
            old(self).nostr_event_state(event, *final(self)),
    {
        let ghost s0 = *old(self);
        let ghost e0 = event;
        let mut actions: Vec<ServerAction> = Vec::new();
        let NostrEvent { id: _, pubkey, created_at: _, kind: _, tags, content, sig: _ } = event;
        match Self::find_e_tag(&tags) {
            None => {},
            Some(t) => {
                let cid = match parse_channel_id(tags[t][1].as_str()) {
                    Some(cid) => cid,
                    None => {
                        proof {
                            assert(false);
                        }
                        String::new()
                    },
                };
                match self.find_channel(&cid) {
                    None => {},
                    Some(c) => {
                        let ghost c0 = s0.channels@[c as int];
                        let ghost name0 = s0.author_name(pubkey@);
                        let is_new = self.find_nickname(&pubkey).is_none();
                        if is_new {
                            self.nicknames.push((pubkey.clone(), IRCNickname::Key(pubkey.clone())));
                            proof {
                                lemma_first_match_spec(s0.nicknames@, nick_key(pubkey@));
                                assert forall|a: int, b: int|
                                    0 <= a < b < self.nicknames@.len() implies (
                                    #[trigger] self.nicknames@[a]).0@ != (
                                    #[trigger] self.nicknames@[b]).0@ by {
                                    assert(self.nicknames@[a] == s0.nicknames@[a]);
                                    if b < s0.nicknames@.len() {
                                        assert(self.nicknames@[b] == s0.nicknames@[b]);
                                    } else {
                                        assert(!(nick_key(pubkey@))(s0.nicknames@[a]));
                                    }
                                }
                                assert forall|j: int|
                                    0 <= j < self.nicknames@.len() - 1 implies !(nick_key(
                                    pubkey@,
                                ))(#[trigger] self.nicknames@[j]) by {
                                    assert(self.nicknames@[j] == s0.nicknames@[j]);
                                }
                                lemma_first_match_at(
                                    self.nicknames@,
                                    nick_key(pubkey@),
                                    self.nicknames@.len() - 1,
                                );
                            }
                            actions.push(user_metadata_request(&pubkey));
                        }
                        let nickname = match self.find_nickname(&pubkey) {
                            Some(n) => self.nicknames[n].1.get_displayed_name(),
                            None => {
                                proof {
                                    assert(false);
                                }
                                String::new()
                            },
                        };
                        proof {
                            if !is_new {
                                assert(self.nicknames == s0.nicknames);
                            }
                            assert(nickname@ == name0);
                        }
                        let ghost prefix = server_actions_view(actions@);
                        let message = ServerMessage::SendMessage {
                            channel: cid.clone(),
                            message: content.clone(),
                            nickname: nickname.clone(),
                        };
                        self.channels[c].messages.push(message);
                        let send_join = !contains_string(&self.channels[c].known_users, &pubkey);
                        if send_join {
                            self.channels[c].known_users.push(pubkey.clone());
                        }
                        proof {
                            let ku = self.channels@[c as int].known_users@;
                            assert forall|a: int, b: int| 0 <= a < b < ku.len() implies (
                            #[trigger] ku[a])@ != (#[trigger] ku[b])@ by {
                                assert(ku[a] == c0.known_users@[a]);
                                if b < c0.known_users@.len() {
                                    assert(ku[b] == c0.known_users@[b]);
                                }
                            }
                            assert forall|a: int, b: int|
                                0 <= a < b < self.channels@.len() implies (
                                #[trigger] self.channels@[a]).id@ != (
                                #[trigger] self.channels@[b]).id@ by {
                                assert(self.channels@[a].id == s0.channels@[a].id);
                                assert(self.channels@[b].id == s0.channels@[b].id);
                            }
                            assert forall|a: int|
                                0 <= a < self.channels@.len() implies texts_distinct(
                                (#[trigger] self.channels@[a]).known_users@,
                            ) by {
                                if a != c {
                                    assert(self.channels@[a] == s0.channels@[a]);
                                }
                            }
                        }
                        let mut k: usize = 0;
                        while k < self.peers.len()
                            invariant
                                k <= self.peers@.len(),
                                self.peers == s0.peers,
                                s0.wf(),
                                server_actions_view(actions@) == prefix + chat_broadcast(
                                    self.peers@.take(k as int),
                                    cid@,
                                    pubkey@,
                                    is_history,
                                    send_join,
                                    nickname@,
                                    content@,
                                ),
                            decreases self.peers@.len() - k,
                        {
                            let ghost before = server_actions_view(actions@);
                            proof {
                                assert(self.peers@.take(k + 1).drop_last() =~= self.peers@.take(
                                    k as int,
                                ));
                                assert(self.peers@.take(k + 1).last() == self.peers@[k as int]);
                            }
                            if contains_string(&self.peers[k].1.channels, &cid) {
                                let peer_id = self.peers[k].0;
                                let own = match &self.peers[k].1.keys {
                                    Some(keys) => keys.public_key == pubkey,
                                    None => {
                                        proof {
                                            assert(self.peers@[k as int].1.channels@.len() > 0);
                                            assert(false);
                                        }
                                        false
                                    },
                                };
                                if !(own && !is_history) {
                                    if send_join {
                                        actions.push(
                                            ServerAction::ToPeer {
                                                peer_id,
                                                message: ServerMessage::Join {
                                                    channel: cid.clone(),
                                                    nickname: nickname.clone(),
                                                },
                                            },
                                        );
                                    }
                                    actions.push(
                                        ServerAction::ToPeer {
                                            peer_id,
                                            message: ServerMessage::SendMessage {
                                                channel: cid.clone(),
                                                message: content.clone(),
                                                nickname: nickname.clone(),
                                            },
                                        },
                                    );
                                }
                            }
                            proof {
                                assert(server_actions_view(actions@) =~= before + chat_for_peer(
                                    self.peers@[k as int],
                                    cid@,
                                    pubkey@,
                                    is_history,
                                    send_join,
                                    nickname@,
                                    content@,
                                ));
                                assert(prefix + chat_broadcast(
                                    self.peers@.take(k + 1),
                                    cid@,
                                    pubkey@,
                                    is_history,
                                    send_join,
                                    nickname@,
                                    content@,
                                ) =~= before + chat_for_peer(
                                    self.peers@[k as int],
                                    cid@,
                                    pubkey@,
                                    is_history,
                                    send_join,
                                    nickname@,
                                    content@,
                                ));
                            }
                            k = k + 1;
                        }
                        proof {
                            assert(self.peers@.take(self.peers@.len() as int) =~= self.peers@);
                        }
                    },
                }
            },
        }
        proof {
            if actions@.len() == 0 {
                assert(server_actions_view(actions@) =~= seq![]);
            }
        }
        actions
    }

    /// Answers a message from the relays (see
    /// [`IRCServer::nostr_message_actions`] and
    /// [`IRCServer::nostr_message_state`]).
    pub fn handle_nostr_message(
        &mut self,
        message: RelayMessage,
        metadata: RelayMessageMetadata,
    ) -> (actions: Vec<ServerAction>)
        requires
            old(self).wf(),
            old(self).nostr_message_accepted(message),
        ensures
            final(self).wf(),
            server_actions_view(actions@) == old(self).nostr_message_actions(
                message,
                metadata.is_history,
            ),
            old(self).nostr_message_state(message, *final(self)),
    {
        match message {
            RelayMessage::Event { event, subscription_id } => {
                if event.kind == KIND_METADATA {
                    self.apply_metadata(event.pubkey, &event.content)
                } else if event.kind == KIND_CHANNEL_CREATION {
                    self.apply_channel_creation(event.id, &event.content)
                } else if event.kind == KIND_CHANNEL_METADATA {
                    self.apply_channel_metadata(&event.tags, &event.content)
                } else if event.kind == KIND_CHANNEL_MESSAGE {
                    self.apply_channel_message(event, metadata.is_history)
                } else {
                    let actions: Vec<ServerAction> = Vec::new();
                    proof {
                        assert(server_actions_view(actions@) =~= seq![]);
                    }
                    actions
                }
            },
            _ => {
                let actions: Vec<ServerAction> = Vec::new();
                proof {
                    assert(server_actions_view(actions@) =~= seq![]);
                }
                actions
            },
        }
    }

    /// Whether [`IRCServer::handle_nostr_message`] can take `message`.
    fn accepts_nostr_message(&self, message: &RelayMessage) -> (b: bool)
        ensures
            b == self.nostr_message_accepted(*message),
    {
        match message {
            RelayMessage::Event { event, subscription_id: _ } => {
                if event.kind == KIND_METADATA {
                    metadata_name(event.content.as_str()).is_some()
                } else if event.kind == KIND_CHANNEL_CREATION {
                    match self.find_channel(&event.id) {
                        Some(_) => metadata_name(event.content.as_str()).is_some(),
                        None => true,
                    }
                } else if event.kind == KIND_CHANNEL_MESSAGE {
                    match Self::find_e_tag(&event.tags) {
                        Some(t) => event.tags[t].len() >= 2 && parse_channel_id(
                            event.tags[t][1].as_str(),
                        ).is_some(),
                        None => true,
                    }
                } else {
                    true
                }
            },
            _ => true,
        }
    }

    /// [`IRCServer::handle_nostr_message`] where the server can take
    /// `message`; `None`, with nothing changed, where it would stop on it.
    pub fn try_handle_nostr_message(
        &mut self,
        message: RelayMessage,
        metadata: RelayMessageMetadata,
    ) -> (r: Option<Vec<ServerAction>>)
        requires
            old(self).wf(),
        ensures
            final(self).wf(),
            r is Some == old(self).nostr_message_accepted(message),
            r is None ==> *final(self) == *old(self),
            r matches Some(actions) ==> {
                &&& server_actions_view(actions@) == old(self).nostr_message_actions(
                    message,
                    metadata.is_history,
                )
                &&& old(self).nostr_message_state(message, *final(self))
            },
    {
        if self.accepts_nostr_message(&message) {
            Some(self.handle_nostr_message(message, metadata))
        } else {
            None
        }
    }
}

impl IRCServer {
    /// Whether [`IRCServer::handle_peer_message`] can take `message`.
    fn accepts_peer_message(&self, message: &PeerMessage) -> (b: bool)
        ensures
            b == self.peer_message_accepted(*message),
    {
        match message {
            PeerMessage::AddChannel { peer_id, public_key } => match self.find_peer(*peer_id) {
                Some(i) => contains_string(&self.peers[i].1.channels, public_key)
                    || self.peers[i].1.keys.is_some(),
                None => true,
            },
            PeerMessage::ChangeNickname { peer_id, public_key: _, nickname } => match self.find_peer(
                *peer_id,
            ) {
                Some(i) => self.peers[i].1.keys.is_none() || check_metadata_name(nickname.as_str()),
                None => true,
            },
            PeerMessage::CreateChannel { peer_id, name } => match self.find_peer(*peer_id) {
                Some(i) => self.peers[i].1.keys.is_none() || check_metadata_name(name.as_str()),
                None => true,
            },
            PeerMessage::SetKeys { peer_id, keys } => match self.find_peer(*peer_id) {
                Some(_) => match public_key_from_secret(keys.secret_key.as_str()) {
                    Some(key) => key == keys.public_key,
                    None => false,
                },
                None => true,
            },
            _ => true,
        }
    }

    /// [`IRCServer::handle_peer_message`] where the server can take
    /// `message`; `None`, with nothing changed, where it would stop on it.
    pub fn try_handle_peer_message(&mut self, message: PeerMessage) -> (r: Option<
        Vec<ServerAction>,
    >)
        requires
            old(self).wf(),
        ensures
            final(self).wf(),
            r is Some == old(self).peer_message_accepted(message),
            r is None ==> *final(self) == *old(self),
            r matches Some(actions) ==> {
                &&& server_actions_view(actions@) == old(self).peer_message_actions(message)
                &&& old(self).peer_message_state(message, *final(self))
            },
    {
        if self.accepts_peer_message(&message) {
            Some(self.handle_peer_message(message))
        } else {
            None
        }
    }
}

} // verus!
