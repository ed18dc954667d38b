//! The messages between the IRC server and its peers.
use vstd::prelude::*;
use crate::irc::client_data::Identity;

verus! {

/// What a peer asks of the server, on behalf of its IRC user.
pub enum PeerMessage {
    ChangeNickname { peer_id: u64, public_key: String, nickname: String },
    CreateChannel { peer_id: u64, name: String },
    AddChannel { peer_id: u64, public_key: String },
    LeaveChannel { peer_id: u64, public_key: String },
    AddNickname { peer_id: u64, public_key: String },
    SetKeys { peer_id: u64, keys: Identity },
    SendMessage { peer_id: u64, channel: String, message: String },
}

/// A key pair with its strings taken as character sequences.
pub struct IdentityView {
    pub secret_key: Seq<char>,
    pub public_key: Seq<char>,
}

impl View for Identity {
    type V = IdentityView;

    open spec fn view(&self) -> IdentityView {
        IdentityView { secret_key: self.secret_key@, public_key: self.public_key@ }
    }
}

/// A [`PeerMessage`] with its strings taken as character sequences.
pub enum PeerMessageView {
    ChangeNickname { peer_id: u64, public_key: Seq<char>, nickname: Seq<char> },
    CreateChannel { peer_id: u64, name: Seq<char> },
    AddChannel { peer_id: u64, public_key: Seq<char> },
    LeaveChannel { peer_id: u64, public_key: Seq<char> },
    AddNickname { peer_id: u64, public_key: Seq<char> },
    SetKeys { peer_id: u64, keys: IdentityView },
    SendMessage { peer_id: u64, channel: Seq<char>, message: Seq<char> },
}

impl View for PeerMessage {
    type V = PeerMessageView;

    open spec fn view(&self) -> PeerMessageView {
        match self {
            PeerMessage::ChangeNickname { peer_id, public_key, nickname } =>
                PeerMessageView::ChangeNickname {
                peer_id: *peer_id,
                public_key: public_key@,
                nickname: nickname@,
            },
            PeerMessage::CreateChannel { peer_id, name } => PeerMessageView::CreateChannel {
                peer_id: *peer_id,
                name: name@,
            },
            PeerMessage::AddChannel { peer_id, public_key } => PeerMessageView::AddChannel {
                peer_id: *peer_id,
                public_key: public_key@,
            },
            PeerMessage::LeaveChannel { peer_id, public_key } => PeerMessageView::LeaveChannel {
                peer_id: *peer_id,
                public_key: public_key@,
            },
            PeerMessage::AddNickname { peer_id, public_key } => PeerMessageView::AddNickname {
                peer_id: *peer_id,
                public_key: public_key@,
            },
            PeerMessage::SetKeys { peer_id, keys } => PeerMessageView::SetKeys {
                peer_id: *peer_id,
                keys: keys@,
            },
            PeerMessage::SendMessage { peer_id, channel, message } => PeerMessageView::SendMessage {
                peer_id: *peer_id,
                channel: channel@,
                message: message@,
            },
        }
    }
}

/// What the server tells a peer, for its IRC user.
pub enum ServerMessage {
    SendMessage { channel: String, message: String, nickname: String },
    ChangeNickname { public_key: String, old_nickname: String, new_nickname: String },
    ChangeTopic { channel: String, topic: String },
    PeerJoined { channel: String, nickname: String },
    PeerLeft { channel: String, nickname: String },
    CreatedChannel { channel: String },
    Join { channel: String, nickname: String },
}

impl Clone for ServerMessage {
    fn clone(&self) -> (r: Self)
        ensures
            r == *self,
    {
        match self {
            ServerMessage::SendMessage { channel, message, nickname } => ServerMessage::SendMessage {
                channel: channel.clone(),
                message: message.clone(),
                nickname: nickname.clone(),
            },
            ServerMessage::ChangeNickname { public_key, old_nickname, new_nickname } =>
                ServerMessage::ChangeNickname {
                public_key: public_key.clone(),
                old_nickname: old_nickname.clone(),
                new_nickname: new_nickname.clone(),
            },
            ServerMessage::ChangeTopic { channel, topic } => ServerMessage::ChangeTopic {
                channel: channel.clone(),
                topic: topic.clone(),
            },
            ServerMessage::PeerJoined { channel, nickname } => ServerMessage::PeerJoined {
                channel: channel.clone(),
                nickname: nickname.clone(),
            },
            ServerMessage::PeerLeft { channel, nickname } => ServerMessage::PeerLeft {
                channel: channel.clone(),
                nickname: nickname.clone(),
            },
            ServerMessage::CreatedChannel { channel } => ServerMessage::CreatedChannel {
                channel: channel.clone(),
            },
            ServerMessage::Join { channel, nickname } => ServerMessage::Join {
                channel: channel.clone(),
                nickname: nickname.clone(),
            },
        }
    }
}

/// A [`ServerMessage`] with its strings taken as character sequences.
pub enum ServerMessageView {
    SendMessage { channel: Seq<char>, message: Seq<char>, nickname: Seq<char> },
    ChangeNickname { public_key: Seq<char>, old_nickname: Seq<char>, new_nickname: Seq<char> },
    ChangeTopic { channel: Seq<char>, topic: Seq<char> },
    PeerJoined { channel: Seq<char>, nickname: Seq<char> },
    PeerLeft { channel: Seq<char>, nickname: Seq<char> },
    CreatedChannel { channel: Seq<char> },
    Join { channel: Seq<char>, nickname: Seq<char> },
}

impl View for ServerMessage {
    type V = ServerMessageView;

    open spec fn view(&self) -> ServerMessageView {
        match self {
            ServerMessage::SendMessage { channel, message, nickname } =>
                ServerMessageView::SendMessage {
                channel: channel@,
                message: message@,
                nickname: nickname@,
            },
            ServerMessage::ChangeNickname { public_key, old_nickname, new_nickname } =>
                ServerMessageView::ChangeNickname {
                public_key: public_key@,
                old_nickname: old_nickname@,
                new_nickname: new_nickname@,
            },
            ServerMessage::ChangeTopic { channel, topic } => ServerMessageView::ChangeTopic {
                channel: channel@,
                topic: topic@,
            },
            ServerMessage::PeerJoined { channel, nickname } => ServerMessageView::PeerJoined {
                channel: channel@,
                nickname: nickname@,
            },
            ServerMessage::PeerLeft { channel, nickname } => ServerMessageView::PeerLeft {
                channel: channel@,
                nickname: nickname@,
            },
            ServerMessage::CreatedChannel { channel } => ServerMessageView::CreatedChannel {
                channel: channel@,
            },
            ServerMessage::Join { channel, nickname } => ServerMessageView::Join {
                channel: channel@,
                nickname: nickname@,
            },
        }
    }
}

} // verus!
