//! The calls into the nostr crate and serde_json that the protocol logic
//! makes: reading channel ids, deriving a public key from a secret key,
//! reading user metadata and relay addresses, and building and signing the
//! events the server publishes. Keys and ids leave here as their lowercase
//! hexadecimal text, which is how nostr displays them.
use vstd::prelude::*;
use std::str::FromStr;
use nostr::event::{TagData, TagKind};
use nostr::RelayMessage as Frame;
use nostr::{EventBuilder, Keys, Kind, KindBase, Metadata, Tag};
use crate::relays::model::{
    NostrEvent, RelayMessage, KIND_CHANNEL_CREATION, KIND_CHANNEL_MESSAGE, KIND_METADATA,
};
use crate::text::is_metadata_name;

verus! {

/// An ASCII hexadecimal digit, either case.
pub open spec fn is_hex_digit(c: char) -> bool {
    ('0' <= c && c <= '9') || ('a' <= c && c <= 'f') || ('A' <= c && c <= 'F')
}

/// The lowercase form of a hexadecimal digit.
pub open spec fn lower_hex_digit(c: char) -> char {
    if 'A' <= c && c <= 'F' {
        ((c as int) + 32) as char
    } else {
        c
    }
}

/// The id of a channel written as text: 64 hexadecimal digits of either
/// case, read as 32 bytes and shown again in lowercase.
pub open spec fn channel_id_from_text(s: Seq<char>) -> Option<Seq<char>> {
    if s.len() == 64 && (forall|i: int| 0 <= i < s.len() ==> is_hex_digit(#[trigger] s[i])) {
        Some(Seq::new(64, |i: int| lower_hex_digit(s[i])))
    } else {
        None
    }
}

/// Calls `<nostr::Sha256Hash as FromStr>::from_str` and shows the hash with
/// `Display`. The hash is parsed by bitcoin_hashes' `FromHex`, which takes
/// exactly 64 hexadecimal digits (`char::to_digit(16)`, so either case) and
/// keeps the bytes in order; `Display` writes them back as lowercase
/// hexadecimal. The contract states exactly that.
#[verifier::external_body]
pub(crate) fn parse_channel_id(s: &str) -> (r: Option<String>)
    ensures
        match r {
            Some(id) => channel_id_from_text(s@) == Some(id@),
            None => channel_id_from_text(s@) is None,
        },
{
    match nostr::Sha256Hash::from_str(s) {
        Ok(hash) => Some(hash.to_string()),
        Err(_) => None,
    }
}

/// The public key (lowercase hexadecimal) of the secret key written as `s`,
/// or `None` where `nostr::Keys::from_str` refuses `s`.
pub uninterp spec fn public_key_of_secret(s: Seq<char>) -> Option<Seq<char>>;

/// Calls `<nostr::Keys as FromStr>::from_str` and shows the public key of
/// the result with `Display`. Whether a secret key is accepted and which
/// public key it has is secp256k1 arithmetic, so the contract only ties the
/// result to the text through [`public_key_of_secret`].
#[verifier::external_body]
pub(crate) fn public_key_from_secret(s: &str) -> (r: Option<String>)
    ensures
        match r {
            Some(key) => public_key_of_secret(s@) == Some(key@),
            None => public_key_of_secret(s@) is None,
        },
{
    match nostr::Keys::from_str(s) {
        Ok(keys) => Some(keys.public_key().to_string()),
        Err(_) => None,
    }
}

/// The `name` field of the JSON metadata object `s` (`None` inside when the
/// field is absent or null), or `None` where serde_json cannot read `s` as
/// `nostr::Metadata`.
pub uninterp spec fn metadata_name_of(s: Seq<char>) -> Option<Option<Seq<char>>>;

/// Calls `serde_json::from_slice::<nostr::Metadata>` on the bytes of `s`
/// and keeps the `name` field. What JSON is accepted is serde_json's
/// grammar, so the contract only ties the result to the text through
/// [`metadata_name_of`].
#[verifier::external_body]
pub(crate) fn metadata_name(s: &str) -> (r: Option<Option<String>>)
    ensures
        match r {
            Some(Some(name)) => metadata_name_of(s@) == Some(Some(name@)),
            Some(None) => metadata_name_of(s@) == Some(None::<Seq<char>>),
            None => metadata_name_of(s@) is None,
        },
{
    match serde_json::from_slice::<nostr::Metadata>(s.as_bytes()) {
        Ok(metadata) => Some(metadata.name),
        Err(_) => None,
    }
}

/// The normalised text of the URL `s`, or `None` where `url::Url::parse`
/// refuses it.
pub uninterp spec fn relay_url_of(s: Seq<char>) -> Option<Seq<char>>;

/// Calls `nostr::url::Url::parse` and shows the result with `Display`.
/// URL parsing and normalisation follow the WHATWG standard, so the
/// contract only ties the result to the text through [`relay_url_of`].
#[verifier::external_body]
pub(crate) fn parse_relay_url(s: &str) -> (r: Option<String>)
    ensures
        match r {
            Some(url) => relay_url_of(s@) == Some(url@),
            None => relay_url_of(s@) is None,
        },
{
    match nostr::url::Url::parse(s) {
        Ok(url) => Some(url.to_string()),
        Err(_) => None,
    }
}

/// The tags of an event as lists of texts.
pub open spec fn tags_text(tags: Seq<Vec<String>>) -> Seq<Seq<Seq<char>>> {
    tags.map_values(|t: Vec<String>| t@.map_values(|x: String| x@))
}

/// The id (lowercase hexadecimal) that `nostr::EventBuilder::gen_id` computes
/// for an event with author `pubkey`, time `created_at`, kind `kind`, tags
/// `tags` and content `content`: the SHA-256 hash of the JSON text
/// `[0, pubkey, created_at, kind, tags, content]`.
pub uninterp spec fn event_id_of(
    pubkey: Seq<char>,
    created_at: u64,
    kind: u16,
    tags: Seq<Seq<Seq<char>>>,
    content: Seq<char>,
) -> Seq<char>;

/// Whether `nostr::Event::verify` accepts an event with these fields and
/// signature `sig`: it computes the id from the fields (as `gen_id` does)
/// and checks `sig` as a Schnorr signature of that id under `pubkey`.
pub uninterp spec fn event_signature_valid(
    pubkey: Seq<char>,
    created_at: u64,
    kind: u16,
    tags: Seq<Seq<Seq<char>>>,
    content: Seq<char>,
    sig: Seq<char>,
) -> bool;

/// The event `e` is authentic: its id is the one computed from its own
/// fields, and its signature checks against those fields under its author's
/// key.
pub open spec fn authentic(e: NostrEvent) -> bool {
    &&& e.id@ == event_id_of(e.pubkey@, e.created_at, e.kind, tags_text(e.tags@), e.content@)
    &&& event_signature_valid(
        e.pubkey@,
        e.created_at,
        e.kind,
        tags_text(e.tags@),
        e.content@,
        e.sig@,
    )
}

/// The event `e` is signed by the secret key `secret`: the key's public key
/// is its author, it is authentic, and its id is a SHA-256 hash in lowercase
/// hexadecimal (64 digits).
pub open spec fn signed_by(e: NostrEvent, secret: Seq<char>) -> bool {
    &&& public_key_of_secret(secret) == Some(e.pubkey@)
    &&& authentic(e)
    &&& channel_id_from_text(e.id@) == Some(e.id@)
}

/// Calls `EventBuilder::set_metadata` with metadata that holds only
/// the name `name`, signs the result with `EventBuilder::to_event` under the
/// keys of the secret key `secret` (read by `nostr::Keys::from_str`), and
/// shows the event with its keys, id and signature as text (`Display`) and
/// its kind as its number. The builder refuses a name outside its pattern
/// ([`is_metadata_name`]) and nothing else here, as no picture or NIP-05
/// address is given; keys read from a secret key always hold a key pair and
/// a 32-byte id is always a message, so signing does not fail. The event is
/// a metadata event (kind 0) without tags by the key's owner, whose content
/// is the JSON object `{"name": name, "display_name": "", "about": ""}`,
/// which reads back with that name. `to_event` takes the time from the
/// clock, sets the id to `gen_id` of the event's fields ([`event_id_of`])
/// and signs that id with the key pair, whose public key is the author's,
/// so that `Event::verify` accepts the event ([`event_signature_valid`]);
/// the time and the signature's random part are not stated.
#[verifier::external_body]
pub(crate) fn sign_metadata(secret: &str, name: &str) -> (r: Option<NostrEvent>)
    requires
        public_key_of_secret(secret@) is Some,
    ensures
        r is Some == is_metadata_name(name@),
        r matches Some(e) ==> {
            &&& signed_by(e, secret@)
            &&& e.id@ == event_id_of(e.pubkey@, e.created_at, e.kind, tags_text(e.tags@), e.content@)
            &&& event_signature_valid(
                e.pubkey@,
                e.created_at,
                e.kind,
                tags_text(e.tags@),
                e.content@,
                e.sig@,
            )
            &&& e.kind == KIND_METADATA
            &&& e.tags@.len() == 0
            &&& metadata_name_of(e.content@) == Some(Some(name@))
        },
{
    let keys = Keys::from_str(secret).ok()?;
    let e = EventBuilder::set_metadata(&keys, Metadata::new().name(name)).ok()?.to_event(&keys).ok()?;
    Some(NostrEvent {
        id: e.id.to_string(),
        pubkey: e.pubkey.to_string(),
        created_at: e.created_at,
        kind: match e.kind { Kind::Base(b) => b as u16, Kind::Custom(n) => n },
        tags: e.tags.iter().map(|t| t.as_vec()).collect(),
        content: e.content,
        sig: e.sig.to_string(),
    })
}

/// Calls `EventBuilder::new_channel` with metadata that holds only
/// the name `name`, signs the result with `EventBuilder::to_event` under the
/// keys of the secret key `secret`, and shows the event as
/// [`sign_metadata`] does. As there, only a name outside the pattern is
/// refused; the event is a channel creation (kind 40) without tags by the
/// key's owner, with the same JSON content, which reads back with the name;
/// its id and signature are stated as there.
#[verifier::external_body]
pub(crate) fn sign_channel_creation(secret: &str, name: &str) -> (r: Option<NostrEvent>)
    requires
        public_key_of_secret(secret@) is Some,
    ensures
        r is Some == is_metadata_name(name@),
        r matches Some(e) ==> {
            &&& signed_by(e, secret@)
            &&& e.id@ == event_id_of(e.pubkey@, e.created_at, e.kind, tags_text(e.tags@), e.content@)
            &&& event_signature_valid(
                e.pubkey@,
                e.created_at,
                e.kind,
                tags_text(e.tags@),
                e.content@,
                e.sig@,
            )
            &&& e.kind == KIND_CHANNEL_CREATION
            &&& e.tags@.len() == 0
            &&& metadata_name_of(e.content@) == Some(Some(name@))
        },
{
    let keys = Keys::from_str(secret).ok()?;
    let e = EventBuilder::new_channel(Metadata::new().name(name)).ok()?.to_event(&keys).ok()?;
    Some(NostrEvent {
        id: e.id.to_string(),
        pubkey: e.pubkey.to_string(),
        created_at: e.created_at,
        kind: match e.kind { Kind::Base(b) => b as u16, Kind::Custom(n) => n },
        tags: e.tags.iter().map(|t| t.as_vec()).collect(),
        content: e.content,
        sig: e.sig.to_string(),
    })
}

/// Calls `EventBuilder::new` for a channel message (kind 42) with
/// content `content` and one tag `["e", channel]` (`TagKind::E` shows as
/// `e`), signs it with `EventBuilder::to_event` under the keys of the
/// secret key `secret`, and shows the event as [`sign_metadata`] does.
/// Signing with keys read from a secret key does not fail; the id and
/// signature are stated as there.
#[verifier::external_body]
pub(crate) fn sign_channel_message(secret: &str, channel: &str, content: &str) -> (r: Option<
    NostrEvent,
>)
    requires
        public_key_of_secret(secret@) is Some,
    ensures
        r is Some,
        r matches Some(e) ==> {
            &&& signed_by(e, secret@)
            &&& e.id@ == event_id_of(e.pubkey@, e.created_at, e.kind, tags_text(e.tags@), e.content@)
            &&& event_signature_valid(
                e.pubkey@,
                e.created_at,
                e.kind,
                tags_text(e.tags@),
                e.content@,
                e.sig@,
            )
            &&& e.kind == KIND_CHANNEL_MESSAGE
            &&& e.tags@.len() == 1
            &&& e.tags@[0]@.len() == 2
            &&& e.tags@[0]@[0]@ == "e"@
            &&& e.tags@[0]@[1]@ == channel@
            &&& e.content@ == content@
        },
{
    let keys = Keys::from_str(secret).ok()?;
    let tag = Tag::new(TagData::Generic(TagKind::E, vec![channel.to_string()]));
    let e = EventBuilder::new(Kind::Base(KindBase::ChannelMessage), content, &[tag]).to_event(&keys).ok()?;
    Some(NostrEvent {
        id: e.id.to_string(),
        pubkey: e.pubkey.to_string(),
        created_at: e.created_at,
        kind: match e.kind { Kind::Base(b) => b as u16, Kind::Custom(n) => n },
        tags: e.tags.iter().map(|t| t.as_vec()).collect(),
        content: e.content,
        sig: e.sig.to_string(),
    })
}

/// The number of elements of the JSON array `s`, or `None` where serde_json
/// cannot read `s` as an array.
pub uninterp spec fn json_array_length(s: Seq<char>) -> Option<nat>;

/// Calls `serde_json::from_str::<Vec<serde_json::Value>>` and counts the
/// elements. What JSON is accepted is serde_json's grammar, so the contract
/// only ties the result to the text through [`json_array_length`].
#[verifier::external_body]
pub(crate) fn json_array_len(s: &str) -> (r: Option<usize>)
    ensures
        match r {
            Some(n) => json_array_length(s@) == Some(n as nat),
            None => json_array_length(s@) is None,
        },
{
    match serde_json::from_str::<Vec<serde_json::Value>>(s) {
        Ok(v) => Some(v.len()),
        Err(_) => None,
    }
}

/// A text that `nostr::RelayMessage::from_json` reads without stopping: it
/// is empty, or it is not a JSON array without elements (whose first
/// element the function takes without looking).
pub open spec fn relay_frame_readable(s: Seq<char>) -> bool {
    s.len() == 0 || json_array_length(s) != Some(0nat)
}

/// The relay message that the JSON text `s` holds, with its keys, ids and
/// signature as lowercase hexadecimal text and its kind as its number; or
/// `None` where `nostr::RelayMessage::from_json` refuses `s` (not a relay
/// message, or an event whose signature does not check against the id
/// computed from its fields).
pub uninterp spec fn relay_message_of(s: Seq<char>) -> Option<RelayMessage>;

/// Calls `nostr::RelayMessage::from_json` and shows the result with the
/// library's types: ids, keys and signatures by `Display`, the kind as its
/// number, tags as their lists of strings. What is accepted is the nostr
/// message grammar and a signature check, so the contract only ties the
/// result to the text through [`relay_message_of`]; an event in it has
/// passed `Event::verify` ([`event_signature_valid`]), as `from_json` checks
/// it. The function stops on a non-empty text that is a JSON array without
/// elements, which `requires` leaves out.
#[verifier::external_body]
pub(crate) fn parse_relay_message(s: &str) -> (r: Option<RelayMessage>)
    requires
        relay_frame_readable(s@),
    ensures
        r == relay_message_of(s@),
        r matches Some(RelayMessage::Event { event: e, subscription_id: _ }) ==> event_signature_valid(
            e.pubkey@,
            e.created_at,
            e.kind,
            tags_text(e.tags@),
            e.content@,
            e.sig@,
        ),
{
    Some(match Frame::from_json(s).ok()? {
        Frame::Event { event, subscription_id } => RelayMessage::Event { subscription_id, event: NostrEvent {
            id: event.id.to_string(), pubkey: event.pubkey.to_string(), created_at: event.created_at,
            kind: match event.kind { Kind::Base(b) => b as u16, Kind::Custom(n) => n },
            tags: event.tags.iter().map(Tag::as_vec).collect(), content: event.content, sig: event.sig.to_string() } },
        Frame::Notice { message } => RelayMessage::Notice { message },
        Frame::EndOfStoredEvents { subscription_id } => RelayMessage::EndOfStoredEvents { subscription_id },
        Frame::Ok { event_id, status, message } => RelayMessage::OkResult { event_id: event_id.to_string(), status, message },
        _ => RelayMessage::Empty,
    })
}

} // verus!
