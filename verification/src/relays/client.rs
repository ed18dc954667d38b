//! The nostr client: it sends every request to all relays, collects the
//! stored events of each new subscription from every relay for a while and
//! passes them on in time order, and passes every event on at most once.
use vstd::prelude::*;
use crate::lookup::{contains_string, contains_text, first_match, lemma_first_match_at,
    lemma_first_match_none, lemma_first_match_spec};
use crate::outside::{parse_relay_url, relay_url_of};
pub use crate::relays::model::RelayMessageMetadata;
use crate::relays::model::{ClientMessage, RelayMessage};
use crate::relays::subscription::NostrSubscription;

verus! {

broadcast use vstd::string::group_string_axioms;

/// How long, in milliseconds, a new subscription collects stored events
/// before passing them on.
pub const MAX_AGE_MS: u64 = 5000;

/// The id of the event a relay message carries, if it carries one.
pub open spec fn message_id(m: RelayMessage) -> Option<Seq<char>> {
    match m {
        RelayMessage::Event { event, subscription_id: _ } => Some(event.id@),
        _ => None,
    }
}

/// The creation time of the event a relay message carries (0 for other
/// messages).
pub open spec fn event_time(m: RelayMessage) -> u64 {
    match m {
        RelayMessage::Event { event, subscription_id: _ } => event.created_at,
        _ => 0,
    }
}

/// The texts of a list of strings.
pub open spec fn texts(s: Seq<String>) -> Seq<Seq<char>> {
    s.map_values(|x: String| x@)
}

/// Whether a relay message carries the event with id `k`.
pub open spec fn has_event_id(k: Seq<char>) -> spec_fn(RelayMessage) -> bool {
    |m: RelayMessage| message_id(m) == Some(k)
}

/// Whether a subscription is named `k`.
pub open spec fn sub_named(k: Seq<char>) -> spec_fn(NostrSubscription) -> bool {
    |s: NostrSubscription| s.name@ == k
}

/// `m` put into the events collected for a subscription: it replaces the
/// collected event with the same id, or comes last.
pub open spec fn buffer_insert(data: Seq<RelayMessage>, m: RelayMessage) -> Seq<RelayMessage> {
    match first_match(data, has_event_id(message_id(m)->Some_0)) {
        Some(j) => data.update(j, m),
        None => data.push(m),
    }
}

/// `m` put into the time-ordered `sorted` after every message that is not
/// newer than it.
pub open spec fn insert_by_time(sorted: Seq<RelayMessage>, m: RelayMessage) -> Seq<RelayMessage>
    decreases sorted.len(),
{
    if sorted.len() == 0 {
        seq![m]
    } else if event_time(sorted.last()) <= event_time(m) {
        sorted.push(m)
    } else {
        insert_by_time(sorted.drop_last(), m).push(sorted.last())
    }
}

/// The messages of `s` ordered by event time; messages of the same time
/// keep their order.
pub open spec fn sort_by_time(s: Seq<RelayMessage>) -> Seq<RelayMessage>
    decreases s.len(),
{
    if s.len() == 0 {
        s
    } else {
        insert_by_time(sort_by_time(s.drop_last()), s.last())
    }
}

/// Passing `msgs` on to `relay` in order: an event already seen is
/// dropped, any other is passed on and its id is seen from then on; a
/// message without an event is passed on. Gives what is passed on and
/// the ids seen afterwards.
pub open spec fn pass_on(msgs: Seq<RelayMessage>, seen: Seq<Seq<char>>, relay: String) -> (
    Seq<(String, RelayMessage)>,
    Seq<Seq<char>>,
)
    decreases msgs.len(),
{
    if msgs.len() == 0 {
        (seq![], seen)
    } else {
        let (out, s) = pass_on(msgs.drop_last(), seen, relay);
        let m = msgs.last();
        match message_id(m) {
            Some(id) => if s.contains(id) {
                (out, s)
            } else {
                (out.push((relay, m)), s.push(id))
            },
            None => (out.push((relay, m)), s),
        }
    }
}

/// Whether subscription `sub` has collected long enough at time `now`.
pub open spec fn expired(sub: NostrSubscription, now: u64) -> bool {
    now > sub.started && now - sub.started > MAX_AGE_MS
}

/// What an expired subscription passes on: its events in time order
/// through the first relay that finished sending them (if any relay has),
/// then its end-of-stored-events message from that relay, or a new one
/// from the first relay of the client.
pub open spec fn flush_outputs(sub: NostrSubscription, seen: Seq<Seq<char>>, relays: Seq<String>) -> (
    Seq<(String, RelayMessage)>,
    Seq<Seq<char>>,
) {
    let (events, seen1) = if sub.responded_relays@.len() > 0 {
        pass_on(sort_by_time(sub.data@), seen, sub.responded_relays@[0])
    } else {
        (seq![], seen)
    };
    let last = match sub.end_of_stored_events_message {
        Some(m) => (sub.responded_relays@[0], m),
        None => (relays[0], RelayMessage::EndOfStoredEvents { subscription_id: sub.name }),
    };
    (events.push(last), seen1)
}

/// What a periodic check at time `now` passes on for `subs`, in order, and
/// the ids seen afterwards.
pub open spec fn tick_outputs(
    subs: Seq<NostrSubscription>,
    seen: Seq<Seq<char>>,
    relays: Seq<String>,
    now: u64,
) -> (Seq<(String, RelayMessage)>, Seq<Seq<char>>)
    decreases subs.len(),
{
    if subs.len() == 0 {
        (seq![], seen)
    } else {
        let (out, s) = tick_outputs(subs.drop_last(), seen, relays, now);
        let sub = subs.last();
        if !sub.done && expired(sub, now) {
            let (more, s2) = flush_outputs(sub, s, relays);
            (out + more, s2)
        } else {
            (out, s)
        }
    }
}

/// How a periodic check at time `now` leaves a subscription: a finished
/// one drops what it collected since; an expired one is finished, has
/// passed on what it collected and its end-of-stored-events message; any
/// other is unchanged.
pub open spec fn sub_ticked(old: NostrSubscription, new: NostrSubscription, now: u64) -> bool {
    if old.done {
        &&& new.name == old.name
        &&& new.data@.len() == 0
        &&& new.asked_relays == old.asked_relays
        &&& new.responded_relays == old.responded_relays
        &&& new.started == old.started
        &&& new.done
        &&& new.end_of_stored_events_message == old.end_of_stored_events_message
    } else if expired(old, now) {
        &&& new.name == old.name
        &&& new.data@.len() == 0
        &&& new.asked_relays == old.asked_relays
        &&& new.responded_relays == old.responded_relays
        &&& new.started == old.started
        &&& new.done
        &&& new.end_of_stored_events_message is None
    } else {
        new == old
    }
}

/// The subscriptions of `old` and `new` agree but for the one at `i`,
/// which keeps its name, start, finished flag and the relays asked.
pub open spec fn subs_same_except(
    old: Seq<NostrSubscription>,
    new: Seq<NostrSubscription>,
    i: int,
) -> bool {
    &&& new.len() == old.len()
    &&& 0 <= i < old.len()
    &&& new[i].name == old[i].name
    &&& new[i].started == old[i].started
    &&& new[i].done == old[i].done
    &&& new[i].asked_relays == old[i].asked_relays
    &&& forall|j: int| 0 <= j < old.len() && j != i ==> new[j] == old[j]
}

/// A subscription is consistent: it has collected only events, one per
/// id, and keeps an end-of-stored-events message only once some relay has
/// sent it.
pub open spec fn sub_wf(sub: NostrSubscription) -> bool {
    &&& forall|j: int| 0 <= j < sub.data@.len() ==> (#[trigger] sub.data@[j]) is Event
    &&& forall|j: int, k: int|
        0 <= j < k < sub.data@.len() ==> message_id(#[trigger] sub.data@[j]) != message_id(
            #[trigger] sub.data@[k],
        )
    &&& sub.end_of_stored_events_message is Some ==> sub.responded_relays@.len() > 0
    &&& sub.end_of_stored_events_message matches Some(m) ==> m is EndOfStoredEvents
}

/// Whether a periodic check at time `now` can pass on what `subs` owe: an
/// expired subscription that no relay has finished is closed through the
/// client's first relay, so there must be one.
pub open spec fn tick_accepted(subs: Seq<NostrSubscription>, relays: Seq<String>, now: u64) -> bool {
    forall|a: int|
        0 <= a < subs.len() && !(#[trigger] subs[a]).done && expired(subs[a], now)
            && subs[a].end_of_stored_events_message is None ==> relays.len() > 0
}

/// The client: its relays, its subscriptions and the ids of the events it
/// has passed on.
pub struct NostrClient {
    pub relays: Vec<String>,
    pub subscriptions: Vec<NostrSubscription>,
    pub seen_ids: Vec<String>,
}

impl NostrClient {
    /// The ids of the events passed on so far.
    pub open spec fn seen(self) -> Seq<Seq<char>> {
        texts(self.seen_ids@)
    }

    /// Where subscription `k` is kept.
    pub open spec fn sub_pos(self, k: Seq<char>) -> Option<int> {
        first_match(self.subscriptions@, sub_named(k))
    }

    /// The client's tables are consistent: each relay once, one
    /// subscription per name, each id seen once, only events collected and one per id, and an
    /// end-of-stored-events message kept only once some relay has sent it.
    pub open spec fn wf(self) -> bool {
        &&& forall|a: int, b: int|
            0 <= a < b < self.subscriptions@.len() ==> (#[trigger] self.subscriptions@[a]).name@
                != (#[trigger] self.subscriptions@[b]).name@
        &&& self.seen().no_duplicates()
        &&& forall|a: int|
            0 <= a < self.subscriptions@.len() ==> sub_wf(#[trigger] self.subscriptions@[a])
        &&& texts(self.relays@).no_duplicates()
    }

    /// What happens to a message from relay `relay`, and what is passed on:
    /// the end of a subscription's stored events is kept and the relay
    /// noted; an event for a subscription that the relay is still sending
    /// stored events for is collected; any other event is passed on unless
    /// its id was seen before; other messages are passed on.
    pub open spec fn relay_message_step(
        self,
        relay: String,
        m: RelayMessage,
        new: NostrClient,
        forward: Option<(String, RelayMessage)>,
    ) -> bool {
        let sid = match m {
            RelayMessage::Event { event: _, subscription_id } => Some(subscription_id@),
            RelayMessage::EndOfStoredEvents { subscription_id } => Some(subscription_id@),
            _ => None,
        };
        let ended = m is EndOfStoredEvents;
        let pos = match sid {
            Some(k) => self.sub_pos(k),
            None => None,
        };
        if ended && pos is Some {
            let i = pos->Some_0;
            &&& forward is None
            &&& new.relays == self.relays
            &&& new.seen_ids == self.seen_ids
            &&& subs_same_except(self.subscriptions@, new.subscriptions@, i)
            &&& new.subscriptions@[i].data == self.subscriptions@[i].data
            &&& new.subscriptions@[i].end_of_stored_events_message == Some(m)
            &&& new.subscriptions@[i].responded_relays@
                == self.subscriptions@[i].responded_relays@.push(relay)
        } else if !ended && pos is Some && !contains_text(
            self.subscriptions@[pos->Some_0].responded_relays@,
            relay@,
        ) {
            let i = pos->Some_0;
            &&& forward is None
            &&& new.relays == self.relays
            &&& new.seen_ids == self.seen_ids
            &&& subs_same_except(self.subscriptions@, new.subscriptions@, i)
            &&& new.subscriptions@[i].data@ == buffer_insert(self.subscriptions@[i].data@, m)
            &&& new.subscriptions@[i].responded_relays == self.subscriptions@[i].responded_relays
            &&& new.subscriptions@[i].end_of_stored_events_message
                == self.subscriptions@[i].end_of_stored_events_message
        } else {
            &&& new.relays == self.relays
            &&& new.subscriptions == self.subscriptions
            &&& match message_id(m) {
                Some(id) => if self.seen().contains(id) {
                    new.seen_ids == self.seen_ids && forward is None
                } else {
                    new.seen() == self.seen().push(id) && forward == Some((relay, m))
                },
                None => new.seen_ids == self.seen_ids && forward == if ended {
                    None
                } else {
                    Some((relay, m))
                },
            }
        }
    }
}

impl NostrClient {
    /// What a client message does at time `now`, and the relays it is sent
    /// to: a request for a subscription not yet known starts it, asking
    /// every relay, and goes to every relay; a request for a known
    /// subscription changes nothing and goes nowhere; the end of a
    /// subscription goes to every relay and the client forgets it, so that
    /// a later request for it is sent again; any other message goes to
    /// every relay.
    pub open spec fn client_message_step(
        self,
        m: ClientMessage,
        now: u64,
        new: NostrClient,
        targets: Seq<String>,
    ) -> bool {
        match m {
            ClientMessage::Req { subscription_id, filters: _ } => match self.sub_pos(
                subscription_id@,
            ) {
                Some(_) => new == self && targets.len() == 0,
                None => {
                    let sub = new.subscriptions@.last();
                    &&& new.relays == self.relays
                    &&& new.seen_ids == self.seen_ids
                    &&& new.subscriptions@.len() == self.subscriptions@.len() + 1
                    &&& new.subscriptions@.drop_last() == self.subscriptions@
                    &&& sub.name == subscription_id
                    &&& sub.data@.len() == 0
                    &&& sub.asked_relays@ == self.relays@
                    &&& sub.responded_relays@.len() == 0
                    &&& sub.started == now
                    &&& !sub.done
                    &&& sub.end_of_stored_events_message is None
                    &&& targets == self.relays@
                },
            },
            ClientMessage::Close { subscription_id } => {
                &&& targets == self.relays@
                &&& match self.sub_pos(subscription_id@) {
                    Some(p) => {
                        &&& new.relays == self.relays
                        &&& new.seen_ids == self.seen_ids
                        &&& new.subscriptions@ == self.subscriptions@.remove(p)
                    },
                    None => new == self,
                }
            },
            _ => new == self && targets == self.relays@,
        }
    }
}

/// The creation time of the event `m` carries (0 for other messages).
fn time_of(m: &RelayMessage) -> (t: u64)
    ensures
        t == event_time(*m),
{
    match m {
        RelayMessage::Event { event, subscription_id: _ } => event.created_at,
        _ => 0,
    }
}

/// Inserting after the last message that is not newer puts `m` where
/// [`insert_by_time`] does.
proof fn lemma_insert_by_time_at(sorted: Seq<RelayMessage>, m: RelayMessage, j: int)
    requires
        0 <= j <= sorted.len(),
        forall|k: int| j <= k < sorted.len() ==> event_time(#[trigger] sorted[k]) > event_time(m),
        j > 0 ==> event_time(sorted[j - 1]) <= event_time(m),
    ensures
        insert_by_time(sorted, m) == sorted.insert(j, m),
    decreases sorted.len(),
{
    if sorted.len() == 0 {
        assert(sorted.insert(j, m) =~= seq![m]);
    } else if event_time(sorted.last()) <= event_time(m) {
        assert(j == sorted.len());
        assert(sorted.insert(j, m) =~= sorted.push(m));
    } else {
        let t = sorted.drop_last();
        assert forall|k: int| j <= k < t.len() implies event_time(#[trigger] t[k]) > event_time(m) by {
            assert(t[k] == sorted[k]);
        }
        if j > 0 {
            assert(t[j - 1] == sorted[j - 1]);
        }
        lemma_insert_by_time_at(t, m, j);
        assert(t.insert(j, m).push(sorted.last()) =~= sorted.insert(j, m));
    }
}

/// The messages of `data` in time order (see [`sort_by_time`]).
fn sort_messages_by_time(data: Vec<RelayMessage>) -> (sorted: Vec<RelayMessage>)
    ensures
        sorted@ == sort_by_time(data@),
{
    let ghost orig = data@;
    let mut rest = data;
    let mut sorted: Vec<RelayMessage> = Vec::new();
    let n: usize = rest.len();
    let mut i: usize = 0;
    proof {
        assert(orig.take(0) =~= Seq::<RelayMessage>::empty());
        assert(orig.skip(0) =~= orig);
    }
    while i < n
        invariant
            n == orig.len(),
            i <= n,
            rest@ == orig.skip(i as int),
            sorted@ == sort_by_time(orig.take(i as int)),
        decreases n - i,
    {
        let m = rest.remove(0);
        proof {
            assert(m == orig[i as int]);
            assert(rest@ =~= orig.skip(i + 1));
            assert(orig.take(i + 1).drop_last() =~= orig.take(i as int));
            assert(orig.take(i + 1).last() == orig[i as int]);
        }
        let t: u64 = time_of(&m);
        let mut j: usize = sorted.len();
        while j > 0 && time_of(&sorted[j - 1]) > t
            invariant
                j <= sorted@.len(),
                t == event_time(m),
                forall|k: int| j <= k < sorted@.len() ==> event_time(#[trigger] sorted@[k]) > t,
            decreases j,
        {
            j = j - 1;
        }
        proof {
            lemma_insert_by_time_at(sorted@, m, j as int);
        }
        sorted.insert(j, m);
        i = i + 1;
    }
    proof {
        assert(orig.take(n as int) =~= orig);
    }
    sorted
}

/// Passes `msgs` on to `relay` (see [`pass_on`]), adding to `outputs` and
/// to the ids in `seen`.
fn pass_on_unseen(
    msgs: Vec<RelayMessage>,
    seen: &mut Vec<String>,
    relay: &String,
    outputs: &mut Vec<(String, RelayMessage)>,
)
    ensures
        final(outputs)@ == old(outputs)@ + pass_on(msgs@, texts(old(seen)@), *relay).0,
        texts(final(seen)@) == pass_on(msgs@, texts(old(seen)@), *relay).1,
{
    let ghost orig = msgs@;
    let ghost seen0 = texts(old(seen)@);
    let ghost out0 = old(outputs)@;
    let mut rest = msgs;
    let n: usize = rest.len();
    let mut i: usize = 0;
    proof {
        assert(orig.take(0) =~= Seq::<RelayMessage>::empty());
        assert(orig.skip(0) =~= orig);
        assert(outputs@ =~= out0 + Seq::<(String, RelayMessage)>::empty());
    }
    while i < n
        invariant
            n == orig.len(),
            i <= n,
            rest@ == orig.skip(i as int),
            outputs@ == out0 + pass_on(orig.take(i as int), seen0, *relay).0,
            texts(seen@) == pass_on(orig.take(i as int), seen0, *relay).1,
        decreases n - i,
    {
        let m = rest.remove(0);
        proof {
            assert(m == orig[i as int]);
            assert(rest@ =~= orig.skip(i + 1));
            assert(orig.take(i + 1).drop_last() =~= orig.take(i as int));
            assert(orig.take(i + 1).last() == orig[i as int]);
        }
        let ghost before_out = outputs@;
        let ghost before_seen = texts(seen@);
        let id: Option<String> = match &m {
            RelayMessage::Event { event, subscription_id: _ } => Some(event.id.clone()),
            _ => None,
        };
        match id {
            Some(id) => {
                let was_seen = contains_string(seen, &id);
                proof {
                    if was_seen {
                        let j = choose|j: int| 0 <= j < seen@.len() && (#[trigger] seen@[j])@ == id@;
                        assert(texts(seen@)[j] == id@);
                    } else {
                        assert forall|j: int| 0 <= j < texts(seen@).len() implies texts(
                            seen@,
                        )[j] != id@ by {
                            assert(texts(seen@)[j] == seen@[j]@);
                        }
                    }
                }
                if !was_seen {
                    seen.push(id);
                    outputs.push((relay.clone(), m));
                    proof {
                        assert(texts(seen@) =~= before_seen.push(id@));
                    }
                }
            },
            None => {
                outputs.push((relay.clone(), m));
            },
        }
        proof {
            assert(outputs@ =~= out0 + pass_on(orig.take(i + 1), seen0, *relay).0);
        }
        i = i + 1;
    }
    proof {
        assert(orig.take(n as int) =~= orig);
    }
}

/// Passing messages on keeps the seen ids free of repeats.
proof fn lemma_pass_on_distinct(msgs: Seq<RelayMessage>, seen: Seq<Seq<char>>, relay: String)
    requires
        seen.no_duplicates(),
    ensures
        pass_on(msgs, seen, relay).1.no_duplicates(),
    decreases msgs.len(),
{
    if msgs.len() > 0 {
        lemma_pass_on_distinct(msgs.drop_last(), seen, relay);
        let s = pass_on(msgs.drop_last(), seen, relay).1;
        match message_id(msgs.last()) {
            Some(id) => {
                if !s.contains(id) {
                    assert forall|a: int, b: int|
                        0 <= a < b < s.push(id).len() implies s.push(id)[a] != s.push(id)[b] by {
                        if b == s.len() {
                            assert(s.push(id)[a] == s[a]);
                        }
                    }
                }
            },
            None => {},
        }
    }
}

/// A copy of a list of strings.
fn clone_strings(v: &Vec<String>) -> (r: Vec<String>)
    ensures
        r@ == v@,
{
    let mut r: Vec<String> = Vec::new();
    let mut i: usize = 0;
    while i < v.len()
        invariant
            i <= v@.len(),
            r@ == v@.take(i as int),
        decreases v@.len() - i,
    {
        r.push(v[i].clone());
        proof {
            assert(r@ =~= v@.take(i + 1));
        }
        i = i + 1;
    }
    proof {
        assert(v@.take(v@.len() as int) =~= v@);
    }
    r
}

/// The relay addresses `relays` normalised as URLs.
pub open spec fn parsed_relays(relays: Seq<String>) -> Seq<Seq<char>> {
    relays.map_values(|r: String| relay_url_of(r@)->Some_0)
}

/// The first occurrence of each text of `s`, in order.
pub open spec fn first_occurrences(s: Seq<Seq<char>>) -> Seq<Seq<char>>
    decreases s.len(),
{
    if s.len() == 0 {
        s
    } else {
        let d = first_occurrences(s.drop_last());
        if d.contains(s.last()) {
            d
        } else {
            d.push(s.last())
        }
    }
}

/// Keeping first occurrences leaves no text twice.
proof fn lemma_first_occurrences_distinct(s: Seq<Seq<char>>)
    ensures
        first_occurrences(s).no_duplicates(),
    decreases s.len(),
{
    if s.len() > 0 {
        lemma_first_occurrences_distinct(s.drop_last());
        let d = first_occurrences(s.drop_last());
        if !d.contains(s.last()) {
            assert forall|a: int, b: int|
                0 <= a < b < d.push(s.last()).len() implies d.push(s.last())[a] != d.push(
                s.last(),
            )[b] by {
                if b == d.len() {
                    assert(d.push(s.last())[a] == d[a]);
                }
            }
        }
    }
}

/// Every address in `relays` is a URL.
pub open spec fn relays_parse(relays: Seq<String>) -> bool {
    forall|i: int| 0 <= i < relays.len() ==> (#[trigger] relay_url_of(relays[i]@)) is Some
}

/// Where the event with id `id` is among `data`.
fn find_event(data: &Vec<RelayMessage>, id: &String) -> (r: Option<usize>)
    ensures
        match r {
            Some(j) => first_match(data@, has_event_id(id@)) == Some(j as int) && j < data@.len(),
            None => first_match(data@, has_event_id(id@)) is None,
        },
{
    let mut j: usize = 0;
    while j < data.len()
        invariant
            j <= data@.len(),
            forall|k: int| 0 <= k < j ==> !(has_event_id(id@))(#[trigger] data@[k]),
        decreases data@.len() - j,
    {
        let same = match &data[j] {
            RelayMessage::Event { event, subscription_id: _ } => event.id == *id,
            _ => false,
        };
        if same {
            proof {
                lemma_first_match_at(data@, has_event_id(id@), j as int);
            }
            return Some(j);
        }
        j = j + 1;
    }
    proof {
        lemma_first_match_none(data@, has_event_id(id@));
    }
    None
}

impl NostrClient {
    /// A client for the relays at `relays`, which are kept as normalised
    /// URLs, each once (an address that normalises to one seen before adds
    /// nothing); no subscriptions, nothing seen.
    pub fn new(relays: Vec<String>) -> (c: Self)
        requires
            relays_parse(relays@),
        ensures
            c.wf(),
            texts(c.relays@) == first_occurrences(parsed_relays(relays@)),
            c.subscriptions@.len() == 0,
            c.seen_ids@.len() == 0,
    {
        let mut parsed: Vec<String> = Vec::new();
        let mut i: usize = 0;
        while i < relays.len()
            invariant
                i <= relays@.len(),
                relays_parse(relays@),
                texts(parsed@) == first_occurrences(parsed_relays(relays@.take(i as int))),
            decreases relays@.len() - i,
        {
            proof {
                assert(relay_url_of(relays@[i as int]@) is Some);
            }
            let url = match parse_relay_url(relays[i].as_str()) {
                Some(url) => url,
                None => {
                    proof {
                        assert(false);
                    }
                    String::new()
                },
            };
            let ghost before = texts(parsed@);
            let seen_before = contains_string(&parsed, &url);
            proof {
                let q = parsed_relays(relays@.take(i as int));
                assert(parsed_relays(relays@.take(i + 1)) =~= q.push(url@));
                assert(q.push(url@).drop_last() =~= q);
                assert(first_occurrences(q.push(url@)) == if before.contains(url@) {
                    before
                } else {
                    before.push(url@)
                });
                if seen_before {
                    let j = choose|j: int| 0 <= j < parsed@.len() && (#[trigger] parsed@[j])@ == url@;
                    assert(before[j] == url@);
                } else {
                    assert forall|j: int| 0 <= j < before.len() implies before[j] != url@ by {
                        assert(before[j] == parsed@[j]@);
                    }
                }
            }
            if !seen_before {
                parsed.push(url);
                proof {
                    assert(texts(parsed@) =~= before.push(url@));
                }
            }
            i = i + 1;
        }
        proof {
            assert(relays@.take(relays@.len() as int) =~= relays@);
        }
        let c = NostrClient { relays: parsed, subscriptions: Vec::new(), seen_ids: Vec::new() };
        proof {
            assert(c.seen() =~= Seq::<Seq<char>>::empty());
            lemma_first_occurrences_distinct(parsed_relays(relays@));
        }
        c
    }

    /// [`NostrClient::new`] where every address is a URL; `None` otherwise.
    pub fn try_new(relays: Vec<String>) -> (r: Option<Self>)
        ensures
            r is Some == relays_parse(relays@),
            r matches Some(c) ==> {
                &&& c.wf()
                &&& texts(c.relays@) == first_occurrences(parsed_relays(relays@))
                &&& c.subscriptions@.len() == 0
                &&& c.seen_ids@.len() == 0
            },
    {
        let mut i: usize = 0;
        while i < relays.len()
            invariant
                i <= relays@.len(),
                forall|j: int| 0 <= j < i ==> (#[trigger] relay_url_of(relays@[j]@)) is Some,
            decreases relays@.len() - i,
        {
            if parse_relay_url(relays[i].as_str()).is_none() {
                return None;
            }
            i = i + 1;
        }
        Some(Self::new(relays))
    }

    fn find_sub(&self, name: &String) -> (r: Option<usize>)
        ensures
            match r {
                Some(i) => self.sub_pos(name@) == Some(i as int) && i < self.subscriptions@.len(),
                None => self.sub_pos(name@) is None,
            },
    {
        let mut i: usize = 0;
        while i < self.subscriptions.len()
            invariant
                i <= self.subscriptions@.len(),
                forall|j: int|
                    0 <= j < i ==> !(sub_named(name@))(#[trigger] self.subscriptions@[j]),
            decreases self.subscriptions@.len() - i,
        {
            if self.subscriptions[i].name == *name {
                proof {
                    lemma_first_match_at(self.subscriptions@, sub_named(name@), i as int);
                }
                return Some(i);
            }
            i = i + 1;
        }
        proof {
            lemma_first_match_none(self.subscriptions@, sub_named(name@));
        }
        None
    }

    /// Passes on what the expired subscription at `i` collected, and
    /// finishes it (see [`flush_outputs`]).
    fn flush_subscription(&mut self, i: usize, now: u64, outputs: &mut Vec<(String, RelayMessage)>)
        requires
            i < old(self).subscriptions@.len(),
            !old(self).subscriptions@[i as int].done,
            expired(old(self).subscriptions@[i as int], now),
            old(self).subscriptions@[i as int].end_of_stored_events_message is Some
                ==> old(self).subscriptions@[i as int].responded_relays@.len() > 0,
            old(self).subscriptions@[i as int].end_of_stored_events_message is None
                ==> old(self).relays@.len() > 0,
        ensures
            final(self).relays == old(self).relays,
            final(outputs)@ == old(outputs)@ + flush_outputs(
                old(self).subscriptions@[i as int],
                old(self).seen(),
                old(self).relays@,
            ).0,
            final(self).seen() == flush_outputs(
                old(self).subscriptions@[i as int],
                old(self).seen(),
                old(self).relays@,
            ).1,
            final(self).subscriptions@.len() == old(self).subscriptions@.len(),
            sub_ticked(old(self).subscriptions@[i as int], final(self).subscriptions@[i as int], now),
            forall|j: int|
                0 <= j < old(self).subscriptions@.len() && j != i ==> final(self).subscriptions@[j]
                    == old(self).subscriptions@[j],
    {
        let ghost s0 = *old(self);
        let ghost sub0 = s0.subscriptions@[i as int];
        self.subscriptions[i].done = true;
        let mut data: Vec<RelayMessage> = Vec::new();
        std::mem::swap(&mut data, &mut self.subscriptions[i].data);
        let sorted = sort_messages_by_time(data);
        if self.subscriptions[i].responded_relays.len() > 0 {
            let first = self.subscriptions[i].responded_relays[0].clone();
            pass_on_unseen(sorted, &mut self.seen_ids, &first, outputs);
        }
        let eose = self.subscriptions[i].end_of_stored_events_message.take();
        match eose {
            Some(m) => {
                let first = self.subscriptions[i].responded_relays[0].clone();
                outputs.push((first, m));
            },
            None => {
                let name = self.subscriptions[i].name.clone();
                outputs.push((self.relays[0].clone(), RelayMessage::EndOfStoredEvents { subscription_id: name }));
            },
        }
    }

    /// The periodic check at time `now`: each expired subscription passes
    /// on what it collected and is finished, each finished one drops what
    /// it collected since (see [`tick_outputs`] and [`sub_ticked`]). The
    /// result is what is passed on, in order.
    pub fn check_subscriptions(&mut self, now: u64) -> (outputs: Vec<(String, RelayMessage)>)
        requires
            old(self).wf(),
            tick_accepted(old(self).subscriptions@, old(self).relays@, now),
        ensures
            final(self).wf(),
            (outputs@, final(self).seen()) == tick_outputs(
                old(self).subscriptions@,
                old(self).seen(),
                old(self).relays@,
                now,
            ),
            final(self).relays == old(self).relays,
            final(self).subscriptions@.len() == old(self).subscriptions@.len(),
            forall|j: int|
                0 <= j < old(self).subscriptions@.len() ==> sub_ticked(
                    old(self).subscriptions@[j],
                    #[trigger] final(self).subscriptions@[j],
                    now,
                ),
    {
        let ghost s0 = *old(self);
        let mut outputs: Vec<(String, RelayMessage)> = Vec::new();
        let n: usize = self.subscriptions.len();
        let mut i: usize = 0;
        proof {
            assert(s0.subscriptions@.take(0) =~= Seq::<NostrSubscription>::empty());
        }
        while i < n
            invariant
                n == s0.subscriptions@.len(),
                self.subscriptions@.len() == n,
                self.relays == s0.relays,
                i <= n,
                s0.wf(),
                tick_accepted(s0.subscriptions@, s0.relays@, now),
                (outputs@, self.seen()) == tick_outputs(
                    s0.subscriptions@.take(i as int),
                    s0.seen(),
                    s0.relays@,
                    now,
                ),
                self.seen().no_duplicates(),
                forall|j: int|
                    0 <= j < i ==> sub_ticked(
                        s0.subscriptions@[j],
                        #[trigger] self.subscriptions@[j],
                        now,
                    ),
                forall|j: int| i <= j < n ==> #[trigger] self.subscriptions@[j] == s0.subscriptions@[j],
            decreases n - i,
        {
            let ghost before = *self;
            let ghost before_out = outputs@;
            proof {
                let t = s0.subscriptions@.take(i + 1);
                assert(t.drop_last() =~= s0.subscriptions@.take(i as int));
                assert(t.last() == s0.subscriptions@[i as int]);
            }
            let started = self.subscriptions[i].started;
            if self.subscriptions[i].done {
                self.subscriptions[i].data.clear();
                proof {
                    assert(self.seen() == before.seen());
                    assert forall|j: int| 0 <= j < i + 1 implies sub_ticked(
                        s0.subscriptions@[j],
                        #[trigger] self.subscriptions@[j],
                        now,
                    ) by {
                        if j < i {
                            assert(self.subscriptions@[j] == before.subscriptions@[j]);
                        }
                    }
                    assert forall|j: int| i + 1 <= j < n implies #[trigger] self.subscriptions@[j]
                        == s0.subscriptions@[j] by {
                        assert(self.subscriptions@[j] == before.subscriptions@[j]);
                    }
                }
            } else if now > started && now - started > MAX_AGE_MS {
                proof {
                    assert(s0.subscriptions@[i as int] == before.subscriptions@[i as int]);
                }
                self.flush_subscription(i, now, &mut outputs);
                proof {
                    let sub = s0.subscriptions@[i as int];
                    if sub.responded_relays@.len() > 0 {
                        lemma_pass_on_distinct(
                            sort_by_time(sub.data@),
                            before.seen(),
                            sub.responded_relays@[0],
                        );
                    }
                    assert(outputs@ =~= before_out + flush_outputs(sub, before.seen(), s0.relays@).0);
                    assert forall|j: int| 0 <= j < i + 1 implies sub_ticked(
                        s0.subscriptions@[j],
                        #[trigger] self.subscriptions@[j],
                        now,
                    ) by {
                        if j < i {
                            assert(self.subscriptions@[j] == before.subscriptions@[j]);
                        }
                    }
                    assert forall|j: int| i + 1 <= j < n implies #[trigger] self.subscriptions@[j]
                        == s0.subscriptions@[j] by {
                        assert(self.subscriptions@[j] == before.subscriptions@[j]);
                    }
                }
            } else {
                proof {
                    assert(self.subscriptions@[i as int] == s0.subscriptions@[i as int]);
                }
            }
            i = i + 1;
        }
        proof {
            assert(s0.subscriptions@.take(n as int) =~= s0.subscriptions@);
            let subs = self.subscriptions@;
            assert forall|a: int, b: int|
                0 <= a < b < subs.len() implies (#[trigger] subs[a]).name@ != (
            #[trigger] subs[b]).name@ by {
                assert(sub_ticked(s0.subscriptions@[a], subs[a], now));
                assert(sub_ticked(s0.subscriptions@[b], subs[b], now));
            }
            assert forall|a: int| 0 <= a < subs.len() implies sub_wf(#[trigger] subs[a]) by {
                assert(sub_ticked(s0.subscriptions@[a], subs[a], now));
            }
        }
        outputs
    }

    /// Whether a periodic check at time `now` can pass on what the
    /// subscriptions owe (see [`tick_accepted`]).
    fn accepts_tick(&self, now: u64) -> (b: bool)
        ensures
            b == tick_accepted(self.subscriptions@, self.relays@, now),
    {
        if self.relays.len() > 0 {
            return true;
        }
        let mut a: usize = 0;
        while a < self.subscriptions.len()
            invariant
                a <= self.subscriptions@.len(),
                self.relays@.len() == 0,
                forall|j: int|
                    0 <= j < a ==> !(!(#[trigger] self.subscriptions@[j]).done && expired(
                        self.subscriptions@[j],
                        now,
                    ) && self.subscriptions@[j].end_of_stored_events_message is None),
            decreases self.subscriptions@.len() - a,
        {
            let sub = &self.subscriptions[a];
            if !sub.done && now > sub.started && now - sub.started > MAX_AGE_MS
                && sub.end_of_stored_events_message.is_none() {
                return false;
            }
            a = a + 1;
        }
        true
    }

    /// [`NostrClient::check_subscriptions`] where the check can pass on what
    /// it owes; `None`, with nothing changed, where an expired subscription
    /// that no relay finished would have to be closed through a first relay
    /// that the client does not have.
    pub fn try_check_subscriptions(&mut self, now: u64) -> (r: Option<Vec<(String, RelayMessage)>>)
        requires
            old(self).wf(),
        ensures
            final(self).wf(),
            r is Some == tick_accepted(old(self).subscriptions@, old(self).relays@, now),
            r is None ==> *final(self) == *old(self),
            r matches Some(outputs) ==> {
                &&& (outputs@, final(self).seen()) == tick_outputs(
                    old(self).subscriptions@,
                    old(self).seen(),
                    old(self).relays@,
                    now,
                )
                &&& final(self).relays == old(self).relays
                &&& final(self).subscriptions@.len() == old(self).subscriptions@.len()
                &&& forall|j: int|
                    0 <= j < old(self).subscriptions@.len() ==> sub_ticked(
                        old(self).subscriptions@[j],
                        #[trigger] final(self).subscriptions@[j],
                        now,
                    )
            },
    {
        if self.accepts_tick(now) {
            Some(self.check_subscriptions(now))
        } else {
            None
        }
    }

    /// Takes a message to the relays at time `now` (see
    /// [`NostrClient::client_message_step`]); the result is the relays to
    /// send it to, in order.
    pub fn handle_client_message(&mut self, message: &ClientMessage, now: u64) -> (targets: Vec<
        String,
    >)
        requires
            old(self).wf(),
        ensures
            final(self).wf(),
            old(self).client_message_step(*message, now, *final(self), targets@),
            texts(targets@).no_duplicates(),
            !(*message is Req) ==> targets@ == old(self).relays@,
            *message is Req ==> if old(self).sub_pos(message->Req_subscription_id@) is None {
                targets@ == old(self).relays@
            } else {
                targets@.len() == 0
            },
    {
        let ghost s0 = *old(self);
        match message {
            ClientMessage::Req { subscription_id, filters: _ } => {
                match self.find_sub(subscription_id) {
                    Some(_) => Vec::new(),
                    None => {
                        proof {
                            lemma_first_match_spec(self.subscriptions@, sub_named(subscription_id@));
                        }
                        let mut sub = NostrSubscription::new(subscription_id.clone(), now);
                        sub.asked_relays = clone_strings(&self.relays);
                        self.subscriptions.push(sub);
                        proof {
                            let subs = self.subscriptions@;
                            assert(subs.drop_last() =~= s0.subscriptions@);
                            assert forall|a: int, b: int|
                                0 <= a < b < subs.len() implies (#[trigger] subs[a]).name@ != (
                            #[trigger] subs[b]).name@ by {
                                if b == subs.len() - 1 {
                                    assert(!(sub_named(subscription_id@))(s0.subscriptions@[a]));
                                } else {
                                    assert(subs[a] == s0.subscriptions@[a]);
                                    assert(subs[b] == s0.subscriptions@[b]);
                                }
                            }
                            assert forall|a: int| 0 <= a < subs.len() implies sub_wf(#[trigger] subs[a]) by {
                                if a < subs.len() - 1 {
                                    assert(subs[a] == s0.subscriptions@[a]);
                                }
                            }
                        }
                        clone_strings(&self.relays)
                    },
                }
            },
            ClientMessage::Close { subscription_id } => {
                match self.find_sub(subscription_id) {
                    Some(p) => {
                        self.subscriptions.remove(p);
                        proof {
                            let subs = self.subscriptions@;
                            let old_subs = s0.subscriptions@;
                            assert forall|a: int| 0 <= a < subs.len() implies #[trigger] subs[a]
                                == old_subs[if a < p { a } else { a + 1 }] by {}
                            assert forall|a: int, b: int|
                                0 <= a < b < subs.len() implies (#[trigger] subs[a]).name@ != (
                            #[trigger] subs[b]).name@ by {
                                let a0 = if a < p { a } else { a + 1 };
                                let b0 = if b < p { b } else { b + 1 };
                                assert(subs[a] == old_subs[a0]);
                                assert(subs[b] == old_subs[b0]);
                            }
                            assert forall|a: int| 0 <= a < subs.len() implies sub_wf(
                                #[trigger] subs[a],
                            ) by {
                                let a0 = if a < p { a } else { a + 1 };
                                assert(subs[a] == old_subs[a0]);
                            }
                        }
                    },
                    None => {},
                }
                clone_strings(&self.relays)
            },
            _ => clone_strings(&self.relays),
        }
    }

    /// Takes a message from relay `relay_url` (see
    /// [`NostrClient::relay_message_step`]); the result is what is passed on.
    pub fn handle_relay_message(&mut self, relay_url: String, message: RelayMessage) -> (forward:
        Option<(String, RelayMessage)>)
        requires
            old(self).wf(),
        ensures
            final(self).wf(),
            old(self).relay_message_step(relay_url, message, *final(self), forward),
    {
        let ghost s0 = *old(self);
        let sid: Option<String> = match &message {
            RelayMessage::Event { event: _, subscription_id } => Some(subscription_id.clone()),
            RelayMessage::EndOfStoredEvents { subscription_id } => Some(subscription_id.clone()),
            _ => None,
        };
        let ended = match &message {
            RelayMessage::EndOfStoredEvents { subscription_id: _ } => true,
            _ => false,
        };
        let pos = match &sid {
            Some(k) => self.find_sub(k),
            None => None,
        };
        match pos {
            Some(i) => {
                if ended {
                    self.subscriptions[i].end_of_stored_events_message = Some(message);
                    self.subscriptions[i].responded_relays.push(relay_url);
                    proof {
                        assert forall|a: int, b: int|
                            0 <= a < b < self.subscriptions@.len() implies (
                            #[trigger] self.subscriptions@[a]).name@ != (
                            #[trigger] self.subscriptions@[b]).name@ by {
                            assert(self.subscriptions@[a].name == s0.subscriptions@[a].name);
                            assert(self.subscriptions@[b].name == s0.subscriptions@[b].name);
                        }
                        assert(self.seen() == s0.seen());
                        assert forall|a: int| 0 <= a < self.subscriptions@.len() implies sub_wf(#[trigger] self.subscriptions@[a]) by {
                            if a != i {
                                assert(self.subscriptions@[a] == s0.subscriptions@[a]);
                            } else {
                                assert(self.subscriptions@[a].data == s0.subscriptions@[a].data);
                            }
                        }
                    }
                    return None;
                } else if !contains_string(&self.subscriptions[i].responded_relays, &relay_url) {
                    let id = match &message {
                        RelayMessage::Event { event, subscription_id: _ } => event.id.clone(),
                        _ => {
                            proof {
                                assert(false);
                            }
                            String::new()
                        },
                    };
                    let ghost d0 = s0.subscriptions@[i as int].data@;
                    match find_event(&self.subscriptions[i].data, &id) {
                        Some(j) => {
                            self.subscriptions[i].data[j] = message;
                        },
                        None => {
                            self.subscriptions[i].data.push(message);
                        },
                    }
                    proof {
                        let d = self.subscriptions@[i as int].data@;
                        assert(d == buffer_insert(d0, message));
                        lemma_first_match_spec(d0, has_event_id(id@));
                        assert forall|j: int, k: int| 0 <= j < k < d.len() implies message_id(
                            #[trigger] d[j],
                        ) != message_id(#[trigger] d[k]) by {
                            if k < d0.len() && j != k {
                                match first_match(d0, has_event_id(id@)) {
                                    Some(p) => {
                                        if j == p {
                                            assert(message_id(d0[k]) != Some(id@) || k == p);
                                        } else if k == p {
                                            assert(message_id(d0[j]) != message_id(d0[p]));
                                        }
                                    },
                                    None => {},
                                }
                            } else {
                            }
                        }
                        assert forall|a: int, b: int|
                            0 <= a < b < self.subscriptions@.len() implies (
                            #[trigger] self.subscriptions@[a]).name@ != (
                            #[trigger] self.subscriptions@[b]).name@ by {
                            assert(self.subscriptions@[a].name == s0.subscriptions@[a].name);
                            assert(self.subscriptions@[b].name == s0.subscriptions@[b].name);
                        }
                        assert(self.seen() == s0.seen());
                        assert forall|a: int| 0 <= a < self.subscriptions@.len() implies sub_wf(#[trigger] self.subscriptions@[a]) by {
                            if a != i {
                                assert(self.subscriptions@[a] == s0.subscriptions@[a]);
                            }
                        }
                    }
                    return None;
                }
            },
            None => {},
        }
        let id: Option<String> = match &message {
            RelayMessage::Event { event, subscription_id: _ } => Some(event.id.clone()),
            _ => None,
        };
        match id {
            Some(id) => {
                let was_seen = contains_string(&self.seen_ids, &id);
                proof {
                    if was_seen {
                        let j = choose|j: int|
                            0 <= j < self.seen_ids@.len() && (#[trigger] self.seen_ids@[j])@ == id@;
                        assert(self.seen()[j] == id@);
                    } else {
                        assert forall|j: int| 0 <= j < self.seen().len() implies self.seen()[j]
                            != id@ by {
                            assert(self.seen()[j] == self.seen_ids@[j]@);
                        }
                    }
                }
                if was_seen {
                    return None;
                }
                self.seen_ids.push(id);
                proof {
                    assert(self.seen() =~= s0.seen().push(id@));
                }
            },
            None => {},
        }
        if ended {
            return None;
        }
        Some((relay_url, message))
    }
}

} // verus!
