//! What the client promises across calls: every event reaches the server at
//! most once, however many relays send it and whenever they do; the stored
//! events of a subscription come in time order; a subscription is asked
//! for once; every write goes to all relays.
use vstd::prelude::*;
use crate::relays::client::{
    event_time, expired, flush_outputs, insert_by_time, message_id, pass_on, sort_by_time,
    sub_named, sub_ticked, sub_wf, tick_outputs, NostrClient,
};
use crate::lookup::{first_match, lemma_first_match_at, lemma_first_match_same, lemma_first_match_spec};
use crate::relays::model::{ClientMessage, RelayMessage};
use crate::relays::subscription::NostrSubscription;

verus! {

broadcast use vstd::seq_lib::group_seq_properties;

/// The events among `out` carry ids that are not in `before` and are all
/// in `after`, and no two of them carry the same id.
pub open spec fn fresh_events(
    out: Seq<(String, RelayMessage)>,
    before: Seq<Seq<char>>,
    after: Seq<Seq<char>>,
) -> bool {
    &&& forall|i: int|
        0 <= i < out.len() && (#[trigger] message_id(out[i].1)) is Some ==> !before.contains(
            message_id(out[i].1)->Some_0,
        ) && after.contains(message_id(out[i].1)->Some_0)
    &&& forall|i: int, j: int|
        0 <= i < j < out.len() && (#[trigger] message_id(out[i].1)) is Some ==> message_id(
            out[i].1,
        ) != #[trigger] message_id(out[j].1)
}

/// A sequence ordered by event time.
pub open spec fn time_ordered(s: Seq<RelayMessage>) -> bool {
    forall|i: int, j: int| 0 <= i <= j < s.len() ==> event_time(#[trigger] s[i]) <= event_time(
        #[trigger] s[j],
    )
}

proof fn lemma_prefix_contains(a: Seq<Seq<char>>, b: Seq<Seq<char>>, x: Seq<char>)
    requires
        a.is_prefix_of(b),
        a.contains(x),
    ensures
        b.contains(x),
{
    let k = choose|k: int| 0 <= k < a.len() && a[k] == x;
    assert(b[k] == b.subrange(0, a.len() as int)[k]);
}

proof fn lemma_prefix_trans(a: Seq<Seq<char>>, b: Seq<Seq<char>>, c: Seq<Seq<char>>)
    requires
        a.is_prefix_of(b),
        b.is_prefix_of(c),
    ensures
        a.is_prefix_of(c),
{
    assert forall|k: int| 0 <= k < a.len() implies a[k] == c.subrange(0, a.len() as int)[k] by {
        assert(a[k] == b.subrange(0, a.len() as int)[k]);
        assert(b[k] == c.subrange(0, b.len() as int)[k]);
    }
    assert(a =~= c.subrange(0, a.len() as int));
}

proof fn lemma_pass_on_fresh(msgs: Seq<RelayMessage>, seen: Seq<Seq<char>>, relay: String)
    ensures
        seen.is_prefix_of(pass_on(msgs, seen, relay).1),
        fresh_events(pass_on(msgs, seen, relay).0, seen, pass_on(msgs, seen, relay).1),
    decreases msgs.len(),
{
    if msgs.len() == 0 {
        assert(seen =~= seen.subrange(0, seen.len() as int));
    } else {
        lemma_pass_on_fresh(msgs.drop_last(), seen, relay);
        let (out, s) = pass_on(msgs.drop_last(), seen, relay);
        let m = msgs.last();
        match message_id(m) {
            Some(id) => {
                if !s.contains(id) {
                    let out2 = out.push((relay, m));
                    let s2 = s.push(id);
                    assert(s.is_prefix_of(s2)) by {
                        assert(s =~= s2.subrange(0, s.len() as int));
                    }
                    lemma_prefix_trans(seen, s, s2);
                    assert(s2[s.len() as int] == id);
                    assert forall|i: int|
                        0 <= i < out2.len() && (#[trigger] message_id(out2[i].1)) is Some implies !seen.contains(
                        message_id(out2[i].1)->Some_0,
                    ) && s2.contains(message_id(out2[i].1)->Some_0) by {
                        if i < out.len() {
                            assert(out2[i] == out[i]);
                            lemma_prefix_contains(s, s2, message_id(out[i].1)->Some_0);
                        } else {
                            if seen.contains(id) {
                                lemma_prefix_contains(seen, s, id);
                            }
                        }
                    }
                    assert forall|i: int, j: int|
                        0 <= i < j < out2.len() && (#[trigger] message_id(out2[i].1)) is Some implies message_id(
                        out2[i].1,
                    ) != #[trigger] message_id(out2[j].1) by {
                        assert(out2[i] == out[i]);
                        if j < out.len() {
                            assert(out2[j] == out[j]);
                        }
                    }
                }
            },
            None => {
                let out2 = out.push((relay, m));
                assert forall|i: int|
                    0 <= i < out2.len() && (#[trigger] message_id(out2[i].1)) is Some implies !seen.contains(
                    message_id(out2[i].1)->Some_0,
                ) && s.contains(message_id(out2[i].1)->Some_0) by {
                    assert(out2[i] == out[i]);
                }
                assert forall|i: int, j: int|
                    0 <= i < j < out2.len() && (#[trigger] message_id(out2[i].1)) is Some implies message_id(
                    out2[i].1,
                ) != #[trigger] message_id(out2[j].1) by {
                    assert(out2[i] == out[i]);
                    if j < out.len() {
                        assert(out2[j] == out[j]);
                    }
                }
            },
        }
    }
}

proof fn lemma_flush_fresh(sub: NostrSubscription, seen: Seq<Seq<char>>, relays: Seq<String>)
    requires
        sub.end_of_stored_events_message matches Some(m) ==> m is EndOfStoredEvents,
    ensures
        seen.is_prefix_of(flush_outputs(sub, seen, relays).1),
        fresh_events(flush_outputs(sub, seen, relays).0, seen, flush_outputs(sub, seen, relays).1),
{
    let (events, s1) = if sub.responded_relays@.len() > 0 {
        pass_on(sort_by_time(sub.data@), seen, sub.responded_relays@[0])
    } else {
        (seq![], seen)
    };
    if sub.responded_relays@.len() > 0 {
        lemma_pass_on_fresh(sort_by_time(sub.data@), seen, sub.responded_relays@[0]);
    } else {
        assert(seen =~= seen.subrange(0, seen.len() as int));
    }
    let out = flush_outputs(sub, seen, relays).0;
    assert(message_id(out[events.len() as int].1) is None);
    assert forall|i: int|
        0 <= i < out.len() && (#[trigger] message_id(out[i].1)) is Some implies !seen.contains(
        message_id(out[i].1)->Some_0,
    ) && s1.contains(message_id(out[i].1)->Some_0) by {
        assert(out[i] == events[i]);
    }
    assert forall|i: int, j: int|
        0 <= i < j < out.len() && (#[trigger] message_id(out[i].1)) is Some implies message_id(
        out[i].1,
    ) != #[trigger] message_id(out[j].1) by {
        assert(out[i] == events[i]);
        if j < events.len() {
            assert(out[j] == events[j]);
        }
    }
}

proof fn lemma_tick_fresh(
    subs: Seq<NostrSubscription>,
    seen: Seq<Seq<char>>,
    relays: Seq<String>,
    now: u64,
)
    requires
        forall|a: int|
            0 <= a < subs.len() ==> ((#[trigger] subs[a]).end_of_stored_events_message matches Some(
                m,
            ) ==> m is EndOfStoredEvents),
    ensures
        seen.is_prefix_of(tick_outputs(subs, seen, relays, now).1),
        fresh_events(
            tick_outputs(subs, seen, relays, now).0,
            seen,
            tick_outputs(subs, seen, relays, now).1,
        ),
    decreases subs.len(),
{
    if subs.len() == 0 {
        assert(seen =~= seen.subrange(0, seen.len() as int));
    } else {
        let rest = subs.drop_last();
        assert forall|a: int|
            0 <= a < rest.len() implies ((#[trigger] rest[a]).end_of_stored_events_message matches Some(
            m,
        ) ==> m is EndOfStoredEvents) by {
            assert(rest[a] == subs[a]);
        }
        lemma_tick_fresh(rest, seen, relays, now);
        let (out, s) = tick_outputs(rest, seen, relays, now);
        let sub = subs.last();
        if !sub.done && expired(sub, now) {
            assert(sub == subs[subs.len() - 1]);
            lemma_flush_fresh(sub, s, relays);
            let (more, s2) = flush_outputs(sub, s, relays);
            lemma_prefix_trans(seen, s, s2);
            let all = out + more;
            assert forall|i: int|
                0 <= i < all.len() && (#[trigger] message_id(all[i].1)) is Some implies !seen.contains(
                message_id(all[i].1)->Some_0,
            ) && s2.contains(message_id(all[i].1)->Some_0) by {
                if i < out.len() {
                    assert(all[i] == out[i]);
                    lemma_prefix_contains(s, s2, message_id(out[i].1)->Some_0);
                } else {
                    assert(all[i] == more[i - out.len()]);
                    if seen.contains(message_id(all[i].1)->Some_0) {
                        lemma_prefix_contains(seen, s, message_id(all[i].1)->Some_0);
                    }
                }
            }
            assert forall|i: int, j: int|
                0 <= i < j < all.len() && (#[trigger] message_id(all[i].1)) is Some implies message_id(
                all[i].1,
            ) != #[trigger] message_id(all[j].1) by {
                if j < out.len() {
                    assert(all[i] == out[i]);
                    assert(all[j] == out[j]);
                } else if i < out.len() {
                    assert(all[i] == out[i]);
                    assert(all[j] == more[j - out.len()]);
                } else {
                    assert(all[i] == more[i - out.len()]);
                    assert(all[j] == more[j - out.len()]);
                }
            }
        }
    }
}

/// Every event reaches the server at most once: a message from a relay
/// only adds to the ids seen; an event that is passed on was not seen
/// before and is seen afterwards; an event seen before is not passed on.
pub proof fn law_relay_message_passes_each_event_once(
    c: NostrClient,
    relay: String,
    m: RelayMessage,
    c2: NostrClient,
    forward: Option<(String, RelayMessage)>,
)
    requires
        c.wf(),
        c.relay_message_step(relay, m, c2, forward),
    ensures
        c.seen().is_prefix_of(c2.seen()),
        forward matches Some(f) ==> (message_id(f.1) matches Some(id) ==> !c.seen().contains(id)
            && c2.seen().contains(id)),
        message_id(m) matches Some(id) ==> (c.seen().contains(id) ==> forward is None),
{
    if c2.seen_ids == c.seen_ids {
        assert(c.seen() =~= c2.seen().subrange(0, c.seen().len() as int));
    } else {
        let id = message_id(m)->Some_0;
        assert(c2.seen() == c.seen().push(id));
        assert(c.seen() =~= c2.seen().subrange(0, c.seen().len() as int));
        assert(c2.seen()[c.seen().len() as int] == id);
    }
}

/// Every event reaches the server at most once: a periodic check only adds
/// to the ids seen, and the events it passes on were not seen before, are
/// seen afterwards and carry distinct ids.
pub proof fn law_check_passes_each_event_once(c: NostrClient, now: u64)
    requires
        c.wf(),
    ensures
        c.seen().is_prefix_of(tick_outputs(c.subscriptions@, c.seen(), c.relays@, now).1),
        fresh_events(
            tick_outputs(c.subscriptions@, c.seen(), c.relays@, now).0,
            c.seen(),
            tick_outputs(c.subscriptions@, c.seen(), c.relays@, now).1,
        ),
{
    assert forall|a: int|
        0 <= a < c.subscriptions@.len() implies ((#[trigger] c.subscriptions@[a]).end_of_stored_events_message matches Some(
        m,
    ) ==> m is EndOfStoredEvents) by {
        assert(crate::relays::client::sub_wf(c.subscriptions@[a]));
    }
    lemma_tick_fresh(c.subscriptions@, c.seen(), c.relays@, now);
}

proof fn lemma_insert_by_time(sorted: Seq<RelayMessage>, m: RelayMessage)
    requires
        time_ordered(sorted),
    ensures
        time_ordered(insert_by_time(sorted, m)),
        insert_by_time(sorted, m).to_multiset() == sorted.to_multiset().insert(m),
        insert_by_time(sorted, m).len() == sorted.len() + 1,
        forall|k: int|
            0 <= k < insert_by_time(sorted, m).len() ==> #[trigger] insert_by_time(sorted, m)[k]
                == m || sorted.contains(insert_by_time(sorted, m)[k]),
    decreases sorted.len(),
{
    if sorted.len() == 0 {
        assert(seq![m] =~= Seq::<RelayMessage>::empty().push(m));
    } else if event_time(sorted.last()) <= event_time(m) {
    } else {
        let t = sorted.drop_last();
        lemma_insert_by_time(t, m);
        let r = insert_by_time(t, m);
        let last = sorted.last();
        assert(sorted =~= t.push(last));
        assert forall|k: int| 0 <= k < r.len() implies event_time(#[trigger] r[k]) <= event_time(
            last,
        ) by {
            if r[k] != m {
                let w = choose|w: int| 0 <= w < t.len() && t[w] == r[k];
                assert(t[w] == sorted[w]);
            }
        }
        let r2 = r.push(last);
        assert forall|k: int| 0 <= k < r2.len() implies #[trigger] r2[k] == m || sorted.contains(
            r2[k],
        ) by {
            if k < r.len() && r[k] != m {
                let w = choose|w: int| 0 <= w < t.len() && t[w] == r[k];
                assert(sorted[w] == t[w]);
            } else if k == r.len() {
                assert(sorted[sorted.len() - 1] == last);
            }
        }
        assert(r2.to_multiset() =~= r.to_multiset().insert(last));
        assert(sorted.to_multiset() =~= t.to_multiset().insert(last));
    }
}

/// The stored events of a subscription are passed on in time order: the
/// order [`sort_by_time`] gives is by event time and holds the same
/// messages, each as often.
pub proof fn law_sort_by_time_orders(s: Seq<RelayMessage>)
    ensures
        time_ordered(sort_by_time(s)),
        sort_by_time(s).to_multiset() == s.to_multiset(),
    decreases s.len(),
{
    if s.len() > 0 {
        law_sort_by_time_orders(s.drop_last());
        lemma_insert_by_time(sort_by_time(s.drop_last()), s.last());
        assert(s =~= s.drop_last().push(s.last()));
    }
}

/// A subscription is asked for once: after a request starts it, the same
/// request again changes nothing and is sent nowhere.
pub proof fn law_request_sent_once(
    c: NostrClient,
    m: ClientMessage,
    now: u64,
    c1: NostrClient,
    targets1: Seq<String>,
    later: u64,
    c2: NostrClient,
    targets2: Seq<String>,
)
    requires
        c.wf(),
        m is Req,
        c.client_message_step(m, now, c1, targets1),
        c1.client_message_step(m, later, c2, targets2),
    ensures
        c2 == c1,
        targets2.len() == 0,
{
    let k = m->Req_subscription_id@;
    if c.sub_pos(k) is None {
        crate::lookup::lemma_first_match_spec(
            c.subscriptions@,
            crate::relays::client::sub_named(k),
        );
        let subs = c1.subscriptions@;
        assert forall|j: int| 0 <= j < subs.len() - 1 implies !(crate::relays::client::sub_named(
            k,
        ))(#[trigger] subs[j]) by {
            assert(subs[j] == subs.drop_last()[j]);
        }
        crate::lookup::lemma_first_match_at(
            subs,
            crate::relays::client::sub_named(k),
            subs.len() - 1,
        );
    }
}

/// Every write goes to all relays: a published event, the end of a
/// subscription and a new subscription request are each sent to every
/// relay the client knows, in its order, and the client keeps the same
/// relays.
pub proof fn law_writes_go_to_all_relays(
    c: NostrClient,
    m: ClientMessage,
    now: u64,
    c1: NostrClient,
    targets: Seq<String>,
)
    requires
        c.wf(),
        c.client_message_step(m, now, c1, targets),
        m is Req ==> c.sub_pos(m->Req_subscription_id@) is None,
    ensures
        targets == c.relays@,
        c1.relays == c.relays,
{
}

/// A subscription's stored events are passed on by one check only: a
/// check that finds it expired finishes it, and no later check passes
/// anything on for it.
pub proof fn law_subscription_passed_on_once(
    sub: NostrSubscription,
    ticked: NostrSubscription,
    now: u64,
    seen: Seq<Seq<char>>,
    relays: Seq<String>,
    later: u64,
)
    requires
        !sub.done,
        expired(sub, now),
        sub_ticked(sub, ticked, now),
    ensures
        ticked.done,
        tick_outputs(seq![ticked], seen, relays, later).0.len() == 0,
{
    let subs = seq![ticked];
    assert(subs.drop_last() =~= Seq::<NostrSubscription>::empty());
    assert(subs.last() == ticked);
    assert(tick_outputs(subs.drop_last(), seen, relays, later).0.len() == 0);
}

/// How a periodic check at time `now` takes the client from `a` to `b`,
/// passing on `out` (what [`NostrClient::check_subscriptions`] ensures).
pub open spec fn tick_step(
    a: NostrClient,
    now: u64,
    b: NostrClient,
    out: Seq<(String, RelayMessage)>,
) -> bool {
    &&& (out, b.seen()) == tick_outputs(a.subscriptions@, a.seen(), a.relays@, now)
    &&& b.relays == a.relays
    &&& b.subscriptions@.len() == a.subscriptions@.len()
    &&& forall|j: int|
        0 <= j < a.subscriptions@.len() ==> sub_ticked(
            a.subscriptions@[j],
            #[trigger] b.subscriptions@[j],
            now,
        )
}

/// What a relay message passes on, as a list.
pub open spec fn forwarded(f: Option<(String, RelayMessage)>) -> Seq<(String, RelayMessage)> {
    match f {
        Some(x) => seq![x],
        None => seq![],
    }
}

/// One call on the client takes it from `a` to `b` and passes on `out`: a
/// message from a relay, a message to the relays (which passes nothing
/// on), or a periodic check.
pub open spec fn client_step(a: NostrClient, b: NostrClient, out: Seq<(String, RelayMessage)>) -> bool {
    ||| exists|relay: String, m: RelayMessage, f: Option<(String, RelayMessage)>|
        #[trigger] a.relay_message_step(relay, m, b, f) && out == forwarded(f)
    ||| exists|m: ClientMessage, now: u64, t: Seq<String>|
        #[trigger] a.client_message_step(m, now, b, t) && out.len() == 0
    ||| exists|now: u64| #[trigger] tick_step(a, now, b, out)
}

/// A run of the client: `states[k + 1]` follows `states[k]` by one call,
/// which passes on `outs[k]`, and every state is well formed.
pub open spec fn client_run(states: Seq<NostrClient>, outs: Seq<Seq<(String, RelayMessage)>>) -> bool {
    &&& states.len() == outs.len() + 1
    &&& forall|k: int| 0 <= k < states.len() ==> (#[trigger] states[k]).wf()
    &&& forall|k: int| 0 <= k < outs.len() ==> client_step(states[k], states[k + 1], #[trigger] outs[k])
}

/// Everything a run passes on, in order.
pub open spec fn all_passed(outs: Seq<Seq<(String, RelayMessage)>>) -> Seq<(String, RelayMessage)>
    decreases outs.len(),
{
    if outs.len() == 0 {
        seq![]
    } else {
        all_passed(outs.drop_last()) + outs.last()
    }
}

proof fn lemma_fresh_concat(
    out1: Seq<(String, RelayMessage)>,
    out2: Seq<(String, RelayMessage)>,
    s0: Seq<Seq<char>>,
    s1: Seq<Seq<char>>,
    s2: Seq<Seq<char>>,
)
    requires
        s0.is_prefix_of(s1),
        s1.is_prefix_of(s2),
        fresh_events(out1, s0, s1),
        fresh_events(out2, s1, s2),
    ensures
        s0.is_prefix_of(s2),
        fresh_events(out1 + out2, s0, s2),
{
    lemma_prefix_trans(s0, s1, s2);
    let all = out1 + out2;
    assert forall|i: int|
        0 <= i < all.len() && (#[trigger] message_id(all[i].1)) is Some implies !s0.contains(
        message_id(all[i].1)->Some_0,
    ) && s2.contains(message_id(all[i].1)->Some_0) by {
        if i < out1.len() {
            assert(all[i] == out1[i]);
            lemma_prefix_contains(s1, s2, message_id(out1[i].1)->Some_0);
        } else {
            assert(all[i] == out2[i - out1.len()]);
            if s0.contains(message_id(all[i].1)->Some_0) {
                lemma_prefix_contains(s0, s1, message_id(all[i].1)->Some_0);
            }
        }
    }
    assert forall|i: int, j: int|
        0 <= i < j < all.len() && (#[trigger] message_id(all[i].1)) is Some implies message_id(
        all[i].1,
    ) != #[trigger] message_id(all[j].1) by {
        if j < out1.len() {
            assert(all[i] == out1[i]);
            assert(all[j] == out1[j]);
        } else if i < out1.len() {
            assert(all[i] == out1[i]);
            assert(all[j] == out2[j - out1.len()]);
        } else {
            assert(all[i] == out2[i - out1.len()]);
            assert(all[j] == out2[j - out1.len()]);
        }
    }
}

/// One call only adds to the ids seen, and what it passes on is fresh.
proof fn lemma_step_fresh(a: NostrClient, b: NostrClient, out: Seq<(String, RelayMessage)>)
    requires
        a.wf(),
        client_step(a, b, out),
    ensures
        a.seen().is_prefix_of(b.seen()),
        fresh_events(out, a.seen(), b.seen()),
{
    if exists|relay: String, m: RelayMessage, f: Option<(String, RelayMessage)>|
        #[trigger] a.relay_message_step(relay, m, b, f) && out == forwarded(f) {
        let (relay, m, f) = choose|relay: String, m: RelayMessage, f: Option<(String, RelayMessage)>|
            #[trigger] a.relay_message_step(relay, m, b, f) && out == forwarded(f);
        law_relay_message_passes_each_event_once(a, relay, m, b, f);
        if f is Some {
            assert(out[0] == f->Some_0);
        }
    } else if exists|m: ClientMessage, now: u64, t: Seq<String>|
        #[trigger] a.client_message_step(m, now, b, t) && out.len() == 0 {
        let (m, now, t) = choose|m: ClientMessage, now: u64, t: Seq<String>|
            #[trigger] a.client_message_step(m, now, b, t) && out.len() == 0;
        assert(b.seen_ids == a.seen_ids);
        assert(a.seen() =~= b.seen().subrange(0, a.seen().len() as int));
    } else {
        let now = choose|now: u64| #[trigger] tick_step(a, now, b, out);
        law_check_passes_each_event_once(a, now);
    }
}

proof fn lemma_run_fresh(states: Seq<NostrClient>, outs: Seq<Seq<(String, RelayMessage)>>)
    requires
        client_run(states, outs),
    ensures
        states[0].seen().is_prefix_of(states.last().seen()),
        fresh_events(all_passed(outs), states[0].seen(), states.last().seen()),
    decreases outs.len(),
{
    if outs.len() == 0 {
        assert(states[0].seen() =~= states[0].seen().subrange(0, states[0].seen().len() as int));
    } else {
        let n: int = outs.len() as int;
        let st = states.drop_last();
        let os = outs.drop_last();
        assert forall|k: int| 0 <= k < st.len() implies (#[trigger] st[k]).wf() by {
            assert(st[k] == states[k]);
        }
        assert forall|k: int| 0 <= k < os.len() implies client_step(
            st[k],
            st[k + 1],
            #[trigger] os[k],
        ) by {
            assert(os[k] == outs[k]);
            assert(st[k] == states[k]);
            assert(st[k + 1] == states[k + 1]);
            assert(client_step(states[k], states[k + 1], outs[k]));
        }
        lemma_run_fresh(st, os);
        assert(st.last() == states[n - 1]);
        assert(client_step(states[n - 1], states[n], outs[n - 1]));
        assert(states[n - 1].wf());
        lemma_step_fresh(states[n - 1], states[n], outs[n - 1]);
        lemma_fresh_concat(
            all_passed(os),
            outs[n - 1],
            states[0].seen(),
            states[n - 1].seen(),
            states[n].seen(),
        );
    }
}

/// No event reaches the server twice over any run of the client, however
/// its relay messages, requests and periodic checks interleave and however
/// many relays deliver the same event: the events passed on over the run
/// carry distinct ids, none seen before the run, all seen after it.
pub proof fn law_run_passes_each_event_once(
    states: Seq<NostrClient>,
    outs: Seq<Seq<(String, RelayMessage)>>,
)
    requires
        client_run(states, outs),
    ensures
        fresh_events(all_passed(outs), states[0].seen(), states.last().seen()),
{
    lemma_run_fresh(states, outs);
}

/// Whether the client keeps a finished subscription named `k`.
pub open spec fn finished(c: NostrClient, k: Seq<char>) -> bool {
    c.sub_pos(k) matches Some(p) && c.subscriptions@[p].done
}

/// Two lists of subscriptions with the same names at the same positions
/// find `k` at the same position.
proof fn lemma_same_names(a: Seq<NostrSubscription>, b: Seq<NostrSubscription>, k: Seq<char>)
    requires
        a.len() == b.len(),
        forall|j: int| 0 <= j < a.len() ==> (#[trigger] a[j]).name == b[j].name,
    ensures
        first_match(a, sub_named(k)) == first_match(b, sub_named(k)),
{
    assert forall|j: int| 0 <= j < a.len() implies (sub_named(k))(#[trigger] a[j]) == (sub_named(
        k,
    ))(b[j]) by {
        assert(a[j].name == b[j].name);
    }
    lemma_first_match_same(a, sub_named(k), b, sub_named(k));
}

/// One call leaves a finished subscription finished, unless it ends it.
proof fn lemma_step_keeps_finished(
    a: NostrClient,
    b: NostrClient,
    out: Seq<(String, RelayMessage)>,
    k: Seq<char>,
)
    requires
        a.wf(),
        client_step(a, b, out),
        finished(a, k),
        b.sub_pos(k) is Some,
    ensures
        finished(b, k),
{
    let p = a.sub_pos(k)->Some_0;
    lemma_first_match_spec(a.subscriptions@, sub_named(k));
    if exists|relay: String, m: RelayMessage, f: Option<(String, RelayMessage)>|
        #[trigger] a.relay_message_step(relay, m, b, f) && out == forwarded(f) {
        let (relay, m, f) = choose|relay: String, m: RelayMessage, f: Option<(String, RelayMessage)>|
            #[trigger] a.relay_message_step(relay, m, b, f) && out == forwarded(f);
        if a.subscriptions == b.subscriptions {
        } else {
            assert(b.subscriptions@.len() == a.subscriptions@.len());
            assert forall|j: int| 0 <= j < a.subscriptions@.len() implies (
            #[trigger] a.subscriptions@[j]).name == b.subscriptions@[j].name && (a.subscriptions@[j].done
                == b.subscriptions@[j].done) by {}
            lemma_same_names(a.subscriptions@, b.subscriptions@, k);
        }
    } else if exists|m: ClientMessage, now: u64, t: Seq<String>|
        #[trigger] a.client_message_step(m, now, b, t) && out.len() == 0 {
        let (m, now, t) = choose|m: ClientMessage, now: u64, t: Seq<String>|
            #[trigger] a.client_message_step(m, now, b, t) && out.len() == 0;
        if b == a {
        } else {
            match m {
                ClientMessage::Req { subscription_id, filters: _ } => {
                    let bs = b.subscriptions@;
                    assert(bs[p] == a.subscriptions@[p]);
                    assert forall|j: int| 0 <= j < p implies !(sub_named(k))(#[trigger] bs[j]) by {
                        assert(bs[j] == a.subscriptions@[j]);
                    }
                    lemma_first_match_at(bs, sub_named(k), p);
                },
                ClientMessage::Close { subscription_id } => {
                    let q = a.sub_pos(subscription_id@)->Some_0;
                    lemma_first_match_spec(a.subscriptions@, sub_named(subscription_id@));
                    let bs = b.subscriptions@;
                    let as_ = a.subscriptions@;
                    assert(bs == as_.remove(q));
                    if q == p {
                        lemma_first_match_spec(bs, sub_named(k));
                        let r = b.sub_pos(k)->Some_0;
                        let r0 = if r < q { r } else { r + 1 };
                        assert(bs[r] == as_[r0]);
                        assert(false);
                    } else {
                        let p2 = if p < q { p } else { p - 1 };
                        assert(bs[p2] == as_[p]);
                        assert forall|j: int| 0 <= j < p2 implies !(sub_named(k))(#[trigger] bs[j]) by {
                            let j0 = if j < q { j } else { j + 1 };
                            assert(bs[j] == as_[j0]);
                            if j0 != p && (sub_named(k))(as_[j0]) {
                                assert(as_[j0].name@ == as_[p].name@);
                            }
                        }
                        lemma_first_match_at(bs, sub_named(k), p2);
                    }
                },
                _ => {},
            }
        }
    } else {
        let now = choose|now: u64| #[trigger] tick_step(a, now, b, out);
        assert forall|j: int| 0 <= j < a.subscriptions@.len() implies (
        #[trigger] a.subscriptions@[j]).name == b.subscriptions@[j].name by {
            assert(sub_ticked(a.subscriptions@[j], b.subscriptions@[j], now));
        }
        lemma_same_names(a.subscriptions@, b.subscriptions@, k);
        assert(sub_ticked(a.subscriptions@[p], b.subscriptions@[p], now));
    }
}

/// A subscription's stored events are passed on once over any run of the
/// client: once finished, a subscription stays finished at every later
/// state as long as the client keeps it (only ending it removes it, and a
/// new request then starts a new subscription), so no later check passes
/// its events on again.
pub proof fn law_run_keeps_subscriptions_finished(
    states: Seq<NostrClient>,
    outs: Seq<Seq<(String, RelayMessage)>>,
    i: int,
    j: int,
    k: Seq<char>,
)
    requires
        client_run(states, outs),
        0 <= i <= j < states.len(),
        finished(states[i], k),
        forall|l: int| i <= l <= j ==> (#[trigger] states[l]).sub_pos(k) is Some,
    ensures
        finished(states[j], k),
    decreases j - i,
{
    if j > i {
        law_run_keeps_subscriptions_finished(states, outs, i, j - 1, k);
        assert(states[j - 1].wf());
        assert(client_step(states[j - 1], states[j], outs[j - 1]));
        assert(states[j].sub_pos(k) is Some);
        lemma_step_keeps_finished(states[j - 1], states[j], outs[j - 1], k);
    }
}

} // verus!
