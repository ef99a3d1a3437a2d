//! What clients may rely on: who gets which message, what subscribing and giving up
//! a filter change, and what a client leaves behind.

use crate::connection;
use crate::packet::SubscribeOptions;
use crate::session;
use crate::state;
use crate::state::{MessageView, QoS, SessionView, StateView, SubscriptionView};
use crate::subscription;
use crate::table;
use crate::text;
use vstd::prelude::*;

verus! {

/// Whether a subscription is the client's.
pub open spec fn of_client(client: Seq<char>) -> spec_fn(SubscriptionView) -> bool {
    |x: SubscriptionView| x.client_id == client
}

/// Whether a subscription is somebody else's.
pub open spec fn of_others(client: Seq<char>) -> spec_fn(SubscriptionView) -> bool {
    |x: SubscriptionView| x.client_id != client
}

/// Whether a subscription has this filter.
pub open spec fn with_filter(filter: Seq<char>) -> spec_fn(SubscriptionView) -> bool {
    |x: SubscriptionView| x.topic_filter == filter
}

/// Whether a subscription has another filter.
pub open spec fn with_others(filter: Seq<char>) -> spec_fn(SubscriptionView) -> bool {
    |x: SubscriptionView| x.topic_filter != filter
}

/// The subscriptions under a filter.
pub open spec fn under(
    subs: Seq<(Seq<char>, Seq<SubscriptionView>)>,
    filter: Seq<char>,
) -> Seq<SubscriptionView> {
    match table::lookup(subs, filter) {
        Some(list) => list,
        None => Seq::empty(),
    }
}

proof fn lemma_filter_twice(list: Seq<SubscriptionView>, p: spec_fn(SubscriptionView) -> bool)
    ensures
        list.filter(p).filter(p) == list.filter(p),
    decreases list.len(),
{
    reveal(Seq::filter);
    if list.len() > 0 {
        lemma_filter_twice(list.drop_last(), p);
        let front = list.drop_last().filter(p);
        if p(list.last()) {
            assert(front.push(list.last()).drop_last() =~= front);
        }
    }
}

proof fn lemma_filter_none(
    list: Seq<SubscriptionView>,
    p: spec_fn(SubscriptionView) -> bool,
    q: spec_fn(SubscriptionView) -> bool,
)
    requires
        forall|x: SubscriptionView| #[trigger] p(x) ==> !q(x),
    ensures
        list.filter(p).filter(q) == Seq::<SubscriptionView>::empty(),
    decreases list.len(),
{
    reveal(Seq::filter);
    if list.len() > 0 {
        lemma_filter_none(list.drop_last(), p, q);
        let front = list.drop_last().filter(p);
        if p(list.last()) {
            assert(front.push(list.last()).drop_last() =~= front);
        }
    }
}

/// What `q` picks is not lost where only things that it does not pick are struck off.
pub proof fn lemma_filter_within(
    list: Seq<SubscriptionView>,
    p: spec_fn(SubscriptionView) -> bool,
    q: spec_fn(SubscriptionView) -> bool,
)
    requires
        forall|x: SubscriptionView| #[trigger] q(x) ==> p(x),
    ensures
        list.filter(p).filter(q) == list.filter(q),
    decreases list.len(),
{
    reveal(Seq::filter);
    if list.len() > 0 {
        lemma_filter_within(list.drop_last(), p, q);
        let front = list.drop_last().filter(p);
        if p(list.last()) {
            assert(front.push(list.last()).drop_last() =~= front);
        }
    }
}

proof fn lemma_filter_push(
    list: Seq<SubscriptionView>,
    x: SubscriptionView,
    p: spec_fn(SubscriptionView) -> bool,
)
    ensures
        list.push(x).filter(p) == if p(x) {
            list.filter(p).push(x)
        } else {
            list.filter(p)
        },
{
    reveal(Seq::filter);
    assert(list.push(x).drop_last() =~= list);
}

/// Striking a client off a list leaves exactly what is not the client's, in order.
pub proof fn law_strike_client(list: Seq<SubscriptionView>, client: Seq<char>)
    ensures
        subscription::others(list, client) == list.filter(of_others(client)),
    decreases list.len(),
{
    reveal(Seq::filter);
    if list.len() > 0 {
        law_strike_client(list.drop_last(), client);
    }
}

/// Striking a filter off a list leaves exactly what has another filter, in order.
pub proof fn law_strike_filter(list: Seq<SubscriptionView>, filter: Seq<char>)
    ensures
        session::other_filters(list, filter) == list.filter(with_others(filter)),
    decreases list.len(),
{
    reveal(Seq::filter);
    if list.len() > 0 {
        law_strike_filter(list.drop_last(), filter);
    }
}

// ── Delivery ─────────────────────────────────────────────────────────────

/// The entries of the table of subscribers whose filter matches a topic.
pub open spec fn matching_entries(
    subs: Seq<(Seq<char>, Seq<SubscriptionView>)>,
    topic: Seq<char>,
) -> Seq<(Seq<char>, Seq<SubscriptionView>)> {
    subs.filter(
        |e: (Seq<char>, Seq<SubscriptionView>)| subscription::topic_matches_filter(topic, e.0),
    )
}

/// All the subscriptions of a client under filters that match a topic.
pub open spec fn matching_subscriptions(
    subs: Seq<(Seq<char>, Seq<SubscriptionView>)>,
    topic: Seq<char>,
    client: Seq<char>,
) -> Seq<SubscriptionView> {
    matching_entries(subs, topic).map_values(
        |e: (Seq<char>, Seq<SubscriptionView>)| e.1,
    ).flatten().filter(of_client(client))
}

/// A message on a topic goes to all the subscriptions under all the filters that
/// match the topic, and to no other.
pub proof fn law_matching_is_all(
    subs: Seq<(Seq<char>, Seq<SubscriptionView>)>,
    topic: Seq<char>,
)
    ensures
        subscription::matching(subs, topic) == matching_entries(subs, topic).map_values(
            |e: (Seq<char>, Seq<SubscriptionView>)| e.1,
        ).flatten(),
    decreases subs.len(),
{
    reveal(Seq::filter);
    let list = |e: (Seq<char>, Seq<SubscriptionView>)| e.1;
    if subs.len() > 0 {
        let front = matching_entries(subs.drop_last(), topic);
        law_matching_is_all(subs.drop_last(), topic);
        if subscription::topic_matches_filter(topic, subs.last().0) {
            assert(front.push(subs.last()).map_values(list) =~= front.map_values(list).push(
                subs.last().1,
            ));
            front.map_values(list).lemma_flatten_push(subs.last().1);
        }
    }
}

proof fn lemma_count(to: Seq<SubscriptionView>, client: Seq<char>)
    ensures
        connection::count_for(to, client) == to.filter(of_client(client)).len(),
    decreases to.len(),
{
    reveal(Seq::filter);
    if to.len() > 0 {
        lemma_count(to.drop_last(), client);
    }
}

/// A session with a message queued some more times, and nothing else changed.
pub open spec fn with_copies(x: SessionView, n: nat, message: MessageView) -> SessionView {
    SessionView { pending_messages: x.pending_messages + Seq::new(n, |i: int| message), ..x }
}

/// After a message was published every client that has a session has waiting what
/// it had before, followed by the message once for each of its subscriptions whose
/// filter matches the topic. Nothing else changes: no other part of a session, no
/// client, no subscription.
pub proof fn law_message_reaches_all(s: StateView, message: MessageView, client: Seq<char>)
    ensures
        ({
            let after = connection::published(s, message);
            let n = matching_subscriptions(s.subscriptions, message.topic, client).len();
            &&& after.clients == s.clients
            &&& after.subscriptions == s.subscriptions
            &&& table::lookup(after.sessions, client) == match table::lookup(s.sessions, client) {
                Some(x) => Some(with_copies(x, n, message)),
                None => None,
            }
        }),
{
    let to = subscription::matching(s.subscriptions, message.topic);
    law_matching_is_all(s.subscriptions, message.topic);
    lemma_count(to, client);
    connection::law_delivered(s.sessions, to, message, client);
}

/// No session comes or goes when a message is published, and none changes place.
pub proof fn law_message_keeps_sessions(s: StateView, message: MessageView)
    ensures
        ({
            let after = connection::published(s, message);
            &&& after.sessions.len() == s.sessions.len()
            &&& forall|i: int|
                0 <= i < s.sessions.len() ==> (#[trigger] after.sessions[i]).0 == s.sessions[i].0
        }),
{
    lemma_delivered_keys(
        s.sessions,
        subscription::matching(s.subscriptions, message.topic),
        message,
    );
}

proof fn lemma_delivered_keys(
    sessions: Seq<(Seq<char>, SessionView)>,
    to: Seq<SubscriptionView>,
    message: MessageView,
)
    ensures
        ({
            let after = connection::delivered(sessions, to, message);
            &&& after.len() == sessions.len()
            &&& forall|i: int| 0 <= i < sessions.len() ==> (#[trigger] after[i]).0 == sessions[i].0
        }),
    decreases to.len(),
{
    if to.len() > 0 {
        let mid = connection::delivered(sessions, to.drop_last(), message);
        let client = to.last().client_id;
        lemma_delivered_keys(sessions, to.drop_last(), message);
        if table::lookup(mid, client) is Some {
            let x = session::enqueued(table::lookup(mid, client)->0, message);
            lemma_put_keys(mid, client, x);
        }
    }
}

proof fn lemma_put_keys<V>(entries: Seq<(Seq<char>, V)>, key: Seq<char>, value: V)
    requires
        table::lookup(entries, key) is Some,
    ensures
        ({
            let after = table::put(entries, key, value);
            &&& after.len() == entries.len()
            &&& forall|i: int| 0 <= i < entries.len() ==> (#[trigger] after[i]).0 == entries[i].0
        }),
    decreases entries.len(),
{
    let after = table::put(entries, key, value);
    if entries.len() > 0 && entries[0].0 != key {
        let rest = entries.drop_first();
        lemma_put_keys(rest, key, value);
        assert forall|i: int| 0 <= i < entries.len() implies (#[trigger] after[i]).0
            == entries[i].0 by {
            if i > 0 {
                assert(after[i] == table::put(rest, key, value)[i - 1]);
                assert(rest[i - 1] == entries[i]);
            }
        }
    }
}

// ── Topic filters ────────────────────────────────────────────────────────

/// A topic matches a filter exactly where the two are the same, or where level by
/// level, up to the filter's end or its first `#`, the filter's level is `+` or the
/// topic's: without a `#` both have as many levels, with one the topic has no
/// fewer than stand in front of it.
pub proof fn law_topic_matches(topic: Seq<char>, filter: Seq<char>, hash: int)
    requires
        0 <= hash <= text::split(filter, '/').len(),
        forall|i: int| 0 <= i < hash ==> #[trigger] text::split(filter, '/')[i] != seq!['#'],
        hash < text::split(filter, '/').len() ==> text::split(filter, '/')[hash] == seq!['#'],
    ensures
        ({
            let t = text::split(topic, '/');
            let f = text::split(filter, '/');
            subscription::topic_matches_filter(topic, filter) <==> (topic == filter || {
                &&& t.len() >= hash
                &&& hash == f.len() ==> t.len() == hash
                &&& forall|i: int|
                    0 <= i < hash ==> (#[trigger] f[i]) == seq!['+'] || f[i] == t[i]
            })
        }),
{
    let t = text::split(topic, '/');
    let f = text::split(filter, '/');
    subscription::law_levels(t, f, hash);
    assert forall|i: int| 0 <= i < hash implies subscription::level_admits(f[i], t[i]) == (f[i]
        == seq!['+'] || f[i] == t[i]) by {}
    if forall|i: int| 0 <= i < hash ==> (#[trigger] f[i]) == seq!['+'] || f[i] == t[i] {
        assert forall|i: int| 0 <= i < hash implies #[trigger] subscription::level_admits(
            f[i],
            t[i],
        ) by {}
    } else {
        let i = choose|i: int|
            0 <= i < hash && !((#[trigger] f[i]) == seq!['+'] || f[i] == t[i]);
        assert(!subscription::level_admits(f[i], t[i]));
    }
}

// ── Subscribing ──────────────────────────────────────────────────────────

/// The subscription that a filter with options stands for.
pub open spec fn asked_for(
    client: Seq<char>,
    filter: Seq<char>,
    options: SubscribeOptions,
) -> SubscriptionView {
    SubscriptionView {
        client_id: client,
        topic_filter: filter,
        qos: if options.qos == 0 {
            QoS::AtMostOnce
        } else if options.qos == 1 {
            QoS::AtLeastOnce
        } else {
            QoS::ExactlyOnce
        },
        no_local: options.no_local,
        retain_as_published: options.retain_as_published,
        retain_handling: options.retain_handling,
    }
}

/// Whether a session differs from another at most in its subscriptions.
pub open spec fn same_but_subscriptions(a: SessionView, b: SessionView) -> bool {
    a.client_id == b.client_id && a.pending_messages == b.pending_messages && a.will_message
        == b.will_message
}

proof fn lemma_one_subscription(s: StateView, sub: SubscriptionView, filter: Seq<char>)
    ensures
        ({
            let after = connection::after_subscription(s, sub);
            let client = sub.client_id;
            &&& after.clients == s.clients
            &&& filter != sub.topic_filter ==> table::lookup(after.subscriptions, filter)
                == table::lookup(s.subscriptions, filter)
            &&& under(after.subscriptions, sub.topic_filter).filter(of_client(client)) == seq![sub]
            &&& under(after.subscriptions, sub.topic_filter).filter(of_others(client)) == under(
                s.subscriptions,
                sub.topic_filter,
            ).filter(of_others(client))
            &&& match table::lookup(s.sessions, client) {
                None => table::lookup(after.sessions, client) is None,
                Some(x) => table::lookup(after.sessions, client) matches Some(y)
                    && same_but_subscriptions(x, y) && y.subscriptions.filter(
                    with_filter(sub.topic_filter),
                ) == seq![
                    SubscriptionView {
                        no_local: false,
                        retain_as_published: false,
                        retain_handling: 0,
                        ..sub
                    },
                ] && (filter != sub.topic_filter ==> y.subscriptions.filter(with_filter(filter))
                    == x.subscriptions.filter(with_filter(filter))),
            }
        }),
{
    let after = connection::after_subscription(s, sub);
    let client = sub.client_id;
    let before = under(s.subscriptions, sub.topic_filter);
    let kept = subscription::others(before, client);
    law_strike_client(before, client);
    table::law_put(s.subscriptions, sub.topic_filter, kept.push(sub), filter);
    table::law_put(s.subscriptions, sub.topic_filter, kept.push(sub), sub.topic_filter);
    lemma_filter_push(kept, sub, of_client(client));
    lemma_filter_push(kept, sub, of_others(client));
    lemma_filter_none(before, of_others(client), of_client(client));
    lemma_filter_twice(before, of_others(client));
    assert(Seq::<SubscriptionView>::empty().push(sub) =~= seq![sub]);
    session::law_change(
        s.sessions,
        client,
        |x: SessionView| session::subscribed(x, client, sub.topic_filter, sub.qos),
        client,
    );
    if table::lookup(s.sessions, client) is Some {
        let x = table::lookup(s.sessions, client)->0;
        let f = sub.topic_filter;
        let noted = SubscriptionView {
            no_local: false,
            retain_as_published: false,
            retain_handling: 0,
            ..sub
        };
        let rest = session::other_filters(x.subscriptions, f);
        law_strike_filter(x.subscriptions, f);
        lemma_filter_push(rest, noted, with_filter(f));
        lemma_filter_push(rest, noted, with_filter(filter));
        lemma_filter_none(x.subscriptions, with_others(f), with_filter(f));
        if filter != f {
            lemma_filter_within(x.subscriptions, with_others(f), with_filter(filter));
        }
        assert(Seq::<SubscriptionView>::empty().push(noted) =~= seq![noted]);
    }
}

/// After a SUBSCRIBE packet was handled the client has, under every filter in the
/// packet, exactly one subscription, with the options of the filter's last
/// occurrence, and its session lists it once. Whoever else subscribed to the
/// filter still has the same subscription.
pub proof fn law_subscribe_registers(
    s: StateView,
    client: Seq<char>,
    filters: Seq<(Seq<char>, SubscribeOptions)>,
    k: int,
)
    requires
        0 <= k < filters.len(),
        forall|j: int| k < j < filters.len() ==> (#[trigger] filters[j]).0 != filters[k].0,
    ensures
        ({
            let after = connection::after_subscribe(s, client, filters);
            let filter = filters[k].0;
            let sub = asked_for(client, filter, filters[k].1);
            &&& under(after.subscriptions, filter).filter(of_client(client)) == seq![sub]
            &&& under(after.subscriptions, filter).filter(of_others(client)) == under(
                s.subscriptions,
                filter,
            ).filter(of_others(client))
            &&& match table::lookup(s.sessions, client) {
                None => table::lookup(after.sessions, client) is None,
                Some(x) => table::lookup(after.sessions, client) matches Some(y)
                    && same_but_subscriptions(x, y) && y.subscriptions.filter(with_filter(filter))
                    == seq![
                    SubscriptionView {
                        no_local: false,
                        retain_as_published: false,
                        retain_handling: 0,
                        ..sub
                    },
                ],
            }
        }),
    decreases filters.len(),
{
    let front = filters.drop_last();
    let last = filters[filters.len() - 1];
    let mid = connection::after_subscribe(s, client, front);
    let filter = filters[k].0;
    lemma_one_subscription(mid, connection::subscription_of(client, last), filter);
    law_subscribe_leaves_the_rest(s, client, front, Seq::empty(), client);
    if k < front.len() {
        assert(front[k] == filters[k]);
        assert forall|j: int| k < j < front.len() implies (#[trigger] front[j]).0
            != front[k].0 by {
            assert(front[j] == filters[j]);
        }
        law_subscribe_registers(s, client, front, k);
        assert(last.0 != filter);
    } else {
        lemma_others_stay(s, client, front, filter);
    }
}

/// Subscribing touches nothing but the filters in the packet and the client's own
/// session: nothing changes under another filter, the session lists its other
/// filters as before, and nobody else's session and no client is touched.
pub proof fn law_subscribe_leaves_the_rest(
    s: StateView,
    client: Seq<char>,
    filters: Seq<(Seq<char>, SubscribeOptions)>,
    filter: Seq<char>,
    other: Seq<char>,
)
    ensures
        ({
            let after = connection::after_subscribe(s, client, filters);
            let named = exists|j: int| 0 <= j < filters.len() && (#[trigger] filters[j]).0 == filter;
            &&& after.clients == s.clients
            &&& !named ==> table::lookup(after.subscriptions, filter) == table::lookup(
                s.subscriptions,
                filter,
            )
            &&& other != client ==> table::lookup(after.sessions, other) == table::lookup(
                s.sessions,
                other,
            )
            &&& match table::lookup(s.sessions, client) {
                None => table::lookup(after.sessions, client) is None,
                Some(x) => table::lookup(after.sessions, client) matches Some(y)
                    && same_but_subscriptions(x, y) && (!named ==> y.subscriptions.filter(
                    with_filter(filter),
                ) == x.subscriptions.filter(with_filter(filter))),
            }
        }),
    decreases filters.len(),
{
    if filters.len() > 0 {
        let front = filters.drop_last();
        let last = filters[filters.len() - 1];
        let mid = connection::after_subscribe(s, client, front);
        let sub = connection::subscription_of(client, last);
        law_subscribe_leaves_the_rest(s, client, front, filter, other);
        lemma_one_subscription(mid, sub, filter);
        session::law_change(
            mid.sessions,
            client,
            |x: SessionView| session::subscribed(x, client, sub.topic_filter, sub.qos),
            other,
        );
        if !(exists|j: int| 0 <= j < filters.len() && (#[trigger] filters[j]).0 == filter) {
            assert(last.0 != filter);
            assert forall|j: int| 0 <= j < front.len() implies (#[trigger] front[j]).0
                != filter by {
                assert(front[j] == filters[j]);
            }
        }
    }
}

proof fn lemma_others_stay(
    s: StateView,
    client: Seq<char>,
    filters: Seq<(Seq<char>, SubscribeOptions)>,
    filter: Seq<char>,
)
    ensures
        under(
            connection::after_subscribe(s, client, filters).subscriptions,
            filter,
        ).filter(of_others(client)) == under(s.subscriptions, filter).filter(of_others(client)),
    decreases filters.len(),
{
    if filters.len() > 0 {
        let front = filters.drop_last();
        let mid = connection::after_subscribe(s, client, front);
        lemma_others_stay(s, client, front, filter);
        lemma_one_subscription(
            mid,
            connection::subscription_of(client, filters.last()),
            filter,
        );
    }
}

// ── Giving up filters ────────────────────────────────────────────────────

proof fn lemma_one_given_up(
    s: StateView,
    client: Seq<char>,
    gone: Seq<char>,
    filter: Seq<char>,
)
    requires
        table::distinct(s.subscriptions),
    ensures
        ({
            let after = connection::after_unsubscription(s, client, gone);
            &&& table::distinct(after.subscriptions)
            &&& after.clients == s.clients
            &&& filter != gone ==> table::lookup(after.subscriptions, filter) == table::lookup(
                s.subscriptions,
                filter,
            )
            &&& under(after.subscriptions, gone) == under(s.subscriptions, gone).filter(
                of_others(client),
            )
            &&& match table::lookup(s.sessions, client) {
                None => table::lookup(after.sessions, client) is None,
                Some(x) => table::lookup(after.sessions, client) matches Some(y)
                    && same_but_subscriptions(x, y) && y.subscriptions == x.subscriptions.filter(
                    with_others(gone),
                ),
            }
        }),
{
    reveal(Seq::filter);
    match table::lookup(s.subscriptions, gone) {
        None => {},
        Some(list) => {
            let left = subscription::others(list, client);
            law_strike_client(list, client);
            if left.len() == 0 {
                assert(left =~= Seq::<SubscriptionView>::empty());
                table::law_without(s.subscriptions, gone, filter);
                table::law_without(s.subscriptions, gone, gone);
            } else {
                table::law_put(s.subscriptions, gone, left, filter);
                table::law_put(s.subscriptions, gone, left, gone);
            }
        },
    }
    session::law_change(
        s.sessions,
        client,
        |x: SessionView| session::unsubscribed(x, gone),
        client,
    );
    if table::lookup(s.sessions, client) is Some {
        law_strike_filter((table::lookup(s.sessions, client)->0).subscriptions, gone);
    }
}

/// After an UNSUBSCRIBE packet was handled the client has no subscription under any
/// filter in the packet and its session lists none. Everything else is as before:
/// what others have under these filters, what anybody has under other filters,
/// what the session lists besides, and everybody else's session.
pub proof fn law_unsubscribe_removes(
    s: StateView,
    client: Seq<char>,
    filters: Seq<Seq<char>>,
    filter: Seq<char>,
    other: Seq<char>,
)
    requires
        table::distinct(s.subscriptions),
    ensures
        ({
            let after = connection::after_unsubscribe(s, client, filters);
            &&& table::distinct(after.subscriptions)
            &&& after.clients == s.clients
            &&& under(after.subscriptions, filter) == if filters.contains(filter) {
                under(s.subscriptions, filter).filter(of_others(client))
            } else {
                under(s.subscriptions, filter)
            }
            &&& other != client ==> table::lookup(after.sessions, other) == table::lookup(
                s.sessions,
                other,
            )
            &&& match table::lookup(s.sessions, client) {
                None => table::lookup(after.sessions, client) is None,
                Some(x) => table::lookup(after.sessions, client) matches Some(y)
                    && same_but_subscriptions(x, y) && y.subscriptions.filter(with_filter(filter))
                    == if filters.contains(filter) {
                    Seq::empty()
                } else {
                    x.subscriptions.filter(with_filter(filter))
                },
            }
        }),
    decreases filters.len(),
{
    if filters.len() > 0 {
        let front = filters.drop_last();
        let gone = filters[filters.len() - 1];
        let mid = connection::after_unsubscribe(s, client, front);
        law_unsubscribe_removes(s, client, front, filter, other);
        lemma_one_given_up(mid, client, gone, filter);
        session::law_change(
            mid.sessions,
            client,
            |x: SessionView| session::unsubscribed(x, gone),
            other,
        );
        lemma_filter_twice(under(s.subscriptions, filter), of_others(client));
        if table::lookup(mid.sessions, client) is Some {
            let list = (table::lookup(mid.sessions, client)->0).subscriptions;
            if filter == gone {
                lemma_filter_none(list, with_others(gone), with_filter(gone));
            } else {
                lemma_filter_within(list, with_others(gone), with_filter(filter));
            }
        }
        assert(filters.contains(filter) <==> (front.contains(filter) || filter == gone)) by {
            if filters.contains(filter) {
                let j = choose|j: int| 0 <= j < filters.len() && filters[j] == filter;
                if j < front.len() {
                    assert(front[j] == filter);
                }
            }
            if front.contains(filter) {
                let j = choose|j: int| 0 <= j < front.len() && front[j] == filter;
                assert(filters[j] == filter);
            }
            assert(filters[filters.len() - 1] == gone);
        }
    } else {
        assert(!filters.contains(filter));
    }
}

// ── Entries and sessions ─────────────────────────────────────────────────

/// A name is looked up at the first entry for it. What is put in for a name that is
/// there takes its place, and for another name the end; what is taken out leaves the
/// others as they are.
pub proof fn law_entries<V>(entries: Seq<(Seq<char>, V)>, key: Seq<char>, value: V, k: int)
    requires
        0 <= k <= entries.len(),
        forall|j: int| 0 <= j < k ==> (#[trigger] entries[j]).0 != key,
        k < entries.len() ==> entries[k].0 == key,
    ensures
        k < entries.len() ==> table::lookup(entries, key) == Some(entries[k].1),
        k == entries.len() ==> table::lookup(entries, key) is None,
        table::put(entries, key, value) == if k < entries.len() {
            entries.update(k, (key, value))
        } else {
            entries.push((key, value))
        },
        table::without(entries, key) == if k < entries.len() {
            entries.remove(k)
        } else {
            entries
        },
    decreases entries.len(),
{
    if k == 0 {
        if entries.len() > 0 {
            assert(table::put(entries, key, value) =~= entries.update(0, (key, value)));
            assert(table::without(entries, key) =~= entries.remove(0));
        } else {
            assert(table::put(entries, key, value) =~= entries.push((key, value)));
        }
    } else {
        let rest = entries.drop_first();
        assert(entries[0].0 != key);
        if k < entries.len() {
            assert(rest[k - 1] == entries[k]);
        }
        assert forall|j: int| 0 <= j < k - 1 implies (#[trigger] rest[j]).0 != key by {
            assert(rest[j] == entries[j + 1]);
        }
        law_entries(rest, key, value, k - 1);
        if k < entries.len() {
            assert(table::put(entries, key, value) =~= entries.update(k, (key, value)));
            assert(table::without(entries, key) =~= entries.remove(k));
        } else {
            assert(table::put(entries, key, value) =~= entries.push((key, value)));
            assert(table::without(entries, key) =~= entries);
        }
    }
}

/// A session remembers one subscription for each filter, the last one: the others stay
/// as they are, in order, and nothing else of the session changes.
pub proof fn law_session_remembers(
    x: SessionView,
    client: Seq<char>,
    filter: Seq<char>,
    qos: QoS,
    message: MessageView,
)
    ensures
        ({
            let others = x.subscriptions.filter(|s: SubscriptionView| s.topic_filter != filter);
            let with = session::subscribed(x, client, filter, qos);
            let without = session::unsubscribed(x, filter);
            let more = session::enqueued(x, message);
            let none = session::drained(x);
            &&& with.subscriptions.drop_last() == others
            &&& with.subscriptions.len() == others.len() + 1
            &&& with.subscriptions.last().client_id == client
            &&& with.subscriptions.last().topic_filter == filter
            &&& with.subscriptions.last().qos == qos
            &&& without.subscriptions == others
            &&& with.pending_messages == x.pending_messages && without.pending_messages
                == x.pending_messages
            &&& with.will_message == x.will_message && without.will_message == x.will_message
            &&& with.client_id == x.client_id && without.client_id == x.client_id
            &&& more.pending_messages == x.pending_messages + seq![message]
            &&& none.pending_messages == Seq::<MessageView>::empty()
            &&& more.subscriptions == x.subscriptions && none.subscriptions == x.subscriptions
            &&& more.will_message == x.will_message && none.will_message == x.will_message
            &&& more.client_id == x.client_id && none.client_id == x.client_id
        }),
{
    lemma_other_filters(x.subscriptions, filter);
    let with = session::subscribed(x, client, filter, qos);
    assert(with.subscriptions.drop_last() =~= session::other_filters(x.subscriptions, filter));
    assert(session::enqueued(x, message).pending_messages =~= x.pending_messages + seq![message]);
}

proof fn lemma_other_filters(list: Seq<SubscriptionView>, filter: Seq<char>)
    ensures
        session::other_filters(list, filter) == list.filter(
            |s: SubscriptionView| s.topic_filter != filter,
        ),
    decreases list.len(),
{
    reveal(Seq::filter);
    if list.len() > 0 {
        lemma_other_filters(list.drop_last(), filter);
    }
}

} // verus!
