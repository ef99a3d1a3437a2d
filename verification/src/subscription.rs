//! Topic filters, and who subscribed to which.

use crate::state;
use crate::state::{BrokerState, StateView, Subscription, SubscriptionView};
use crate::table;
use crate::table::Table;
use crate::text;
use vstd::prelude::*;
use vstd::string::*;

verus! {

// ── Topic filters ────────────────────────────────────────────────────────

/// Whether the level `filter` of a topic filter admits the level `level` of a topic.
pub open spec fn level_admits(filter: Seq<char>, level: Seq<char>) -> bool {
    filter == seq!['+'] || filter == level
}

/// Whether the levels of a topic match those of a topic filter: `+` stands for
/// any one level, `#` for all that are left, if any.
pub open spec fn levels_match(topic: Seq<Seq<char>>, filter: Seq<Seq<char>>) -> bool
    decreases filter.len(),
{
    if filter.len() == 0 {
        topic.len() == 0
    } else if filter[0] == seq!['#'] {
        true
    } else {
        &&& topic.len() > 0
        &&& level_admits(filter[0], topic[0])
        &&& levels_match(topic.drop_first(), filter.drop_first())
    }
}

/// Whether a topic matches a topic filter.
pub open spec fn topic_matches_filter(topic: Seq<char>, filter: Seq<char>) -> bool {
    topic == filter || levels_match(text::split(topic, '/'), text::split(filter, '/'))
}

// ── The lists of subscribers ─────────────────────────────────────────────

/// The subscriptions in `list` that are not of the client `client`.
pub open spec fn others(list: Seq<SubscriptionView>, client: Seq<char>) -> Seq<SubscriptionView>
    decreases list.len(),
{
    if list.len() == 0 {
        list
    } else if list.last().client_id == client {
        others(list.drop_last(), client)
    } else {
        others(list.drop_last(), client).push(list.last())
    }
}

/// The table of subscribers after a subscription came in: it takes the place of
/// one that the client had with the same filter.
pub open spec fn with_subscription(
    subs: Seq<(Seq<char>, Seq<SubscriptionView>)>,
    s: SubscriptionView,
) -> Seq<(Seq<char>, Seq<SubscriptionView>)> {
    let before = match table::lookup(subs, s.topic_filter) {
        Some(list) => list,
        None => Seq::empty(),
    };
    table::put(subs, s.topic_filter, others(before, s.client_id).push(s))
}

/// The table of subscribers after a client gave up a filter. A filter that
/// nobody is left for goes too.
pub open spec fn without_subscription(
    subs: Seq<(Seq<char>, Seq<SubscriptionView>)>,
    client: Seq<char>,
    filter: Seq<char>,
) -> Seq<(Seq<char>, Seq<SubscriptionView>)> {
    match table::lookup(subs, filter) {
        None => subs,
        Some(list) => if others(list, client).len() == 0 {
            table::without(subs, filter)
        } else {
            table::put(subs, filter, others(list, client))
        },
    }
}

/// The table of subscribers after a client gave up all its filters.
pub open spec fn without_client(
    subs: Seq<(Seq<char>, Seq<SubscriptionView>)>,
    client: Seq<char>,
) -> Seq<(Seq<char>, Seq<SubscriptionView>)>
    decreases subs.len(),
{
    if subs.len() == 0 {
        subs
    } else {
        let front = without_client(subs.drop_last(), client);
        let left = others(subs.last().1, client);
        if left.len() == 0 {
            front
        } else {
            front.push((subs.last().0, left))
        }
    }
}

/// The subscriptions whose filter matches the topic, filter by filter.
pub open spec fn matching(
    subs: Seq<(Seq<char>, Seq<SubscriptionView>)>,
    topic: Seq<char>,
) -> Seq<SubscriptionView>
    decreases subs.len(),
{
    if subs.len() == 0 {
        Seq::empty()
    } else {
        let front = matching(subs.drop_last(), topic);
        if topic_matches_filter(topic, subs.last().0) {
            front + subs.last().1
        } else {
            front
        }
    }
}

/// Strikes a client off a list of subscriptions.
fn strike_client(list: &mut Vec<Subscription>, client: &str)
    ensures
        final(list).deep_view() == others(old(list).deep_view(), client@),
{
    let mut kept: Vec<Subscription> = Vec::new();
    assert(kept.deep_view() =~= others(list.deep_view().take(0), client@));
    for i in 0..list.len()
        invariant
            kept.deep_view() == others(list.deep_view().take(i as int), client@),
    {
        let ghost upto = list.deep_view().take(i + 1);
        let ghost before = kept.deep_view();
        proof {
            assert(upto.drop_last() == list.deep_view().take(i as int));
            assert(upto.last() == list@[i as int]@);
        }
        if !text::same_text(list[i].client_id.as_str(), client) {
            let copy = list[i].clone();
            kept.push(copy);
            assert(kept.deep_view() =~= before.push(upto.last()));
        }
    }
    assert(list.deep_view().take(list@.len() as int) == list.deep_view());
    *list = kept;
}

proof fn lemma_kept_keys(
    subs: Seq<(Seq<char>, Seq<SubscriptionView>)>,
    client: Seq<char>,
    key: Seq<char>,
)
    requires
        forall|i: int| 0 <= i < subs.len() ==> (#[trigger] subs[i]).0 != key,
    ensures
        forall|i: int|
            0 <= i < without_client(subs, client).len() ==> (#[trigger] without_client(
                subs,
                client,
            )[i]).0 != key,
    decreases subs.len(),
{
    if subs.len() > 0 {
        let front = subs.drop_last();
        assert forall|i: int| 0 <= i < front.len() implies (#[trigger] front[i]).0 != key by {
            assert(front[i] == subs[i]);
        }
        lemma_kept_keys(front, client, key);
        assert(subs.last() == subs[subs.len() - 1]);
        let before = without_client(front, client);
        let after = without_client(subs, client);
        assert forall|i: int| 0 <= i < after.len() implies (#[trigger] after[i]).0 != key by {
            if i < before.len() {
                assert(after[i] == before[i]);
            }
        }
    }
}

/// The topic filters of the broker, and who subscribed to which.
pub struct SubscriptionTree;

impl SubscriptionTree {
    pub fn new() -> (r: Self)
        ensures
            r == SubscriptionTree,
    {
        SubscriptionTree
    }

    /// Takes in a subscription. It takes the place of one that the client had
    /// with the same filter.
    pub fn add(&self, state: &mut BrokerState, subscription: Subscription)
        requires
            old(state).wf(),
        ensures
            final(state).wf(),
            final(state)@ == (StateView {
                subscriptions: with_subscription(old(state)@.subscriptions, subscription@),
                ..old(state)@
            }),
    {
        let mut list: Vec<Subscription> = match state.subscriptions.get(
            subscription.topic_filter.as_str(),
        ) {
            Some(list) => state::copy_subscriptions(list),
            None => Vec::new(),
        };
        proof {
            assert(table::lookup(state@.subscriptions, subscription@.topic_filter) is None
                ==> list.deep_view() =~= Seq::<SubscriptionView>::empty());
        }
        strike_client(&mut list, subscription.client_id.as_str());
        let ghost before = list.deep_view();
        let filter = subscription.topic_filter.clone();
        list.push(subscription);
        assert(list.deep_view() =~= before.push(subscription@));
        state.subscriptions.insert(filter, list);
    }

    /// Takes out the client's subscription with this filter, if there is one.
    pub fn remove(&self, state: &mut BrokerState, client_id: &str, topic_filter: &str)
        requires
            old(state).wf(),
        ensures
            final(state).wf(),
            final(state)@ == (StateView {
                subscriptions: without_subscription(
                    old(state)@.subscriptions,
                    client_id@,
                    topic_filter@,
                ),
                ..old(state)@
            }),
    {
        let mut list: Vec<Subscription> = match state.subscriptions.get(topic_filter) {
            Some(list) => state::copy_subscriptions(list),
            None => {
                return;
            },
        };
        strike_client(&mut list, client_id);
        if list.len() == 0 {
            let _ = state.subscriptions.remove(topic_filter);
        } else {
            state.subscriptions.insert(topic_filter.to_owned(), list);
        }
    }

    /// Takes out every subscription of the client.
    pub fn remove_client_subscriptions(&self, state: &mut BrokerState, client_id: &str)
        requires
            old(state).wf(),
        ensures
            final(state).wf(),
            final(state)@ == (StateView {
                subscriptions: without_client(old(state)@.subscriptions, client_id@),
                ..old(state)@
            }),
    {
        let mut kept: Table<Vec<Subscription>> = Table::new();
        let ghost subs = state@.subscriptions;
        assert(kept@ =~= without_client(subs.take(0), client_id@));
        let n: usize = state.subscriptions.len();
        for i in 0..n
            invariant
                n == subs.len(),
                subs == state.subscriptions@,
                table::distinct(subs),
                kept.wf(),
                kept@ == without_client(subs.take(i as int), client_id@),
        {
            let mut list = state::copy_subscriptions(state.subscriptions.value_at(i));
            strike_client(&mut list, client_id);
            let ghost upto = subs.take(i + 1);
            proof {
                assert(upto.drop_last() == subs.take(i as int));
                assert(upto.last() == subs[i as int]);
            }
            if list.len() > 0 {
                let key = state.subscriptions.key_at(i).clone();
                proof {
                    let before = subs.take(i as int);
                    assert forall|j: int| 0 <= j < before.len() implies (#[trigger] before[j]).0
                        != key@ by {
                        assert(before[j] == subs[j]);
                    }
                    lemma_kept_keys(before, client_id@, key@);
                }
                kept.push_new(key, list);
            }
        }
        assert(subs.take(n as int) == subs);
        state.subscriptions = kept;
    }

    fn topic_matches(topic: &str, filter: &str) -> (r: bool)
        ensures
            r == topic_matches_filter(topic@, filter@),
    {
        if text::same_text(topic, filter) {
            return true;
        }
        let topic_parts = text::split_chars(text::chars_of(topic).as_slice(), '/');
        let filter_parts = text::split_chars(text::chars_of(filter).as_slice(), '/');
        let ghost t = topic_parts.deep_view();
        let ghost f = filter_parts.deep_view();
        let mut i: usize = 0;
        assert(t.skip(0) == t && f.skip(0) == f);
        while i < filter_parts.len()
            invariant
                t == topic_parts.deep_view(),
                f == filter_parts.deep_view(),
                i <= f.len(),
                i <= t.len(),
                topic@ != filter@,
                t == text::split(topic@, '/'),
                f == text::split(filter@, '/'),
                levels_match(t, f) == levels_match(t.skip(i as int), f.skip(i as int)),
            decreases f.len() - i,
        {
            let part: &Vec<char> = &filter_parts[i];
            proof {
                assert(f[i as int] =~= part@);
                assert(f.skip(i as int)[0] == f[i as int]);
            }
            if part.len() == 1 && part[0] == '#' {
                assert(part@ =~= seq!['#']);
                return true;
            }
            assert(part@ != seq!['#']) by {
                if part@ == seq!['#'] {
                    assert(part@.len() == 1 && part@[0] == '#');
                }
            }
            if i >= topic_parts.len() {
                return false;
            }
            let level: &Vec<char> = &topic_parts[i];
            proof {
                assert(t[i as int] =~= level@);
                assert(t.skip(i as int)[0] == t[i as int]);
                assert(t.skip(i as int).drop_first() == t.skip(i + 1));
                assert(f.skip(i as int).drop_first() == f.skip(i + 1));
                if part@.len() == 1 && part@[0] == '+' {
                    assert(part@ =~= seq!['+']);
                } else if part@ == seq!['+'] {
                    assert(part@.len() == 1 && part@[0] == '+');
                }
            }
            if (part.len() == 1 && part[0] == '+') || text::same_chars(
                part.as_slice(),
                level.as_slice(),
            ) {
                i = i + 1;
            } else {
                return false;
            }
        }
        assert(f.skip(i as int).len() == 0);
        i == topic_parts.len()
    }

    /// The subscriptions whose filter matches the topic.
    pub fn match_topic(&self, state: &BrokerState, topic: &str) -> (r: Vec<Subscription>)
        ensures
            r.deep_view() == matching(state@.subscriptions, topic@),
    {
        let mut matched: Vec<Subscription> = Vec::new();
        let ghost subs = state@.subscriptions;
        assert(matched.deep_view() =~= matching(subs.take(0), topic@));
        let n: usize = state.subscriptions.len();
        for i in 0..n
            invariant
                n == subs.len(),
                subs == state.subscriptions@,
                matched.deep_view() == matching(subs.take(i as int), topic@),
        {
            let ghost upto = subs.take(i + 1);
            proof {
                assert(upto.drop_last() == subs.take(i as int));
                assert(upto.last() == subs[i as int]);
            }
            if Self::topic_matches(topic, state.subscriptions.key_at(i).as_str()) {
                let mut list = state::copy_subscriptions(state.subscriptions.value_at(i));
                let ghost more = list.deep_view();
                let ghost before = matched.deep_view();
                matched.append(&mut list);
                assert(matched.deep_view() =~= before + more);
            }
        }
        assert(subs.take(n as int) == subs);
        matched
    }

    /// Whether a topic matches a topic filter.
    pub fn matches_filter(topic: &str, filter: &str) -> (r: bool)
        ensures
            r == topic_matches_filter(topic@, filter@),
    {
        Self::topic_matches(topic, filter)
    }
}

// ── Laws of topic filters ────────────────────────────────────────────────

/// A filter without `#` matches the topics with as many levels, each admitted
/// by the filter's level. A filter whose first `#` is at level `hash` matches
/// the topics with at least so many levels, each of the first ones admitted.
pub proof fn law_levels(topic: Seq<Seq<char>>, filter: Seq<Seq<char>>, hash: int)
    requires
        0 <= hash <= filter.len(),
        forall|i: int| 0 <= i < hash ==> #[trigger] filter[i] != seq!['#'],
        hash < filter.len() ==> filter[hash] == seq!['#'],
    ensures
        levels_match(topic, filter) <==> {
            &&& topic.len() >= hash
            &&& hash == filter.len() ==> topic.len() == hash
            &&& forall|i: int| 0 <= i < hash ==> #[trigger] level_admits(filter[i], topic[i])
        },
    decreases hash,
{
    if hash > 0 {
        let t = topic.drop_first();
        let f = filter.drop_first();
        assert(filter[0] != seq!['#']);
        assert forall|i: int| 0 <= i < hash - 1 implies #[trigger] f[i] != seq!['#'] by {
            assert(f[i] == filter[i + 1]);
        }
        law_levels(t, f, hash - 1);
        if topic.len() > 0 {
            if levels_match(topic, filter) {
                assert forall|i: int| 0 <= i < hash implies #[trigger] level_admits(
                    filter[i],
                    topic[i],
                ) by {
                    if i > 0 {
                        assert(level_admits(f[i - 1], t[i - 1]));
                    }
                }
            } else if topic.len() >= hash && (hash == filter.len() ==> topic.len() == hash)
                && forall|i: int| 0 <= i < hash ==> #[trigger] level_admits(filter[i], topic[i]) {
                assert forall|i: int| 0 <= i < hash - 1 implies #[trigger] level_admits(
                    f[i],
                    t[i],
                ) by {
                    assert(level_admits(filter[i + 1], topic[i + 1]));
                }
                assert(level_admits(filter[0], topic[0]));
            }
        }
    }
}

/// The filter `#` matches every topic, and every topic matches itself.
pub proof fn law_match_all(topic: Seq<char>)
    ensures
        topic_matches_filter(topic, seq!['#']),
        topic_matches_filter(topic, topic),
{
    let hash: Seq<char> = seq!['#'];
    text::lemma_first_index(hash, '/');
    assert(text::first_index(hash, '/') == 1) by {
        reveal_with_fuel(text::first_index, 2);
    }
    assert(text::split(hash, '/')[0] == hash);
}

// ── Laws of subscriptions ────────────────────────────────────────────────

/// Every filter in the table has a subscriber, each subscription stands under
/// its own filter, and no client stands twice under one filter.
pub open spec fn list_inv(filter: Seq<char>, list: Seq<SubscriptionView>) -> bool {
    &&& list.len() > 0
    &&& forall|i: int| 0 <= i < list.len() ==> (#[trigger] list[i]).topic_filter == filter
    &&& one_per_client(list)
}

pub open spec fn one_per_client(list: Seq<SubscriptionView>) -> bool {
    forall|i: int, j: int|
        0 <= i < j < list.len() ==> (#[trigger] list[i]).client_id != (
        #[trigger] list[j]).client_id
}

/// What holds of the table of subscribers whatever clients did.
pub open spec fn subscriptions_inv(subs: Seq<(Seq<char>, Seq<SubscriptionView>)>) -> bool {
    &&& table::distinct(subs)
    &&& forall|i: int| 0 <= i < subs.len() ==> #[trigger] list_inv(subs[i].0, subs[i].1)
}

/// Striking a client off a list keeps the others, in order, and nothing else.
pub proof fn law_others(list: Seq<SubscriptionView>, client: Seq<char>)
    ensures
        forall|i: int|
            0 <= i < others(list, client).len() ==> (#[trigger] others(list, client)[i]).client_id
                != client && list.contains(others(list, client)[i]),
        forall|s: SubscriptionView|
            list.contains(s) && s.client_id != client ==> #[trigger] others(list, client).contains(
                s,
            ),
        one_per_client(list) ==> one_per_client(others(list, client)),
        (forall|i: int| 0 <= i < list.len() ==> (#[trigger] list[i]).client_id != client)
            ==> others(list, client) == list,
        others(list, client).len() <= list.len(),
    decreases list.len(),
{
    if list.len() > 0 {
        let front = list.drop_last();
        let last = list.last();
        let before = others(front, client);
        let after = others(list, client);
        law_others(front, client);
        assert(list == front.push(last));
        assert(list[list.len() - 1] == last);
        assert forall|i: int| 0 <= i < after.len() implies (#[trigger] after[i]).client_id != client
            && list.contains(after[i]) by {
            if i < before.len() {
                assert(after[i] == before[i]);
                let j = choose|j: int| 0 <= j < front.len() && front[j] == before[i];
                assert(list[j] == after[i]);
            }
        }
        assert forall|s: SubscriptionView|
            list.contains(s) && s.client_id != client implies #[trigger] after.contains(s) by {
            let j = choose|j: int| 0 <= j < list.len() && list[j] == s;
            if j < front.len() {
                assert(front[j] == s);
                assert(before.contains(s));
                let k = choose|k: int| 0 <= k < before.len() && before[k] == s;
                assert(after[k] == s);
            } else {
                assert(after[after.len() - 1] == s);
            }
        }
        if one_per_client(list) {
            assert(one_per_client(front)) by {
                assert forall|i: int, j: int| 0 <= i < j < front.len() implies (
                #[trigger] front[i]).client_id != (#[trigger] front[j]).client_id by {
                    assert(front[i] == list[i] && front[j] == list[j]);
                }
            }
            assert forall|i: int, j: int| 0 <= i < j < after.len() implies (
            #[trigger] after[i]).client_id != (#[trigger] after[j]).client_id by {
                assert(after[i] == before[i]);
                if j < before.len() {
                    assert(after[j] == before[j]);
                } else {
                    let k = choose|k: int| 0 <= k < front.len() && front[k] == before[i];
                    assert(list[k] == after[i]);
                    assert(list[list.len() - 1] == after[j]);
                }
            }
        }
        if forall|i: int| 0 <= i < list.len() ==> (#[trigger] list[i]).client_id != client {
            assert forall|i: int| 0 <= i < front.len() implies (#[trigger] front[i]).client_id
                != client by {
                assert(front[i] == list[i]);
            }
        }
    }
}

proof fn lemma_list_of(
    subs: Seq<(Seq<char>, Seq<SubscriptionView>)>,
    filter: Seq<char>,
)
    requires
        subscriptions_inv(subs),
    ensures
        table::lookup(subs, filter) matches Some(list) ==> list_inv(filter, list),
{
    table::lemma_lookup(subs, filter);
    if table::lookup(subs, filter) is Some {
        let list = table::lookup(subs, filter)->0;
        let i = choose|i: int| 0 <= i < subs.len() && #[trigger] subs[i] == (filter, list);
        assert(list_inv(subs[i].0, subs[i].1));
    }
}

proof fn lemma_put_inv(
    subs: Seq<(Seq<char>, Seq<SubscriptionView>)>,
    filter: Seq<char>,
    list: Seq<SubscriptionView>,
)
    requires
        subscriptions_inv(subs),
        list_inv(filter, list),
    ensures
        subscriptions_inv(table::put(subs, filter, list)),
{
    let after = table::put(subs, filter, list);
    table::law_put(subs, filter, list, filter);
    assert forall|i: int| 0 <= i < after.len() implies #[trigger] list_inv(
        after[i].0,
        after[i].1,
    ) by {
        table::lemma_lookup_entry(after, i);
        table::law_put(subs, filter, list, after[i].0);
        lemma_list_of(subs, after[i].0);
    }
}

proof fn lemma_others_inv(filter: Seq<char>, list: Seq<SubscriptionView>, client: Seq<char>)
    requires
        list_inv(filter, list),
    ensures
        others(list, client).len() > 0 ==> list_inv(filter, others(list, client)),
{
    law_others(list, client);
    let after = others(list, client);
    assert forall|i: int| 0 <= i < after.len() implies (#[trigger] after[i]).topic_filter
        == filter by {
        let j = choose|j: int| 0 <= j < list.len() && list[j] == after[i];
        assert(list[j].topic_filter == filter);
    }
}

/// Subscribing keeps the table in order. Afterwards the client has exactly the
/// new subscription under that filter, and nothing changed under any other.
pub proof fn law_add(
    subs: Seq<(Seq<char>, Seq<SubscriptionView>)>,
    s: SubscriptionView,
    other: Seq<char>,
)
    requires
        subscriptions_inv(subs),
    ensures
        subscriptions_inv(with_subscription(subs, s)),
        other != s.topic_filter ==> table::lookup(with_subscription(subs, s), other)
            == table::lookup(subs, other),
        table::lookup(with_subscription(subs, s), s.topic_filter) matches Some(list)
            && list.last() == s && one_per_client(list),
{
    let before = match table::lookup(subs, s.topic_filter) {
        Some(list) => list,
        None => Seq::empty(),
    };
    let list = others(before, s.client_id).push(s);
    lemma_list_of(subs, s.topic_filter);
    law_others(before, s.client_id);
    if table::lookup(subs, s.topic_filter) is Some {
        lemma_others_inv(s.topic_filter, before, s.client_id);
    }
    assert(list_inv(s.topic_filter, list)) by {
        let front = others(before, s.client_id);
        assert forall|i: int| 0 <= i < list.len() implies (#[trigger] list[i]).topic_filter
            == s.topic_filter by {
            if i < front.len() {
                assert(list[i] == front[i]);
            }
        }
        assert forall|i: int, j: int| 0 <= i < j < list.len() implies (
        #[trigger] list[i]).client_id != (#[trigger] list[j]).client_id by {
            assert(list[i] == front[i]);
            if j < front.len() {
                assert(list[j] == front[j]);
            }
        }
    }
    lemma_put_inv(subs, s.topic_filter, list);
    table::law_put(subs, s.topic_filter, list, other);
    table::law_put(subs, s.topic_filter, list, s.topic_filter);
}

/// Unsubscribing keeps the table in order. Afterwards the client has no
/// subscription under that filter, the others still have theirs, and nothing
/// changed under any other filter.
pub proof fn law_remove(
    subs: Seq<(Seq<char>, Seq<SubscriptionView>)>,
    client: Seq<char>,
    filter: Seq<char>,
    other: Seq<char>,
)
    requires
        subscriptions_inv(subs),
    ensures
        subscriptions_inv(without_subscription(subs, client, filter)),
        other != filter ==> table::lookup(without_subscription(subs, client, filter), other)
            == table::lookup(subs, other),
        match table::lookup(without_subscription(subs, client, filter), filter) {
            Some(list) => table::lookup(subs, filter) is Some && list == others(
                table::lookup(subs, filter)->0,
                client,
            ),
            None => table::lookup(subs, filter) matches Some(list) ==> others(list, client).len()
                == 0,
        },
{
    match table::lookup(subs, filter) {
        None => {},
        Some(list) => {
            lemma_list_of(subs, filter);
            lemma_others_inv(filter, list, client);
            let left = others(list, client);
            if left.len() == 0 {
                table::law_without(subs, filter, other);
                table::law_without(subs, filter, filter);
                let after = table::without(subs, filter);
                assert forall|i: int| 0 <= i < after.len() implies #[trigger] list_inv(
                    after[i].0,
                    after[i].1,
                ) by {
                    table::lemma_lookup_entry(after, i);
                    table::law_without(subs, filter, after[i].0);
                    lemma_list_of(subs, after[i].0);
                }
            } else {
                lemma_put_inv(subs, filter, left);
                table::law_put(subs, filter, left, other);
                table::law_put(subs, filter, left, filter);
            }
        },
    }
}

/// Unsubscribing undoes subscribing for a client that had no such subscription.
pub proof fn law_remove_undoes_add(
    subs: Seq<(Seq<char>, Seq<SubscriptionView>)>,
    s: SubscriptionView,
)
    requires
        subscriptions_inv(subs),
        table::lookup(subs, s.topic_filter) matches Some(list) ==> forall|i: int|
            0 <= i < list.len() ==> (#[trigger] list[i]).client_id != s.client_id,
    ensures
        without_subscription(with_subscription(subs, s), s.client_id, s.topic_filter) == subs,
{
    let before = match table::lookup(subs, s.topic_filter) {
        Some(list) => list,
        None => Seq::empty(),
    };
    law_others(before, s.client_id);
    let list = before.push(s);
    assert(others(list, s.client_id) == before) by {
        assert(list.drop_last() == before);
    }
    let subbed = table::put(subs, s.topic_filter, list);
    table::law_put(subs, s.topic_filter, list, s.topic_filter);
    lemma_list_of(subs, s.topic_filter);
    if table::lookup(subs, s.topic_filter) is None {
        table::law_without_put(subs, s.topic_filter, list);
    } else {
        lemma_put_put(subs, s.topic_filter, list, before);
    }
}

proof fn lemma_put_put(
    subs: Seq<(Seq<char>, Seq<SubscriptionView>)>,
    key: Seq<char>,
    a: Seq<SubscriptionView>,
    b: Seq<SubscriptionView>,
)
    requires
        table::lookup(subs, key) == Some(b),
    ensures
        table::put(table::put(subs, key, a), key, b) == subs,
    decreases subs.len(),
{
    let mid = table::put(subs, key, a);
    if subs[0].0 == key {
        assert(mid.drop_first() == subs.drop_first());
        assert(seq![(key, b)] + subs.drop_first() == subs);
    } else {
        lemma_put_put(subs.drop_first(), key, a, b);
        assert(mid.drop_first() == table::put(subs.drop_first(), key, a));
        assert(seq![subs[0]] + subs.drop_first() == subs);
    }
}

/// A message on a topic goes to exactly the subscriptions whose filter matches
/// the topic.
pub proof fn law_matching(
    subs: Seq<(Seq<char>, Seq<SubscriptionView>)>,
    topic: Seq<char>,
    s: SubscriptionView,
)
    ensures
        matching(subs, topic).contains(s) <==> exists|i: int|
            0 <= i < subs.len() && topic_matches_filter(topic, subs[i].0) && (
            #[trigger] subs[i]).1.contains(s),
    decreases subs.len(),
{
    if subs.len() > 0 {
        let front = subs.drop_last();
        let last = subs[subs.len() - 1];
        let before = matching(front, topic);
        let after = matching(subs, topic);
        law_matching(front, topic, s);
        if after.contains(s) {
            let k = choose|k: int| 0 <= k < after.len() && after[k] == s;
            if k < before.len() {
                assert(before[k] == s);
                let i = choose|i: int|
                    0 <= i < front.len() && topic_matches_filter(topic, front[i].0) && (
                    #[trigger] front[i]).1.contains(s);
                assert(subs[i] == front[i]);
            } else {
                assert(last.1[k - before.len()] == s);
                assert(subs[subs.len() - 1].1.contains(s));
            }
        }
        if exists|i: int|
            0 <= i < subs.len() && topic_matches_filter(topic, subs[i].0) && (
            #[trigger] subs[i]).1.contains(s) {
            let i = choose|i: int|
                0 <= i < subs.len() && topic_matches_filter(topic, subs[i].0) && (
                #[trigger] subs[i]).1.contains(s);
            if i < front.len() {
                assert(front[i] == subs[i]);
                let k = choose|k: int| 0 <= k < before.len() && before[k] == s;
                assert(after[k] == s);
            } else {
                let k = choose|k: int| 0 <= k < last.1.len() && last.1[k] == s;
                assert(after[before.len() + k] == s);
            }
        }
    }
}

proof fn lemma_others_concat(
    a: Seq<SubscriptionView>,
    b: Seq<SubscriptionView>,
    client: Seq<char>,
)
    ensures
        others(a + b, client) == others(a, client) + others(b, client),
    decreases b.len(),
{
    if b.len() == 0 {
        assert(a + b == a);
        assert(others(a, client) + others(b, client) == others(a, client));
    } else {
        lemma_others_concat(a, b.drop_last(), client);
        assert((a + b).drop_last() == a + b.drop_last());
        if b.last().client_id != client {
            assert((others(a, client) + others(b.drop_last(), client)).push(b.last())
                == others(a, client) + others(b.drop_last(), client).push(b.last()));
        }
    }
}

/// Once a client gave up all its filters no message goes to it, and the other
/// clients get what they got before.
pub proof fn law_remove_client(
    subs: Seq<(Seq<char>, Seq<SubscriptionView>)>,
    client: Seq<char>,
    topic: Seq<char>,
)
    ensures
        matching(without_client(subs, client), topic) == others(matching(subs, topic), client),
    decreases subs.len(),
{
    if subs.len() > 0 {
        let front = subs.drop_last();
        let last = subs.last();
        law_remove_client(front, client, topic);
        lemma_others_concat(matching(front, topic), last.1, client);
        let kept = without_client(front, client);
        let left = others(last.1, client);
        let after = kept.push((last.0, left));
        assert(after.drop_last() == kept);
        assert(matching(kept, topic) + Seq::<SubscriptionView>::empty() == matching(kept, topic));
        if left.len() == 0 {
            assert(left == Seq::<SubscriptionView>::empty());
        }
    }
}

/// Giving up all filters keeps the table in order and leaves no subscription of
/// the client.
pub proof fn law_remove_client_inv(
    subs: Seq<(Seq<char>, Seq<SubscriptionView>)>,
    client: Seq<char>,
)
    requires
        subscriptions_inv(subs),
    ensures
        subscriptions_inv(without_client(subs, client)),
        forall|i: int, j: int|
            0 <= i < without_client(subs, client).len() && 0 <= j < without_client(
                subs,
                client,
            )[i].1.len() ==> (#[trigger] without_client(subs, client)[i].1[j]).client_id != client,
    decreases subs.len(),
{
    if subs.len() > 0 {
        let front = subs.drop_last();
        let last = subs[subs.len() - 1];
        assert(subscriptions_inv(front)) by {
            assert forall|i: int, j: int| 0 <= i < j < front.len() implies (
            #[trigger] front[i]).0 != (#[trigger] front[j]).0 by {
                assert(front[i] == subs[i] && front[j] == subs[j]);
            }
            assert forall|i: int| 0 <= i < front.len() implies #[trigger] list_inv(
                front[i].0,
                front[i].1,
            ) by {
                assert(list_inv(subs[i].0, subs[i].1));
            }
        }
        law_remove_client_inv(front, client);
        assert(list_inv(subs[subs.len() - 1].0, subs[subs.len() - 1].1));
        lemma_others_inv(last.0, last.1, client);
        law_others(last.1, client);
        let kept = without_client(front, client);
        let after = without_client(subs, client);
        let left = others(last.1, client);
        assert forall|j: int| 0 <= j < front.len() implies (#[trigger] front[j]).0 != last.0 by {
            assert(front[j] == subs[j]);
        }
        lemma_kept_keys(front, client, last.0);
        if left.len() > 0 {
            assert(after == kept.push((last.0, left)));
            assert forall|i: int| 0 <= i < after.len() implies #[trigger] list_inv(
                after[i].0,
                after[i].1,
            ) by {
                if i < kept.len() {
                    assert(list_inv(kept[i].0, kept[i].1));
                }
            }
            assert forall|i: int, j: int| 0 <= i < j < after.len() implies (
            #[trigger] after[i]).0 != (#[trigger] after[j]).0 by {
                assert(after[i] == kept[i]);
                if j < kept.len() {
                    assert(after[j] == kept[j]);
                }
            }
            assert forall|i: int, j: int|
                0 <= i < after.len() && 0 <= j < after[i].1.len() implies (
            #[trigger] after[i].1[j]).client_id != client by {
                if i < kept.len() {
                    assert(after[i] == kept[i]);
                    assert(kept[i].1[j].client_id != client);
                }
            }
        }
    }
}

} // verus!
