//! What the broker keeps for a client beyond its connection.

use crate::state::{
    BrokerState, MessageView, PublishPacket, QoS, SessionState, SessionView, StateView,
    Subscription, SubscriptionView, WillMessage, WillMessageView,
};
use crate::table;
use crate::text;
use vstd::prelude::*;
use vstd::string::*;

verus! {

/// A session in which nothing happened yet.
pub open spec fn fresh_session(client: Seq<char>, will: Option<WillMessageView>) -> SessionView {
    SessionView {
        client_id: client,
        subscriptions: Seq::empty(),
        pending_messages: Seq::empty(),
        will_message: will,
    }
}

/// The sessions after a client connected: a clean start drops what was kept for
/// it, and a session that is still there is kept as it is.
pub open spec fn with_session(
    sessions: Seq<(Seq<char>, SessionView)>,
    client: Seq<char>,
    clean: bool,
    will: Option<WillMessageView>,
) -> Seq<(Seq<char>, SessionView)> {
    let kept = if clean {
        table::without(sessions, client)
    } else {
        sessions
    };
    if table::lookup(kept, client) is Some {
        kept
    } else {
        table::put(kept, client, fresh_session(client, will))
    }
}

/// The subscriptions in `list` with a filter other than `filter`.
pub open spec fn other_filters(list: Seq<SubscriptionView>, filter: Seq<char>) -> Seq<
    SubscriptionView,
>
    decreases list.len(),
{
    if list.len() == 0 {
        list
    } else if list.last().topic_filter == filter {
        other_filters(list.drop_last(), filter)
    } else {
        other_filters(list.drop_last(), filter).push(list.last())
    }
}

/// The sessions after `change` was made to the client's session, if it has one.
pub open spec fn with_change(
    sessions: Seq<(Seq<char>, SessionView)>,
    client: Seq<char>,
    change: spec_fn(SessionView) -> SessionView,
) -> Seq<(Seq<char>, SessionView)> {
    match table::lookup(sessions, client) {
        Some(session) => table::put(sessions, client, change(session)),
        None => sessions,
    }
}

/// A session after its client subscribed to a filter.
pub open spec fn subscribed(
    session: SessionView,
    client: Seq<char>,
    filter: Seq<char>,
    qos: QoS,
) -> SessionView {
    SessionView {
        subscriptions: other_filters(session.subscriptions, filter).push(
            SubscriptionView {
                client_id: client,
                topic_filter: filter,
                qos,
                no_local: false,
                retain_as_published: false,
                retain_handling: 0,
            },
        ),
        ..session
    }
}

/// A session after its client gave up a filter.
pub open spec fn unsubscribed(session: SessionView, filter: Seq<char>) -> SessionView {
    SessionView { subscriptions: other_filters(session.subscriptions, filter), ..session }
}

/// A session after a message for its client came in.
pub open spec fn enqueued(session: SessionView, message: MessageView) -> SessionView {
    SessionView { pending_messages: session.pending_messages.push(message), ..session }
}

/// A session after its messages were handed out.
pub open spec fn drained(session: SessionView) -> SessionView {
    SessionView { pending_messages: Seq::empty(), ..session }
}

/// Strikes a filter off a list of subscriptions.
fn strike_filter(list: &mut Vec<Subscription>, filter: &str)
    ensures
        final(list).deep_view() == other_filters(old(list).deep_view(), filter@),
{
    let mut kept: Vec<Subscription> = Vec::new();
    assert(kept.deep_view() =~= other_filters(list.deep_view().take(0), filter@));
    for i in 0..list.len()
        invariant
            kept.deep_view() == other_filters(list.deep_view().take(i as int), filter@),
    {
        let ghost upto = list.deep_view().take(i + 1);
        let ghost before = kept.deep_view();
        proof {
            assert(upto.drop_last() == list.deep_view().take(i as int));
            assert(upto.last() == list@[i as int]@);
        }
        if !text::same_text(list[i].topic_filter.as_str(), filter) {
            let copy = list[i].clone();
            kept.push(copy);
            assert(kept.deep_view() =~= before.push(upto.last()));
        }
    }
    assert(list.deep_view().take(list@.len() as int) == list.deep_view());
    *list = kept;
}

/// The sessions of the broker.
pub struct SessionManager;

impl SessionManager {
    pub fn new() -> (r: Self)
        ensures
            r == SessionManager,
    {
        SessionManager
    }

    /// Makes sure that a client has a session, a new one after a clean start.
    pub fn create_session(
        &self,
        state: &mut BrokerState,
        client_id: &str,
        clean_session: bool,
        will: Option<WillMessage>,
    )
        requires
            old(state).wf(),
        ensures
            final(state).wf(),
            final(state)@ == (StateView {
                sessions: with_session(
                    old(state)@.sessions,
                    client_id@,
                    clean_session,
                    will.deep_view(),
                ),
                ..old(state)@
            }),
    {
        if clean_session {
            let _ = state.session_store.remove(client_id);
        }
        if state.session_store.get(client_id).is_none() {
            let session = SessionState {
                client_id: client_id.to_owned(),
                subscriptions: Vec::new(),
                pending_messages: Vec::new(),
                will_message: will,
            };
            proof {
                assert(session@.subscriptions =~= Seq::<SubscriptionView>::empty());
                assert(session@.pending_messages =~= Seq::<MessageView>::empty());
            }
            state.session_store.insert(client_id.to_owned(), session);
        }
    }

    /// A copy of the client's session.
    pub fn get_session(&self, state: &BrokerState, client_id: &str) -> (r: Option<SessionState>)
        ensures
            match r {
                Some(session) => table::lookup(state@.sessions, client_id@) == Some(session@),
                None => table::lookup(state@.sessions, client_id@) is None,
            },
    {
        match state.session_store.get(client_id) {
            Some(session) => Some(session.clone()),
            None => None,
        }
    }

    /// Notes in the client's session that it subscribed to a filter.
    pub fn add_subscription(
        &self,
        state: &mut BrokerState,
        client_id: &str,
        topic_filter: String,
        qos: QoS,
    )
        requires
            old(state).wf(),
        ensures
            final(state).wf(),
            final(state)@ == (StateView {
                sessions: with_change(
                    old(state)@.sessions,
                    client_id@,
                    |s: SessionView| subscribed(s, client_id@, topic_filter@, qos),
                ),
                ..old(state)@
            }),
    {
        match state.session_store.get_mut(client_id) {
            Some(session) => {
                strike_filter(&mut session.subscriptions, topic_filter.as_str());
                let ghost before = session.subscriptions.deep_view();
                let s = Subscription {
                    client_id: client_id.to_owned(),
                    topic_filter,
                    qos,
                    no_local: false,
                    retain_as_published: false,
                    retain_handling: 0,
                };
                session.subscriptions.push(s);
                assert(session.subscriptions.deep_view() =~= before.push(s@));
            },
            None => {},
        }
    }

    /// Notes in the client's session that it gave up a filter.
    pub fn remove_subscription(&self, state: &mut BrokerState, client_id: &str, topic_filter: &str)
        requires
            old(state).wf(),
        ensures
            final(state).wf(),
            final(state)@ == (StateView {
                sessions: with_change(
                    old(state)@.sessions,
                    client_id@,
                    |s: SessionView| unsubscribed(s, topic_filter@),
                ),
                ..old(state)@
            }),
    {
        match state.session_store.get_mut(client_id) {
            Some(session) => {
                strike_filter(&mut session.subscriptions, topic_filter);
            },
            None => {},
        }
    }

    /// Adds a message to those that wait for the client.
    pub fn enqueue_pending(&self, state: &mut BrokerState, client_id: &str, packet: PublishPacket)
        requires
            old(state).wf(),
        ensures
            final(state).wf(),
            final(state)@ == (StateView {
                sessions: with_change(
                    old(state)@.sessions,
                    client_id@,
                    |s: SessionView| enqueued(s, packet@),
                ),
                ..old(state)@
            }),
    {
        match state.session_store.get_mut(client_id) {
            Some(session) => {
                let ghost before = session.pending_messages.deep_view();
                session.pending_messages.push(packet);
                assert(session.pending_messages.deep_view() =~= before.push(packet@));
            },
            None => {},
        }
    }

    /// Hands out the messages that wait for the client.
    pub fn drain_pending(&self, state: &mut BrokerState, client_id: &str) -> (r: Vec<PublishPacket>)
        requires
            old(state).wf(),
        ensures
            final(state).wf(),
            final(state)@ == (StateView {
                sessions: with_change(
                    old(state)@.sessions,
                    client_id@,
                    |s: SessionView| drained(s),
                ),
                ..old(state)@
            }),
            r.deep_view() == match table::lookup(old(state)@.sessions, client_id@) {
                Some(session) => session.pending_messages,
                None => Seq::empty(),
            },
    {
        let mut messages: Vec<PublishPacket> = Vec::new();
        assert(messages.deep_view() =~= Seq::<MessageView>::empty());
        match state.session_store.get_mut(client_id) {
            Some(session) => {
                core::mem::swap(&mut messages, &mut session.pending_messages);
            },
            None => {},
        }
        messages
    }

    /// Drops the client's session.
    pub fn delete_session(&self, state: &mut BrokerState, client_id: &str) -> (r: Option<
        SessionState,
    >)
        requires
            old(state).wf(),
        ensures
            final(state).wf(),
            final(state)@ == (StateView {
                sessions: table::without(old(state)@.sessions, client_id@),
                ..old(state)@
            }),
            match r {
                Some(session) => table::lookup(old(state)@.sessions, client_id@) == Some(session@),
                None => table::lookup(old(state)@.sessions, client_id@) is None,
            },
    {
        state.session_store.remove(client_id)
    }
}

// ── Laws ─────────────────────────────────────────────────────────────────

/// After a client connected it has a session. After a clean start that session
/// is new; otherwise one that was there is kept. Nobody else's session changes.
pub proof fn law_create_session(
    sessions: Seq<(Seq<char>, SessionView)>,
    client: Seq<char>,
    clean: bool,
    will: Option<WillMessageView>,
    other: Seq<char>,
)
    requires
        table::distinct(sessions),
    ensures
        table::distinct(with_session(sessions, client, clean, will)),
        table::lookup(with_session(sessions, client, clean, will), client) == Some(
            if !clean && table::lookup(sessions, client) is Some {
                table::lookup(sessions, client)->0
            } else {
                fresh_session(client, will)
            },
        ),
        other != client ==> table::lookup(with_session(sessions, client, clean, will), other)
            == table::lookup(sessions, other),
{
    table::law_without(sessions, client, client);
    table::law_without(sessions, client, other);
    let kept = if clean {
        table::without(sessions, client)
    } else {
        sessions
    };
    table::law_put(kept, client, fresh_session(client, will), client);
    table::law_put(kept, client, fresh_session(client, will), other);
}

/// A change to one client's session is seen there and nowhere else, and creates
/// no session.
pub proof fn law_change(
    sessions: Seq<(Seq<char>, SessionView)>,
    client: Seq<char>,
    change: spec_fn(SessionView) -> SessionView,
    other: Seq<char>,
)
    ensures
        table::distinct(sessions) ==> table::distinct(with_change(sessions, client, change)),
        table::lookup(with_change(sessions, client, change), other) == match table::lookup(
            sessions,
            other,
        ) {
            Some(session) => Some(
                if other == client {
                    change(session)
                } else {
                    session
                },
            ),
            None => None,
        },
{
    match table::lookup(sessions, client) {
        Some(session) => table::law_put(sessions, client, change(session), other),
        None => {},
    }
}

/// A message that was queued for a client with a session is the last of those
/// that are handed out, after which none waits.
pub proof fn law_enqueue_drain(
    sessions: Seq<(Seq<char>, SessionView)>,
    client: Seq<char>,
    message: MessageView,
)
    requires
        table::lookup(sessions, client) is Some,
    ensures
        ({
            let queued = with_change(sessions, client, |s: SessionView| enqueued(s, message));
            let handed_out = (table::lookup(queued, client)->0).pending_messages;
            let after = with_change(queued, client, |s: SessionView| drained(s));
            &&& handed_out == (table::lookup(sessions, client)->0).pending_messages.push(message)
            &&& (table::lookup(after, client)->0).pending_messages.len() == 0
        }),
{
    let enqueue = |s: SessionView| enqueued(s, message);
    let drain = |s: SessionView| drained(s);
    law_change(sessions, client, enqueue, client);
    law_change(with_change(sessions, client, enqueue), client, drain, client);
}

/// Striking a filter off a session's list keeps the subscriptions with another
/// filter, and nothing else.
pub proof fn law_other_filters(list: Seq<SubscriptionView>, filter: Seq<char>)
    ensures
        forall|i: int|
            0 <= i < other_filters(list, filter).len() ==> (#[trigger] other_filters(
                list,
                filter,
            )[i]).topic_filter != filter && list.contains(other_filters(list, filter)[i]),
        forall|s: SubscriptionView|
            list.contains(s) && s.topic_filter != filter ==> #[trigger] other_filters(
                list,
                filter,
            ).contains(s),
    decreases list.len(),
{
    if list.len() > 0 {
        let front = list.drop_last();
        let before = other_filters(front, filter);
        let after = other_filters(list, filter);
        law_other_filters(front, filter);
        assert(list[list.len() - 1] == list.last());
        assert forall|i: int| 0 <= i < after.len() implies (#[trigger] after[i]).topic_filter
            != filter && list.contains(after[i]) by {
            if i < before.len() {
                assert(after[i] == before[i]);
                let j = choose|j: int| 0 <= j < front.len() && front[j] == before[i];
                assert(list[j] == after[i]);
            }
        }
        assert forall|s: SubscriptionView|
            list.contains(s) && s.topic_filter != filter implies #[trigger] after.contains(s) by {
            let j = choose|j: int| 0 <= j < list.len() && list[j] == s;
            if j < front.len() {
                assert(front[j] == s);
                assert(before.contains(s));
                let k = choose|k: int| 0 <= k < before.len() && before[k] == s;
                assert(after[k] == s);
            } else {
                assert(after[after.len() - 1] == s);
            }
        }
    }
}

} // verus!
