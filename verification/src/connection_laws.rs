//! What a client may rely on from one packet to the next: how it is let in or
//! refused, what each of its packets does, and what is left of it once it is gone.

use crate::broker_laws;
use crate::connection;
use crate::connection::{ActionView, ConnectionView, EventView, PhaseView};
use crate::packet;
use crate::packet::{
    AckView, ConnectView, DecodeView, PacketView, PublishView, SubscribeView, UnsubscribeView,
};
use crate::properties;
use crate::properties::{PropertiesView, ValueView};
use crate::session;
use crate::state::{
    ClientView, MessageView, MqttProtocol, QoS, SessionView, StateView, SubscriptionView,
    WillMessageView,
};
use crate::subscription;
use crate::table;
use crate::wire;
use vstd::prelude::*;

verus! {

/// The bytes that a connection has at hand when something happens.
pub open spec fn at_hand(c: ConnectionView, event: EventView) -> Seq<u8> {
    match event {
        EventView::Received(bytes) => c.buffer + bytes,
        _ => c.buffer,
    }
}

/// Whether a client that was let in is served the packet `p` of `n` bytes.
pub open spec fn serves(c: ConnectionView, event: EventView, p: PacketView, n: nat) -> bool {
    &&& c.phase is Running
    &&& event is Received || event is Sent
    &&& packet::packet_as(
        at_hand(c, event),
        if c.phase->is_v5 {
            5
        } else {
            4
        },
    ) == DecodeView::Done(p, n)
}

/// Whether a connection goes on behind the bytes that were read as a packet.
pub open spec fn goes_on(
    c: ConnectionView,
    event: EventView,
    n: nat,
    after: ConnectionView,
) -> bool {
    &&& after.addr == c.addr
    &&& after.phase == c.phase
    &&& after.buffer == at_hand(c, event).skip(n as int)
}

/// The guarantee that a number stands for.
pub open spec fn guarantee(n: u8) -> QoS {
    if n == 0 {
        QoS::AtMostOnce
    } else if n == 1 {
        QoS::AtLeastOnce
    } else {
        QoS::ExactlyOnce
    }
}

// ── Messages ─────────────────────────────────────────────────────────────

/// A message is what its packet carries: the topic, the payload, the guarantee, the
/// retain flag, the pairs of the user, and of the other properties those that
/// concern the message.
pub proof fn law_message_is_carried(p: PublishView, text: Seq<char>, bytes: Seq<u8>, n: u32, k: u16, b: u8)
    ensures
        ({
            let m = connection::message_of(p);
            let fields = p.properties.fields;
            &&& m.topic == p.topic && m.payload == p.payload
            &&& m.qos == guarantee(p.qos) && m.retain == p.retain
            &&& m.user_properties == p.properties.user
            &&& m.payload_format_indicator == Some(b) <==> fields.contains_pair(
                1,
                ValueView::Byte(b),
            )
            &&& m.message_expiry_interval == Some(n) <==> fields.contains_pair(
                2,
                ValueView::Four(n),
            )
            &&& m.content_type == Some(text) <==> fields.contains_pair(3, ValueView::Text(text))
            &&& m.response_topic == Some(text) <==> fields.contains_pair(8, ValueView::Text(text))
            &&& m.correlation_data == Some(bytes) <==> fields.contains_pair(
                9,
                ValueView::Binary(bytes),
            )
            &&& m.topic_alias == Some(k) <==> fields.contains_pair(35, ValueView::Two(k))
        }),
{
}

/// A client that publishes has its message queued for every client with a session,
/// once for each subscription whose filter matches, and changes nothing else. It
/// gets an acknowledgement with the identifier of the packet exactly where it asked
/// for delivery at least once.
pub proof fn law_publish_is_served(
    c: ConnectionView,
    s: StateView,
    event: EventView,
    p: PublishView,
    n: nat,
    client: Seq<char>,
)
    requires
        serves(c, event, PacketView::Publish(p), n),
    ensures
        ({
            let (c2, s2, action) = connection::step(c, s, event);
            let copies = broker_laws::matching_subscriptions(
                s.subscriptions,
                p.topic,
                client,
            ).len();
            &&& goes_on(c, event, n, c2)
            &&& s2.clients == s.clients && s2.subscriptions == s.subscriptions
            &&& table::lookup(s2.sessions, client) == match table::lookup(s.sessions, client) {
                Some(x) => Some(
                    broker_laws::with_copies(x, copies, connection::message_of(p)),
                ),
                None => None,
            }
            &&& action == ActionView::Send(
                match p.packet_id {
                    Some(id) => if p.qos != 1 {
                        Seq::empty()
                    } else if c.phase->is_v5 {
                        seq![0x40, 4, (id / 256) as u8, (id % 256) as u8, 0, 0]
                    } else {
                        seq![0x40, 2, (id / 256) as u8, (id % 256) as u8]
                    },
                    None => Seq::empty(),
                },
            )
        }),
{
    broker_laws::law_message_reaches_all(s, connection::message_of(p), client);
    if p.packet_id is Some && p.qos == 1 {
        let id = p.packet_id->0;
        let reply = connection::publish_reply(p, c.phase->is_v5);
        let body = wire::u16_wire(id) + if c.phase->is_v5 {
            seq![0u8, 0u8]
        } else {
            Seq::empty()
        };
        assert(body.len() < 128);
        assert(wire::varint_wire(body.len()) == seq![body.len() as u8]);
        if c.phase->is_v5 {
            assert(reply =~= seq![0x40, 4, (id / 256) as u8, (id % 256) as u8, 0, 0]);
        } else {
            assert(reply =~= seq![0x40, 2, (id / 256) as u8, (id % 256) as u8]);
        }
    }
}

// ── Subscriptions ────────────────────────────────────────────────────────

/// A client that subscribes has exactly one subscription under every filter it
/// named, as it last asked for it; what others have there is kept. Its session
/// lists the filter. It gets an acknowledgement that its version reads back, with
/// the identifier of the packet and what each filter was granted, in order.
pub proof fn law_subscribe_is_served(
    c: ConnectionView,
    s: StateView,
    event: EventView,
    p: SubscribeView,
    n: nat,
    k: int,
    rest: Seq<u8>,
)
    requires
        serves(c, event, PacketView::Subscribe(p), n),
        0 <= k < p.topic_filters.len(),
        forall|j: int|
            k < j < p.topic_filters.len() ==> (#[trigger] p.topic_filters[j]).0
                != p.topic_filters[k].0,
        3 + p.topic_filters.len() < connection::framed_limit(),
    ensures
        ({
            let (c2, s2, action) = connection::step(c, s, event);
            let client = c.phase->Running_client_id;
            let filter = p.topic_filters[k].0;
            let sub = broker_laws::asked_for(client, filter, p.topic_filters[k].1);
            &&& goes_on(c, event, n, c2)
            &&& broker_laws::under(s2.subscriptions, filter).filter(broker_laws::of_client(client))
                == seq![sub]
            &&& broker_laws::under(s2.subscriptions, filter).filter(broker_laws::of_others(client))
                == broker_laws::under(s.subscriptions, filter).filter(
                broker_laws::of_others(client),
            )
            &&& table::lookup(s.sessions, client) is Some ==> (table::lookup(
                s2.sessions,
                client,
            ) matches Some(y) && y.subscriptions.filter(broker_laws::with_filter(filter)) == seq![
                SubscriptionView {
                    no_local: false,
                    retain_as_published: false,
                    retain_handling: 0,
                    ..sub
                },
            ])
            &&& action matches ActionView::Send(reply) && packet::packet_as(
                reply + rest,
                if c.phase->is_v5 {
                    5
                } else {
                    4
                },
            ) == DecodeView::Done(
                PacketView::Suback(
                    AckView {
                        packet_id: p.packet_id,
                        properties: PropertiesView::empty(),
                        reason_codes: Seq::new(
                            p.topic_filters.len(),
                            |i: int| p.topic_filters[i].1.qos,
                        ),
                    },
                ),
                reply.len(),
            )
        }),
{
    let client = c.phase->Running_client_id;
    broker_laws::law_subscribe_registers(s, client, p.topic_filters, k);
    let granted = Seq::new(p.topic_filters.len(), |i: int| p.topic_filters[i].1.qos);
    properties::lemma_empty_properties();
    if c.phase->is_v5 {
        packet::law_suback_round_trip(
            AckView {
                packet_id: p.packet_id,
                properties: PropertiesView::empty(),
                reason_codes: granted,
            },
            rest,
        );
    } else {
        packet::law_suback_v3_round_trip(p.packet_id, granted, rest);
    }
}

/// A client that subscribes changes nothing under filters that it did not name, in
/// anybody else's session, or in the list of clients.
pub proof fn law_subscribe_spares_the_rest(
    c: ConnectionView,
    s: StateView,
    event: EventView,
    p: SubscribeView,
    n: nat,
    filter: Seq<char>,
    other: Seq<char>,
)
    requires
        serves(c, event, PacketView::Subscribe(p), n),
        other != c.phase->Running_client_id,
    ensures
        ({
            let (c2, s2, action) = connection::step(c, s, event);
            &&& s2.clients == s.clients
            &&& table::lookup(s2.sessions, other) == table::lookup(s.sessions, other)
            &&& (forall|j: int|
                0 <= j < p.topic_filters.len() ==> (#[trigger] p.topic_filters[j]).0 != filter)
                ==> table::lookup(s2.subscriptions, filter) == table::lookup(
                s.subscriptions,
                filter,
            )
        }),
{
    broker_laws::law_subscribe_leaves_the_rest(
        s,
        c.phase->Running_client_id,
        p.topic_filters,
        filter,
        other,
    );
}

/// A client that gives up filters has no subscription under them any more, while
/// what others have there and all other filters are as before. It gets an
/// acknowledgement with the identifier of the packet, in version 5 with a success
/// for each filter.
pub proof fn law_unsubscribe_is_served(
    c: ConnectionView,
    s: StateView,
    event: EventView,
    p: UnsubscribeView,
    n: nat,
    filter: Seq<char>,
    other: Seq<char>,
)
    requires
        s.wf(),
        serves(c, event, PacketView::Unsubscribe(p), n),
        other != c.phase->Running_client_id,
    ensures
        ({
            let (c2, s2, action) = connection::step(c, s, event);
            let client = c.phase->Running_client_id;
            let before = broker_laws::under(s.subscriptions, filter);
            let id = seq![(p.packet_id / 256) as u8, (p.packet_id % 256) as u8];
            &&& goes_on(c, event, n, c2)
            &&& s2.clients == s.clients
            &&& broker_laws::under(s2.subscriptions, filter) == if p.topic_filters.contains(
                filter,
            ) {
                before.filter(broker_laws::of_others(client))
            } else {
                before
            }
            &&& table::lookup(s2.sessions, other) == table::lookup(s.sessions, other)
            &&& table::lookup(s.sessions, client) is Some && p.topic_filters.contains(filter) ==> (
            table::lookup(s2.sessions, client) matches Some(y) && y.subscriptions.filter(
                broker_laws::with_filter(filter),
            ) == Seq::<SubscriptionView>::empty())
            &&& action == ActionView::Send(
                packet::frame(
                    0xB0,
                    if c.phase->is_v5 {
                        id + seq![0u8] + Seq::new(p.topic_filters.len(), |i: int| 0u8)
                    } else {
                        id
                    },
                ),
            )
        }),
{
    broker_laws::law_unsubscribe_removes(
        s,
        c.phase->Running_client_id,
        p.topic_filters,
        filter,
        other,
    );
    properties::lemma_empty_properties();
}

/// A client that asks for a sign of life gets one, and changes nothing.
pub proof fn law_ping_is_served(c: ConnectionView, s: StateView, event: EventView, n: nat)
    requires
        serves(c, event, PacketView::Pingreq, n),
    ensures
        ({
            let (c2, s2, action) = connection::step(c, s, event);
            &&& goes_on(c, event, n, c2)
            &&& s2 == s
            &&& action == ActionView::Send(seq![0xD0, 0x00])
        }),
{
}

// ── Being let in ─────────────────────────────────────────────────────────

/// The text that bytes spell, where they spell one.
pub open spec fn as_text(bytes: Option<Seq<u8>>) -> Seq<char> {
    if bytes is Some && vstd::utf8::valid_utf8(bytes->0) {
        vstd::utf8::decode_utf8(bytes->0)
    } else {
        Seq::empty()
    }
}

/// A client that greets with an identifier is judged by exactly the name and the
/// password in its packet; one without an identifier is sent away. Nothing changes
/// in the broker before that.
pub proof fn law_greeting_is_judged(
    c: ConnectionView,
    s: StateView,
    bytes: Seq<u8>,
    p: ConnectView,
    n: nat,
)
    requires
        c.phase is Greeting,
        packet::packet_as(c.buffer + bytes, 5) == DecodeView::Done(PacketView::Connect(p), n),
    ensures
        ({
            let (c2, s2, action) = connection::step(c, s, EventView::Received(bytes));
            &&& s2 == s
            &&& c2.addr == c.addr
            &&& c2.buffer == (c.buffer + bytes).skip(n as int)
            &&& if p.client_id.len() > 0 {
                &&& c2.phase == PhaseView::Authenticating(p)
                &&& action == ActionView::Authenticate(
                    match p.username {
                        Some(name) => name,
                        None => Seq::empty(),
                    },
                    as_text(p.password),
                )
            } else {
                c2.phase is Closed && action is SendAndClose
            }
        }),
{
}

/// What greets and is no CONNECT packet is refused; what is none yet is waited for,
/// up to a limit.
pub proof fn law_greeting_must_be_connect(
    c: ConnectionView,
    s: StateView,
    bytes: Seq<u8>,
    p: PacketView,
    n: nat,
)
    requires
        c.phase is Greeting,
    ensures
        ({
            let (c2, s2, action) = connection::step(c, s, EventView::Received(bytes));
            let at = packet::packet_as(c.buffer + bytes, 5);
            &&& at == DecodeView::Done(p, n) && !(p is Connect) ==> c2.phase is Closed && action
                == ActionView::SendAndClose(seq![0x20, 2, 0, 1])
            &&& at is Malformed || at is Unsupported ==> c2.phase is Closed && action
                == ActionView::SendAndClose(seq![0x20, 2, 0, 1])
            &&& at is Insufficient && (c.buffer + bytes).len() <= 65536 ==> c2.phase is Greeting
                && c2.buffer == c.buffer + bytes && action == ActionView::Read(None)
            &&& at is Insufficient && (c.buffer + bytes).len() > 65536 ==> c2.phase is Closed
                && action == ActionView::Close
        }),
{
}

/// The will as a client asked for it.
pub open spec fn will_asked_for(p: ConnectView) -> Option<WillMessageView> {
    match p.will {
        Some(w) => Some(
            WillMessageView {
                topic: w.topic,
                payload: w.payload,
                qos: guarantee(w.qos),
                retain: w.retain,
            },
        ),
        None => None,
    }
}

/// A client that is let in is listed as it greeted, with its address and the time.
/// After a clean start, or where there was none, its session is new and holds its
/// will; else the session is the one that was kept. Nobody else is touched. It is
/// told that it is let in, and served from then on.
pub proof fn law_client_is_let_in(
    c: ConnectionView,
    s: StateView,
    p: ConnectView,
    now: u64,
    other: Seq<char>,
)
    requires
        s.wf(),
        c.phase == PhaseView::Authenticating(p),
        other != p.client_id,
    ensures
        ({
            let (c2, s2, action) = connection::step(
                c,
                s,
                EventView::Judged { allowed: true, now },
            );
            &&& c2.addr == c.addr && c2.buffer == c.buffer
            &&& c2.phase == (PhaseView::Running {
                client_id: p.client_id,
                is_v5: p.protocol_version == 5,
                keep_alive: p.keep_alive,
            })
            &&& s2.subscriptions == s.subscriptions
            &&& table::lookup(s2.clients, p.client_id) == Some(
                ClientView {
                    client_id: p.client_id,
                    addr: c.addr,
                    protocol_version: if p.protocol_version == 5 {
                        MqttProtocol::V500
                    } else {
                        MqttProtocol::V311
                    },
                    connected_at: now,
                    clean_session: p.clean_start,
                    keep_alive: p.keep_alive,
                    username: p.username,
                },
            )
            &&& table::lookup(s2.sessions, p.client_id) == if !p.clean_start && table::lookup(
                s.sessions,
                p.client_id,
            ) is Some {
                table::lookup(s.sessions, p.client_id)
            } else {
                Some(
                    SessionView {
                        client_id: p.client_id,
                        subscriptions: Seq::empty(),
                        pending_messages: Seq::empty(),
                        will_message: will_asked_for(p),
                    },
                )
            }
            &&& table::lookup(s2.clients, other) == table::lookup(s.clients, other)
            &&& table::lookup(s2.sessions, other) == table::lookup(s.sessions, other)
            &&& action == ActionView::Send(
                if p.protocol_version == 5 {
                    seq![0x20, 3, 0, 0, 0]
                } else {
                    seq![0x20, 2, 0, 0]
                },
            )
        }),
{
    connection::law_connected(s, p, c.addr, now, other);
    session::law_create_session(
        s.sessions,
        p.client_id,
        p.clean_start,
        connection::kept_will(p.will),
        other,
    );
    properties::lemma_empty_properties();
    let reply = connection::connack_reply(p.protocol_version == 5, 0, 0, Seq::empty());
    if p.protocol_version == 5 {
        assert(wire::varint_wire(3) == seq![3u8]);
        assert(reply =~= seq![0x20, 3, 0, 0, 0]);
    }
}

/// A client that is not let in leaves no trace, is told so in the terms of its
/// version, and the connection ends.
pub proof fn law_client_is_refused(c: ConnectionView, s: StateView, p: ConnectView, now: u64)
    requires
        c.phase == PhaseView::Authenticating(p),
    ensures
        ({
            let (c2, s2, action) = connection::step(
                c,
                s,
                EventView::Judged { allowed: false, now },
            );
            &&& s2 == s
            &&& c2.phase is Closed
            &&& action matches ActionView::SendAndClose(reply) && reply.len() >= 4 && reply[0]
                == 0x20 && reply[3] == if p.protocol_version == 5 {
                0x87u8
            } else {
                5u8
            }
        }),
{
    reveal_strlit("not authorized");
    connection::lemma_code_of_reply(
        p.protocol_version == 5,
        connection::RC_NOT_AUTHORIZED,
        connection::V3_NOT_AUTHORIZED,
        "not authorized"@,
    );
}

// ── Being gone ───────────────────────────────────────────────────────────

/// A client may be silent for one and a half times the interval that it asked for,
/// and for two minutes where it asked for none.
pub proof fn law_silence_is_limited(c: ConnectionView, s: StateView, event: EventView)
    requires
        c.phase is Running,
        event is Received || event is Sent,
        packet::packet_as(
            at_hand(c, event),
            if c.phase->is_v5 {
                5
            } else {
                4
            },
        ) is Insufficient,
    ensures
        ({
            let (c2, s2, action) = connection::step(c, s, event);
            let asked = c.phase->keep_alive;
            &&& s2 == s
            &&& c2.phase == c.phase && c2.buffer == at_hand(c, event)
            &&& action matches ActionView::Read(limit) && limit matches Some(secs) && if asked
                == 0 {
                secs == 120
            } else {
                3 * asked <= 2 * secs <= 3 * asked + 1
            }
        }),
{
}

/// Whether a client that was let in is gone after this: it says so, sends what is no
/// packet, is silent for too long, or its connection fails.
pub open spec fn is_gone(c: ConnectionView, event: EventView) -> bool {
    let at = packet::packet_as(
        at_hand(c, event),
        if c.phase->is_v5 {
            5
        } else {
            4
        },
    );
    &&& c.phase is Running
    &&& match event {
        EventView::TimedOut => true,
        EventView::ReadFailed => true,
        EventView::Received(_) => at is Malformed || at is Unsupported || (at is Done
            && at->Done_0 is Disconnect),
        EventView::Sent => at is Malformed || at is Unsupported || (at is Done
            && at->Done_0 is Disconnect),
        _ => false,
    }
}

/// The message that a will stands for.
pub open spec fn will_as_message(w: WillMessageView) -> MessageView {
    MessageView {
        topic: w.topic,
        payload: w.payload,
        qos: w.qos,
        retain: w.retain,
        user_properties: Seq::empty(),
        content_type: None,
        response_topic: None,
        correlation_data: None,
        message_expiry_interval: None,
        payload_format_indicator: None,
        topic_alias: None,
    }
}

proof fn lemma_lookup_push<V>(entries: Seq<(Seq<char>, V)>, e: (Seq<char>, V), key: Seq<char>)
    ensures
        table::lookup(entries.push(e), key) == match table::lookup(entries, key) {
            Some(v) => Some(v),
            None => if e.0 == key {
                Some(e.1)
            } else {
                None
            },
        },
    decreases entries.len(),
{
    let all = entries.push(e);
    if entries.len() > 0 {
        lemma_lookup_push(entries.drop_first(), e, key);
        assert(all.drop_first() =~= entries.drop_first().push(e));
    } else {
        assert(all.drop_first() =~= Seq::<(Seq<char>, V)>::empty());
        assert(table::lookup(all.drop_first(), key) is None);
    }
}

proof fn lemma_struck_off(
    subs: Seq<(Seq<char>, Seq<SubscriptionView>)>,
    client: Seq<char>,
    filter: Seq<char>,
)
    requires
        table::distinct(subs),
    ensures
        broker_laws::under(subscription::without_client(subs, client), filter)
            == broker_laws::under(subs, filter).filter(broker_laws::of_others(client)),
        table::lookup(subs, filter) is None ==> table::lookup(
            subscription::without_client(subs, client),
            filter,
        ) is None,
    decreases subs.len(),
{
    reveal(Seq::filter);
    if subs.len() > 0 {
        let front = subs.drop_last();
        let last = subs[subs.len() - 1];
        let kept = subscription::without_client(front, client);
        let left = subscription::others(last.1, client);
        assert(table::distinct(front)) by {
            assert forall|i: int, j: int| 0 <= i < j < front.len() implies (
            #[trigger] front[i]).0 != (#[trigger] front[j]).0 by {
                assert(front[i] == subs[i] && front[j] == subs[j]);
            }
        }
        lemma_struck_off(front, client, filter);
        broker_laws::law_strike_client(last.1, client);
        assert(subs =~= front.push(last));
        lemma_lookup_push(front, last, filter);
        lemma_lookup_push(kept, (last.0, left), filter);
        if last.0 == filter {
            table::lemma_lookup(front, filter);
            if table::lookup(front, filter) is Some {
                let v = table::lookup(front, filter)->0;
                let i = choose|i: int| 0 <= i < front.len() && #[trigger] front[i] == (filter, v);
                assert(subs[i].0 != subs[subs.len() - 1].0);
            }
            if left.len() == 0 {
                assert(left =~= Seq::<SubscriptionView>::empty());
            }
        }
    } else {
        assert(Seq::<SubscriptionView>::empty().filter(broker_laws::of_others(client))
            =~= Seq::<SubscriptionView>::empty());
    }
}

/// Of a client that is gone nothing is left: no entry, no session, no subscription
/// under any filter. Its will goes to every other client with a session, once for
/// each subscription that matches, behind what waits there. Nothing else changes.
pub proof fn law_gone_client_is_forgotten(
    c: ConnectionView,
    s: StateView,
    event: EventView,
    filter: Seq<char>,
    other: Seq<char>,
)
    requires
        s.wf(),
        is_gone(c, event),
        other != c.phase->Running_client_id,
    ensures
        ({
            let (c2, s2, action) = connection::step(c, s, event);
            let client = c.phase->Running_client_id;
            &&& c2.phase is Closed
            &&& action == ActionView::Close
            &&& table::lookup(s2.clients, client) is None
            &&& table::lookup(s2.sessions, client) is None
            &&& broker_laws::under(s2.subscriptions, filter) == broker_laws::under(
                s.subscriptions,
                filter,
            ).filter(broker_laws::of_others(client))
            &&& table::lookup(s2.clients, other) == table::lookup(s.clients, other)
            &&& table::lookup(s2.sessions, other) == match table::lookup(s.sessions, other) {
                None => None,
                Some(x) => Some(
                    match table::lookup(s.sessions, client) {
                        Some(y) => match y.will_message {
                            Some(w) => broker_laws::with_copies(
                                x,
                                broker_laws::matching_subscriptions(
                                    s.subscriptions,
                                    w.topic,
                                    other,
                                ).len(),
                                will_as_message(w),
                            ),
                            None => x,
                        },
                        None => x,
                    },
                ),
            }
        }),
{
    let client = c.phase->Running_client_id;
    lemma_disconnected(s, client, filter, other);
}

proof fn lemma_disconnected(
    s: StateView,
    client: Seq<char>,
    filter: Seq<char>,
    other: Seq<char>,
)
    requires
        s.wf(),
        other != client,
    ensures
        ({
            let s2 = connection::disconnected(s, client);
            &&& table::lookup(s2.clients, client) is None
            &&& table::lookup(s2.sessions, client) is None
            &&& broker_laws::under(s2.subscriptions, filter) == broker_laws::under(
                s.subscriptions,
                filter,
            ).filter(broker_laws::of_others(client))
            &&& table::lookup(s2.clients, other) == table::lookup(s.clients, other)
            &&& table::lookup(s2.sessions, other) == match table::lookup(s.sessions, other) {
                None => None,
                Some(x) => Some(
                    match table::lookup(s.sessions, client) {
                        Some(y) => match y.will_message {
                            Some(w) => broker_laws::with_copies(
                                x,
                                broker_laws::matching_subscriptions(
                                    s.subscriptions,
                                    w.topic,
                                    other,
                                ).len(),
                                will_as_message(w),
                            ),
                            None => x,
                        },
                        None => x,
                    },
                ),
            }
        }),
{
    let quiet = StateView {
        subscriptions: subscription::without_client(s.subscriptions, client),
        ..s
    };
    let told = match connection::will_of(s, client) {
        Some(will) => connection::published(quiet, connection::will_message_of(will)),
        None => quiet,
    };
    lemma_struck_off(s.subscriptions, client, filter);
    match connection::will_of(s, client) {
        Some(w) => {
            let m = connection::will_message_of(w);
            let all = subscription::matching(s.subscriptions, w.topic);
            let left = subscription::matching(quiet.subscriptions, w.topic);
            broker_laws::law_message_reaches_all(quiet, m, other);
            connection::law_delivered(quiet.sessions, left, m, other);
            broker_laws::law_matching_is_all(s.subscriptions, w.topic);
            broker_laws::law_matching_is_all(quiet.subscriptions, w.topic);
            subscription::law_remove_client(s.subscriptions, client, w.topic);
            broker_laws::law_strike_client(all, client);
            broker_laws::lemma_filter_within(
                all,
                broker_laws::of_others(client),
                broker_laws::of_client(other),
            );
        },
        None => {},
    }
    table::law_without(told.sessions, client, client);
    table::law_without(told.sessions, client, other);
    table::law_without(told.clients, client, client);
    table::law_without(told.clients, client, other);
}

/// A refusal with a code and a reason: a client of version 5 is told both, an older
/// one a code of its own.
pub open spec fn refusal(is_v5: bool, code: u8, old_code: u8, reason: Seq<char>) -> Seq<u8> {
    let properties = properties::properties_wire(
        PropertiesView {
            fields: Map::empty().insert(0x1E, ValueView::Text(reason)),
            user: Seq::empty(),
        },
    );
    if is_v5 {
        seq![0x20u8] + wire::varint_wire(2 + properties.len()) + (seq![0, code] + properties)
    } else {
        seq![0x20, 2, 0, old_code]
    }
}

/// A client without a name is refused, and so is one that may not come in; each is
/// told why.
pub proof fn law_refusals_tell_why(
    c: ConnectionView,
    s: StateView,
    bytes: Seq<u8>,
    p: ConnectView,
    n: nat,
    now: u64,
)
    ensures
        c.phase is Greeting && packet::packet_as(c.buffer + bytes, 5) == DecodeView::Done(
            PacketView::Connect(p),
            n,
        ) && p.client_id.len() == 0 ==> connection::step(c, s, EventView::Received(bytes)).2
            == ActionView::SendAndClose(
            refusal(p.protocol_version == 5, 0x80, 2, "empty client id"@),
        ),
        c.phase == PhaseView::Authenticating(p) ==> connection::step(
            c,
            s,
            EventView::Judged { allowed: false, now },
        ).2 == ActionView::SendAndClose(
            refusal(p.protocol_version == 5, 0x87, 5, "not authorized"@),
        ),
{
    reveal_strlit("empty client id");
    reveal_strlit("not authorized");
    lemma_refusal(p.protocol_version == 5, 0x80, 2, "empty client id"@);
    lemma_refusal(p.protocol_version == 5, 0x87, 5, "not authorized"@);
}

proof fn lemma_refusal(is_v5: bool, code: u8, old_code: u8, reason: Seq<char>)
    requires
        reason.len() > 0,
    ensures
        connection::connack_reply(is_v5, code, old_code, reason) == refusal(
            is_v5,
            code,
            old_code,
            reason,
        ),
{
    let properties = PropertiesView {
        fields: Map::empty().insert(0x1E, ValueView::Text(reason)),
        user: Seq::empty(),
    };
    assert(connection::reason_properties(reason) =~= properties);
    assert(connection::connack_reply(is_v5, code, old_code, reason) =~= refusal(
        is_v5,
        code,
        old_code,
        reason,
    ));
}

/// A new connection is read from, without a limit, and changes nothing; one that breaks
/// off before its client was let in leaves nothing behind.
pub proof fn law_before_the_greeting(c: ConnectionView, s: StateView)
    requires
        c.phase is Greeting,
    ensures
        connection::step(c, s, EventView::Opened) == (c, s, ActionView::Read(None)),
        connection::step(c, s, EventView::ReadFailed).0.phase is Closed,
        connection::step(c, s, EventView::ReadFailed).1 == s,
        connection::step(c, s, EventView::ReadFailed).2 == ActionView::Close,
{
}

/// Packets that ask for nothing are passed over: nothing is sent and nothing changes.
pub proof fn law_other_packets_are_passed_over(
    c: ConnectionView,
    s: StateView,
    event: EventView,
    p: PacketView,
    n: nat,
)
    requires
        serves(c, event, p, n),
        p is Connect || p is Connack || p is Suback || p is Unsuback || p is Pingresp,
    ensures
        ({
            let (c2, s2, action) = connection::step(c, s, event);
            &&& goes_on(c, event, n, c2)
            &&& s2 == s
            &&& action == ActionView::Send(Seq::empty())
        }),
{
}

} // verus!
