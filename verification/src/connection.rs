//! The life of one connection: the greeting, the authentication, and then one
//! packet after the other until the client is gone.

use crate::decoder;
use crate::packet;
use crate::packet::{
    AckView, ConnackView, ConnectPacket, ConnectView, DecodeError, DecodeView, Packet, PacketFault,
    PacketView, PublishPacket, PublishView, SubackPacket, SubscribeOptions, SubscribePacket,
    SubscribeView, UnsubackPacket, UnsubscribePacket, UnsubscribeView, WillView, RC_SUCCESS,
    RC_UNSPECIFIED_ERROR,
};
use crate::properties;
use crate::properties::{Properties, PropertiesView, ValueView};
use crate::session;
use crate::session::SessionManager;
use crate::state;
use crate::state::{
    BrokerState, ClientInfo, ClientView, MessageView, MqttProtocol, QoS, SessionView, StateView,
    Subscription, SubscriptionView, WillMessage, WillMessageView,
};
use crate::subscription;
use crate::subscription::SubscriptionTree;
use crate::table;
use crate::wire;
use bytes::BytesMut;
use vstd::prelude::*;
use vstd::string::*;

verus! {

/// The reason code for a client that may not connect.
pub const RC_NOT_AUTHORIZED: u8 = 0x87;

/// The return code of protocol version 3 for a first packet that is not accepted.
pub const V3_UNACCEPTABLE_PROTOCOL: u8 = 1;

/// The return code of protocol version 3 for a client identifier that is not
/// accepted.
pub const V3_IDENTIFIER_REJECTED: u8 = 2;

/// The return code of protocol version 3 for a client that may not connect.
pub const V3_NOT_AUTHORIZED: u8 = 5;

/// How many bytes may wait for a CONNECT packet to become complete.
pub const CONNECT_LIMIT: usize = 65536;

/// How long a client that asked for no keep alive may be silent, in seconds.
pub const DEFAULT_IDLE_SECS: u64 = 120;

// ── Replies ──────────────────────────────────────────────────────────────

/// The reply to something that is no CONNECT packet.
pub open spec fn greeting_refusal() -> Seq<u8> {
    seq![0x20, 0x02, 0x00, V3_UNACCEPTABLE_PROTOCOL]
}

/// The properties of a CONNACK packet with a reason, which may be empty.
pub open spec fn reason_properties(reason: Seq<char>) -> PropertiesView {
    if reason.len() == 0 {
        PropertiesView::empty()
    } else {
        PropertiesView::empty().with(properties::PROP_REASON_STRING, ValueView::Text(reason))
    }
}

/// The reply to a CONNECT packet: in version 5 with the reason code `code` and
/// the reason, before that with the return code `v3_code`.
pub open spec fn connack_reply(
    is_v5: bool,
    code: u8,
    v3_code: u8,
    reason: Seq<char>,
) -> Seq<u8> {
    if is_v5 {
        packet::packet_wire(
            PacketView::Connack(
                ConnackView {
                    session_present: false,
                    reason_code: code,
                    properties: reason_properties(reason),
                },
            ),
        )
    } else {
        seq![0x20, 0x02, 0x00, v3_code]
    }
}

/// The reply to a PUBLISH packet: an acknowledgement where one is asked for.
pub open spec fn publish_reply(p: PublishView, is_v5: bool) -> Seq<u8> {
    if p.qos == 1 && p.packet_id is Some {
        packet::puback_wire(p.packet_id->0, is_v5)
    } else {
        Seq::empty()
    }
}

/// The reply to a SUBSCRIBE packet: each filter is granted what it asked for.
pub open spec fn subscribe_reply(p: SubscribeView, is_v5: bool) -> Seq<u8> {
    let granted = Seq::new(p.topic_filters.len(), |i: int| p.topic_filters[i].1.qos);
    if is_v5 {
        packet::packet_wire(
            PacketView::Suback(
                AckView {
                    packet_id: p.packet_id,
                    properties: PropertiesView::empty(),
                    reason_codes: granted,
                },
            ),
        )
    } else {
        packet::suback_v3_wire(p.packet_id, granted)
    }
}

/// The reply to an UNSUBSCRIBE packet: in version 5 with success for each filter.
pub open spec fn unsubscribe_reply(p: UnsubscribeView, is_v5: bool) -> Seq<u8> {
    if is_v5 {
        packet::packet_wire(
            PacketView::Unsuback(
                AckView {
                    packet_id: p.packet_id,
                    properties: PropertiesView::empty(),
                    reason_codes: Seq::new(p.topic_filters.len(), |i: int| RC_SUCCESS),
                },
            ),
        )
    } else {
        packet::unsuback_v3_wire(p.packet_id)
    }
}

/// The reply to a PINGREQ packet.
pub open spec fn ping_reply() -> Seq<u8> {
    seq![0xD0, 0x00]
}

// ── Effects on the broker ────────────────────────────────────────────────

/// The text that is held for the property `id`.
pub open spec fn text_property(p: PropertiesView, id: u8) -> Option<Seq<char>> {
    if p.fields.contains_key(id) {
        match p.fields[id] {
            ValueView::Text(v) => Some(v),
            _ => None,
        }
    } else {
        None
    }
}

pub open spec fn binary_property(p: PropertiesView, id: u8) -> Option<Seq<u8>> {
    if p.fields.contains_key(id) {
        match p.fields[id] {
            ValueView::Binary(v) => Some(v),
            _ => None,
        }
    } else {
        None
    }
}

pub open spec fn four_property(p: PropertiesView, id: u8) -> Option<u32> {
    if p.fields.contains_key(id) {
        match p.fields[id] {
            ValueView::Four(v) => Some(v),
            _ => None,
        }
    } else {
        None
    }
}

pub open spec fn two_property(p: PropertiesView, id: u8) -> Option<u16> {
    if p.fields.contains_key(id) {
        match p.fields[id] {
            ValueView::Two(v) => Some(v),
            _ => None,
        }
    } else {
        None
    }
}

pub open spec fn byte_property(p: PropertiesView, id: u8) -> Option<u8> {
    if p.fields.contains_key(id) {
        match p.fields[id] {
            ValueView::Byte(v) => Some(v),
            _ => None,
        }
    } else {
        None
    }
}

/// The message that a PUBLISH packet carries.
pub open spec fn message_of(p: PublishView) -> MessageView {
    MessageView {
        topic: p.topic,
        payload: p.payload,
        qos: state::qos_of(p.qos),
        retain: p.retain,
        user_properties: p.properties.user,
        content_type: text_property(p.properties, properties::PROP_CONTENT_TYPE),
        response_topic: text_property(p.properties, properties::PROP_RESPONSE_TOPIC),
        correlation_data: binary_property(p.properties, properties::PROP_CORRELATION_DATA),
        message_expiry_interval: four_property(
            p.properties,
            properties::PROP_MESSAGE_EXPIRY_INTERVAL,
        ),
        payload_format_indicator: byte_property(
            p.properties,
            properties::PROP_PAYLOAD_FORMAT_INDICATOR,
        ),
        topic_alias: two_property(p.properties, properties::PROP_TOPIC_ALIAS),
    }
}

/// The message that a will carries.
pub open spec fn will_message_of(w: WillMessageView) -> MessageView {
    MessageView {
        topic: w.topic,
        payload: w.payload,
        qos: w.qos,
        retain: w.retain,
        user_properties: Seq::empty(),
        content_type: None,
        response_topic: None,
        correlation_data: None,
        message_expiry_interval: None,
        payload_format_indicator: None,
        topic_alias: None,
    }
}

/// The sessions after a message was queued for each of the subscriptions.
pub open spec fn delivered(
    sessions: Seq<(Seq<char>, SessionView)>,
    to: Seq<SubscriptionView>,
    message: MessageView,
) -> Seq<(Seq<char>, SessionView)>
    decreases to.len(),
{
    if to.len() == 0 {
        sessions
    } else {
        session::with_change(
            delivered(sessions, to.drop_last(), message),
            to.last().client_id,
            |s: SessionView| session::enqueued(s, message),
        )
    }
}

/// The broker after a message was published.
pub open spec fn published(s: StateView, message: MessageView) -> StateView {
    StateView {
        sessions: delivered(
            s.sessions,
            subscription::matching(s.subscriptions, message.topic),
            message,
        ),
        ..s
    }
}

/// The subscription that a filter with options in a SUBSCRIBE packet asks for.
pub open spec fn subscription_of(
    client: Seq<char>,
    filter: (Seq<char>, SubscribeOptions),
) -> SubscriptionView {
    SubscriptionView {
        client_id: client,
        topic_filter: filter.0,
        qos: state::qos_of(filter.1.qos),
        no_local: filter.1.no_local,
        retain_as_published: filter.1.retain_as_published,
        retain_handling: filter.1.retain_handling,
    }
}

/// The broker after a client subscribed to a filter.
pub open spec fn after_subscription(s: StateView, sub: SubscriptionView) -> StateView {
    StateView {
        subscriptions: subscription::with_subscription(s.subscriptions, sub),
        sessions: session::with_change(
            s.sessions,
            sub.client_id,
            |x: SessionView| session::subscribed(x, sub.client_id, sub.topic_filter, sub.qos),
        ),
        ..s
    }
}

/// The broker after a client subscribed to all the filters.
pub open spec fn after_subscribe(
    s: StateView,
    client: Seq<char>,
    filters: Seq<(Seq<char>, SubscribeOptions)>,
) -> StateView
    decreases filters.len(),
{
    if filters.len() == 0 {
        s
    } else {
        after_subscription(
            after_subscribe(s, client, filters.drop_last()),
            subscription_of(client, filters.last()),
        )
    }
}

/// The broker after a client gave up a filter.
pub open spec fn after_unsubscription(
    s: StateView,
    client: Seq<char>,
    filter: Seq<char>,
) -> StateView {
    StateView {
        subscriptions: subscription::without_subscription(s.subscriptions, client, filter),
        sessions: session::with_change(
            s.sessions,
            client,
            |x: SessionView| session::unsubscribed(x, filter),
        ),
        ..s
    }
}

/// The broker after a client gave up all the filters.
pub open spec fn after_unsubscribe(
    s: StateView,
    client: Seq<char>,
    filters: Seq<Seq<char>>,
) -> StateView
    decreases filters.len(),
{
    if filters.len() == 0 {
        s
    } else {
        after_unsubscription(
            after_unsubscribe(s, client, filters.drop_last()),
            client,
            filters.last(),
        )
    }
}

/// The will that the broker keeps for a client.
pub open spec fn will_of(s: StateView, client: Seq<char>) -> Option<WillMessageView> {
    match table::lookup(s.sessions, client) {
        Some(x) => x.will_message,
        None => None,
    }
}

/// The broker after a client is gone: its subscriptions end, its will goes to
/// the subscribers that are left, then its session and its entry are dropped.
pub open spec fn disconnected(s: StateView, client: Seq<char>) -> StateView {
    let quiet = StateView {
        subscriptions: subscription::without_client(s.subscriptions, client),
        ..s
    };
    let told = match will_of(s, client) {
        Some(will) => published(quiet, will_message_of(will)),
        None => quiet,
    };
    StateView {
        sessions: table::without(told.sessions, client),
        clients: table::without(told.clients, client),
        ..told
    }
}

/// The entry of a client that connected.
pub open spec fn client_of(c: ConnectView, addr: Seq<char>, now: u64) -> ClientView {
    ClientView {
        client_id: c.client_id,
        addr,
        protocol_version: if c.protocol_version == 5 {
            MqttProtocol::V500
        } else {
            MqttProtocol::V311
        },
        connected_at: now,
        clean_session: c.clean_start,
        keep_alive: c.keep_alive,
        username: c.username,
    }
}

/// The will as the broker keeps it.
pub open spec fn kept_will(w: Option<WillView>) -> Option<WillMessageView> {
    match w {
        Some(w) => Some(
            WillMessageView {
                topic: w.topic,
                payload: w.payload,
                qos: state::qos_of(w.qos),
                retain: w.retain,
            },
        ),
        None => None,
    }
}

/// The broker after a client was let in.
pub open spec fn connected(s: StateView, c: ConnectView, addr: Seq<char>, now: u64) -> StateView {
    StateView {
        clients: table::put(s.clients, c.client_id, client_of(c, addr, now)),
        sessions: session::with_session(
            s.sessions,
            c.client_id,
            c.clean_start,
            kept_will(c.will),
        ),
        ..s
    }
}

// ── The course of a connection ───────────────────────────────────────────

/// Where a connection stands.
pub enum Phase {
    /// The CONNECT packet is awaited.
    Greeting,
    /// The answer to the client's name and password is awaited.
    Authenticating(ConnectPacket),
    /// The client was let in.
    Running { client_id: String, is_v5: bool, keep_alive: u16 },
    /// Nothing more is done.
    Closed,
}

#[verifier::ext_equal]
pub enum PhaseView {
    Greeting,
    Authenticating(ConnectView),
    Running { client_id: Seq<char>, is_v5: bool, keep_alive: u16 },
    Closed,
}

impl View for Phase {
    type V = PhaseView;

    open spec fn view(&self) -> PhaseView {
        match self {
            Phase::Greeting => PhaseView::Greeting,
            Phase::Authenticating(c) => PhaseView::Authenticating(c@),
            Phase::Running { client_id, is_v5, keep_alive } => PhaseView::Running {
                client_id: client_id@,
                is_v5: *is_v5,
                keep_alive: *keep_alive,
            },
            Phase::Closed => PhaseView::Closed,
        }
    }
}

/// One connection: the peer's address, the bytes that were not read as a packet
/// yet, and where it stands.
pub struct Connection {
    pub addr: String,
    pub buffer: BytesMut,
    pub phase: Phase,
}

#[verifier::ext_equal]
pub struct ConnectionView {
    pub addr: Seq<char>,
    pub buffer: Seq<u8>,
    pub phase: PhaseView,
}

impl View for Connection {
    type V = ConnectionView;

    open spec fn view(&self) -> ConnectionView {
        ConnectionView {
            addr: self.addr@,
            buffer: decoder::buffered(self.buffer),
            phase: self.phase@,
        }
    }
}

/// What happened on a connection.
pub enum ConnectionEvent {
    /// The connection was accepted.
    Opened,
    /// Bytes came in.
    Received(Vec<u8>),
    /// Reading failed, or the peer closed the connection.
    ReadFailed,
    /// Nothing came in for too long.
    TimedOut,
    /// The name and password were judged, at this time of the broker's clock.
    Judged { allowed: bool, now: u64 },
    /// What was to be sent is sent.
    Sent,
}

pub enum EventView {
    Opened,
    Received(Seq<u8>),
    ReadFailed,
    TimedOut,
    Judged { allowed: bool, now: u64 },
    Sent,
}

impl View for ConnectionEvent {
    type V = EventView;

    open spec fn view(&self) -> EventView {
        match self {
            ConnectionEvent::Opened => EventView::Opened,
            ConnectionEvent::Received(bytes) => EventView::Received(bytes@),
            ConnectionEvent::ReadFailed => EventView::ReadFailed,
            ConnectionEvent::TimedOut => EventView::TimedOut,
            ConnectionEvent::Judged { allowed, now } => EventView::Judged {
                allowed: *allowed,
                now: *now,
            },
            ConnectionEvent::Sent => EventView::Sent,
        }
    }
}

/// What is to be done on a connection.
#[derive(Debug)]
pub enum ConnectionAction {
    /// Read, and report `Received`, `ReadFailed`, or `TimedOut` after so many
    /// seconds where there is a limit.
    Read(Option<u64>),
    /// Judge this name and password, and report `Judged`.
    Authenticate(String, String),
    /// Send these bytes, of which there may be none, and report `Sent`.
    Send(Vec<u8>),
    /// Send these bytes and close the connection.
    SendAndClose(Vec<u8>),
    /// Close the connection.
    Close,
    /// A length in the buffer does not fit a `usize`. Nothing was done.
    Overlong,
}

#[verifier::ext_equal]
pub enum ActionView {
    Read(Option<u64>),
    Authenticate(Seq<char>, Seq<char>),
    Send(Seq<u8>),
    SendAndClose(Seq<u8>),
    Close,
    Overlong,
}

impl View for ConnectionAction {
    type V = ActionView;

    open spec fn view(&self) -> ActionView {
        match self {
            ConnectionAction::Read(limit) => ActionView::Read(*limit),
            ConnectionAction::Authenticate(name, password) => ActionView::Authenticate(
                name@,
                password@,
            ),
            ConnectionAction::Send(bytes) => ActionView::Send(bytes@),
            ConnectionAction::SendAndClose(bytes) => ActionView::SendAndClose(bytes@),
            ConnectionAction::Close => ActionView::Close,
            ConnectionAction::Overlong => ActionView::Overlong,
        }
    }
}

/// Which events a connection may meet where it stands.
pub open spec fn expected(phase: PhaseView, event: EventView) -> bool {
    match phase {
        PhaseView::Greeting => event is Opened || event is Received || event is ReadFailed,
        PhaseView::Authenticating(_) => event is Judged,
        PhaseView::Running { .. } => event is Received || event is Sent || event is ReadFailed
            || event is TimedOut,
        PhaseView::Closed => false,
    }
}

/// How long a client may be silent, in seconds: one and a half times the keep
/// alive interval it asked for, rounded up.
pub open spec fn idle_secs(keep_alive: u16) -> u64 {
    if keep_alive > 0 {
        ((3 * keep_alive + 1) / 2) as u64
    } else {
        DEFAULT_IDLE_SECS
    }
}

/// The name that a client gave, which may be none.
pub open spec fn name_of(c: ConnectView) -> Seq<char> {
    match c.username {
        Some(name) => name,
        None => Seq::empty(),
    }
}

/// The password that a client gave, where it is text.
pub open spec fn password_of(c: ConnectView) -> Seq<char> {
    match c.password {
        Some(bytes) => if vstd::utf8::valid_utf8(bytes) {
            vstd::utf8::decode_utf8(bytes)
        } else {
            Seq::empty()
        },
        None => Seq::empty(),
    }
}

/// The connection at its end.
pub open spec fn closed(c: ConnectionView) -> ConnectionView {
    ConnectionView { phase: PhaseView::Closed, ..c }
}

/// What a connection does with the bytes it has while it awaits the CONNECT packet.
pub open spec fn greeting_step(c: ConnectionView) -> (ConnectionView, ActionView) {
    match packet::packet_at(c.buffer) {
        DecodeView::Done(PacketView::Connect(p), size) => {
            let rest = ConnectionView { buffer: c.buffer.skip(size as int), ..c };
            if p.client_id.len() == 0 {
                (
                    closed(rest),
                    ActionView::SendAndClose(
                        connack_reply(
                            p.protocol_version == 5,
                            RC_UNSPECIFIED_ERROR,
                            V3_IDENTIFIER_REJECTED,
                            "empty client id"@,
                        ),
                    ),
                )
            } else {
                (
                    ConnectionView { phase: PhaseView::Authenticating(p), ..rest },
                    ActionView::Authenticate(name_of(p), password_of(p)),
                )
            }
        },
        DecodeView::Insufficient => if c.buffer.len() > CONNECT_LIMIT {
            (closed(c), ActionView::Close)
        } else {
            (c, ActionView::Read(None))
        },
        DecodeView::Overlong => (c, ActionView::Overlong),
        _ => (closed(c), ActionView::SendAndClose(greeting_refusal())),
    }
}

/// What a connection does when the client's name and password were judged.
pub open spec fn judged_step(
    c: ConnectionView,
    s: StateView,
    p: ConnectView,
    allowed: bool,
    now: u64,
) -> (ConnectionView, StateView, ActionView) {
    let is_v5 = p.protocol_version == 5;
    if allowed {
        (
            ConnectionView {
                phase: PhaseView::Running {
                    client_id: p.client_id,
                    is_v5,
                    keep_alive: p.keep_alive,
                },
                ..c
            },
            connected(s, p, c.addr, now),
            ActionView::Send(connack_reply(is_v5, RC_SUCCESS, 0, Seq::empty())),
        )
    } else {
        (
            closed(c),
            s,
            ActionView::SendAndClose(
                connack_reply(is_v5, RC_NOT_AUTHORIZED, V3_NOT_AUTHORIZED, "not authorized"@),
            ),
        )
    }
}

/// What a connection does with a packet of a client that was let in.
pub open spec fn packet_step(
    c: ConnectionView,
    s: StateView,
    client: Seq<char>,
    is_v5: bool,
    p: PacketView,
) -> (ConnectionView, StateView, ActionView) {
    match p {
        PacketView::Publish(p) => (
            c,
            published(s, message_of(p)),
            ActionView::Send(publish_reply(p, is_v5)),
        ),
        PacketView::Subscribe(p) => (
            c,
            after_subscribe(s, client, p.topic_filters),
            ActionView::Send(subscribe_reply(p, is_v5)),
        ),
        PacketView::Unsubscribe(p) => (
            c,
            after_unsubscribe(s, client, p.topic_filters),
            ActionView::Send(unsubscribe_reply(p, is_v5)),
        ),
        PacketView::Pingreq => (c, s, ActionView::Send(ping_reply())),
        PacketView::Disconnect(_) => (closed(c), disconnected(s, client), ActionView::Close),
        _ => (c, s, ActionView::Send(Seq::empty())),
    }
}

/// The protocol version of a client that was let in.
pub open spec fn version_of(is_v5: bool) -> u8 {
    if is_v5 {
        5
    } else {
        4
    }
}

/// What a connection does with the bytes it has once the client was let in: it
/// handles one packet, or reads on.
pub open spec fn running_step(
    c: ConnectionView,
    s: StateView,
    client: Seq<char>,
    is_v5: bool,
    keep_alive: u16,
) -> (ConnectionView, StateView, ActionView) {
    match packet::packet_as(c.buffer, version_of(is_v5)) {
        DecodeView::Done(p, size) => packet_step(
            ConnectionView { buffer: c.buffer.skip(size as int), ..c },
            s,
            client,
            is_v5,
            p,
        ),
        DecodeView::Insufficient => (c, s, ActionView::Read(Some(idle_secs(keep_alive)))),
        DecodeView::Overlong => (c, s, ActionView::Overlong),
        _ => (closed(c), disconnected(s, client), ActionView::Close),
    }
}

/// The connection after bytes came in.
pub open spec fn received(c: ConnectionView, bytes: Seq<u8>) -> ConnectionView {
    ConnectionView { buffer: c.buffer + bytes, ..c }
}

/// What a connection does when something happens.
pub open spec fn step(c: ConnectionView, s: StateView, event: EventView) -> (
    ConnectionView,
    StateView,
    ActionView,
) {
    match c.phase {
        PhaseView::Greeting => match event {
            EventView::Received(bytes) => {
                let (after, action) = greeting_step(received(c, bytes));
                (after, s, action)
            },
            EventView::Opened => (c, s, ActionView::Read(None)),
            _ => (closed(c), s, ActionView::Close),
        },
        PhaseView::Authenticating(p) => match event {
            EventView::Judged { allowed, now } => judged_step(c, s, p, allowed, now),
            _ => (closed(c), s, ActionView::Close),
        },
        PhaseView::Running { client_id, is_v5, keep_alive } => match event {
            EventView::Received(bytes) => running_step(
                received(c, bytes),
                s,
                client_id,
                is_v5,
                keep_alive,
            ),
            EventView::Sent => running_step(c, s, client_id, is_v5, keep_alive),
            _ => (closed(c), disconnected(s, client_id), ActionView::Close),
        },
        PhaseView::Closed => (c, s, ActionView::Close),
    }
}

impl Connection {
    /// A connection that was just accepted.
    pub fn new(addr: String) -> (r: Self)
        ensures
            r@ == (ConnectionView {
                addr: addr@,
                buffer: Seq::empty(),
                phase: PhaseView::Greeting,
            }),
    {
        Connection { addr, buffer: decoder::buffer_new(), phase: Phase::Greeting }
    }
}

/// Decides what happens on connections.
pub struct ConnectionHandler {
    pub session_manager: SessionManager,
    pub subscription_tree: SubscriptionTree,
}

impl ConnectionHandler {
    pub fn new() -> (r: Self)
        ensures
            r == (ConnectionHandler {
                session_manager: SessionManager,
                subscription_tree: SubscriptionTree,
            }),
    {
        ConnectionHandler {
            session_manager: SessionManager::new(),
            subscription_tree: SubscriptionTree::new(),
        }
    }

    /// How long a client may be silent, in seconds.
    pub fn idle_timeout(keep_alive: u16) -> (secs: u64)
        ensures
            secs == idle_secs(keep_alive),
    {
        if keep_alive > 0 {
            (3 * keep_alive as u64 + 1) / 2
        } else {
            DEFAULT_IDLE_SECS
        }
    }

    fn connack(is_v5: bool, code: u8, v3_code: u8, reason: &str) -> (bytes: Vec<u8>)
        requires
            wire::utf8(reason@).len() <= u16::MAX,
        ensures
            bytes@ == connack_reply(is_v5, code, v3_code, reason@),
    {
        if is_v5 {
            let mut props = Properties::new();
            let ghost blank = props;
            proof {
                properties::lemma_empty_properties();
            }
            if !reason.is_empty() {
                props.reason_string = Some(reason.to_owned());
                proof {
                    let id = properties::PROP_REASON_STRING;
                    properties::lemma_one_text_encodable(id, reason@);
                    assert(forall|other: u8|
                        other != id ==> props.field(other) == blank.field(other));
                    assert(props@ =~= blank@.with(id, ValueView::Text(reason@)));
                }
            }
            packet::connack_v5(code, &props)
        } else {
            packet::connack_v3(false, v3_code)
        }
    }

    /// Queues a message for each subscriber of its topic.
    fn publish(&self, state: &mut BrokerState, message: state::PublishPacket)
        requires
            old(state).wf(),
        ensures
            final(state).wf(),
            final(state)@ == published(old(state)@, message@),
    {
        let subscribers = self.subscription_tree.match_topic(state, message.topic.as_str());
        let ghost to = subscribers.deep_view();
        let ghost before = state@;
        assert(to.take(0) == Seq::<SubscriptionView>::empty());
        for i in 0..subscribers.len()
            invariant
                state.wf(),
                to == subscribers.deep_view(),
                state@ == (StateView {
                    sessions: delivered(before.sessions, to.take(i as int), message@),
                    ..before
                }),
        {
            let copy = message.clone();
            self.session_manager.enqueue_pending(state, subscribers[i].client_id.as_str(), copy);
            proof {
                assert(to.take(i + 1).drop_last() == to.take(i as int));
                assert(to.take(i + 1).last() == subscribers@[i as int]@);
                assert(copy@ == message@);
            }
        }
        assert(to.take(to.len() as int) == to);
    }

    /// Handles a PUBLISH packet.
    pub fn handle_publish(
        &self,
        state: &mut BrokerState,
        p: PublishPacket,
        is_v5: bool,
    ) -> (reply: Vec<u8>)
        requires
            old(state).wf(),
        ensures
            final(state).wf(),
            final(state)@ == published(old(state)@, message_of(p@)),
            reply@ == publish_reply(p@, is_v5),
    {
        let message = state::PublishPacket {
            topic: p.topic.clone(),
            payload: state::copy_bytes(&p.payload),
            qos: QoS::from_wire(p.qos),
            retain: p.retain,
            user_properties: state::copy_user_properties(&p.properties.user_properties),
            content_type: p.properties.content_type.clone(),
            response_topic: p.properties.response_topic.clone(),
            correlation_data: match &p.properties.correlation_data {
                Some(b) => Some(state::copy_bytes(b)),
                None => None,
            },
            message_expiry_interval: p.properties.message_expiry_interval,
            payload_format_indicator: p.properties.payload_format_indicator,
            topic_alias: p.properties.topic_alias,
        };
        proof {
            let props = p.properties;
            let known = props@.fields;
            assert(known.contains_key(properties::PROP_CONTENT_TYPE) == (props.field(
                properties::PROP_CONTENT_TYPE,
            ) is Some));
            assert(known.contains_key(properties::PROP_RESPONSE_TOPIC) == (props.field(
                properties::PROP_RESPONSE_TOPIC,
            ) is Some));
            assert(known.contains_key(properties::PROP_CORRELATION_DATA) == (props.field(
                properties::PROP_CORRELATION_DATA,
            ) is Some));
            assert(known.contains_key(properties::PROP_MESSAGE_EXPIRY_INTERVAL) == (props.field(
                properties::PROP_MESSAGE_EXPIRY_INTERVAL,
            ) is Some));
            assert(known.contains_key(properties::PROP_PAYLOAD_FORMAT_INDICATOR) == (props.field(
                properties::PROP_PAYLOAD_FORMAT_INDICATOR,
            ) is Some));
            assert(known.contains_key(properties::PROP_TOPIC_ALIAS) == (props.field(
                properties::PROP_TOPIC_ALIAS,
            ) is Some));
            assert(message@ =~= message_of(p@));
        }
        self.publish(state, message);
        if p.qos == 1 {
            if let Some(id) = p.packet_id {
                return packet::puback(id, is_v5);
            }
        }
        let none: Vec<u8> = Vec::new();
        assert(none@ =~= Seq::<u8>::empty());
        none
    }

    /// Handles a SUBSCRIBE packet.
    pub fn handle_subscribe(
        &self,
        state: &mut BrokerState,
        p: SubscribePacket,
        client_id: &str,
        is_v5: bool,
    ) -> (reply: Vec<u8>)
        requires
            old(state).wf(),
        ensures
            final(state).wf(),
            final(state)@ == after_subscribe(old(state)@, client_id@, p@.topic_filters),
            reply@ == subscribe_reply(p@, is_v5),
    {
        let mut reason_codes: Vec<u8> = Vec::new();
        let ghost filters = p@.topic_filters;
        let ghost before = state@;
        assert(filters.take(0) == Seq::<(Seq<char>, SubscribeOptions)>::empty());
        for i in 0..p.topic_filters.len()
            invariant
                state.wf(),
                filters == p@.topic_filters,
                state@ == after_subscribe(before, client_id@, filters.take(i as int)),
                reason_codes@.len() == i,
                forall|j: int| 0 <= j < i ==> reason_codes@[j] == filters[j].1.qos,
        {
            let topic = &p.topic_filters[i];
            let qos = QoS::from_wire(topic.options.qos);
            let s = Subscription {
                client_id: client_id.to_owned(),
                topic_filter: topic.topic_filter.clone(),
                qos,
                no_local: topic.options.no_local,
                retain_as_published: topic.options.retain_as_published,
                retain_handling: topic.options.retain_handling,
            };
            self.subscription_tree.add(state, s);
            self.session_manager.add_subscription(
                state,
                client_id,
                topic.topic_filter.clone(),
                qos,
            );
            reason_codes.push(topic.options.qos);
            proof {
                assert(filters.take(i + 1).drop_last() == filters.take(i as int));
                assert(filters.take(i + 1).last() == topic@);
                assert(s@ == subscription_of(client_id@, topic@));
            }
        }
        assert(filters.take(filters.len() as int) == filters);
        proof {
            properties::lemma_empty_properties();
        }
        assert(reason_codes@ =~= Seq::new(filters.len(), |i: int| filters[i].1.qos));
        if is_v5 {
            let suback = Packet::Suback(
                SubackPacket {
                    packet_id: p.packet_id,
                    properties: Properties::new(),
                    reason_codes,
                },
            );
            suback.encode()
        } else {
            packet::suback_v3(p.packet_id, &reason_codes)
        }
    }

    /// Handles an UNSUBSCRIBE packet.
    pub fn handle_unsubscribe(
        &self,
        state: &mut BrokerState,
        p: UnsubscribePacket,
        client_id: &str,
        is_v5: bool,
    ) -> (reply: Vec<u8>)
        requires
            old(state).wf(),
        ensures
            final(state).wf(),
            final(state)@ == after_unsubscribe(old(state)@, client_id@, p@.topic_filters),
            reply@ == unsubscribe_reply(p@, is_v5),
    {
        let mut reason_codes: Vec<u8> = Vec::new();
        let ghost filters = p@.topic_filters;
        let ghost before = state@;
        assert(filters.take(0) == Seq::<Seq<char>>::empty());
        for i in 0..p.topic_filters.len()
            invariant
                state.wf(),
                filters == p@.topic_filters,
                state@ == after_unsubscribe(before, client_id@, filters.take(i as int)),
                reason_codes@.len() == i,
                forall|j: int| 0 <= j < i ==> reason_codes@[j] == RC_SUCCESS,
        {
            let filter = p.topic_filters[i].as_str();
            self.subscription_tree.remove(state, client_id, filter);
            self.session_manager.remove_subscription(state, client_id, filter);
            reason_codes.push(RC_SUCCESS);
            proof {
                assert(filters.take(i + 1).drop_last() == filters.take(i as int));
                assert(filters.take(i + 1).last() == filter@);
            }
        }
        assert(filters.take(filters.len() as int) == filters);
        proof {
            properties::lemma_empty_properties();
        }
        assert(reason_codes@ =~= Seq::new(filters.len(), |i: int| RC_SUCCESS));
        if is_v5 {
            let unsuback = Packet::Unsuback(
                UnsubackPacket {
                    packet_id: p.packet_id,
                    properties: Properties::new(),
                    reason_codes,
                },
            );
            unsuback.encode()
        } else {
            packet::unsuback_v3(p.packet_id)
        }
    }

    /// Forgets a client that is gone, and publishes its will.
    pub fn disconnect_client(&self, state: &mut BrokerState, client_id: &str)
        requires
            old(state).wf(),
        ensures
            final(state).wf(),
            final(state)@ == disconnected(old(state)@, client_id@),
    {
        let will: Option<WillMessage> = match state.session_store.get(client_id) {
            Some(session) => match &session.will_message {
                Some(will) => Some(will.clone()),
                None => None,
            },
            None => None,
        };
        assert(will.deep_view() == will_of(state@, client_id@));
        self.subscription_tree.remove_client_subscriptions(state, client_id);
        if let Some(will) = will {
            let message = state::PublishPacket {
                topic: will.topic,
                payload: will.payload,
                qos: will.qos,
                retain: will.retain,
                user_properties: Vec::new(),
                content_type: None,
                response_topic: None,
                correlation_data: None,
                message_expiry_interval: None,
                payload_format_indicator: None,
                topic_alias: None,
            };
            assert(message@.user_properties =~= Seq::<(Seq<char>, Seq<char>)>::empty());
            self.publish(state, message);
        }
        let _ = self.session_manager.delete_session(state, client_id);
        let _ = state.clients.remove(client_id);
    }

    /// Lets a client in.
    fn let_in(&self, state: &mut BrokerState, c: &ConnectPacket, addr: &String, now: u64)
        requires
            old(state).wf(),
        ensures
            final(state).wf(),
            final(state)@ == connected(old(state)@, c@, addr@, now),
    {
        let info = ClientInfo {
            client_id: c.client_id.clone(),
            addr: addr.clone(),
            protocol_version: if c.protocol_version == 5 {
                MqttProtocol::V500
            } else {
                MqttProtocol::V311
            },
            connected_at: now,
            clean_session: c.clean_start,
            keep_alive: c.keep_alive,
            username: c.username.clone(),
        };
        assert(info@ =~= client_of(c@, addr@, now));
        state.clients.insert(c.client_id.clone(), info);
        let will: Option<WillMessage> = match &c.will {
            Some(w) => Some(
                WillMessage {
                    topic: w.topic.clone(),
                    payload: state::copy_bytes(&w.payload),
                    qos: QoS::from_wire(w.qos),
                    retain: w.retain,
                },
            ),
            None => None,
        };
        assert(will.deep_view() == kept_will(c@.will));
        self.session_manager.create_session(state, c.client_id.as_str(), c.clean_start, will);
    }

    /// Takes the CONNECT packet off the buffer once it is there.
    fn greet(&self, c: &mut Connection) -> (action: ConnectionAction)
        requires
            old(c).phase is Greeting,
        ensures
            (final(c)@, action@) == greeting_step(old(c)@),
    {
        match packet::scan_packet(decoder::buffer_bytes(&c.buffer), 5) {
            Ok((Packet::Connect(p), size)) => {
                proof {
                    packet::law_decode_prefix(decoder::buffered(c.buffer), Seq::empty(), 5);
                }
                decoder::buffer_advance(&mut c.buffer, size);
                if p.client_id.as_str().is_empty() {
                    c.phase = Phase::Closed;
                    proof {
                        reveal_strlit("empty client id");
                        wire::lemma_utf8_len("empty client id"@);
                    }
                    ConnectionAction::SendAndClose(
                        Self::connack(
                            p.protocol_version == 5,
                            RC_UNSPECIFIED_ERROR,
                            V3_IDENTIFIER_REJECTED,
                            "empty client id",
                        ),
                    )
                } else {
                    let name = match &p.username {
                        Some(name) => name.clone(),
                        None => String::new(),
                    };
                    let password = match &p.password {
                        Some(bytes) => match wire::text_of(bytes.as_slice()) {
                            Some(s) => s.to_owned(),
                            None => String::new(),
                        },
                        None => String::new(),
                    };
                    c.phase = Phase::Authenticating(p);
                    ConnectionAction::Authenticate(name, password)
                }
            },
            Err(PacketFault::Decode(DecodeError::InsufficientData)) => {
                if decoder::buffer_bytes(&c.buffer).len() > CONNECT_LIMIT {
                    c.phase = Phase::Closed;
                    ConnectionAction::Close
                } else {
                    ConnectionAction::Read(None)
                }
            },
            Err(PacketFault::Overlong) => ConnectionAction::Overlong,
            _ => {
                c.phase = Phase::Closed;
                let mut bytes: Vec<u8> = Vec::new();
                bytes.push(0x20);
                bytes.push(0x02);
                bytes.push(0x00);
                bytes.push(V3_UNACCEPTABLE_PROTOCOL);
                assert(bytes@ =~= greeting_refusal());
                ConnectionAction::SendAndClose(bytes)
            },
        }
    }

    /// Handles one packet of a client that was let in, if it is there in full.
    fn serve(
        &self,
        c: &mut Connection,
        state: &mut BrokerState,
        client_id: &String,
        is_v5: bool,
        keep_alive: u16,
    ) -> (action: ConnectionAction)
        requires
            old(state).wf(),
        ensures
            final(state).wf(),
            (final(c)@, final(state)@, action@) == running_step(
                old(c)@,
                old(state)@,
                client_id@,
                is_v5,
                keep_alive,
            ),
    {
        let client: &str = client_id.as_str();
        let version: u8 = if is_v5 {
            5
        } else {
            4
        };
        match packet::scan_packet(decoder::buffer_bytes(&c.buffer), version) {
            Ok((p, size)) => {
                proof {
                    packet::law_decode_prefix(decoder::buffered(c.buffer), Seq::empty(), version);
                }
                decoder::buffer_advance(&mut c.buffer, size);
                match p {
                    Packet::Publish(p) => ConnectionAction::Send(
                        self.handle_publish(state, p, is_v5),
                    ),
                    Packet::Subscribe(p) => ConnectionAction::Send(
                        self.handle_subscribe(state, p, client, is_v5),
                    ),
                    Packet::Unsubscribe(p) => ConnectionAction::Send(
                        self.handle_unsubscribe(state, p, client, is_v5),
                    ),
                    Packet::Pingreq => {
                        let mut bytes: Vec<u8> = Vec::new();
                        bytes.push(0xD0);
                        bytes.push(0x00);
                        assert(bytes@ =~= ping_reply());
                        ConnectionAction::Send(bytes)
                    },
                    Packet::Disconnect(_) => {
                        c.phase = Phase::Closed;
                        self.disconnect_client(state, client);
                        ConnectionAction::Close
                    },
                    _ => {
                        let bytes: Vec<u8> = Vec::new();
                        ConnectionAction::Send(bytes)
                    },
                }
            },
            Err(PacketFault::Decode(DecodeError::InsufficientData)) => ConnectionAction::Read(
                Some(Self::idle_timeout(keep_alive)),
            ),
            Err(PacketFault::Overlong) => ConnectionAction::Overlong,
            Err(_) => {
                c.phase = Phase::Closed;
                self.disconnect_client(state, client);
                ConnectionAction::Close
            },
        }
    }

    /// Moves a connection on by one event, and says what is to be done next.
    pub fn handle_connection(
        &self,
        c: &mut Connection,
        state: &mut BrokerState,
        event: ConnectionEvent,
    ) -> (action: ConnectionAction)
        requires
            old(state).wf(),
            expected(old(c)@.phase, event@),
        ensures
            final(state).wf(),
            (final(c)@, final(state)@, action@) == step(old(c)@, old(state)@, event@),
    {
        match event {
            ConnectionEvent::Opened => ConnectionAction::Read(None),
            ConnectionEvent::Received(bytes) => {
                decoder::buffer_extend(&mut c.buffer, bytes.as_slice());
                match &c.phase {
                    Phase::Running { client_id, is_v5, keep_alive } => {
                        let client_id = client_id.clone();
                        let is_v5: bool = *is_v5;
                        let keep_alive: u16 = *keep_alive;
                        self.serve(c, state, &client_id, is_v5, keep_alive)
                    },
                    _ => self.greet(c),
                }
            },
            ConnectionEvent::Sent => {
                match &c.phase {
                    Phase::Running { client_id, is_v5, keep_alive } => {
                        let client_id = client_id.clone();
                        let is_v5: bool = *is_v5;
                        let keep_alive: u16 = *keep_alive;
                        self.serve(c, state, &client_id, is_v5, keep_alive)
                    },
                    _ => ConnectionAction::Close,
                }
            },
            ConnectionEvent::Judged { allowed, now } => {
                let mut phase = Phase::Closed;
                core::mem::swap(&mut phase, &mut c.phase);
                match phase {
                    Phase::Authenticating(p) => {
                        let is_v5: bool = p.protocol_version == 5;
                        if allowed {
                            self.let_in(state, &p, &c.addr, now);
                            proof {
                                wire::lemma_utf8_len(""@);
                                reveal_strlit("");
                                assert(""@ =~= Seq::<char>::empty());
                            }
                            let reply = Self::connack(is_v5, RC_SUCCESS, 0, "");
                            c.phase = Phase::Running {
                                client_id: p.client_id,
                                is_v5,
                                keep_alive: p.keep_alive,
                            };
                            ConnectionAction::Send(reply)
                        } else {
                            proof {
                                reveal_strlit("not authorized");
                                wire::lemma_utf8_len("not authorized"@);
                            }
                            ConnectionAction::SendAndClose(
                                Self::connack(
                                    is_v5,
                                    RC_NOT_AUTHORIZED,
                                    V3_NOT_AUTHORIZED,
                                    "not authorized",
                                ),
                            )
                        }
                    },
                    _ => ConnectionAction::Close,
                }
            },
            ConnectionEvent::ReadFailed | ConnectionEvent::TimedOut => {
                let mut phase = Phase::Closed;
                core::mem::swap(&mut phase, &mut c.phase);
                match phase {
                    Phase::Running { client_id, .. } => {
                        self.disconnect_client(state, client_id.as_str());
                    },
                    _ => {},
                }
                ConnectionAction::Close
            },
        }
    }
}

// ── Laws ─────────────────────────────────────────────────────────────────

/// How many of the subscriptions are the client's.
pub open spec fn count_for(to: Seq<SubscriptionView>, client: Seq<char>) -> nat
    decreases to.len(),
{
    if to.len() == 0 {
        0
    } else if to.last().client_id == client {
        count_for(to.drop_last(), client) + 1
    } else {
        count_for(to.drop_last(), client)
    }
}

/// A client with a session gets a message once for each of its subscriptions
/// that match, behind the messages that wait already. Nothing else changes in
/// any session, and no session comes or goes.
pub proof fn law_delivered(
    sessions: Seq<(Seq<char>, SessionView)>,
    to: Seq<SubscriptionView>,
    message: MessageView,
    client: Seq<char>,
)
    ensures
        table::distinct(sessions) ==> table::distinct(delivered(sessions, to, message)),
        table::lookup(delivered(sessions, to, message), client) == match table::lookup(
            sessions,
            client,
        ) {
            Some(s) => Some(
                SessionView {
                    pending_messages: s.pending_messages + Seq::new(
                        count_for(to, client),
                        |i: int| message,
                    ),
                    ..s
                },
            ),
            None => None,
        },
    decreases to.len(),
{
    if to.len() == 0 {
        if table::lookup(sessions, client) is Some {
            let s = table::lookup(sessions, client)->0;
            assert(s.pending_messages + Seq::new(0nat, |i: int| message) == s.pending_messages);
        }
    } else {
        let front = to.drop_last();
        let enqueue = |s: SessionView| session::enqueued(s, message);
        law_delivered(sessions, front, message, client);
        session::law_change(
            delivered(sessions, front, message),
            to.last().client_id,
            enqueue,
            client,
        );
        if table::lookup(sessions, client) is Some && to.last().client_id == client {
            let s = table::lookup(sessions, client)->0;
            let n = count_for(front, client);
            assert((s.pending_messages + Seq::new(n, |i: int| message)).push(message)
                == s.pending_messages + Seq::new(n + 1, |i: int| message));
        }
    }
}

/// Whoever is not let in leaves no trace in the broker.
pub proof fn law_refused_leaves_no_trace(c: ConnectionView, s: StateView, event: EventView)
    requires
        expected(c.phase, event),
        c.phase is Greeting || (c.phase is Authenticating && !event->allowed),
    ensures
        step(c, s, event).1 == s,
{
}

/// A connection ends exactly when it is told to close.
pub proof fn law_close(c: ConnectionView, s: StateView, event: EventView)
    requires
        expected(c.phase, event),
    ensures
        step(c, s, event).0.phase is Closed <==> (step(c, s, event).2 is Close || step(
            c,
            s,
            event,
        ).2 is SendAndClose),
{
}

/// A client that was let in is listed with its address, has a session, and no
/// other client is touched.
pub proof fn law_connected(
    s: StateView,
    c: ConnectView,
    addr: Seq<char>,
    now: u64,
    other: Seq<char>,
)
    requires
        s.wf(),
    ensures
        connected(s, c, addr, now).wf(),
        table::lookup(connected(s, c, addr, now).clients, c.client_id) == Some(
            client_of(c, addr, now),
        ),
        table::lookup(connected(s, c, addr, now).sessions, c.client_id) is Some,
        other != c.client_id ==> {
            &&& table::lookup(connected(s, c, addr, now).clients, other) == table::lookup(
                s.clients,
                other,
            )
            &&& table::lookup(connected(s, c, addr, now).sessions, other) == table::lookup(
                s.sessions,
                other,
            )
        },
{
    table::law_put(s.clients, c.client_id, client_of(c, addr, now), c.client_id);
    table::law_put(s.clients, c.client_id, client_of(c, addr, now), other);
    session::law_create_session(
        s.sessions,
        c.client_id,
        c.clean_start,
        kept_will(c.will),
        c.client_id,
    );
    session::law_create_session(
        s.sessions,
        c.client_id,
        c.clean_start,
        kept_will(c.will),
        other,
    );
}

/// Publishing keeps the tables in order and touches neither clients nor
/// subscriptions.
pub proof fn law_published(s: StateView, message: MessageView)
    requires
        s.wf(),
    ensures
        published(s, message).wf(),
        published(s, message).clients == s.clients,
        published(s, message).subscriptions == s.subscriptions,
{
    law_delivered(
        s.sessions,
        subscription::matching(s.subscriptions, message.topic),
        message,
        Seq::empty(),
    );
}

/// Of a client that is gone nothing is left: no entry, no session, no
/// subscription. Other clients keep their entries, and their sessions but for
/// the will that may have come in.
pub proof fn law_disconnected(s: StateView, client: Seq<char>, other: Seq<char>)
    requires
        s.wf(),
        subscription::subscriptions_inv(s.subscriptions),
    ensures
        disconnected(s, client).wf(),
        subscription::subscriptions_inv(disconnected(s, client).subscriptions),
        table::lookup(disconnected(s, client).clients, client) is None,
        table::lookup(disconnected(s, client).sessions, client) is None,
        forall|topic: Seq<char>, i: int|
            0 <= i < subscription::matching(disconnected(s, client).subscriptions, topic).len()
                ==> (#[trigger] subscription::matching(
                disconnected(s, client).subscriptions,
                topic,
            )[i]).client_id != client,
        other != client ==> {
            &&& table::lookup(disconnected(s, client).clients, other) == table::lookup(
                s.clients,
                other,
            )
            &&& match table::lookup(s.sessions, other) {
                None => table::lookup(disconnected(s, client).sessions, other) is None,
                Some(before) => table::lookup(disconnected(s, client).sessions, other) matches Some(
                    after,
                ) && after == (SessionView { pending_messages: after.pending_messages, ..before })
                    && before.pending_messages.is_prefix_of(after.pending_messages),
            }
        },
{
    let quiet = StateView {
        subscriptions: subscription::without_client(s.subscriptions, client),
        ..s
    };
    subscription::law_remove_client_inv(s.subscriptions, client);
    let told = match will_of(s, client) {
        Some(will) => published(quiet, will_message_of(will)),
        None => quiet,
    };
    match will_of(s, client) {
        Some(will) => {
            law_published(quiet, will_message_of(will));
            law_delivered(
                quiet.sessions,
                subscription::matching(quiet.subscriptions, will.topic),
                will_message_of(will),
                other,
            );
        },
        None => {},
    }
    table::law_without(told.sessions, client, client);
    table::law_without(told.sessions, client, other);
    table::law_without(told.clients, client, client);
    table::law_without(told.clients, client, other);
    assert forall|topic: Seq<char>, i: int|
        0 <= i < subscription::matching(
            disconnected(s, client).subscriptions,
            topic,
        ).len() implies (#[trigger] subscription::matching(
        disconnected(s, client).subscriptions,
        topic,
    )[i]).client_id != client by {
        subscription::law_remove_client(s.subscriptions, client, topic);
        subscription::law_others(subscription::matching(s.subscriptions, topic), client);
    }
}

proof fn lemma_subscribe_inv(
    s: StateView,
    client: Seq<char>,
    filters: Seq<(Seq<char>, SubscribeOptions)>,
)
    requires
        s.wf(),
        subscription::subscriptions_inv(s.subscriptions),
    ensures
        after_subscribe(s, client, filters).wf(),
        subscription::subscriptions_inv(after_subscribe(s, client, filters).subscriptions),
    decreases filters.len(),
{
    if filters.len() > 0 {
        lemma_subscribe_inv(s, client, filters.drop_last());
        let mid = after_subscribe(s, client, filters.drop_last());
        let sub = subscription_of(client, filters.last());
        subscription::law_add(mid.subscriptions, sub, client);
        session::law_change(
            mid.sessions,
            client,
            |x: SessionView| session::subscribed(x, client, sub.topic_filter, sub.qos),
            client,
        );
    }
}

proof fn lemma_unsubscribe_inv(s: StateView, client: Seq<char>, filters: Seq<Seq<char>>)
    requires
        s.wf(),
        subscription::subscriptions_inv(s.subscriptions),
    ensures
        after_unsubscribe(s, client, filters).wf(),
        subscription::subscriptions_inv(after_unsubscribe(s, client, filters).subscriptions),
    decreases filters.len(),
{
    if filters.len() > 0 {
        lemma_unsubscribe_inv(s, client, filters.drop_last());
        let mid = after_unsubscribe(s, client, filters.drop_last());
        let filter = filters.last();
        subscription::law_remove(mid.subscriptions, client, filter, client);
        session::law_change(
            mid.sessions,
            client,
            |x: SessionView| session::unsubscribed(x, filter),
            client,
        );
    }
}

/// Whatever happens on a connection, the broker's tables stay in order: no
/// identifier and no filter occurs twice, every filter has a subscriber, each
/// subscription stands under its filter, and no client twice under one.
pub proof fn law_step_keeps_order(c: ConnectionView, s: StateView, event: EventView)
    requires
        expected(c.phase, event),
        s.wf(),
        subscription::subscriptions_inv(s.subscriptions),
    ensures
        step(c, s, event).1.wf(),
        subscription::subscriptions_inv(step(c, s, event).1.subscriptions),
{
    match c.phase {
        PhaseView::Authenticating(p) => {
            if event->allowed {
                law_connected(s, p, c.addr, event->now, Seq::empty());
            }
        },
        PhaseView::Running { client_id, is_v5, keep_alive } => {
            law_disconnected(s, client_id, Seq::empty());
            let now = match event {
                EventView::Received(bytes) => received(c, bytes),
                _ => c,
            };
            match packet::packet_as(now.buffer, version_of(is_v5)) {
                DecodeView::Done(PacketView::Publish(p), _) => law_published(s, message_of(p)),
                DecodeView::Done(PacketView::Subscribe(p), _) => lemma_subscribe_inv(
                    s,
                    client_id,
                    p.topic_filters,
                ),
                DecodeView::Done(PacketView::Unsubscribe(p), _) => lemma_unsubscribe_inv(
                    s,
                    client_id,
                    p.topic_filters,
                ),
                _ => {},
            }
        },
        _ => {},
    }
}

/// Serving a client never reads the same bytes twice: each packet that is
/// handled leaves the buffer shorter.
pub proof fn law_serving_progress(c: ConnectionView, s: StateView)
    requires
        c.phase is Running,
        step(c, s, EventView::Sent).2 is Send,
    ensures
        step(c, s, EventView::Sent).0.buffer.len() < c.buffer.len(),
{
    packet::law_decode_prefix(c.buffer, Seq::empty(), version_of(c.phase->is_v5));
}

/// How long the length in front of a packet may be.
pub open spec fn framed_limit() -> int {
    vstd::arithmetic::power::pow(128, wire::varint_limit())
}

/// A reply with such a length and nothing else in front of its end: whatever
/// follows it, exactly the reply is taken for a packet.
pub open spec fn whole_packet(reply: Seq<u8>, is_v5: bool) -> bool {
    forall|rest: Seq<u8>|
        (#[trigger] packet::packet_as(reply + rest, version_of(is_v5))) matches DecodeView::Done(
            _,
            size,
        ) && size == reply.len()
}

/// The acknowledgement of a message ends where its length says.
pub proof fn law_publish_reply_is_whole(p: PublishView, is_v5: bool)
    requires
        p.qos == 1,
        p.packet_id is Some,
    ensures
        whole_packet(publish_reply(p, is_v5), is_v5),
{
    let reply = publish_reply(p, is_v5);
    let body = wire::u16_wire(p.packet_id->0) + if is_v5 {
        seq![RC_SUCCESS, 0u8]
    } else {
        Seq::empty()
    };
    lemma_framed_limit();
    assert forall|rest: Seq<u8>| (#[trigger] packet::packet_as(
        reply + rest,
        version_of(is_v5),
    )) matches DecodeView::Done(_, size) && size == reply.len() by {
        packet::law_ack_ends((packet::PUBACK * 16) as u8, body, rest, version_of(is_v5));
    }
}

/// The acknowledgement of subscriptions is read back by a client of that
/// version, and ends where its length says.
pub proof fn law_subscribe_reply_is_whole(p: SubscribeView, is_v5: bool)
    requires
        3 + p.topic_filters.len() < framed_limit(),
    ensures
        whole_packet(subscribe_reply(p, is_v5), is_v5),
{
    let reply = subscribe_reply(p, is_v5);
    let granted = Seq::new(p.topic_filters.len(), |i: int| p.topic_filters[i].1.qos);
    let ack = AckView {
        packet_id: p.packet_id,
        properties: PropertiesView::empty(),
        reason_codes: granted,
    };
    properties::lemma_empty_properties();
    assert forall|rest: Seq<u8>| (#[trigger] packet::packet_as(
        reply + rest,
        version_of(is_v5),
    )) matches DecodeView::Done(_, size) && size == reply.len() by {
        if is_v5 {
            packet::law_suback_round_trip(ack, rest);
        } else {
            packet::law_suback_v3_round_trip(p.packet_id, granted, rest);
        }
    }
}

/// The acknowledgement of filters that were given up ends where its length says.
pub proof fn law_unsubscribe_reply_is_whole(p: UnsubscribeView, is_v5: bool)
    requires
        3 + p.topic_filters.len() < framed_limit(),
    ensures
        whole_packet(unsubscribe_reply(p, is_v5), is_v5),
{
    let reply = unsubscribe_reply(p, is_v5);
    let ack = AckView {
        packet_id: p.packet_id,
        properties: PropertiesView::empty(),
        reason_codes: Seq::new(p.topic_filters.len(), |i: int| RC_SUCCESS),
    };
    properties::lemma_empty_properties();
    lemma_framed_limit();
    let body = if is_v5 {
        packet::ack_body(ack)
    } else {
        wire::u16_wire(p.packet_id)
    };
    assert forall|rest: Seq<u8>| (#[trigger] packet::packet_as(
        reply + rest,
        version_of(is_v5),
    )) matches DecodeView::Done(_, size) && size == reply.len() by {
        packet::law_ack_ends((packet::UNSUBACK * 16) as u8, body, rest, version_of(is_v5));
    }
}

/// The reason that a client of version 5 is refused for can be read from the
/// reply.
pub proof fn law_reason_is_readable(reason: Seq<char>, rest: Seq<u8>)
    requires
        wire::utf8(reason).len() <= u16::MAX,
    ensures
        properties::properties_at(properties::properties_wire(reason_properties(reason)) + rest)
            == wire::Parsed::Done(
            (
                reason_properties(reason),
                properties::properties_wire(reason_properties(reason)).len(),
            ),
        ),
{
    let p = reason_properties(reason);
    properties::lemma_empty_properties();
    lemma_framed_limit();
    if reason.len() > 0 {
        properties::lemma_one_text_encodable(properties::PROP_REASON_STRING, reason);
    }
    properties::law_properties_round_trip(p, rest);
}

/// The code of a reply with a short reason stands behind the flags.
pub proof fn lemma_code_of_reply(is_v5: bool, code: u8, v3_code: u8, reason: Seq<char>)
    requires
        reason.len() <= 20,
    ensures
        connack_reply(is_v5, code, v3_code, reason).len() >= 4,
        connack_reply(is_v5, code, v3_code, reason)[0] == 0x20,
        connack_reply(is_v5, code, v3_code, reason)[3] == if is_v5 {
            code
        } else {
            v3_code
        },
{
    if is_v5 {
        let p = reason_properties(reason);
        wire::lemma_utf8_len(reason);
        properties::lemma_one_text_size(properties::PROP_REASON_STRING, reason);
        properties::lemma_empty_properties();
        let body = packet::connack_body(
            ConnackView { session_present: false, reason_code: code, properties: p },
        );
        assert(body.len() < 128);
        assert(wire::varint_wire(body.len()).len() == 1);
        assert(body[1] == code);
    }
}

/// Nobody who is refused is told that they are let in: every refusal is a CONNACK
/// packet with a code other than success.
pub proof fn law_refusals_refuse(c: ConnectionView, s: StateView, event: EventView)
    requires
        expected(c.phase, event),
        step(c, s, event).2 is SendAndClose,
    ensures
        ({
            let reply = step(c, s, event).2->SendAndClose_0;
            reply.len() >= 4 && reply[0] == 0x20 && reply[3] != RC_SUCCESS
        }),
{
    reveal_strlit("empty client id");
    reveal_strlit("not authorized");
    lemma_code_of_reply(true, RC_UNSPECIFIED_ERROR, V3_IDENTIFIER_REJECTED, "empty client id"@);
    lemma_code_of_reply(false, RC_UNSPECIFIED_ERROR, V3_IDENTIFIER_REJECTED, "empty client id"@);
    lemma_code_of_reply(true, RC_NOT_AUTHORIZED, V3_NOT_AUTHORIZED, "not authorized"@);
    lemma_code_of_reply(false, RC_NOT_AUTHORIZED, V3_NOT_AUTHORIZED, "not authorized"@);
}

proof fn lemma_framed_limit()
    ensures
        framed_limit() >= 128 * 128 * 128 * 128,
{
    reveal_with_fuel(vstd::arithmetic::power::pow, 5);
    vstd::arithmetic::power::lemma_pow_increases(128, 4, wire::varint_limit());
}

} // verus!
