//! MQTT control packets and their wire format.

use crate::properties;
use crate::properties::{Properties, PropertiesView};
use crate::text;
use crate::wire;
use crate::wire::{Fault, Parsed, Varint, VarintView};
use vstd::prelude::*;
use vstd::slice::{slice_subrange, slice_to_vec};
use vstd::string::*;

verus! {

// ── Control packet types ─────────────────────────────────────────────────

pub const CONNECT: u8 = 1;
pub const CONNACK: u8 = 2;
pub const PUBLISH: u8 = 3;
pub const PUBACK: u8 = 4;
pub const PUBREC: u8 = 5;
pub const PUBREL: u8 = 6;
pub const PUBCOMP: u8 = 7;
pub const SUBSCRIBE: u8 = 8;
pub const SUBACK: u8 = 9;
pub const UNSUBSCRIBE: u8 = 10;
pub const UNSUBACK: u8 = 11;
pub const PINGREQ: u8 = 12;
pub const PINGRESP: u8 = 13;
pub const DISCONNECT: u8 = 14;

// ── Reason codes ─────────────────────────────────────────────────────────

pub const RC_SUCCESS: u8 = 0x00;
pub const RC_NORMAL_DISCONNECTION: u8 = 0x00;
pub const RC_GRANTED_QOS_0: u8 = 0x00;
pub const RC_GRANTED_QOS_1: u8 = 0x01;
pub const RC_GRANTED_QOS_2: u8 = 0x02;
pub const RC_NO_MATCHING_SUBSCRIBERS: u8 = 0x10;
pub const RC_UNSPECIFIED_ERROR: u8 = 0x80;
pub const RC_MALFORMED_PACKET: u8 = 0x81;
pub const RC_PROTOCOL_ERROR: u8 = 0x82;
pub const RC_TOPIC_NAME_INVALID: u8 = 0x90;
pub const RC_SESSION_EXPIRY_INVALID: u8 = 0x9B;

// ── Packets ──────────────────────────────────────────────────────────────

/// The message that is published for a client whose connection is lost.
#[derive(Debug)]
pub struct Will {
    pub topic: String,
    pub payload: Vec<u8>,
    pub qos: u8,
    pub retain: bool,
    pub properties: Properties,
}

#[verifier::ext_equal]
pub struct WillView {
    pub topic: Seq<char>,
    pub payload: Seq<u8>,
    pub qos: u8,
    pub retain: bool,
    pub properties: PropertiesView,
}

impl View for Will {
    type V = WillView;

    open spec fn view(&self) -> WillView {
        WillView {
            topic: self.topic@,
            payload: self.payload@,
            qos: self.qos,
            retain: self.retain,
            properties: self.properties@,
        }
    }
}

impl DeepView for Will {
    type V = WillView;

    open spec fn deep_view(&self) -> WillView {
        self@
    }
}

#[derive(Debug)]
pub struct ConnectPacket {
    pub protocol_version: u8,
    pub clean_start: bool,
    pub keep_alive: u16,
    pub properties: Properties,
    pub client_id: String,
    pub will: Option<Will>,
    pub username: Option<String>,
    pub password: Option<Vec<u8>>,
}

#[verifier::ext_equal]
pub struct ConnectView {
    pub protocol_version: u8,
    pub clean_start: bool,
    pub keep_alive: u16,
    pub properties: PropertiesView,
    pub client_id: Seq<char>,
    pub will: Option<WillView>,
    pub username: Option<Seq<char>>,
    pub password: Option<Seq<u8>>,
}

/// The bytes of an optional binary field.
pub open spec fn opt_bytes(v: Option<Vec<u8>>) -> Option<Seq<u8>> {
    match v {
        Some(b) => Some(b@),
        None => None,
    }
}

impl View for ConnectPacket {
    type V = ConnectView;

    open spec fn view(&self) -> ConnectView {
        ConnectView {
            protocol_version: self.protocol_version,
            clean_start: self.clean_start,
            keep_alive: self.keep_alive,
            properties: self.properties@,
            client_id: self.client_id@,
            will: self.will.deep_view(),
            username: self.username.deep_view(),
            password: opt_bytes(self.password),
        }
    }
}

#[derive(Debug)]
pub struct ConnackPacket {
    pub session_present: bool,
    pub reason_code: u8,
    pub properties: Properties,
}

#[verifier::ext_equal]
pub struct ConnackView {
    pub session_present: bool,
    pub reason_code: u8,
    pub properties: PropertiesView,
}

impl View for ConnackPacket {
    type V = ConnackView;

    open spec fn view(&self) -> ConnackView {
        ConnackView {
            session_present: self.session_present,
            reason_code: self.reason_code,
            properties: self.properties@,
        }
    }
}

#[derive(Debug)]
pub struct PublishPacket {
    pub dup: bool,
    pub qos: u8,
    pub retain: bool,
    pub topic: String,
    pub packet_id: Option<u16>,
    pub properties: Properties,
    pub payload: Vec<u8>,
}

#[verifier::ext_equal]
pub struct PublishView {
    pub dup: bool,
    pub qos: u8,
    pub retain: bool,
    pub topic: Seq<char>,
    pub packet_id: Option<u16>,
    pub properties: PropertiesView,
    pub payload: Seq<u8>,
}

impl View for PublishPacket {
    type V = PublishView;

    open spec fn view(&self) -> PublishView {
        PublishView {
            dup: self.dup,
            qos: self.qos,
            retain: self.retain,
            topic: self.topic@,
            packet_id: self.packet_id,
            properties: self.properties@,
            payload: self.payload@,
        }
    }
}

#[derive(Debug, Clone, Copy)]
pub struct SubscribeOptions {
    pub qos: u8,
    pub no_local: bool,
    pub retain_as_published: bool,
    pub retain_handling: u8,
}

impl Default for SubscribeOptions {
    fn default() -> (r: Self)
        ensures
            r == (SubscribeOptions {
                qos: 0,
                no_local: false,
                retain_as_published: false,
                retain_handling: 0,
            }),
    {
        SubscribeOptions { qos: 0, no_local: false, retain_as_published: false, retain_handling: 0 }
    }
}

#[derive(Debug)]
pub struct SubscribeTopic {
    pub topic_filter: String,
    pub options: SubscribeOptions,
}

impl View for SubscribeTopic {
    type V = (Seq<char>, SubscribeOptions);

    open spec fn view(&self) -> (Seq<char>, SubscribeOptions) {
        (self.topic_filter@, self.options)
    }
}

impl DeepView for SubscribeTopic {
    type V = (Seq<char>, SubscribeOptions);

    open spec fn deep_view(&self) -> (Seq<char>, SubscribeOptions) {
        self@
    }
}

#[derive(Debug)]
pub struct SubscribePacket {
    pub packet_id: u16,
    pub properties: Properties,
    pub topic_filters: Vec<SubscribeTopic>,
}

#[verifier::ext_equal]
pub struct SubscribeView {
    pub packet_id: u16,
    pub properties: PropertiesView,
    pub topic_filters: Seq<(Seq<char>, SubscribeOptions)>,
}

impl View for SubscribePacket {
    type V = SubscribeView;

    open spec fn view(&self) -> SubscribeView {
        SubscribeView {
            packet_id: self.packet_id,
            properties: self.properties@,
            topic_filters: self.topic_filters.deep_view(),
        }
    }
}

#[derive(Debug)]
pub struct SubackPacket {
    pub packet_id: u16,
    pub properties: Properties,
    pub reason_codes: Vec<u8>,
}

/// What an acknowledgement with reason codes says.
#[verifier::ext_equal]
pub struct AckView {
    pub packet_id: u16,
    pub properties: PropertiesView,
    pub reason_codes: Seq<u8>,
}

impl View for SubackPacket {
    type V = AckView;

    open spec fn view(&self) -> AckView {
        AckView {
            packet_id: self.packet_id,
            properties: self.properties@,
            reason_codes: self.reason_codes@,
        }
    }
}

#[derive(Debug)]
pub struct UnsubscribePacket {
    pub packet_id: u16,
    pub properties: Properties,
    pub topic_filters: Vec<String>,
}

#[verifier::ext_equal]
pub struct UnsubscribeView {
    pub packet_id: u16,
    pub properties: PropertiesView,
    pub topic_filters: Seq<Seq<char>>,
}

impl View for UnsubscribePacket {
    type V = UnsubscribeView;

    open spec fn view(&self) -> UnsubscribeView {
        UnsubscribeView {
            packet_id: self.packet_id,
            properties: self.properties@,
            topic_filters: self.topic_filters.deep_view(),
        }
    }
}

#[derive(Debug)]
pub struct UnsubackPacket {
    pub packet_id: u16,
    pub properties: Properties,
    pub reason_codes: Vec<u8>,
}

impl View for UnsubackPacket {
    type V = AckView;

    open spec fn view(&self) -> AckView {
        AckView {
            packet_id: self.packet_id,
            properties: self.properties@,
            reason_codes: self.reason_codes@,
        }
    }
}

#[derive(Debug)]
pub struct DisconnectPacket {
    pub reason_code: u8,
    pub properties: Properties,
}

#[verifier::ext_equal]
pub struct DisconnectView {
    pub reason_code: u8,
    pub properties: PropertiesView,
}

impl View for DisconnectPacket {
    type V = DisconnectView;

    open spec fn view(&self) -> DisconnectView {
        DisconnectView { reason_code: self.reason_code, properties: self.properties@ }
    }
}

/// A control packet.
#[derive(Debug)]
pub enum Packet {
    Connect(ConnectPacket),
    Connack(ConnackPacket),
    Publish(PublishPacket),
    Subscribe(SubscribePacket),
    Suback(SubackPacket),
    Unsubscribe(UnsubscribePacket),
    Unsuback(UnsubackPacket),
    Pingreq,
    Pingresp,
    Disconnect(DisconnectPacket),
}

#[verifier::ext_equal]
pub enum PacketView {
    Connect(ConnectView),
    Connack(ConnackView),
    Publish(PublishView),
    Subscribe(SubscribeView),
    Suback(AckView),
    Unsubscribe(UnsubscribeView),
    Unsuback(AckView),
    Pingreq,
    Pingresp,
    Disconnect(DisconnectView),
}

impl View for Packet {
    type V = PacketView;

    open spec fn view(&self) -> PacketView {
        match self {
            Packet::Connect(p) => PacketView::Connect(p@),
            Packet::Connack(p) => PacketView::Connack(p@),
            Packet::Publish(p) => PacketView::Publish(p@),
            Packet::Subscribe(p) => PacketView::Subscribe(p@),
            Packet::Suback(p) => PacketView::Suback(p@),
            Packet::Unsubscribe(p) => PacketView::Unsubscribe(p@),
            Packet::Unsuback(p) => PacketView::Unsuback(p@),
            Packet::Pingreq => PacketView::Pingreq,
            Packet::Pingresp => PacketView::Pingresp,
            Packet::Disconnect(p) => PacketView::Disconnect(p@),
        }
    }
}

impl Packet {
    /// The name of the packet's type, as it is shown in logs.
    pub fn kind_name(&self) -> (name: &'static str)
        ensures
            name@ == match self {
                Packet::Connect(_) => "CONNECT"@,
                Packet::Connack(_) => "CONNACK"@,
                Packet::Publish(_) => "PUBLISH"@,
                Packet::Subscribe(_) => "SUBSCRIBE"@,
                Packet::Suback(_) => "SUBACK"@,
                Packet::Unsubscribe(_) => "UNSUBSCRIBE"@,
                Packet::Unsuback(_) => "UNSUBACK"@,
                Packet::Pingreq => "PINGREQ"@,
                Packet::Pingresp => "PINGRESP"@,
                Packet::Disconnect(_) => "DISCONNECT"@,
            },
    {
        match self {
            Packet::Connect(_) => "CONNECT",
            Packet::Connack(_) => "CONNACK",
            Packet::Publish(_) => "PUBLISH",
            Packet::Subscribe(_) => "SUBSCRIBE",
            Packet::Suback(_) => "SUBACK",
            Packet::Unsubscribe(_) => "UNSUBSCRIBE",
            Packet::Unsuback(_) => "UNSUBACK",
            Packet::Pingreq => "PINGREQ",
            Packet::Pingresp => "PINGRESP",
            Packet::Disconnect(_) => "DISCONNECT",
        }
    }
}

// ── Encoding ─────────────────────────────────────────────────────────────

/// A packet on the wire: its first byte, the length of the rest, the rest.
pub open spec fn frame(first: u8, body: Seq<u8>) -> Seq<u8> {
    seq![first] + wire::varint_wire(body.len()) + body
}

/// One byte that is 1 for `true` and 0 for `false`.
pub open spec fn flag_byte(flag: bool) -> u8 {
    if flag {
        1
    } else {
        0
    }
}

pub open spec fn connack_body(p: ConnackView) -> Seq<u8> {
    seq![flag_byte(p.session_present), p.reason_code] + properties::properties_wire(p.properties)
}

pub open spec fn ack_body(p: AckView) -> Seq<u8> {
    wire::u16_wire(p.packet_id) + properties::properties_wire(p.properties) + p.reason_codes
}

/// The first byte of a PUBLISH packet: its type, and the delivery flags.
pub open spec fn publish_first(p: PublishView) -> u8 {
    (PUBLISH * 16 + flag_byte(p.dup) * 8 + (p.qos % 4) * 2 + flag_byte(p.retain)) as u8
}

/// The packet identifier, which only a packet with a delivery guarantee has.
pub open spec fn publish_id(p: PublishView) -> Seq<u8> {
    if p.qos > 0 {
        wire::u16_wire(match p.packet_id {
            Some(id) => id,
            None => 0,
        })
    } else {
        Seq::empty()
    }
}

pub open spec fn publish_body(p: PublishView) -> Seq<u8> {
    wire::text_wire(p.topic) + publish_id(p) + properties::properties_wire(p.properties)
        + p.payload
}

/// The bytes of a packet that a broker sends.
pub open spec fn packet_wire(p: PacketView) -> Seq<u8> {
    match p {
        PacketView::Connack(p) => frame((CONNACK * 16) as u8, connack_body(p)),
        PacketView::Suback(p) => frame((SUBACK * 16) as u8, ack_body(p)),
        PacketView::Unsuback(p) => frame((UNSUBACK * 16) as u8, ack_body(p)),
        PacketView::Publish(p) => frame(publish_first(p), publish_body(p)),
        _ => frame((PINGRESP * 16) as u8, Seq::empty()),
    }
}

/// Whether a packet is one that a broker sends, with fields that fit.
pub open spec fn sendable(p: PacketView) -> bool {
    match p {
        PacketView::Connack(p) => properties::encodable(p.properties),
        PacketView::Suback(p) => properties::encodable(p.properties),
        PacketView::Unsuback(p) => properties::encodable(p.properties),
        PacketView::Publish(p) => properties::encodable(p.properties) && wire::utf8(
            p.topic,
        ).len() <= u16::MAX,
        PacketView::Pingresp => true,
        _ => false,
    }
}

/// Puts the first byte and the length in front of a packet's body.
fn framed(first: u8, body: Vec<u8>) -> (buf: Vec<u8>)
    ensures
        buf@ == frame(first, body@),
{
    let mut rest: Vec<u8> = body;
    let mut length: Vec<u8> = wire::encode_remaining_length(rest.len());
    let mut buf: Vec<u8> = Vec::new();
    buf.push(first);
    buf.append(&mut length);
    buf.append(&mut rest);
    assert(buf@ == frame(first, body@));
    buf
}

fn encode_simple(packet_type: u8, flags: u8) -> (buf: Vec<u8>)
    requires
        packet_type < 16,
        flags < 16,
    ensures
        buf@ == frame((packet_type * 16 + flags) as u8, Seq::empty()),
{
    let body: Vec<u8> = Vec::new();
    framed(packet_type * 16 + flags, body)
}

fn encode_connack(p: &ConnackPacket) -> (buf: Vec<u8>)
    requires
        properties::encodable(p.properties@),
    ensures
        buf@ == frame((CONNACK * 16) as u8, connack_body(p@)),
{
    let mut body: Vec<u8> = Vec::new();
    body.push(if p.session_present {
        1
    } else {
        0
    });
    body.push(p.reason_code);
    p.properties.encode(&mut body);
    assert(body@ == connack_body(p@));
    framed(CONNACK * 16, body)
}

fn encode_ack(
    packet_type: u8,
    packet_id: u16,
    props: &Properties,
    reason_codes: &Vec<u8>,
) -> (buf: Vec<u8>)
    requires
        packet_type < 16,
        properties::encodable(props@),
    ensures
        buf@ == frame(
            (packet_type * 16) as u8,
            ack_body(AckView { packet_id, properties: props@, reason_codes: reason_codes@ }),
        ),
{
    let mut body: Vec<u8> = Vec::new();
    wire::put_u16(&mut body, packet_id);
    props.encode(&mut body);
    body.extend_from_slice(reason_codes.as_slice());
    assert(body@ == ack_body(
        AckView { packet_id, properties: props@, reason_codes: reason_codes@ },
    ));
    framed(packet_type * 16, body)
}

fn encode_suback(p: &SubackPacket) -> (buf: Vec<u8>)
    requires
        properties::encodable(p.properties@),
    ensures
        buf@ == frame((SUBACK * 16) as u8, ack_body(p@)),
{
    encode_ack(SUBACK, p.packet_id, &p.properties, &p.reason_codes)
}

fn encode_unsuback(p: &UnsubackPacket) -> (buf: Vec<u8>)
    requires
        properties::encodable(p.properties@),
    ensures
        buf@ == frame((UNSUBACK * 16) as u8, ack_body(p@)),
{
    encode_ack(UNSUBACK, p.packet_id, &p.properties, &p.reason_codes)
}

fn encode_publish(p: &PublishPacket) -> (buf: Vec<u8>)
    requires
        sendable(PacketView::Publish(p@)),
    ensures
        buf@ == frame(publish_first(p@), publish_body(p@)),
{
    let dup: u8 = if p.dup {
        8
    } else {
        0
    };
    let retain: u8 = if p.retain {
        1
    } else {
        0
    };
    let first: u8 = PUBLISH * 16 + dup + (p.qos % 4) * 2 + retain;
    let mut body: Vec<u8> = Vec::new();
    wire::encode_utf8(&mut body, p.topic.as_str());
    if p.qos > 0 {
        wire::put_u16(&mut body, p.packet_id.unwrap_or(0));
    }
    p.properties.encode(&mut body);
    body.extend_from_slice(p.payload.as_slice());
    assert(body@ == publish_body(p@));
    framed(first, body)
}

impl Packet {
    /// The packet as it is sent.
    pub fn encode(&self) -> (buf: Vec<u8>)
        requires
            sendable(self@),
        ensures
            buf@ == packet_wire(self@),
    {
        match self {
            Packet::Connack(p) => encode_connack(p),
            Packet::Suback(p) => encode_suback(p),
            Packet::Unsuback(p) => encode_unsuback(p),
            Packet::Publish(p) => encode_publish(p),
            _ => encode_simple(PINGRESP, 0),
        }
    }
}

// ── Decoding: the format ─────────────────────────────────────────────────

/// Whether the bit of weight `weight`, a power of two, is set.
pub open spec fn bit(flags: u8, weight: u8) -> bool {
    flags / weight % 2 == 1
}

/// The client's name and password, at the end of a CONNECT packet.
pub open spec fn login_at(
    flags: u8,
    data: Seq<u8>,
) -> Parsed<(Option<Seq<char>>, Option<Seq<u8>>)> {
    if bit(flags, 0x80) {
        match wire::text_at(data) {
            None => Parsed::Bad("invalid username"@),
            Some((name, n)) => match password_at(flags, data.skip(n as int)) {
                Parsed::Done(password) => Parsed::Done((Some(name), password)),
                Parsed::Bad(text) => Parsed::Bad(text),
                Parsed::Overlong => Parsed::Overlong,
            },
        }
    } else {
        match password_at(flags, data) {
            Parsed::Done(password) => Parsed::Done((None, password)),
            Parsed::Bad(text) => Parsed::Bad(text),
            Parsed::Overlong => Parsed::Overlong,
        }
    }
}

pub open spec fn password_at(flags: u8, data: Seq<u8>) -> Parsed<Option<Seq<u8>>> {
    if bit(flags, 0x40) {
        match wire::binary_at(data) {
            None => Parsed::Bad("invalid password"@),
            Some((password, _)) => Parsed::Done(Some(password)),
        }
    } else {
        Parsed::Done(None)
    }
}

/// Properties where the protocol version has them, and how many bytes they take.
pub open spec fn versioned_properties_at(version: u8, data: Seq<u8>) -> Parsed<
    (PropertiesView, nat),
> {
    if version == 5 {
        properties::properties_at(data)
    } else {
        Parsed::Done((PropertiesView::empty(), 0))
    }
}

/// The will in a CONNECT packet, and how many bytes it takes.
pub open spec fn will_at(version: u8, flags: u8, data: Seq<u8>) -> Parsed<(Option<WillView>, nat)> {
    if bit(flags, 0x04) {
        match versioned_properties_at(version, data) {
            Parsed::Overlong => Parsed::Overlong,
            Parsed::Bad(text) => Parsed::Bad(text),
            Parsed::Done((props, n)) => match wire::text_at(data.skip(n as int)) {
                None => Parsed::Bad("invalid will topic"@),
                Some((topic, m)) => match wire::binary_at(data.skip((n + m) as int)) {
                    None => Parsed::Bad("invalid will payload"@),
                    Some((payload, k)) => Parsed::Done(
                        (
                            Some(
                                WillView {
                                    topic,
                                    payload,
                                    qos: (flags / 8 % 4) as u8,
                                    retain: bit(flags, 0x20),
                                    properties: props,
                                },
                            ),
                            n + m + k,
                        ),
                    ),
                },
            },
        }
    } else {
        Parsed::Done((None, 0))
    }
}

/// The rest of a CONNECT packet after its properties.
pub open spec fn connect_payload_at(
    version: u8,
    flags: u8,
    keep_alive: u16,
    props: PropertiesView,
    data: Seq<u8>,
) -> Parsed<ConnectView> {
    if data.len() == 0 {
        Parsed::Bad("missing client id"@)
    } else {
        match wire::text_at(data) {
            None => Parsed::Bad("invalid client id"@),
            Some((client_id, n)) => match will_at(version, flags, data.skip(n as int)) {
                Parsed::Overlong => Parsed::Overlong,
                Parsed::Bad(text) => Parsed::Bad(text),
                Parsed::Done((will, m)) => match login_at(flags, data.skip((n + m) as int)) {
                    Parsed::Overlong => Parsed::Overlong,
                    Parsed::Bad(text) => Parsed::Bad(text),
                    Parsed::Done((username, password)) => Parsed::Done(
                        ConnectView {
                            protocol_version: version,
                            clean_start: bit(flags, 0x02),
                            keep_alive,
                            properties: props,
                            client_id,
                            will,
                            username,
                            password,
                        },
                    ),
                },
            },
        }
    }
}

/// The body of a CONNECT packet.
pub open spec fn connect_at(body: Seq<u8>) -> Parsed<ConnectView> {
    match wire::text_at(body) {
        None => Parsed::Bad("missing protocol name"@),
        Some((name, n)) => if name != "MQTT"@ {
            Parsed::Bad("invalid protocol name"@)
        } else if body.len() < n + 1 {
            Parsed::Bad("missing protocol version"@)
        } else if body[n as int] != 4 && body[n as int] != 5 {
            Parsed::Bad("unsupported protocol version"@)
        } else if body.len() < n + 2 {
            Parsed::Bad("missing connect flags"@)
        } else if body.len() < n + 4 {
            Parsed::Bad("missing keep alive"@)
        } else {
            let version = body[n as int];
            let data = body.skip((n + 4) as int);
            match versioned_properties_at(version, data) {
                Parsed::Overlong => Parsed::Overlong,
                Parsed::Bad(text) => Parsed::Bad(text),
                Parsed::Done((props, m)) => connect_payload_at(
                    version,
                    body[(n + 1) as int],
                    wire::u16_value(body.skip((n + 2) as int)),
                    props,
                    data.skip(m as int),
                ),
            }
        },
    }
}

/// The body of a PUBLISH packet of a protocol version, whose first byte has the
/// low half `flags`.
pub open spec fn publish_at(body: Seq<u8>, flags: u8, version: u8) -> Parsed<PublishView> {
    let qos = (flags / 2 % 4) as u8;
    match wire::text_at(body) {
        None => Parsed::Bad("invalid publish topic"@),
        Some((topic, n)) => if qos > 0 && body.len() < n + 2 {
            Parsed::Bad("missing packet id"@)
        } else {
            let data = body.skip(if qos > 0 {
                (n + 2) as int
            } else {
                n as int
            });
            match versioned_properties_at(version, data) {
                Parsed::Overlong => Parsed::Overlong,
                Parsed::Bad(text) => Parsed::Bad(text),
                Parsed::Done((props, m)) => Parsed::Done(
                    PublishView {
                        dup: bit(flags, 0x08),
                        qos,
                        retain: bit(flags, 0x01),
                        topic,
                        packet_id: if qos > 0 {
                            Some(wire::u16_value(body.skip(n as int)))
                        } else {
                            None
                        },
                        properties: props,
                        payload: data.skip(m as int),
                    },
                ),
            }
        },
    }
}

/// The options in the byte behind a topic filter.
pub open spec fn options_of(b: u8) -> SubscribeOptions {
    SubscribeOptions {
        qos: (b % 4) as u8,
        no_local: bit(b, 0x04),
        retain_as_published: bit(b, 0x08),
        retain_handling: (b / 16 % 4) as u8,
    }
}

/// The topic filters with options that `data` spells, behind those in `seen`.
pub open spec fn subscriptions_at(
    data: Seq<u8>,
    seen: Seq<(Seq<char>, SubscribeOptions)>,
) -> Parsed<Seq<(Seq<char>, SubscribeOptions)>>
    decreases data.len(),
{
    if data.len() == 0 {
        Parsed::Done(seen)
    } else {
        match wire::text_at(data) {
            None => Parsed::Bad("invalid subscribe topic"@),
            Some((filter, n)) => if data.len() <= n {
                Parsed::Bad("missing subscribe options"@)
            } else {
                subscriptions_at(data.skip((n + 1) as int), seen.push((filter, options_of(data[n as int]))))
            },
        }
    }
}

/// The body of a SUBSCRIBE packet of a protocol version.
pub open spec fn subscribe_at(body: Seq<u8>, version: u8) -> Parsed<SubscribeView> {
    if body.len() < 2 {
        Parsed::Bad("missing packet id"@)
    } else {
        match versioned_properties_at(version, body.skip(2)) {
            Parsed::Overlong => Parsed::Overlong,
            Parsed::Bad(text) => Parsed::Bad(text),
            Parsed::Done((props, n)) => match subscriptions_at(body.skip((2 + n) as int), Seq::empty()) {
                Parsed::Overlong => Parsed::Overlong,
                Parsed::Bad(text) => Parsed::Bad(text),
                Parsed::Done(topic_filters) => Parsed::Done(
                    SubscribeView {
                        packet_id: wire::u16_value(body),
                        properties: props,
                        topic_filters,
                    },
                ),
            },
        }
    }
}

/// The topic filters that `data` spells, behind those in `seen`.
pub open spec fn filters_at(data: Seq<u8>, seen: Seq<Seq<char>>) -> Parsed<Seq<Seq<char>>>
    decreases data.len(),
{
    if data.len() == 0 {
        Parsed::Done(seen)
    } else {
        match wire::text_at(data) {
            None => Parsed::Bad("invalid unsubscribe topic"@),
            Some((filter, n)) => filters_at(data.skip(n as int), seen.push(filter)),
        }
    }
}

/// The body of an UNSUBSCRIBE packet of a protocol version.
pub open spec fn unsubscribe_at(body: Seq<u8>, version: u8) -> Parsed<UnsubscribeView> {
    if body.len() < 2 {
        Parsed::Bad("missing packet id"@)
    } else {
        match versioned_properties_at(version, body.skip(2)) {
            Parsed::Overlong => Parsed::Overlong,
            Parsed::Bad(text) => Parsed::Bad(text),
            Parsed::Done((props, n)) => match filters_at(body.skip((2 + n) as int), Seq::empty()) {
                Parsed::Overlong => Parsed::Overlong,
                Parsed::Bad(text) => Parsed::Bad(text),
                Parsed::Done(topic_filters) => Parsed::Done(
                    UnsubscribeView {
                        packet_id: wire::u16_value(body),
                        properties: props,
                        topic_filters,
                    },
                ),
            },
        }
    }
}

/// The body of a DISCONNECT packet.
pub open spec fn disconnect_at(body: Seq<u8>) -> Parsed<DisconnectView> {
    if body.len() <= 1 {
        Parsed::Done(
            DisconnectView {
                reason_code: if body.len() == 0 {
                    RC_NORMAL_DISCONNECTION
                } else {
                    body[0]
                },
                properties: PropertiesView::empty(),
            },
        )
    } else {
        match properties::properties_at(body.skip(1)) {
            Parsed::Overlong => Parsed::Overlong,
            Parsed::Bad(text) => Parsed::Bad(text),
            Parsed::Done((props, _)) => Parsed::Done(
                DisconnectView { reason_code: body[0], properties: props },
            ),
        }
    }
}

/// The body of a SUBACK packet of a protocol version.
pub open spec fn suback_at(body: Seq<u8>, version: u8) -> Parsed<AckView> {
    if body.len() < 2 {
        Parsed::Bad("truncated suback"@)
    } else {
        match versioned_properties_at(version, body.skip(2)) {
            Parsed::Overlong => Parsed::Overlong,
            Parsed::Bad(text) => Parsed::Bad(text),
            Parsed::Done((props, n)) => Parsed::Done(
                AckView {
                    packet_id: wire::u16_value(body),
                    properties: props,
                    reason_codes: body.skip((2 + n) as int),
                },
            ),
        }
    }
}

/// The body of a CONNACK packet, whose properties are passed over.
pub open spec fn connack_at(body: Seq<u8>) -> ConnackView {
    ConnackView {
        session_present: body.len() > 0 && body[0] != 0,
        reason_code: if body.len() > 1 {
            body[1]
        } else {
            0
        },
        properties: PropertiesView::empty(),
    }
}

/// What bytes say when they are read as one packet.
#[verifier::ext_equal]
pub enum DecodeView {
    /// This packet, in that many bytes.
    Done(PacketView, nat),
    /// The packet is not there in full yet.
    Insufficient,
    /// The packet breaks the format, for this reason.
    Malformed(Seq<char>),
    /// A packet type that is not known.
    Unsupported(u8),
    /// A length in it is too long for a `usize`.
    Overlong,
}

/// The outcome of reading a body, as the outcome of reading its packet.
pub open spec fn decoded<T>(
    r: Parsed<T>,
    size: nat,
    wrap: spec_fn(T) -> PacketView,
) -> DecodeView {
    match r {
        Parsed::Done(p) => DecodeView::Done(wrap(p), size),
        Parsed::Bad(text) => DecodeView::Malformed(text),
        Parsed::Overlong => DecodeView::Overlong,
    }
}

/// The packet of a protocol version, of the type in the high half of `first`,
/// with the body `body`.
#[verifier::opaque]
pub open spec fn body_at(first: u8, body: Seq<u8>, size: nat, version: u8) -> DecodeView {
    let packet_type = (first / 16) as u8;
    if packet_type == CONNECT {
        decoded(connect_at(body), size, |p: ConnectView| PacketView::Connect(p))
    } else if packet_type == PUBLISH {
        decoded(
            publish_at(body, (first % 16) as u8, version),
            size,
            |p: PublishView| PacketView::Publish(p),
        )
    } else if packet_type == SUBSCRIBE {
        decoded(subscribe_at(body, version), size, |p: SubscribeView| PacketView::Subscribe(p))
    } else if packet_type == UNSUBSCRIBE {
        decoded(unsubscribe_at(body, version), size, |p: UnsubscribeView| PacketView::Unsubscribe(p))
    } else if packet_type == PINGREQ {
        DecodeView::Done(PacketView::Pingreq, size)
    } else if packet_type == DISCONNECT {
        decoded(disconnect_at(body), size, |p: DisconnectView| PacketView::Disconnect(p))
    } else if packet_type == CONNACK {
        DecodeView::Done(PacketView::Connack(connack_at(body)), size)
    } else if packet_type == SUBACK {
        decoded(suback_at(body, version), size, |p: AckView| PacketView::Suback(p))
    } else if packet_type == PUBACK || packet_type == PUBREC || packet_type == PUBREL
        || packet_type == PUBCOMP || packet_type == UNSUBACK || packet_type == PINGRESP {
        DecodeView::Done(PacketView::Pingresp, size)
    } else {
        DecodeView::Unsupported(packet_type)
    }
}

/// The packet of protocol version 5 at the start of `data`.
pub open spec fn packet_at(data: Seq<u8>) -> DecodeView {
    packet_as(data, 5)
}

/// The packet of a protocol version at the start of `data`. A CONNECT packet
/// tells its version itself; before version 5 no other packet has properties.
pub open spec fn packet_as(data: Seq<u8>, version: u8) -> DecodeView {
    if data.len() == 0 {
        DecodeView::Insufficient
    } else {
        match wire::varint_at(data.skip(1)) {
            VarintView::Overlong => DecodeView::Overlong,
            VarintView::Incomplete => DecodeView::Insufficient,
            VarintView::Value(len, n) => if data.len() < 1 + n + len {
                DecodeView::Insufficient
            } else {
                body_at(
                    data[0],
                    data.subrange((1 + n) as int, (1 + n + len) as int),
                    1 + n + len,
                    version,
                )
            },
        }
    }
}

// ── Decoding ─────────────────────────────────────────────────────────────

/// Why bytes could not be read as a packet.
#[derive(Debug)]
pub enum DecodeError {
    InsufficientData,
    Malformed(&'static str),
    UnsupportedPacket(u8),
}

impl DecodeError {
    pub open spec fn outcome(self) -> DecodeView {
        match self {
            DecodeError::InsufficientData => DecodeView::Insufficient,
            DecodeError::Malformed(text) => DecodeView::Malformed(text@),
            DecodeError::UnsupportedPacket(t) => DecodeView::Unsupported(t),
        }
    }

    /// The error in words.
    pub fn message(&self) -> (s: String)
        ensures
            s@ == match self {
                DecodeError::InsufficientData => "insufficient data"@,
                DecodeError::Malformed(text) => "malformed packet: "@ + text@,
                DecodeError::UnsupportedPacket(t) => "unsupported packet type: "@ + text::decimal(
                    *t as nat,
                ),
            },
    {
        match self {
            DecodeError::InsufficientData => "insufficient data".to_owned(),
            DecodeError::Malformed(text) => {
                let mut s = "malformed packet: ".to_owned();
                s.append(text);
                s
            },
            DecodeError::UnsupportedPacket(t) => {
                let mut s = "unsupported packet type: ".to_owned();
                text::push_decimal(&mut s, *t as u64);
                s
            },
        }
    }
}

/// The bytes from position `n` on.
fn rest_of(data: &[u8], n: usize) -> (rest: &[u8])
    requires
        n <= data@.len(),
    ensures
        rest@ == data@.skip(n as int),
{
    slice_subrange(data, n, data.len())
}

proof fn lemma_field_sizes(data: Seq<u8>)
    ensures
        wire::text_at(data) matches Some((_, n)) ==> 2 <= n <= data.len(),
        wire::binary_at(data) matches Some((_, n)) ==> 2 <= n <= data.len(),
        properties::properties_at(data) matches Parsed::Done((_, n)) ==> n <= data.len(),
{
}

fn has_bit(flags: u8, weight: u8) -> (r: bool)
    requires
        weight > 0,
    ensures
        r == bit(flags, weight),
{
    flags / weight % 2 == 1
}

fn scan_versioned_properties(version: u8, data: &[u8]) -> (r: Result<(Properties, usize), Fault>)
    ensures
        properties::properties_outcome(r) == versioned_properties_at(version, data@),
{
    if version == 5 {
        properties::scan_properties(data)
    } else {
        Ok((Properties::new(), 0))
    }
}

fn scan_will(version: u8, flags: u8, data: &[u8]) -> (r: Result<(Option<Will>, usize), Fault>)
    ensures
        match r {
            Ok((will, n)) => will_at(version, flags, data@) == Parsed::Done(
                (will.deep_view(), n as nat),
            ) && n <= data@.len(),
            Err(fault) => will_at(version, flags, data@) == fault.outcome::<
                (Option<WillView>, nat),
            >(),
        },
{
    if !has_bit(flags, 0x04) {
        return Ok((None, 0));
    }
    proof {
        lemma_field_sizes(data@);
    }
    match scan_versioned_properties(version, data) {
        Err(fault) => Err(fault),
        Ok((props, n)) => {
            let rest = rest_of(data, n);
            proof {
                assert(data.len() == data@.len());
                lemma_field_sizes(rest@);
            }
            match wire::decode_utf8(rest) {
                None => Err(Fault::Bad("invalid will topic")),
                Some((topic, m)) => {
                    let rest = rest_of(data, n + m);
                    proof {
                        lemma_field_sizes(rest@);
                    }
                    match wire::decode_binary(rest) {
                        None => Err(Fault::Bad("invalid will payload")),
                        Some((payload, k)) => {
                            let will = Will {
                                topic: topic.to_owned(),
                                payload: slice_to_vec(payload),
                                qos: flags / 8 % 4,
                                retain: has_bit(flags, 0x20),
                                properties: props,
                            };
                            Ok((Some(will), n + m + k))
                        },
                    }
                },
            }
        },
    }
}

fn scan_password(flags: u8, data: &[u8]) -> (r: Result<Option<Vec<u8>>, Fault>)
    ensures
        match r {
            Ok(password) => password_at(flags, data@) == Parsed::Done(opt_bytes(password)),
            Err(fault) => password_at(flags, data@) == fault.outcome::<Option<Seq<u8>>>(),
        },
{
    if !has_bit(flags, 0x40) {
        return Ok(None);
    }
    match wire::decode_binary(data) {
        None => Err(Fault::Bad("invalid password")),
        Some((password, _)) => Ok(Some(slice_to_vec(password))),
    }
}

fn scan_login(flags: u8, data: &[u8]) -> (r: Result<(Option<String>, Option<Vec<u8>>), Fault>)
    ensures
        match r {
            Ok((username, password)) => login_at(flags, data@) == Parsed::Done(
                (username.deep_view(), opt_bytes(password)),
            ),
            Err(fault) => login_at(flags, data@) == fault.outcome::<
                (Option<Seq<char>>, Option<Seq<u8>>),
            >(),
        },
{
    if !has_bit(flags, 0x80) {
        return match scan_password(flags, data) {
            Ok(password) => Ok((None, password)),
            Err(fault) => Err(fault),
        };
    }
    proof {
        lemma_field_sizes(data@);
    }
    match wire::decode_utf8(data) {
        None => Err(Fault::Bad("invalid username")),
        Some((name, n)) => match scan_password(flags, rest_of(data, n)) {
            Ok(password) => Ok((Some(name.to_owned()), password)),
            Err(fault) => Err(fault),
        },
    }
}

/// Reads the body of a CONNECT packet, whatever it holds.
fn scan_connect(body: &[u8]) -> (r: Result<ConnectPacket, Fault>)
    ensures
        match r {
            Ok(p) => connect_at(body@) == Parsed::Done(p@),
            Err(fault) => connect_at(body@) == fault.outcome::<ConnectView>(),
        },
{
    proof {
        lemma_field_sizes(body@);
    }
    let (name, n) = match wire::decode_utf8(body) {
        None => {
            return Err(Fault::Bad("missing protocol name"));
        },
        Some(found) => found,
    };
    if !text::same_text(name, "MQTT") {
        return Err(Fault::Bad("invalid protocol name"));
    }
    if body.len() - n < 1 {
        return Err(Fault::Bad("missing protocol version"));
    }
    let version: u8 = body[n];
    if version != 4 && version != 5 {
        return Err(Fault::Bad("unsupported protocol version"));
    }
    if body.len() - n < 2 {
        return Err(Fault::Bad("missing connect flags"));
    }
    let flags: u8 = body[n + 1];
    if body.len() - n < 4 {
        return Err(Fault::Bad("missing keep alive"));
    }
    let keep_alive: u16 = wire::read_u16(rest_of(body, n + 2));
    let data = rest_of(body, n + 4);
    proof {
        lemma_field_sizes(data@);
    }
    match scan_versioned_properties(version, data) {
        Err(fault) => Err(fault),
        Ok((props, m)) => {
            let data = rest_of(data, m);
            proof {
                lemma_field_sizes(data@);
            }
            if data.len() == 0 {
                return Err(Fault::Bad("missing client id"));
            }
            match wire::decode_utf8(data) {
                None => Err(Fault::Bad("invalid client id")),
                Some((client_id, n)) => match scan_will(version, flags, rest_of(data, n)) {
                    Err(fault) => Err(fault),
                    Ok((will, m)) => match scan_login(flags, rest_of(data, n + m)) {
                        Err(fault) => Err(fault),
                        Ok((username, password)) => Ok(
                            ConnectPacket {
                                protocol_version: version,
                                clean_start: has_bit(flags, 0x02),
                                keep_alive,
                                properties: props,
                                client_id: client_id.to_owned(),
                                will,
                                username,
                                password,
                            },
                        ),
                    },
                },
            }
        },
    }
}

fn scan_publish(body: &[u8], flags: u8, version: u8) -> (r: Result<PublishPacket, Fault>)
    ensures
        match r {
            Ok(p) => publish_at(body@, flags, version) == Parsed::Done(p@),
            Err(fault) => publish_at(body@, flags, version) == fault.outcome::<PublishView>(),
        },
{
    let qos: u8 = flags / 2 % 4;
    proof {
        lemma_field_sizes(body@);
    }
    let (topic, n) = match wire::decode_utf8(body) {
        None => {
            return Err(Fault::Bad("invalid publish topic"));
        },
        Some(found) => found,
    };
    let mut pos: usize = n;
    let mut packet_id: Option<u16> = None;
    if qos > 0 {
        if body.len() - n < 2 {
            return Err(Fault::Bad("missing packet id"));
        }
        packet_id = Some(wire::read_u16(rest_of(body, n)));
        pos = n + 2;
    }
    let data = rest_of(body, pos);
    proof {
        lemma_field_sizes(data@);
    }
    match scan_versioned_properties(version, data) {
        Err(fault) => Err(fault),
        Ok((props, m)) => Ok(
            PublishPacket {
                dup: has_bit(flags, 0x08),
                qos,
                retain: has_bit(flags, 0x01),
                topic: topic.to_owned(),
                packet_id,
                properties: props,
                payload: slice_to_vec(rest_of(data, m)),
            },
        ),
    }
}

fn decode_options(b: u8) -> (options: SubscribeOptions)
    ensures
        options == options_of(b),
{
    SubscribeOptions {
        qos: b % 4,
        no_local: has_bit(b, 0x04),
        retain_as_published: has_bit(b, 0x08),
        retain_handling: b / 16 % 4,
    }
}

fn scan_subscribe(body: &[u8], version: u8) -> (r: Result<SubscribePacket, Fault>)
    ensures
        match r {
            Ok(p) => subscribe_at(body@, version) == Parsed::Done(p@),
            Err(fault) => subscribe_at(body@, version) == fault.outcome::<SubscribeView>(),
        },
{
    if body.len() < 2 {
        return Err(Fault::Bad("missing packet id"));
    }
    let packet_id: u16 = wire::read_u16(body);
    proof {
        lemma_field_sizes(body@.skip(2));
    }
    let (props, n) = match scan_versioned_properties(version, rest_of(body, 2)) {
        Err(fault) => {
            return Err(fault);
        },
        Ok(found) => found,
    };
    let mut pos: usize = 2 + n;
    let mut topic_filters: Vec<SubscribeTopic> = Vec::new();
    assert(topic_filters.deep_view() == Seq::<(Seq<char>, SubscribeOptions)>::empty());
    while pos < body.len()
        invariant
            2 <= body@.len(),
            pos <= body@.len(),
            versioned_properties_at(version, body@.skip(2)) == Parsed::Done((props@, n as nat)),
            subscriptions_at(body@.skip(pos as int), topic_filters.deep_view())
                == subscriptions_at(body@.skip(2 + n), Seq::empty()),
        decreases body@.len() - pos,
    {
        let data = rest_of(body, pos);
        proof {
            lemma_field_sizes(data@);
        }
        match wire::decode_utf8(data) {
            None => {
                return Err(Fault::Bad("invalid subscribe topic"));
            },
            Some((filter, m)) => {
                if data.len() <= m {
                    return Err(Fault::Bad("missing subscribe options"));
                }
                let ghost before = topic_filters.deep_view();
                topic_filters.push(
                    SubscribeTopic {
                        topic_filter: filter.to_owned(),
                        options: decode_options(data[m]),
                    },
                );
                proof {
                    assert(topic_filters.deep_view() =~= before.push(
                        (filter@, options_of(data@[m as int])),
                    ));
                    assert(data@.skip(m + 1) == body@.skip(pos + m + 1));
                }
                pos = pos + m + 1;
            },
        }
    }
    assert(body@.skip(pos as int).len() == 0);
    Ok(SubscribePacket { packet_id, properties: props, topic_filters })
}

fn scan_unsubscribe(body: &[u8], version: u8) -> (r: Result<UnsubscribePacket, Fault>)
    ensures
        match r {
            Ok(p) => unsubscribe_at(body@, version) == Parsed::Done(p@),
            Err(fault) => unsubscribe_at(body@, version) == fault.outcome::<UnsubscribeView>(),
        },
{
    if body.len() < 2 {
        return Err(Fault::Bad("missing packet id"));
    }
    let packet_id: u16 = wire::read_u16(body);
    proof {
        lemma_field_sizes(body@.skip(2));
    }
    let (props, n) = match scan_versioned_properties(version, rest_of(body, 2)) {
        Err(fault) => {
            return Err(fault);
        },
        Ok(found) => found,
    };
    let mut pos: usize = 2 + n;
    let mut topic_filters: Vec<String> = Vec::new();
    assert(topic_filters.deep_view() == Seq::<Seq<char>>::empty());
    while pos < body.len()
        invariant
            2 <= body@.len(),
            pos <= body@.len(),
            versioned_properties_at(version, body@.skip(2)) == Parsed::Done((props@, n as nat)),
            filters_at(body@.skip(pos as int), topic_filters.deep_view()) == filters_at(
                body@.skip(2 + n),
                Seq::empty(),
            ),
        decreases body@.len() - pos,
    {
        let data = rest_of(body, pos);
        proof {
            lemma_field_sizes(data@);
        }
        match wire::decode_utf8(data) {
            None => {
                return Err(Fault::Bad("invalid unsubscribe topic"));
            },
            Some((filter, m)) => {
                let ghost before = topic_filters.deep_view();
                topic_filters.push(filter.to_owned());
                proof {
                    assert(topic_filters.deep_view() =~= before.push(filter@));
                    assert(data@.skip(m as int) == body@.skip(pos + m));
                }
                pos = pos + m;
            },
        }
    }
    assert(body@.skip(pos as int).len() == 0);
    Ok(UnsubscribePacket { packet_id, properties: props, topic_filters })
}

fn scan_disconnect(body: &[u8]) -> (r: Result<DisconnectPacket, Fault>)
    ensures
        match r {
            Ok(p) => disconnect_at(body@) == Parsed::Done(p@),
            Err(fault) => disconnect_at(body@) == fault.outcome::<DisconnectView>(),
        },
{
    if body.len() == 0 {
        return Ok(
            DisconnectPacket {
                reason_code: RC_NORMAL_DISCONNECTION,
                properties: Properties::new(),
            },
        );
    }
    let reason_code: u8 = body[0];
    if body.len() > 1 {
        match properties::scan_properties(rest_of(body, 1)) {
            Err(fault) => Err(fault),
            Ok((props, _)) => Ok(DisconnectPacket { reason_code, properties: props }),
        }
    } else {
        Ok(DisconnectPacket { reason_code, properties: Properties::new() })
    }
}

fn scan_suback(body: &[u8], version: u8) -> (r: Result<SubackPacket, Fault>)
    ensures
        match r {
            Ok(p) => suback_at(body@, version) == Parsed::Done(p@),
            Err(fault) => suback_at(body@, version) == fault.outcome::<AckView>(),
        },
{
    if body.len() < 2 {
        return Err(Fault::Bad("truncated suback"));
    }
    proof {
        lemma_field_sizes(body@.skip(2));
    }
    match scan_versioned_properties(version, rest_of(body, 2)) {
        Err(fault) => Err(fault),
        Ok((props, n)) => Ok(
            SubackPacket {
                packet_id: wire::read_u16(body),
                properties: props,
                reason_codes: slice_to_vec(rest_of(body, 2 + n)),
            },
        ),
    }
}

/// Why bytes could not be read as a packet, an overlong length included.
#[derive(Debug)]
pub enum PacketFault {
    Decode(DecodeError),
    Overlong,
}

/// The outcome of reading a packet.
pub open spec fn packet_outcome(r: Result<(Packet, usize), PacketFault>) -> DecodeView {
    match r {
        Ok((p, size)) => DecodeView::Done(p@, size as nat),
        Err(PacketFault::Decode(e)) => e.outcome(),
        Err(PacketFault::Overlong) => DecodeView::Overlong,
    }
}

fn fault_in(fault: Fault) -> (r: PacketFault)
    ensures
        packet_outcome(Err(r)) == (match fault {
            Fault::Bad(text) => DecodeView::Malformed(text@),
            Fault::Overlong => DecodeView::Overlong,
        }),
{
    match fault {
        Fault::Bad(text) => PacketFault::Decode(DecodeError::Malformed(text)),
        Fault::Overlong => PacketFault::Overlong,
    }
}

/// Reads the packet of a protocol version at the start of `data`, whatever
/// `data` is.
pub fn scan_packet(data: &[u8], version: u8) -> (r: Result<(Packet, usize), PacketFault>)
    ensures
        packet_outcome(r) == packet_as(data@, version),
{
    reveal(body_at);
    if data.len() == 0 {
        return Err(PacketFault::Decode(DecodeError::InsufficientData));
    }
    let first: u8 = data[0];
    let packet_type: u8 = first / 16;
    proof {
        wire::law_remaining_length_prefix(data@.skip(1), Seq::empty());
    }
    let (len, n) = match wire::scan_varint(rest_of(data, 1)) {
        Varint::Overlong => {
            return Err(PacketFault::Overlong);
        },
        Varint::Incomplete => {
            return Err(PacketFault::Decode(DecodeError::InsufficientData));
        },
        Varint::Value(len, n) => (len, n),
    };
    if data.len() - 1 - n < len {
        return Err(PacketFault::Decode(DecodeError::InsufficientData));
    }
    let size: usize = 1 + n + len;
    let body = slice_subrange(data, 1 + n, size);
    match packet_type {
        CONNECT => match scan_connect(body) {
            Ok(p) => Ok((Packet::Connect(p), size)),
            Err(fault) => Err(fault_in(fault)),
        },
        PUBLISH => match scan_publish(body, first % 16, version) {
            Ok(p) => Ok((Packet::Publish(p), size)),
            Err(fault) => Err(fault_in(fault)),
        },
        SUBSCRIBE => match scan_subscribe(body, version) {
            Ok(p) => Ok((Packet::Subscribe(p), size)),
            Err(fault) => Err(fault_in(fault)),
        },
        UNSUBSCRIBE => match scan_unsubscribe(body, version) {
            Ok(p) => Ok((Packet::Unsubscribe(p), size)),
            Err(fault) => Err(fault_in(fault)),
        },
        PINGREQ => Ok((Packet::Pingreq, size)),
        DISCONNECT => match scan_disconnect(body) {
            Ok(p) => Ok((Packet::Disconnect(p), size)),
            Err(fault) => Err(fault_in(fault)),
        },
        CONNACK => {
            let session_present: bool = body.len() > 0 && body[0] != 0;
            let reason_code: u8 = if body.len() > 1 {
                body[1]
            } else {
                0
            };
            Ok(
                (
                    Packet::Connack(
                        ConnackPacket {
                            session_present,
                            reason_code,
                            properties: Properties::new(),
                        },
                    ),
                    size,
                ),
            )
        },
        SUBACK => match scan_suback(body, version) {
            Ok(p) => Ok((Packet::Suback(p), size)),
            Err(fault) => Err(fault_in(fault)),
        },
        PUBACK | PUBREC | PUBREL | PUBCOMP | UNSUBACK | PINGRESP => Ok((Packet::Pingresp, size)),
        _ => Err(PacketFault::Decode(DecodeError::UnsupportedPacket(packet_type))),
    }
}

fn malformed(fault: Fault) -> (e: DecodeError)
    requires
        fault !is Overlong,
    ensures
        e matches DecodeError::Malformed(text) && fault == Fault::Bad(text),
{
    match fault {
        Fault::Bad(text) => DecodeError::Malformed(text),
        Fault::Overlong => DecodeError::InsufficientData,
    }
}

/// Reads the body of a CONNECT packet.
pub fn decode_connect(body: &[u8]) -> (r: Result<ConnectPacket, DecodeError>)
    requires
        connect_at(body@) !is Overlong,
    ensures
        match r {
            Ok(p) => connect_at(body@) == Parsed::Done(p@),
            Err(e) => e matches DecodeError::Malformed(text) && connect_at(body@) == Parsed::<
                ConnectView,
            >::Bad(text@),
        },
{
    match scan_connect(body) {
        Ok(p) => Ok(p),
        Err(fault) => Err(malformed(fault)),
    }
}

/// Reads the body of a PUBLISH packet of protocol version 5. The low half of the
/// packet's first byte is `flags`.
pub fn decode_publish(body: &[u8], flags: u8) -> (r: Result<PublishPacket, DecodeError>)
    requires
        publish_at(body@, flags, 5) !is Overlong,
    ensures
        match r {
            Ok(p) => publish_at(body@, flags, 5) == Parsed::Done(p@),
            Err(e) => e matches DecodeError::Malformed(text) && publish_at(body@, flags, 5) == Parsed::<
                PublishView,
            >::Bad(text@),
        },
{
    match scan_publish(body, flags, 5) {
        Ok(p) => Ok(p),
        Err(fault) => Err(malformed(fault)),
    }
}

/// Reads the body of a SUBSCRIBE packet of protocol version 5.
pub fn decode_subscribe(body: &[u8]) -> (r: Result<SubscribePacket, DecodeError>)
    requires
        subscribe_at(body@, 5) !is Overlong,
    ensures
        match r {
            Ok(p) => subscribe_at(body@, 5) == Parsed::Done(p@),
            Err(e) => e matches DecodeError::Malformed(text) && subscribe_at(body@, 5) == Parsed::<
                SubscribeView,
            >::Bad(text@),
        },
{
    match scan_subscribe(body, 5) {
        Ok(p) => Ok(p),
        Err(fault) => Err(malformed(fault)),
    }
}

/// Reads the body of an UNSUBSCRIBE packet of protocol version 5.
pub fn decode_unsubscribe(body: &[u8]) -> (r: Result<UnsubscribePacket, DecodeError>)
    requires
        unsubscribe_at(body@, 5) !is Overlong,
    ensures
        match r {
            Ok(p) => unsubscribe_at(body@, 5) == Parsed::Done(p@),
            Err(e) => e matches DecodeError::Malformed(text) && unsubscribe_at(body@, 5) == Parsed::<
                UnsubscribeView,
            >::Bad(text@),
        },
{
    match scan_unsubscribe(body, 5) {
        Ok(p) => Ok(p),
        Err(fault) => Err(malformed(fault)),
    }
}

/// Reads the body of a DISCONNECT packet.
pub fn decode_disconnect(body: &[u8]) -> (r: Result<DisconnectPacket, DecodeError>)
    requires
        disconnect_at(body@) !is Overlong,
    ensures
        match r {
            Ok(p) => disconnect_at(body@) == Parsed::Done(p@),
            Err(e) => e matches DecodeError::Malformed(text) && disconnect_at(body@) == Parsed::<
                DisconnectView,
            >::Bad(text@),
        },
{
    match scan_disconnect(body) {
        Ok(p) => Ok(p),
        Err(fault) => Err(malformed(fault)),
    }
}

/// Whether every length that is met in reading a packet of protocol version 5
/// from `data` fits a `usize`.
pub fn lengths_fit(data: &[u8]) -> (r: bool)
    ensures
        r == (packet_at(data@) !is Overlong),
{
    match scan_packet(data, 5) {
        Err(PacketFault::Overlong) => false,
        _ => true,
    }
}

/// Reads one packet of protocol version 5 from the start of `data`, and how many
/// bytes it takes.
/// With `InsufficientData` the caller should come back with more bytes.
pub fn decode_packet(data: &[u8]) -> (r: Result<(Packet, usize), DecodeError>)
    requires
        packet_at(data@) !is Overlong,
    ensures
        match r {
            Ok((p, size)) => packet_at(data@) == DecodeView::Done(p@, size as nat),
            Err(e) => packet_at(data@) == e.outcome(),
        },
{
    match scan_packet(data, 5) {
        Ok(found) => Ok(found),
        Err(PacketFault::Decode(e)) => Err(e),
        Err(PacketFault::Overlong) => Err(DecodeError::InsufficientData),
    }
}

// ── Connection acknowledgements ──────────────────────────────────────────

/// A CONNACK packet of protocol version 3.
pub fn connack_v3(session_present: bool, return_code: u8) -> (buf: Vec<u8>)
    ensures
        buf@ == seq![(CONNACK * 16) as u8, 2, flag_byte(session_present), return_code],
{
    let mut buf: Vec<u8> = Vec::new();
    buf.push(CONNACK * 16);
    buf.push(2);
    buf.push(if session_present {
        1
    } else {
        0
    });
    buf.push(return_code);
    buf
}

/// A CONNACK packet of protocol version 5, for a new session.
pub fn connack_v5(reason_code: u8, properties: &Properties) -> (buf: Vec<u8>)
    requires
        properties::encodable(properties@),
    ensures
        buf@ == packet_wire(
            PacketView::Connack(
                ConnackView { session_present: false, reason_code, properties: properties@ },
            ),
        ),
{
    let connack = Packet::Connack(
        ConnackPacket { session_present: false, reason_code, properties: properties.clone() },
    );
    connack.encode()
}

// ── Acknowledgements ─────────────────────────────────────────────────────

/// A PUBACK packet: the packet identifier and, in version 5, success without
/// properties.
pub open spec fn puback_wire(packet_id: u16, is_v5: bool) -> Seq<u8> {
    frame(
        (PUBACK * 16) as u8,
        wire::u16_wire(packet_id) + if is_v5 {
            seq![RC_SUCCESS, 0u8]
        } else {
            Seq::empty()
        },
    )
}

/// A SUBACK packet of protocol version 3, which has no properties.
pub open spec fn suback_v3_wire(packet_id: u16, reason_codes: Seq<u8>) -> Seq<u8> {
    frame((SUBACK * 16) as u8, wire::u16_wire(packet_id) + reason_codes)
}

/// An UNSUBACK packet of protocol version 3: just the packet identifier.
pub open spec fn unsuback_v3_wire(packet_id: u16) -> Seq<u8> {
    frame((UNSUBACK * 16) as u8, wire::u16_wire(packet_id))
}

/// A PUBACK packet.
pub fn puback(packet_id: u16, is_v5: bool) -> (buf: Vec<u8>)
    ensures
        buf@ == puback_wire(packet_id, is_v5),
{
    let mut body: Vec<u8> = Vec::new();
    wire::put_u16(&mut body, packet_id);
    if is_v5 {
        body.push(RC_SUCCESS);
        body.push(0);
    }
    assert(body@ =~= wire::u16_wire(packet_id) + if is_v5 {
        seq![RC_SUCCESS, 0u8]
    } else {
        Seq::empty()
    });
    framed(PUBACK * 16, body)
}

/// A SUBACK packet of protocol version 3.
pub fn suback_v3(packet_id: u16, reason_codes: &Vec<u8>) -> (buf: Vec<u8>)
    ensures
        buf@ == suback_v3_wire(packet_id, reason_codes@),
{
    let mut body: Vec<u8> = Vec::new();
    wire::put_u16(&mut body, packet_id);
    body.extend_from_slice(reason_codes.as_slice());
    assert(body@ =~= wire::u16_wire(packet_id) + reason_codes@);
    framed(SUBACK * 16, body)
}

/// An UNSUBACK packet of protocol version 3.
pub fn unsuback_v3(packet_id: u16) -> (buf: Vec<u8>)
    ensures
        buf@ == unsuback_v3_wire(packet_id),
{
    let mut body: Vec<u8> = Vec::new();
    wire::put_u16(&mut body, packet_id);
    assert(body@ =~= wire::u16_wire(packet_id));
    framed(UNSUBACK * 16, body)
}

// ── Laws ─────────────────────────────────────────────────────────────────

/// The packet in a frame is the one that its body spells, and ends where the frame ends.
pub proof fn lemma_frame(first: u8, body: Seq<u8>, rest: Seq<u8>, version: u8)
    requires
        body.len() < vstd::arithmetic::power::pow(128, wire::varint_limit()),
    ensures
        packet_as(frame(first, body) + rest, version) == body_at(
            first,
            body,
            frame(first, body).len(),
            version,
        ),
{
    let data = frame(first, body) + rest;
    let length = wire::varint_wire(body.len());
    assert(data.skip(1) == length + (body + rest));
    wire::law_remaining_length_round_trip(body.len(), body + rest);
    let n = length.len();
    assert(data.subrange((1 + n) as int, (1 + n + body.len()) as int) == body);
}

/// A SUBACK packet is read back from its encoding, whatever follows it.
pub proof fn law_suback_round_trip(p: AckView, rest: Seq<u8>)
    requires
        p.properties.wf(),
        properties::encodable(p.properties),
        properties::readable(p.properties),
        ack_body(p).len() < vstd::arithmetic::power::pow(128, wire::varint_limit()),
    ensures
        packet_at(packet_wire(PacketView::Suback(p)) + rest) == DecodeView::Done(
            PacketView::Suback(p),
            packet_wire(PacketView::Suback(p)).len(),
        ),
{
    reveal(body_at);
    let body = ack_body(p);
    lemma_frame((SUBACK * 16) as u8, body, rest, 5);
    let props = properties::properties_wire(p.properties);
    wire::law_u16_round_trip(p.packet_id, props + p.reason_codes);
    assert(body == wire::u16_wire(p.packet_id) + (props + p.reason_codes));
    assert(body.skip(2) == props + p.reason_codes);
    properties::law_properties_round_trip(p.properties, p.reason_codes);
    assert(body.skip((2 + props.len()) as int) == p.reason_codes);
}

/// A PUBLISH packet is read back from its encoding, whatever follows it, if it
/// has a packet identifier exactly when it asks for a delivery guarantee.
pub proof fn law_publish_round_trip(p: PublishView, rest: Seq<u8>)
    requires
        p.properties.wf(),
        sendable(PacketView::Publish(p)),
        properties::readable(p.properties),
        p.qos < 4,
        p.packet_id is Some <==> p.qos > 0,
        publish_body(p).len() < vstd::arithmetic::power::pow(128, wire::varint_limit()),
    ensures
        packet_at(packet_wire(PacketView::Publish(p)) + rest) == DecodeView::Done(
            PacketView::Publish(p),
            packet_wire(PacketView::Publish(p)).len(),
        ),
{
    let body = publish_body(p);
    let first = publish_first(p);
    lemma_frame(first, body, rest, 5);
    lemma_publish_body(p);
    let size = frame(first, body).len();
    assert(body_at(first, body, size, 5) == DecodeView::Done(PacketView::Publish(p), size)) by {
        reveal(body_at);
    }
}

proof fn lemma_publish_flags(p: PublishView)
    requires
        p.qos < 4,
    ensures
        publish_first(p) / 16 == PUBLISH,
        ((publish_first(p) % 16) as u8) / 2 % 4 == p.qos,
        bit((publish_first(p) % 16) as u8, 0x08) == p.dup,
        bit((publish_first(p) % 16) as u8, 0x01) == p.retain,
{
    let low = flag_byte(p.dup) * 8 + p.qos * 2 + flag_byte(p.retain);
    assert(p.qos % 4 == p.qos);
    assert(publish_first(p) == PUBLISH * 16 + low);
    assert(low < 16);
}

proof fn lemma_publish_fields(p: PublishView)
    requires
        p.properties.wf(),
        properties::encodable(p.properties),
        wire::utf8(p.topic).len() <= u16::MAX,
        properties::readable(p.properties),
        p.packet_id is Some <==> p.qos > 0,
    ensures
        ({
            let body = publish_body(p);
            let n = wire::text_wire(p.topic).len();
            let data = body.skip((n + publish_id(p).len()) as int);
            let m = properties::properties_wire(p.properties).len();
            &&& wire::text_at(body) == Some((p.topic, n))
            &&& body.len() >= n + publish_id(p).len()
            &&& p.qos > 0 ==> publish_id(p).len() == 2 && Some(
                wire::u16_value(body.skip(n as int)),
            ) == p.packet_id
            &&& p.qos == 0 ==> publish_id(p).len() == 0
            &&& properties::properties_at(data) == Parsed::Done((p.properties, m))
            &&& data.skip(m as int) == p.payload
        }),
{
    let id = publish_id(p);
    let props = properties::properties_wire(p.properties);
    lemma_four_parts(wire::text_wire(p.topic), id, props, p.payload);
    wire::law_utf8_round_trip(p.topic, id + (props + p.payload));
    properties::law_properties_round_trip(p.properties, p.payload);
    if p.qos > 0 {
        wire::law_u16_round_trip(p.packet_id->0, props + p.payload);
    }
}

proof fn lemma_four_parts(a: Seq<u8>, b: Seq<u8>, c: Seq<u8>, d: Seq<u8>)
    ensures
        a + b + c + d == a + (b + (c + d)),
        (a + b + c + d).skip(a.len() as int) == b + (c + d),
        (a + b + c + d).skip((a.len() + b.len()) as int) == c + d,
        (c + d).skip(c.len() as int) == d,
{
}

proof fn lemma_publish_body(p: PublishView)
    requires
        p.properties.wf(),
        sendable(PacketView::Publish(p)),
        properties::readable(p.properties),
        p.qos < 4,
        p.packet_id is Some <==> p.qos > 0,
    ensures
        publish_first(p) / 16 == PUBLISH,
        publish_at(publish_body(p), (publish_first(p) % 16) as u8, 5) == Parsed::Done(p),
{
    lemma_publish_flags(p);
    lemma_publish_fields(p);
}

/// A CONNACK packet is read back from its encoding without its properties.
pub proof fn law_connack_round_trip(p: ConnackView, rest: Seq<u8>)
    requires
        connack_body(p).len() < vstd::arithmetic::power::pow(128, wire::varint_limit()),
    ensures
        packet_at(packet_wire(PacketView::Connack(p)) + rest) == DecodeView::Done(
            PacketView::Connack(ConnackView { properties: PropertiesView::empty(), ..p }),
            packet_wire(PacketView::Connack(p)).len(),
        ),
{
    let first = (CONNACK * 16) as u8;
    let body = connack_body(p);
    let size = frame(first, body).len();
    lemma_frame(first, body, rest, 5);
    assert(connack_at(body) == (ConnackView { properties: PropertiesView::empty(), ..p }));
    assert(body_at(first, body, size, 5) == DecodeView::Done(
        PacketView::Connack(connack_at(body)),
        size,
    )) by {
        reveal(body_at);
    }
}

/// A PINGRESP packet is read back, and so is an UNSUBACK packet, as one that
/// asks for nothing.
pub proof fn law_silent_packets(p: AckView, rest: Seq<u8>)
    requires
        ack_body(p).len() < vstd::arithmetic::power::pow(128, wire::varint_limit()),
    ensures
        packet_at(packet_wire(PacketView::Pingresp) + rest) == DecodeView::Done(
            PacketView::Pingresp,
            2,
        ),
        packet_at(packet_wire(PacketView::Unsuback(p)) + rest) == DecodeView::Done(
            PacketView::Pingresp,
            packet_wire(PacketView::Unsuback(p)).len(),
        ),
{
    reveal(body_at);
    vstd::arithmetic::power::lemma_pow_positive(128, wire::varint_limit());
    lemma_frame((PINGRESP * 16) as u8, Seq::empty(), rest, 5);
    lemma_frame((UNSUBACK * 16) as u8, ack_body(p), rest, 5);
}

/// A SUBACK packet of protocol version 3 is read back, whatever follows it.
pub proof fn law_suback_v3_round_trip(packet_id: u16, reason_codes: Seq<u8>, rest: Seq<u8>)
    requires
        2 + reason_codes.len() < vstd::arithmetic::power::pow(128, wire::varint_limit()),
    ensures
        packet_as(suback_v3_wire(packet_id, reason_codes) + rest, 4) == DecodeView::Done(
            PacketView::Suback(
                AckView { packet_id, properties: PropertiesView::empty(), reason_codes },
            ),
            suback_v3_wire(packet_id, reason_codes).len(),
        ),
{
    reveal(body_at);
    let body = wire::u16_wire(packet_id) + reason_codes;
    lemma_frame((SUBACK * 16) as u8, body, rest, 4);
    wire::law_u16_round_trip(packet_id, reason_codes);
    assert(body.skip(2) =~= reason_codes);
}

/// Whatever the type and the version, a packet whose body is acknowledged
/// without being looked at ends where its length says.
pub proof fn law_ack_ends(first: u8, body: Seq<u8>, rest: Seq<u8>, version: u8)
    requires
        body.len() < vstd::arithmetic::power::pow(128, wire::varint_limit()),
        first / 16 == PUBACK || first / 16 == UNSUBACK || first / 16 == PINGRESP,
    ensures
        packet_as(frame(first, body) + rest, version) == DecodeView::Done(
            PacketView::Pingresp,
            frame(first, body).len(),
        ),
{
    reveal(body_at);
    lemma_frame(first, body, rest, version);
}

/// Reading is stateless: bytes that arrive later change nothing about a packet
/// that was read or refused, and a packet lies within the bytes it was read from.
pub proof fn law_decode_prefix(data: Seq<u8>, more: Seq<u8>, version: u8)
    ensures
        packet_as(data, version) !is Insufficient ==> packet_as(data + more, version) == packet_as(
            data,
            version,
        ),
        packet_as(data, version) matches DecodeView::Done(_, size) ==> 2 <= size <= data.len(),
{
    reveal(body_at);
    if data.len() > 0 {
        wire::law_remaining_length_prefix(data.skip(1), more);
        assert((data + more).skip(1) == data.skip(1) + more);
        match wire::varint_at(data.skip(1)) {
            VarintView::Value(len, n) => {
                if data.len() >= 1 + n + len {
                    assert((data + more).subrange((1 + n) as int, (1 + n + len) as int)
                        == data.subrange((1 + n) as int, (1 + n + len) as int));
                }
            },
            _ => {},
        }
    }
}

} // verus!
