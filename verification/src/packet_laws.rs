//! How packets lie on the wire: each packet that a client sends is read as exactly
//! the fields that were laid out, whatever follows them.

use crate::packet;
use crate::packet::{
    ConnectView, DecodeView, DisconnectView, PacketView, PublishView, SubscribeOptions,
    SubscribeView, UnsubscribeView, WillView,
};
use crate::properties;
use crate::properties::PropertiesView;
use crate::wire;
use crate::wire::Parsed;
use vstd::prelude::*;

verus! {

/// How long the body of a packet may be for its length to fit a `usize`.
pub open spec fn body_limit() -> int {
    vstd::arithmetic::power::pow(128, wire::varint_limit())
}

/// Whether properties can be written, and read back.
pub open spec fn properties_fit(p: PropertiesView) -> bool {
    p.wf() && properties::encodable(p) && properties::readable(p)
}

/// Whether a packet of a protocol version can have these properties: before
/// version 5 there are none.
pub open spec fn properties_for(version: u8, p: PropertiesView) -> bool {
    if version == 5 {
        properties_fit(p)
    } else {
        p == PropertiesView::empty()
    }
}

/// Properties as a packet of a protocol version has them.
pub open spec fn properties_part(version: u8, p: PropertiesView) -> Seq<u8> {
    if version == 5 {
        properties::properties_wire(p)
    } else {
        Seq::empty()
    }
}

proof fn lemma_skip(a: Seq<u8>, b: Seq<u8>)
    ensures
        (a + b).skip(a.len() as int) == b,
        (a + b).len() == a.len() + b.len(),
{
    assert((a + b).skip(a.len() as int) =~= b);
}

proof fn lemma_properties_part(version: u8, p: PropertiesView, rest: Seq<u8>)
    requires
        properties_for(version, p),
    ensures
        packet::versioned_properties_at(version, properties_part(version, p) + rest)
            == Parsed::Done((p, properties_part(version, p).len())),
        (properties_part(version, p) + rest).skip(properties_part(version, p).len() as int) == rest,
{
    lemma_skip(properties_part(version, p), rest);
    if version == 5 {
        properties::law_properties_round_trip(p, rest);
    }
}

// ── CONNECT ──────────────────────────────────────────────────────────────

/// Whether the flags of a CONNECT packet tell what it holds. The lowest bit tells
/// nothing, nor do those about the will where there is none.
pub open spec fn flags_tell(flags: u8, p: ConnectView) -> bool {
    &&& p.clean_start <==> flags / 2 % 2 == 1
    &&& p.will is Some <==> flags / 4 % 2 == 1
    &&& p.will matches Some(w) ==> w.qos == flags / 8 % 4 && (w.retain <==> flags / 32 % 2 == 1)
    &&& p.password is Some <==> flags / 64 % 2 == 1
    &&& p.username is Some <==> flags / 128 % 2 == 1
}

/// Whether the fields of a CONNECT packet fit their places.
pub open spec fn connect_fits(p: ConnectView) -> bool {
    &&& p.protocol_version == 4 || p.protocol_version == 5
    &&& properties_for(p.protocol_version, p.properties)
    &&& wire::utf8(p.client_id).len() <= u16::MAX
    &&& p.will matches Some(w) ==> {
        &&& properties_for(p.protocol_version, w.properties)
        &&& wire::utf8(w.topic).len() <= u16::MAX
        &&& w.payload.len() <= u16::MAX
    }
    &&& p.username matches Some(name) ==> wire::utf8(name).len() <= u16::MAX
    &&& p.password matches Some(password) ==> password.len() <= u16::MAX
}

/// The will in a CONNECT packet: its properties, its topic, its payload.
pub open spec fn will_part(version: u8, will: Option<WillView>) -> Seq<u8> {
    match will {
        Some(w) => properties_part(version, w.properties) + (wire::text_wire(w.topic)
            + wire::binary_wire(w.payload)),
        None => Seq::empty(),
    }
}

/// A text field that may be absent.
pub open spec fn text_part(t: Option<Seq<char>>) -> Seq<u8> {
    match t {
        Some(t) => wire::text_wire(t),
        None => Seq::empty(),
    }
}

/// A binary field that may be absent.
pub open spec fn binary_part(b: Option<Seq<u8>>) -> Seq<u8> {
    match b {
        Some(b) => wire::binary_wire(b),
        None => Seq::empty(),
    }
}

/// The fields of a CONNECT packet behind its properties, in order: the client's
/// identifier, the will, the name, the password.
pub open spec fn connect_payload(p: ConnectView, rest: Seq<u8>) -> Seq<u8> {
    wire::text_wire(p.client_id) + (will_part(p.protocol_version, p.will) + (text_part(p.username)
        + (binary_part(p.password) + rest)))
}

/// The body of a CONNECT packet with these flags: the name of the protocol, its
/// version, the flags, the keep alive interval, the properties, the other fields.
pub open spec fn connect_body(p: ConnectView, flags: u8, rest: Seq<u8>) -> Seq<u8> {
    wire::text_wire("MQTT"@) + (seq![p.protocol_version, flags] + (wire::u16_wire(p.keep_alive) + (
    properties_part(p.protocol_version, p.properties) + connect_payload(p, rest))))
}

proof fn lemma_will_part(p: ConnectView, flags: u8, rest: Seq<u8>)
    requires
        connect_fits(p),
        flags_tell(flags, p),
    ensures
        packet::will_at(p.protocol_version, flags, will_part(p.protocol_version, p.will) + rest)
            == Parsed::Done((p.will, will_part(p.protocol_version, p.will).len())),
{
    match p.will {
        Some(w) => {
            let version = p.protocol_version;
            let props = properties_part(version, w.properties);
            let topic = wire::text_wire(w.topic);
            let payload = wire::binary_wire(w.payload);
            let data = will_part(version, p.will) + rest;
            assert(data == props + (topic + (payload + rest)));
            lemma_properties_part(version, w.properties, topic + (payload + rest));
            wire::law_utf8_round_trip(w.topic, payload + rest);
            lemma_skip(topic, payload + rest);
            assert(data.skip((props.len() + topic.len()) as int) == payload + rest);
            wire::law_binary_round_trip(w.payload, rest);
        },
        None => {},
    }
}

proof fn lemma_login_part(p: ConnectView, flags: u8, rest: Seq<u8>)
    requires
        connect_fits(p),
        flags_tell(flags, p),
    ensures
        packet::login_at(flags, text_part(p.username) + (binary_part(p.password) + rest))
            == Parsed::Done((p.username, p.password)),
{
    let tail = binary_part(p.password) + rest;
    lemma_skip(text_part(p.username), tail);
    match p.password {
        Some(password) => {
            wire::law_binary_round_trip(password, rest);
        },
        None => {},
    }
    assert(packet::password_at(flags, tail) == Parsed::Done(p.password));
    match p.username {
        Some(name) => {
            wire::law_utf8_round_trip(name, tail);
        },
        None => {
            assert(text_part(p.username) + tail =~= tail);
        },
    }
}

/// The parts of a payload are read one after the other, each behind the one before.
proof fn lemma_parts_in_order(
    p: ConnectView,
    flags: u8,
    id: Seq<u8>,
    will: Seq<u8>,
    login: Seq<u8>,
)
    requires
        id.len() > 0,
        flags_tell(flags, p),
        wire::text_at(id + (will + login)) == Some((p.client_id, id.len())),
        packet::will_at(p.protocol_version, flags, will + login) == Parsed::Done(
            (p.will, will.len()),
        ),
        packet::login_at(flags, login) == Parsed::Done((p.username, p.password)),
    ensures
        packet::connect_payload_at(
            p.protocol_version,
            flags,
            p.keep_alive,
            p.properties,
            id + (will + login),
        ) == Parsed::Done(p),
{
    let data = id + (will + login);
    assert(data.skip(id.len() as int) =~= will + login);
    assert(data.skip((id.len() + will.len()) as int) =~= login);
}

proof fn lemma_connect_payload(p: ConnectView, flags: u8, rest: Seq<u8>)
    requires
        connect_fits(p),
        flags_tell(flags, p),
    ensures
        packet::connect_payload_at(
            p.protocol_version,
            flags,
            p.keep_alive,
            p.properties,
            connect_payload(p, rest),
        ) == Parsed::Done(p),
{
    let id = wire::text_wire(p.client_id);
    let will = will_part(p.protocol_version, p.will);
    let login = text_part(p.username) + (binary_part(p.password) + rest);
    wire::law_utf8_round_trip(p.client_id, will + login);
    lemma_will_part(p, flags, login);
    lemma_login_part(p, flags, rest);
    lemma_parts_in_order(p, flags, id, will, login);
}

/// A CONNECT packet is read as the fields that were laid out, in either version and
/// with whatever flags: nothing of the will is taken for the name or the password.
pub proof fn law_connect_round_trip(
    p: ConnectView,
    flags: u8,
    rest: Seq<u8>,
    first: u8,
    version: u8,
    more: Seq<u8>,
)
    requires
        connect_fits(p),
        flags_tell(flags, p),
        first / 16 == 1,
        connect_body(p, flags, rest).len() < body_limit(),
    ensures
        packet::connect_at(connect_body(p, flags, rest)) == Parsed::Done(p),
        ({
            let data = packet::frame(first, connect_body(p, flags, rest));
            packet::packet_as(data + more, version) == DecodeView::Done(
                PacketView::Connect(p),
                data.len(),
            )
        }),
{
    let body = connect_body(p, flags, rest);
    let name = wire::text_wire("MQTT"@);
    let props = properties_part(p.protocol_version, p.properties);
    let payload = connect_payload(p, rest);
    let alive = wire::u16_wire(p.keep_alive) + (props + payload);
    reveal_strlit("MQTT");
    wire::lemma_utf8_len("MQTT"@);
    wire::law_utf8_round_trip("MQTT"@, seq![p.protocol_version, flags] + alive);
    lemma_skip(name, seq![p.protocol_version, flags] + alive);
    let n = name.len() as int;
    assert(body[n] == p.protocol_version);
    assert(body[n + 1] == flags);
    assert(body.skip(n + 2) =~= alive);
    wire::law_u16_round_trip(p.keep_alive, props + payload);
    assert(body.skip(n + 4) =~= props + payload);
    lemma_properties_part(p.protocol_version, p.properties, payload);
    lemma_connect_payload(p, flags, rest);
    let size = packet::frame(first, body).len();
    packet::lemma_frame(first, body, more, version);
    assert(packet::body_at(first, body, size, version) == DecodeView::Done(
        PacketView::Connect(p),
        size,
    )) by {
        reveal(packet::body_at);
    }
}

// ── SUBSCRIBE and UNSUBSCRIBE ────────────────────────────────────────────

/// What the byte behind a topic filter asks for.
pub open spec fn options_in(b: u8) -> SubscribeOptions {
    SubscribeOptions {
        qos: (b % 4) as u8,
        no_local: b / 4 % 2 == 1,
        retain_as_published: b / 8 % 2 == 1,
        retain_handling: (b / 16 % 4) as u8,
    }
}

/// Topic filters, each with the byte behind it, one after the other.
pub open spec fn entries_wire(entries: Seq<(Seq<char>, u8)>) -> Seq<u8>
    decreases entries.len(),
{
    if entries.len() == 0 {
        Seq::empty()
    } else {
        wire::text_wire(entries[0].0) + (seq![entries[0].1] + entries_wire(entries.drop_first()))
    }
}

/// Topic filters, one after the other.
pub open spec fn filters_wire(filters: Seq<Seq<char>>) -> Seq<u8>
    decreases filters.len(),
{
    if filters.len() == 0 {
        Seq::empty()
    } else {
        wire::text_wire(filters[0]) + filters_wire(filters.drop_first())
    }
}

proof fn lemma_entries(
    entries: Seq<(Seq<char>, u8)>,
    seen: Seq<(Seq<char>, SubscribeOptions)>,
)
    requires
        forall|i: int|
            0 <= i < entries.len() ==> wire::utf8((#[trigger] entries[i]).0).len() <= u16::MAX,
    ensures
        packet::subscriptions_at(entries_wire(entries), seen) == Parsed::Done(
            seen + Seq::new(
                entries.len(),
                |i: int| (entries[i].0, options_in(entries[i].1)),
            ),
        ),
    decreases entries.len(),
{
    let want = Seq::new(entries.len(), |i: int| (entries[i].0, options_in(entries[i].1)));
    if entries.len() == 0 {
        assert(seen + want =~= seen);
    } else {
        let later = entries.drop_first();
        let text = wire::text_wire(entries[0].0);
        let tail = seq![entries[0].1] + entries_wire(later);
        let data = entries_wire(entries);
        let next = seen.push((entries[0].0, options_in(entries[0].1)));
        wire::law_utf8_round_trip(entries[0].0, tail);
        wire::law_binary_round_trip(wire::utf8(entries[0].0), tail);
        assert(data[text.len() as int] == entries[0].1);
        assert(data.skip((text.len() + 1) as int) =~= entries_wire(later));
        assert forall|i: int| 0 <= i < later.len() implies wire::utf8(
            (#[trigger] later[i]).0,
        ).len() <= u16::MAX by {
            assert(later[i] == entries[i + 1]);
        }
        lemma_entries(later, next);
        assert(next + Seq::new(later.len(), |i: int| (later[i].0, options_in(later[i].1)))
            =~= seen + want);
    }
}

proof fn lemma_filters(filters: Seq<Seq<char>>, seen: Seq<Seq<char>>)
    requires
        forall|i: int|
            0 <= i < filters.len() ==> wire::utf8(#[trigger] filters[i]).len() <= u16::MAX,
    ensures
        packet::filters_at(filters_wire(filters), seen) == Parsed::Done(seen + filters),
    decreases filters.len(),
{
    if filters.len() == 0 {
        assert(seen + filters =~= seen);
    } else {
        let later = filters.drop_first();
        let text = wire::text_wire(filters[0]);
        wire::law_utf8_round_trip(filters[0], filters_wire(later));
        wire::law_binary_round_trip(wire::utf8(filters[0]), filters_wire(later));
        lemma_skip(text, filters_wire(later));
        assert forall|i: int| 0 <= i < later.len() implies wire::utf8(
            #[trigger] later[i],
        ).len() <= u16::MAX by {
            assert(later[i] == filters[i + 1]);
        }
        lemma_filters(later, seen.push(filters[0]));
        assert(seen.push(filters[0]) + later =~= seen + filters);
    }
}

/// A SUBSCRIBE packet is read as the packet identifier, the properties where the
/// version has them, and all the topic filters in order, each with the options of
/// the byte behind it.
pub proof fn law_subscribe_round_trip(
    id: u16,
    props: PropertiesView,
    entries: Seq<(Seq<char>, u8)>,
    first: u8,
    version: u8,
    more: Seq<u8>,
)
    requires
        properties_for(version, props),
        forall|i: int|
            0 <= i < entries.len() ==> wire::utf8((#[trigger] entries[i]).0).len() <= u16::MAX,
        first / 16 == 8,
        2 + properties_part(version, props).len() + entries_wire(entries).len() < body_limit(),
    ensures
        ({
            let data = packet::frame(
                first,
                wire::u16_wire(id) + (properties_part(version, props) + entries_wire(entries)),
            );
            packet::packet_as(data + more, version) == DecodeView::Done(
                PacketView::Subscribe(
                    SubscribeView {
                        packet_id: id,
                        properties: props,
                        topic_filters: Seq::new(
                            entries.len(),
                            |i: int| (entries[i].0, options_in(entries[i].1)),
                        ),
                    },
                ),
                data.len(),
            )
        }),
{
    let tail = properties_part(version, props) + entries_wire(entries);
    let body = wire::u16_wire(id) + tail;
    let want = SubscribeView {
        packet_id: id,
        properties: props,
        topic_filters: Seq::new(
            entries.len(),
            |i: int| (entries[i].0, options_in(entries[i].1)),
        ),
    };
    wire::law_u16_round_trip(id, tail);
    lemma_properties_part(version, props, entries_wire(entries));
    assert(body.skip(2) =~= tail);
    assert(body.skip((2 + properties_part(version, props).len()) as int) =~= entries_wire(entries));
    lemma_entries(entries, Seq::empty());
    assert(Seq::<(Seq<char>, SubscribeOptions)>::empty() + want.topic_filters
        =~= want.topic_filters);
    assert(packet::subscribe_at(body, version) == Parsed::Done(want));
    let size = packet::frame(first, body).len();
    packet::lemma_frame(first, body, more, version);
    assert(packet::body_at(first, body, size, version) == DecodeView::Done(
        PacketView::Subscribe(want),
        size,
    )) by {
        reveal(packet::body_at);
    }
}

/// An UNSUBSCRIBE packet is read as the packet identifier, the properties where the
/// version has them, and all the topic filters in order.
pub proof fn law_unsubscribe_round_trip(
    p: UnsubscribeView,
    first: u8,
    version: u8,
    more: Seq<u8>,
)
    requires
        properties_for(version, p.properties),
        forall|i: int|
            0 <= i < p.topic_filters.len() ==> wire::utf8(#[trigger] p.topic_filters[i]).len()
                <= u16::MAX,
        first / 16 == 10,
        2 + properties_part(version, p.properties).len() + filters_wire(p.topic_filters).len()
            < body_limit(),
    ensures
        ({
            let data = packet::frame(
                first,
                wire::u16_wire(p.packet_id) + (properties_part(version, p.properties)
                    + filters_wire(p.topic_filters)),
            );
            packet::packet_as(data + more, version) == DecodeView::Done(
                PacketView::Unsubscribe(p),
                data.len(),
            )
        }),
{
    let filters = filters_wire(p.topic_filters);
    let tail = properties_part(version, p.properties) + filters;
    let body = wire::u16_wire(p.packet_id) + tail;
    wire::law_u16_round_trip(p.packet_id, tail);
    lemma_properties_part(version, p.properties, filters);
    assert(body.skip(2) =~= tail);
    assert(body.skip((2 + properties_part(version, p.properties).len()) as int) =~= filters);
    lemma_filters(p.topic_filters, Seq::empty());
    assert(Seq::<Seq<char>>::empty() + p.topic_filters =~= p.topic_filters);
    assert(packet::unsubscribe_at(body, version) == Parsed::Done(p));
    let size = packet::frame(first, body).len();
    packet::lemma_frame(first, body, more, version);
    assert(packet::body_at(first, body, size, version) == DecodeView::Done(
        PacketView::Unsubscribe(p),
        size,
    )) by {
        reveal(packet::body_at);
    }
}

// ── PUBLISH and DISCONNECT ───────────────────────────────────────────────

/// The packet identifier, where there is one.
pub open spec fn id_part(id: Option<u16>) -> Seq<u8> {
    match id {
        Some(id) => wire::u16_wire(id),
        None => Seq::empty(),
    }
}

/// The body of a PUBLISH packet: the topic, the packet identifier where a delivery
/// guarantee is asked for, the properties, and the message to the end.
pub open spec fn message_body(p: PublishView, version: u8) -> Seq<u8> {
    wire::text_wire(p.topic) + (id_part(p.packet_id) + (properties_part(version, p.properties)
        + p.payload))
}

/// A PUBLISH packet of either version is read as the topic, the packet identifier,
/// the properties and the message that were laid out, with the delivery flags of
/// its first byte.
pub proof fn law_message_round_trip(p: PublishView, first: u8, version: u8, more: Seq<u8>)
    requires
        properties_for(version, p.properties),
        wire::utf8(p.topic).len() <= u16::MAX,
        first / 16 == 3,
        p.dup <==> first / 8 % 2 == 1,
        p.qos == first / 2 % 4,
        p.retain <==> first % 2 == 1,
        p.packet_id is Some <==> p.qos > 0,
        message_body(p, version).len() < body_limit(),
    ensures
        ({
            let data = packet::frame(first, message_body(p, version));
            packet::packet_as(data + more, version) == DecodeView::Done(
                PacketView::Publish(p),
                data.len(),
            )
        }),
{
    let body = message_body(p, version);
    let size = packet::frame(first, body).len();
    lemma_low_flags(first);
    lemma_message_body(p, (first % 16) as u8, version);
    packet::lemma_frame(first, body, more, version);
    assert(packet::body_at(first, body, size, version) == DecodeView::Done(
        PacketView::Publish(p),
        size,
    )) by {
        reveal(packet::body_at);
    }
}

proof fn lemma_low_flags(first: u8)
    ensures
        ((first % 16) as u8) / 2 % 4 == first / 2 % 4,
        ((first % 16) as u8) / 8 % 2 == first / 8 % 2,
        ((first % 16) as u8) % 2 == first % 2,
{
    assert(((first % 16) as u8) / 2 % 4 == first / 2 % 4 && ((first % 16) as u8) / 8 % 2 == first
        / 8 % 2 && ((first % 16) as u8) % 2 == first % 2) by (bit_vector);
}

proof fn lemma_message_body(p: PublishView, flags: u8, version: u8)
    requires
        properties_for(version, p.properties),
        wire::utf8(p.topic).len() <= u16::MAX,
        p.dup <==> flags / 8 % 2 == 1,
        p.qos == flags / 2 % 4,
        p.retain <==> flags % 2 == 1,
        p.packet_id is Some <==> p.qos > 0,
    ensures
        packet::publish_at(message_body(p, version), flags, version) == Parsed::Done(p),
{
    let body = message_body(p, version);
    let topic = wire::text_wire(p.topic);
    let id = id_part(p.packet_id);
    let tail = properties_part(version, p.properties) + p.payload;
    wire::law_utf8_round_trip(p.topic, id + tail);
    lemma_skip(topic, id + tail);
    lemma_properties_part(version, p.properties, p.payload);
    assert(body.skip((topic.len() + id.len()) as int) =~= tail);
    assert(packet::bit(flags, 0x01) == p.retain);
    if p.qos > 0 {
        wire::law_u16_round_trip(p.packet_id->0, tail);
    } else {
        assert(id.len() == 0);
    }
}

/// A DISCONNECT packet is read as the reason and the properties that were laid
/// out. Without properties the reason is read alone, and where nothing is laid out the
/// client left as it should.
pub proof fn law_disconnect_round_trip(p: DisconnectView, first: u8, version: u8, more: Seq<u8>)
    requires
        properties_fit(p.properties),
        first / 16 == 14,
        1 + properties::properties_wire(p.properties).len() < body_limit(),
    ensures
        ({
            let data = packet::frame(
                first,
                seq![p.reason_code] + properties::properties_wire(p.properties),
            );
            packet::packet_as(data + more, version) == DecodeView::Done(
                PacketView::Disconnect(p),
                data.len(),
            )
        }),
        packet::packet_as(
            packet::frame(first, seq![p.reason_code]) + more,
            version,
        ) == DecodeView::Done(
            PacketView::Disconnect(
                DisconnectView {
                    reason_code: p.reason_code,
                    properties: PropertiesView::empty(),
                },
            ),
            3,
        ),
        packet::packet_as(packet::frame(first, Seq::empty()) + more, version) == DecodeView::Done(
            PacketView::Disconnect(
                DisconnectView { reason_code: 0, properties: PropertiesView::empty() },
            ),
            2,
        ),
{
    let props = properties::properties_wire(p.properties);
    let body = seq![p.reason_code] + props;
    let none = Seq::<u8>::empty();
    assert(body.skip(1) =~= props);
    assert(props + none =~= props);
    properties::law_properties_round_trip(p.properties, none);
    assert(props.len() > 0);
    assert(packet::disconnect_at(body) == Parsed::Done(p));
    let size = packet::frame(first, body).len();
    packet::lemma_frame(first, body, more, version);
    packet::lemma_frame(first, none, more, version);
    let short = seq![p.reason_code];
    packet::lemma_frame(first, short, more, version);
    assert(packet::frame(first, none).len() == 2);
    assert(packet::frame(first, short).len() == 3);
    assert(packet::body_at(first, short, 3, version) == DecodeView::Done(
        PacketView::Disconnect(
            DisconnectView { reason_code: p.reason_code, properties: PropertiesView::empty() },
        ),
        3,
    )) by {
        reveal(packet::body_at);
    }
    assert(packet::body_at(first, body, size, version) == DecodeView::Done(
        PacketView::Disconnect(p),
        size,
    )) by {
        reveal(packet::body_at);
    }
    assert(packet::body_at(first, none, 2, version) == DecodeView::Done(
        PacketView::Disconnect(
            DisconnectView { reason_code: 0, properties: PropertiesView::empty() },
        ),
        2,
    )) by {
        reveal(packet::body_at);
    }
}

/// A PINGREQ packet is read as such, whatever its version.
pub proof fn law_ping_round_trip(first: u8, version: u8, more: Seq<u8>)
    requires
        first / 16 == 12,
    ensures
        packet::packet_as(seq![first, 0u8] + more, version) == DecodeView::Done(
            PacketView::Pingreq,
            2,
        ),
{
    vstd::arithmetic::power::lemma_pow_positive(128, wire::varint_limit());
    packet::lemma_frame(first, Seq::empty(), more, version);
    assert(packet::frame(first, Seq::empty()) =~= seq![first, 0u8]);
    assert(packet::body_at(first, Seq::empty(), 2, version) == DecodeView::Done(
        PacketView::Pingreq,
        2,
    )) by {
        reveal(packet::body_at);
    }
}

} // verus!
