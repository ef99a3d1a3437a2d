//! The bytes of the fields that packets are made of: integers, lengths, texts,
//! properties, and the packets that a broker sends.

use crate::packet;
use crate::packet::{AckView, ConnackView, PacketView, PublishView};
use crate::properties;
use crate::properties::{Properties, PropertiesView, PropertyKind, ValueView};
use crate::wire;
use crate::wire::{Parsed, VarintView};
use vstd::prelude::*;

verus! {

// ── Integers and lengths ─────────────────────────────────────────────────

/// Integers travel with their most significant byte first.
pub proof fn law_integers(a: u8, b: u8, c: u8, d: u8, rest: Seq<u8>, n: u16, m: u32)
    ensures
        wire::u16_value(seq![a, b] + rest) == a * 256 + b,
        wire::u32_value(seq![a, b, c, d] + rest) == a * 16777216 + b * 65536 + c * 256 + d,
        wire::u16_wire(n).len() == 2,
        wire::u16_wire(n)[0] * 256 + wire::u16_wire(n)[1] == n,
        wire::u32_wire(m).len() == 4,
        wire::u32_wire(m)[0] * 16777216 + wire::u32_wire(m)[1] * 65536 + wire::u32_wire(m)[2] * 256
            + wire::u32_wire(m)[3] == m,
{
}

/// A length takes one byte for each group of seven bits, the lowest group first, and
/// every byte but the last has its top bit set.
pub proof fn law_length_bytes(n: nat)
    ensures
        n < 128 ==> wire::varint_wire(n) == seq![n as u8],
        128 <= n < 16384 ==> wire::varint_wire(n) == seq![(n % 128 + 128) as u8, (n / 128) as u8],
        16384 <= n < 2097152 ==> wire::varint_wire(n) == seq![
            (n % 128 + 128) as u8,
            (n / 128 % 128 + 128) as u8,
            (n / 16384) as u8,
        ],
        2097152 <= n < 268435456 ==> wire::varint_wire(n) == seq![
            (n % 128 + 128) as u8,
            (n / 128 % 128 + 128) as u8,
            (n / 16384 % 128 + 128) as u8,
            (n / 2097152) as u8,
        ],
{
    reveal_with_fuel(wire::varint_wire, 4);
    assert(n / 128 / 128 == n / 16384);
    assert(n / 128 / 128 / 128 == n / 2097152);
}

/// A length is read from the bytes up to the first whose top bit is clear, and no
/// byte behind that one counts.
pub proof fn law_length_is_read(a: u8, b: u8, c: u8, d: u8, rest: Seq<u8>)
    requires
        a < 128,
        b < 128,
        c < 128,
        d < 128,
    ensures
        wire::varint_at(seq![a] + rest) == VarintView::Value(a as nat, 1),
        wire::varint_at(seq![(a + 128) as u8, b] + rest) == VarintView::Value(
            (a + b * 128) as nat,
            2,
        ),
        wire::varint_at(seq![(a + 128) as u8, (b + 128) as u8, c] + rest) == VarintView::Value(
            (a + b * 128 + c * 16384) as nat,
            3,
        ),
        wire::varint_at(seq![(a + 128) as u8, (b + 128) as u8, (c + 128) as u8, d] + rest)
            == VarintView::Value((a + b * 128 + c * 16384 + d * 2097152) as nat, 4),
{
    reveal_with_fuel(wire::continuation_len, 4);
    reveal_with_fuel(wire::varint_value, 4);
    let one = seq![a] + rest;
    let two = seq![(a + 128) as u8, b] + rest;
    let three = seq![(a + 128) as u8, (b + 128) as u8, c] + rest;
    let four = seq![(a + 128) as u8, (b + 128) as u8, (c + 128) as u8, d] + rest;
    assert(one[0] == a);
    assert(two[0] == a + 128 && two.drop_first()[0] == b);
    assert(three[0] == a + 128 && three.drop_first()[0] == b + 128
        && three.drop_first().drop_first()[0] == c);
    assert(four[0] == a + 128 && four.drop_first()[0] == b + 128
        && four.drop_first().drop_first()[0] == c + 128
        && four.drop_first().drop_first().drop_first()[0] == d);
}

/// A field of counted bytes is read whole: the two bytes in front tell how many
/// bytes follow, and where fewer do there is no field.
pub proof fn law_counted_bytes(hi: u8, lo: u8, content: Seq<u8>, rest: Seq<u8>, k: int)
    requires
        hi * 256 + lo == content.len(),
    ensures
        wire::binary_at(seq![hi, lo] + content + rest) == Some((content, 2 + content.len())),
        wire::binary_wire(content) == seq![hi, lo] + content,
        0 <= k < 2 + content.len() ==> wire::binary_at((seq![hi, lo] + content).take(k)) is None,
{
    let field = seq![hi, lo] + content;
    let data = field + rest;
    assert(data[0] == hi && data[1] == lo);
    assert(data.subrange(2, 2 + content.len() as int) =~= content);
    assert(wire::binary_wire(content) =~= field);
    if 2 <= k < 2 + content.len() {
        assert(field.take(k)[0] == hi && field.take(k)[1] == lo);
    }
}

/// A text is the counted bytes of its UTF-8 encoding, and bytes that are no such
/// encoding are no text.
pub proof fn law_counted_text(hi: u8, lo: u8, content: Seq<u8>, rest: Seq<u8>)
    requires
        hi * 256 + lo == content.len(),
    ensures
        vstd::utf8::valid_utf8(content) ==> wire::text_at(seq![hi, lo] + content + rest) == Some(
            (vstd::utf8::decode_utf8(content), 2 + content.len()),
        ),
        !vstd::utf8::valid_utf8(content) ==> wire::text_at(seq![hi, lo] + content + rest) is None,
        forall|text: Seq<char>| #[trigger]
            vstd::utf8::encode_utf8(text) == content ==> wire::text_wire(text) == seq![hi, lo]
                + content,
{
    law_counted_bytes(hi, lo, content, rest, 0);
}

// ── Properties ───────────────────────────────────────────────────────────

/// How the value of each property is laid out, by its number.
pub proof fn law_property_layouts(id: u8)
    ensures
        properties::kind_of(id) == Some(PropertyKind::Byte) <==> seq![
            0x01u8,
            0x18,
            0x1A,
            0x24,
            0x25,
            0x28,
            0x29,
            0x2A,
        ].contains(id),
        properties::kind_of(id) == Some(PropertyKind::Two) <==> seq![
            0x13u8,
            0x21,
            0x22,
            0x23,
        ].contains(id),
        properties::kind_of(id) == Some(PropertyKind::Four) <==> seq![
            0x02u8,
            0x11,
            0x19,
            0x27,
        ].contains(id),
        properties::kind_of(id) == Some(PropertyKind::Variable) <==> id == 0x0B,
        properties::kind_of(id) == Some(PropertyKind::Text) <==> seq![
            0x03u8,
            0x08,
            0x12,
            0x15,
            0x1C,
            0x1D,
            0x1E,
        ].contains(id),
        properties::kind_of(id) == Some(PropertyKind::Binary) <==> seq![0x09u8, 0x16].contains(id),
        properties::kind_of(id) == Some(PropertyKind::Pair) <==> id == 0x26,
{
    lemma_one_of_eight(id, 0x01, 0x18, 0x1A, 0x24, 0x25, 0x28, 0x29, 0x2A);
    let two = seq![0x13u8, 0x21, 0x22, 0x23];
    assert(two.contains(id) <==> (id == two[0] || id == two[1] || id == two[2] || id == two[3]));
    let four = seq![0x02u8, 0x11, 0x19, 0x27];
    assert(four.contains(id) <==> (id == four[0] || id == four[1] || id == four[2] || id
        == four[3]));
    let binary = seq![0x09u8, 0x16];
    assert(binary.contains(id) <==> (id == binary[0] || id == binary[1]));
    let text = seq![0x03u8, 0x08, 0x12, 0x15, 0x1C, 0x1D, 0x1E];
    assert(text.contains(id) <==> (id == text[0] || id == text[1] || id == text[2] || id == text[3]
        || id == text[4] || id == text[5] || id == text[6]));
}

proof fn lemma_one_of_eight(
    id: u8,
    a: u8,
    b: u8,
    c: u8,
    d: u8,
    e: u8,
    f: u8,
    g: u8,
    h: u8,
)
    ensures
        seq![a, b, c, d, e, f, g, h].contains(id) <==> (id == a || id == b || id == c || id == d
            || id == e || id == f || id == g || id == h),
{
    let s = seq![a, b, c, d, e, f, g, h];
    assert(s[0] == a && s[1] == b && s[2] == c && s[3] == d && s[4] == e && s[5] == f && s[6] == g
        && s[7] == h);
}

/// A number that may be absent, as the value of a property.
pub open spec fn byte_value(v: Option<u8>) -> Option<ValueView> {
    match v {
        Some(v) => Some(ValueView::Byte(v)),
        None => None,
    }
}

/// A number that may be absent, as the value of a property.
pub open spec fn two_value(v: Option<u16>) -> Option<ValueView> {
    match v {
        Some(v) => Some(ValueView::Two(v)),
        None => None,
    }
}

/// A number that may be absent, as the value of a property.
pub open spec fn four_value(v: Option<u32>) -> Option<ValueView> {
    match v {
        Some(v) => Some(ValueView::Four(v)),
        None => None,
    }
}

/// A text that may be absent, as the value of a property.
pub open spec fn text_value(v: Option<String>) -> Option<ValueView> {
    match v {
        Some(v) => Some(ValueView::Text(v@)),
        None => None,
    }
}

/// Bytes that may be absent, as the value of a property.
pub open spec fn binary_value(v: Option<Vec<u8>>) -> Option<ValueView> {
    match v {
        Some(v) => Some(ValueView::Binary(v@)),
        None => None,
    }
}

/// Which value a set of properties holds for a number.
pub open spec fn held(p: PropertiesView, id: u8) -> Option<ValueView> {
    if p.fields.contains_key(id) {
        Some(p.fields[id])
    } else {
        None
    }
}

/// Each property has a number of its own on the wire.
pub proof fn law_property_numbers(p: Properties)
    ensures
        held(p@, 0x01) == byte_value(p.payload_format_indicator),
        held(p@, 0x02) == four_value(p.message_expiry_interval),
        held(p@, 0x03) == text_value(p.content_type),
        held(p@, 0x08) == text_value(p.response_topic),
        held(p@, 0x09) == binary_value(p.correlation_data),
        held(p@, 0x0B) is Some <==> p.subscription_identifier is Some,
        p.subscription_identifier matches Some(v) ==> held(p@, 0x0B) == Some(
            ValueView::Variable(v),
        ),
        held(p@, 0x11) == four_value(p.session_expiry_interval),
        held(p@, 0x12) == text_value(p.assigned_client_identifier),
        held(p@, 0x13) == two_value(p.server_keep_alive),
        held(p@, 0x15) == text_value(p.authentication_method),
        held(p@, 0x16) == binary_value(p.authentication_data),
        held(p@, 0x18) == byte_value(p.request_problem_information),
        held(p@, 0x19) == four_value(p.will_delay_interval),
        held(p@, 0x1A) == byte_value(p.request_response_information),
        held(p@, 0x1C) == text_value(p.response_information),
        held(p@, 0x1D) == text_value(p.server_reference),
        held(p@, 0x1E) == text_value(p.reason_string),
        held(p@, 0x21) == two_value(p.receive_maximum),
        held(p@, 0x22) == two_value(p.topic_alias_maximum),
        held(p@, 0x23) == two_value(p.topic_alias),
        held(p@, 0x24) == byte_value(p.maximum_qos),
        held(p@, 0x25) == byte_value(p.retain_available),
        held(p@, 0x27) == four_value(p.maximum_packet_size),
        held(p@, 0x28) == byte_value(p.wildcard_subscription_available),
        held(p@, 0x29) == byte_value(p.subscription_identifier_available),
        held(p@, 0x2A) == byte_value(p.shared_subscription_available),
        p@.user.len() == p.user_properties@.len(),
        forall|i: int|
            0 <= i < p@.user.len() ==> #[trigger] p@.user[i] == (
                p.user_properties@[i].key@,
                p.user_properties@[i].value@,
            ),
{
}

/// The bytes of a property: its number, then its value.
pub open spec fn property_bytes(id: u8, value: ValueView) -> Seq<u8> {
    seq![id] + match value {
        ValueView::Byte(v) => seq![v],
        ValueView::Two(v) => seq![(v / 256) as u8, (v % 256) as u8],
        ValueView::Four(v) => seq![
            (v / 16777216) as u8,
            (v / 65536 % 256) as u8,
            (v / 256 % 256) as u8,
            (v % 256) as u8,
        ],
        ValueView::Variable(v) => wire::varint_wire(v as nat),
        ValueView::Text(v) => wire::text_wire(v),
        ValueView::Binary(v) => wire::binary_wire(v),
        ValueView::Pair(k, v) => wire::text_wire(k) + wire::text_wire(v),
    }
}

/// Properties are written one after the other, in the order of their numbers, each
/// that is given and no other; the user properties come last, all of them, in order.
/// The length of it all stands in front.
pub proof fn law_properties_are_written(p: PropertiesView)
    ensures
        ({
            let numbered = Seq::new(
                0x2B,
                |i: int|
                    match held(p, i as u8) {
                        Some(v) => property_bytes(i as u8, v),
                        None => Seq::empty(),
                    },
            ).flatten();
            let user = p.user.map_values(
                |u: (Seq<char>, Seq<char>)| property_bytes(0x26, ValueView::Pair(u.0, u.1)),
            ).flatten();
            properties::properties_wire(p) == wire::varint_wire((numbered + user).len()) + (numbered
                + user)
        }),
{
    lemma_numbered(p, 0x2B);
    lemma_user(p.user);
}

proof fn lemma_numbered(p: PropertiesView, end: nat)
    requires
        end <= 0x2B,
    ensures
        properties::fields_wire(p, end) == Seq::new(
            end,
            |i: int|
                match held(p, i as u8) {
                    Some(v) => property_bytes(i as u8, v),
                    None => Seq::empty(),
                },
        ).flatten(),
    decreases end,
{
    let part = |i: int|
        match held(p, i as u8) {
            Some(v) => property_bytes(i as u8, v),
            None => Seq::empty(),
        };
    let all = Seq::new(end, part);
    if end > 0 {
        let before = Seq::new((end - 1) as nat, part);
        lemma_numbered(p, (end - 1) as nat);
        assert(all =~= before.push(part(end - 1)));
        before.lemma_flatten_push(part(end - 1));
        assert(properties::field_wire(p, (end - 1) as u8) =~= part(end - 1));
    } else {
        assert(all =~= Seq::empty());
    }
}

proof fn lemma_user(user: Seq<(Seq<char>, Seq<char>)>)
    ensures
        properties::user_wire(user) == user.map_values(
            |u: (Seq<char>, Seq<char>)| property_bytes(0x26, ValueView::Pair(u.0, u.1)),
        ).flatten(),
    decreases user.len(),
{
    let part = |u: (Seq<char>, Seq<char>)| property_bytes(0x26, ValueView::Pair(u.0, u.1));
    if user.len() > 0 {
        let before = user.drop_last().map_values(part);
        lemma_user(user.drop_last());
        assert(user.map_values(part) =~= before.push(part(user.last())));
        before.lemma_flatten_push(part(user.last()));
    } else {
        assert(user.map_values(part) =~= Seq::empty());
    }
}

/// Properties that follow others add to them: a number that is given again takes its
/// later value, and user properties are kept, all of them, in order.
pub proof fn law_properties_add_up(data: Seq<u8>, seen: PropertiesView)
    ensures
        ({
            let alone = properties::fields_at(data, PropertiesView::empty());
            let all = properties::fields_at(data, seen);
            &&& alone matches Parsed::Done(p) ==> all == Parsed::Done(
                PropertiesView {
                    fields: seen.fields.union_prefer_right(p.fields),
                    user: seen.user + p.user,
                },
            )
            &&& alone !is Done ==> all == alone
        }),
{
    lemma_add_up(data, seen, PropertiesView::empty());
    assert(seen.fields.union_prefer_right(Map::empty()) =~= seen.fields);
    assert(seen.user + Seq::empty() =~= seen.user);
}

spec fn joined(a: PropertiesView, b: PropertiesView) -> PropertiesView {
    PropertiesView { fields: a.fields.union_prefer_right(b.fields), user: a.user + b.user }
}

proof fn lemma_add_up(data: Seq<u8>, a: PropertiesView, b: PropertiesView)
    ensures
        match properties::fields_at(data, b) {
            Parsed::Done(p) => properties::fields_at(data, joined(a, b)) == Parsed::Done(
                joined(a, p),
            ),
            other => properties::fields_at(data, joined(a, b)) == other,
        },
    decreases data.len(),
{
    if data.len() > 0 {
        if let Parsed::Done((value, size)) = properties::value_at(data[0], data.drop_first()) {
            properties::lemma_value_size(data[0], data.drop_first());
            lemma_add_up(data.skip(1 + size as int), a, b.with(data[0], value));
            assert(joined(a, b).with(data[0], value) =~= joined(a, b.with(data[0], value)));
        }
    }
}

/// Where one property follows another, both are read: reading goes on right behind
/// the bytes of the first.
pub proof fn law_property_is_read(id: u8, value: ValueView, rest: Seq<u8>)
    requires
        properties::kind_of(id) == Some(value.kind()),
        properties::value_fits(value),
        properties::value_readable(value),
    ensures
        properties::fields_at(property_bytes(id, value), PropertiesView::empty()) == Parsed::Done(
            match value {
                ValueView::Pair(k, v) => PropertiesView { fields: Map::empty(), user: seq![(k, v)] },
                _ => PropertiesView { fields: Map::empty().insert(id, value), user: Seq::empty() },
            },
        ),
        properties::fields_at(property_bytes(id, value) + rest, PropertiesView::empty())
            == properties::fields_at(
            rest,
            match value {
                ValueView::Pair(k, v) => PropertiesView { fields: Map::empty(), user: seq![(k, v)] },
                _ => PropertiesView { fields: Map::empty().insert(id, value), user: Seq::empty() },
            },
        ),
{
    let none = PropertiesView::empty();
    assert(property_bytes(id, value) =~= seq![id] + properties::value_wire(value));
    properties::lemma_one_property(id, value, rest, none);
    properties::lemma_one_property(id, value, Seq::empty(), none);
    assert(property_bytes(id, value) + Seq::<u8>::empty() =~= property_bytes(id, value));
    assert(none.with(id, value) =~= match value {
        ValueView::Pair(k, v) => PropertiesView { fields: Map::empty(), user: seq![(k, v)] },
        _ => PropertiesView { fields: Map::empty().insert(id, value), user: Seq::empty() },
    });
}

// ── Packets that a broker sends ──────────────────────────────────────────

/// The bytes of each packet that a broker sends, field by field.
pub proof fn law_packets_are_written(c: ConnackView, a: AckView, p: PublishView)
    ensures
        ({
            let properties = properties::properties_wire(c.properties);
            let present: u8 = if c.session_present {
                1
            } else {
                0
            };
            packet::packet_wire(PacketView::Connack(c)) == seq![0x20u8] + wire::varint_wire(
                2 + properties.len(),
            ) + (seq![present, c.reason_code] + properties)
        }),
        ({
            let body = seq![(a.packet_id / 256) as u8, (a.packet_id % 256) as u8]
                + properties::properties_wire(a.properties) + a.reason_codes;
            &&& packet::packet_wire(PacketView::Suback(a)) == seq![0x90u8] + wire::varint_wire(
                body.len(),
            ) + body
            &&& packet::packet_wire(PacketView::Unsuback(a)) == seq![0xB0u8] + wire::varint_wire(
                body.len(),
            ) + body
        }),
        packet::packet_wire(PacketView::Pingresp) == seq![0xD0u8, 0],
        ({
            let id: u16 = match p.packet_id {
                Some(id) => id,
                None => 0,
            };
            let numbered = if p.qos == 0 {
                Seq::empty()
            } else {
                seq![(id / 256) as u8, (id % 256) as u8]
            };
            let body = wire::text_wire(p.topic) + numbered + properties::properties_wire(
                p.properties,
            ) + p.payload;
            let first: int = 0x30 + (if p.dup {
                8int
            } else {
                0
            }) + (p.qos % 4) * 2 + (if p.retain {
                1int
            } else {
                0
            });
            packet::packet_wire(PacketView::Publish(p)) == seq![first as u8] + wire::varint_wire(
                body.len(),
            ) + body
        }),
{
    assert(packet::packet_wire(PacketView::Pingresp) =~= seq![0xD0u8, 0]);
}

/// The short answers: to a message, and to a request of a client of version 3.
pub proof fn law_short_answers(id: u16, codes: Seq<u8>)
    ensures
        packet::puback_wire(id, false) == seq![0x40u8, 2, (id / 256) as u8, (id % 256) as u8],
        packet::puback_wire(id, true) == seq![
            0x40u8,
            4,
            (id / 256) as u8,
            (id % 256) as u8,
            0,
            0,
        ],
        packet::unsuback_v3_wire(id) == seq![0xB0u8, 2, (id / 256) as u8, (id % 256) as u8],
        packet::suback_v3_wire(id, codes) == seq![0x90u8] + wire::varint_wire(2 + codes.len())
            + seq![(id / 256) as u8, (id % 256) as u8] + codes,
{
    assert(packet::puback_wire(id, false) =~= seq![
        0x40u8,
        2,
        (id / 256) as u8,
        (id % 256) as u8,
    ]);
    assert(packet::puback_wire(id, true) =~= seq![
        0x40u8,
        4,
        (id / 256) as u8,
        (id % 256) as u8,
        0,
        0,
    ]);
    assert(packet::unsuback_v3_wire(id) =~= seq![
        0xB0u8,
        2,
        (id / 256) as u8,
        (id % 256) as u8,
    ]);
    assert(packet::suback_v3_wire(id, codes) =~= seq![0x90u8] + wire::varint_wire(2 + codes.len())
        + seq![(id / 256) as u8, (id % 256) as u8] + codes);
}

/// A packet is waited for until its last byte is there.
pub proof fn law_part_of_a_packet_waits(first: u8, body: Seq<u8>, k: int, version: u8)
    requires
        body.len() < vstd::arithmetic::power::pow(128, wire::varint_limit()),
        0 <= k < (seq![first] + wire::varint_wire(body.len()) + body).len(),
    ensures
        packet::packet_as(
            (seq![first] + wire::varint_wire(body.len()) + body).take(k),
            version,
        ) is Insufficient,
{
    let length = wire::varint_wire(body.len());
    let data = seq![first] + length + body;
    let part = data.take(k);
    wire::lemma_varint_wire_len(body.len(), wire::varint_limit());
    if k > 0 {
        if k - 1 < length.len() {
            assert(part.skip(1) =~= length.take(k - 1));
            lemma_part_of_length(body.len(), k - 1);
        } else {
            let there = body.take(k - 1 - length.len());
            assert(part.skip(1) =~= length + there);
            wire::law_remaining_length_round_trip(body.len(), there);
        }
    }
}

proof fn lemma_part_of_length(n: nat, k: int)
    requires
        0 <= k < wire::varint_wire(n).len(),
    ensures
        wire::continuation_len(wire::varint_wire(n).take(k)) == k,
    decreases n,
{
    let length = wire::varint_wire(n);
    if n < 128 {
        assert(k == 0);
    } else if k > 0 {
        let rest = wire::varint_wire(n / 128);
        lemma_part_of_length(n / 128, k - 1);
        assert(length.take(k).drop_first() =~= rest.take(k - 1));
        assert(length.take(k)[0] == length[0]);
    }
}

} // verus!
