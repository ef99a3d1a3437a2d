use bytes::BufMut;
use mqtt_broker::packet::{
    connack_v3, connack_v5, decode_connect, decode_disconnect, decode_packet, decode_publish,
    decode_subscribe, decode_unsubscribe, Packet, SubackPacket, CONNACK, CONNECT, RC_GRANTED_QOS_0,
    RC_GRANTED_QOS_1, RC_NORMAL_DISCONNECTION, RC_SUCCESS,
};
use mqtt_broker::properties::{Properties, PROP_USER_PROPERTY};
use mqtt_broker::wire::{
    decode_remaining_length, decode_utf8, encode_binary, encode_remaining_length, encode_utf8,
};

#[test]
fn test_remaining_length_roundtrip() {
    for val in [0usize, 1, 127, 128, 16383, 16384, 2097151, 268435455] {
        let encoded = encode_remaining_length(val);
        let (decoded, n) = decode_remaining_length(&encoded).unwrap();
        assert_eq!(decoded, val, "roundtrip failed for {}", val);
        assert_eq!(n, encoded.len());
    }
}

#[test]
fn test_utf8_roundtrip() {
    let s = "你好世界";
    let mut buf = Vec::new();
    encode_utf8(&mut buf, s);
    let (decoded, n) = decode_utf8(&buf).unwrap();
    assert_eq!(decoded, s);
    assert_eq!(n, 2 + s.len());
}

#[test]
fn test_connect_v5_basic() {
    // Minimal MQTT v5 CONNECT: protocol "MQTT", version 5, clean_start, keep_alive 60,
    // client_id "test-client"
    let mut raw = Vec::new();
    encode_utf8(&mut raw, "MQTT");
    raw.push(5); // v5
    raw.push(0x02); // connect flags: clean start
    raw.put_u16(60); // keep alive
    // v5 properties: empty
    raw.push(0x00); // properties length = 0
    encode_utf8(&mut raw, "test-client");

    let packet = decode_connect(&raw).unwrap();
    assert_eq!(packet.protocol_version, 5);
    assert!(packet.clean_start);
    assert_eq!(packet.keep_alive, 60);
    assert_eq!(packet.client_id, "test-client");
    assert!(packet.will.is_none());
    assert!(packet.username.is_none());
}

#[test]
fn test_connect_v3_1_1() {
    let mut raw = Vec::new();
    encode_utf8(&mut raw, "MQTT");
    raw.push(4); // v3.1.1
    raw.push(0x02); // clean session
    raw.put_u16(30);
    encode_utf8(&mut raw, "legacy-client");

    let packet = decode_connect(&raw).unwrap();
    assert_eq!(packet.protocol_version, 4);
    assert_eq!(packet.client_id, "legacy-client");
}

#[test]
fn test_connect_with_user_properties() {
    let mut raw = Vec::new();
    encode_utf8(&mut raw, "MQTT");
    raw.push(5);
    raw.push(0x02);
    raw.put_u16(60);
    // Properties: 1 user property (name="马龙", emoji="🛠️")
    let mut props = Vec::new();
    props.push(PROP_USER_PROPERTY);
    encode_utf8(&mut props, "name");
    encode_utf8(&mut props, "马龙");
    props.push(PROP_USER_PROPERTY);
    encode_utf8(&mut props, "emoji");
    encode_utf8(&mut props, "🛠️");

    let props_encoded = encode_remaining_length(props.len());
    raw.extend(&props_encoded);
    raw.extend(&props);
    encode_utf8(&mut raw, "skill-agent");

    let packet = decode_connect(&raw).unwrap();
    assert_eq!(packet.client_id, "skill-agent");
    assert_eq!(packet.properties.user_properties.len(), 2);
    assert_eq!(packet.properties.user_properties[0].key, "name");
    assert_eq!(packet.properties.user_properties[0].value, "马龙");
}

#[test]
fn test_connect_with_username_password() {
    let mut raw = Vec::new();
    encode_utf8(&mut raw, "MQTT");
    raw.push(5);
    raw.push(0xC0); // username + password flags
    raw.put_u16(60);
    raw.push(0x00); // empty properties
    encode_utf8(&mut raw, "test-client");
    encode_utf8(&mut raw, "myuser");
    encode_binary(&mut raw, b"mypass");

    let packet = decode_connect(&raw).unwrap();
    assert_eq!(packet.username.as_deref(), Some("myuser"));
    assert_eq!(packet.password.as_deref(), Some(&b"mypass"[..]));
}

#[test]
fn test_publish_qos0() {
    let mut raw = Vec::new();
    encode_utf8(&mut raw, "test/topic");
    raw.push(0x00); // empty v5 properties
    let payload = b"hello mqtt v5";
    raw.extend_from_slice(payload);

    let packet = decode_publish(&raw, 0x00).unwrap();
    assert_eq!(packet.topic, "test/topic");
    assert_eq!(packet.qos, 0);
    assert!(!packet.dup);
    assert!(!packet.retain);
    assert!(packet.packet_id.is_none());
    assert_eq!(packet.payload, payload);
}

#[test]
fn test_publish_with_user_properties() {
    let mut raw = Vec::new();
    encode_utf8(&mut raw, "agent-001/inbound");
    // Properties with 1 user property
    let mut props = Vec::new();
    props.push(PROP_USER_PROPERTY);
    encode_utf8(&mut props, "reply_to");
    encode_utf8(&mut props, "openclaw-malong/inbound");

    let props_encoded = encode_remaining_length(props.len());
    raw.extend(&props_encoded);
    raw.extend(&props);
    raw.extend_from_slice(b"{\"text\":\"hello\"}");

    let packet = decode_publish(&raw, 0x00).unwrap();
    assert_eq!(packet.topic, "agent-001/inbound");
    assert_eq!(packet.properties.user_properties.len(), 1);
    assert_eq!(packet.properties.user_properties[0].key, "reply_to");
    assert_eq!(packet.properties.user_properties[0].value, "openclaw-malong/inbound");
}

#[test]
fn test_subscribe_single_topic() {
    let mut raw = Vec::new();
    raw.put_u16(1); // packet id
    raw.push(0x00); // empty properties
    encode_utf8(&mut raw, "test/topic");
    raw.push(0x01); // QoS 1

    let packet = decode_subscribe(&raw).unwrap();
    assert_eq!(packet.packet_id, 1);
    assert_eq!(packet.topic_filters.len(), 1);
    assert_eq!(packet.topic_filters[0].topic_filter, "test/topic");
    assert_eq!(packet.topic_filters[0].options.qos, 1);
}

#[test]
fn test_subscribe_with_no_local() {
    let mut raw = Vec::new();
    raw.put_u16(42);
    raw.push(0x00);
    encode_utf8(&mut raw, "sensor/#");
    raw.push(0x06); // QoS 0 + NoLocal

    let packet = decode_subscribe(&raw).unwrap();
    assert!(packet.topic_filters[0].options.no_local);
}

#[test]
fn test_unsubscribe() {
    let mut raw = Vec::new();
    raw.put_u16(7);
    raw.push(0x00);
    encode_utf8(&mut raw, "test/topic");
    encode_utf8(&mut raw, "other/#");

    let packet = decode_unsubscribe(&raw).unwrap();
    assert_eq!(packet.packet_id, 7);
    assert_eq!(packet.topic_filters.len(), 2);
}

#[test]
fn test_disconnect_normal() {
    let packet = decode_disconnect(&[RC_NORMAL_DISCONNECTION]).unwrap();
    assert_eq!(packet.reason_code, RC_NORMAL_DISCONNECTION);
}

#[test]
fn test_connack_success_v5() {
    let encoded = connack_v5(RC_SUCCESS, &Properties::new());
    let (decoded, _) = decode_packet(&encoded).unwrap();
    match decoded {
        Packet::Connack(p) => {
            assert_eq!(p.reason_code, RC_SUCCESS);
            assert!(!p.session_present);
        }
        _ => panic!("Expected Connack"),
    }
}

#[test]
fn test_connack_v3() {
    let encoded = connack_v3(false, 0x00);
    assert_eq!(encoded, vec![CONNACK << 4, 0x02, 0x00, 0x00]);
}

#[test]
fn test_encode_suback() {
    let suback = Packet::Suback(SubackPacket {
        packet_id: 5,
        properties: Properties::new(),
        reason_codes: vec![RC_GRANTED_QOS_0, RC_GRANTED_QOS_1],
    });
    let encoded = suback.encode();
    let (decoded, _) = decode_packet(&encoded).unwrap();
    match decoded {
        Packet::Suback(p) => {
            assert_eq!(p.packet_id, 5);
            assert_eq!(p.reason_codes, vec![0x00, 0x01]);
        }
        _ => panic!("Expected Suback"),
    }
}

#[test]
fn test_full_packet_roundtrip() {
    // Build a CONNECT -> encode -> decode
    let mut raw = Vec::new();
    encode_utf8(&mut raw, "MQTT");
    raw.push(5);
    raw.push(0x02);
    raw.put_u16(60);
    raw.push(0x00); // empty properties
    encode_utf8(&mut raw, "roundtrip-test");

    // Wrap in fixed header
    let rl = encode_remaining_length(raw.len());
    let mut frame = Vec::with_capacity(1 + rl.len() + raw.len());
    frame.push(CONNECT << 4);
    frame.extend(rl);
    frame.extend(raw);

    let (packet, _) = decode_packet(&frame).unwrap();
    match packet {
        Packet::Connect(p) => {
            assert_eq!(p.client_id, "roundtrip-test");
            assert_eq!(p.protocol_version, 5);
        }
        _ => panic!("Expected Connect"),
    }
}

#[test]
fn test_invalid_protocol_name() {
    let mut raw = Vec::new();
    encode_utf8(&mut raw, "MQIsdp"); // v3.1 name, not supported
    let result = decode_connect(&raw);
    assert!(result.is_err());
}

#[test]
fn test_empty_client_id_clean_start() {
    let mut raw = Vec::new();
    encode_utf8(&mut raw, "MQTT");
    raw.push(5);
    raw.push(0x02); // clean start
    raw.put_u16(60);
    raw.push(0x00); // empty properties
    encode_utf8(&mut raw, ""); // empty client id
    let packet = decode_connect(&raw).unwrap();
    assert_eq!(packet.client_id, "");
    assert!(packet.clean_start);
}

#[test]
fn test_multiple_user_properties() {
    let mut raw = Vec::new();
    encode_utf8(&mut raw, "test/topic");

    let mut props = Vec::new();
    for pair in &[("a", "1"), ("b", "2"), ("c", "3")] {
        props.push(PROP_USER_PROPERTY);
        encode_utf8(&mut props, pair.0);
        encode_utf8(&mut props, pair.1);
    }
    let props_encoded = encode_remaining_length(props.len());
    raw.extend(&props_encoded);
    raw.extend(&props);
    raw.extend_from_slice(b"payload");

    let packet = decode_publish(&raw, 0x00).unwrap();
    assert_eq!(packet.properties.user_properties.len(), 3);
    assert_eq!(packet.properties.user_properties[2].key, "c");
}
