use bytes::BytesMut;
use mqtt_broker::api;
use mqtt_broker::auth::{AllowAllAuth, AuthProvider, FileAuth};
use mqtt_broker::config::{default_followup_patterns, ChannelsConfig, VoiceChannelConfig, VoiceOutputConfig};
use mqtt_broker::connection::{
    Connection, ConnectionAction, ConnectionEvent, ConnectionHandler, Phase, CONNECT_LIMIT,
    RC_NOT_AUTHORIZED, V3_IDENTIFIER_REJECTED, V3_NOT_AUTHORIZED,
};
use mqtt_broker::decoder::MqttDecoder;
use mqtt_broker::management::{
    answer_request, get_client, get_topic_subscribers, list_clients, list_subscriptions,
    ManagementReply, ManagementRequest,
};
use mqtt_broker::packet::{
    decode_packet, lengths_fit, puback, scan_packet, suback_v3, unsuback_v3, DecodeError, Packet, PacketFault,
    PublishPacket, SubackPacket, SubscribeOptions, SubscribePacket, SubscribeTopic, UnsubackPacket,
    UnsubscribePacket,
};
use mqtt_broker::properties::{scan_properties, Properties, UserProperty};
use mqtt_broker::session::SessionManager;
use mqtt_broker::soul::{
    build_identity_config, plan_workspace, resolve_workspace_dir, WorkspaceDir, SEED_MARKER,
};
use mqtt_broker::state::{self, BrokerState, ClientInfo, MqttProtocol, QoS, Subscription, WillMessage};
use mqtt_broker::storage::{MemoryStorage, StorageEngine};
use mqtt_broker::subscription::SubscriptionTree;
use mqtt_broker::table::Table;
use mqtt_broker::text;
use mqtt_broker::tools::{
    client_rows, message_rows, text_parameter, topic_rows, PublishParameters,
};
use mqtt_broker::wire::{
    decode_binary, decode_remaining_length, encode_binary, encode_utf8, scan_varint, Varint,
};

// ── Topics ───────────────────────────────────────────────────────────────

#[test]
fn test_topic_matching_exact() {
    assert!(SubscriptionTree::matches_filter("sensor/temp", "sensor/temp"));
    assert!(!SubscriptionTree::matches_filter("sensor/temp", "sensor/humidity"));
}

#[test]
fn test_topic_matching_single_level_wildcard() {
    assert!(SubscriptionTree::matches_filter("sensor/temp", "sensor/+"));
    assert!(SubscriptionTree::matches_filter("sensor/humidity", "sensor/+"));
    assert!(!SubscriptionTree::matches_filter("sensor/floor1/temp", "sensor/+"));
}

#[test]
fn test_topic_matching_multi_level_wildcard() {
    assert!(SubscriptionTree::matches_filter("sensor/temp", "sensor/#"));
    assert!(SubscriptionTree::matches_filter("sensor/floor1/temp", "sensor/#"));
    assert!(SubscriptionTree::matches_filter("sensor", "sensor/#"));
}

fn fake_sub(client_id: &str, topic: &str) -> Subscription {
    Subscription {
        client_id: client_id.into(),
        topic_filter: topic.into(),
        qos: QoS::AtLeastOnce,
        no_local: false,
        retain_as_published: false,
        retain_handling: 0,
    }
}

#[test]
fn subscriptions_come_and_go() {
    let tree = SubscriptionTree::new();
    let mut s = BrokerState::new();
    tree.add(&mut s, fake_sub("a", "x/+"));
    tree.add(&mut s, fake_sub("a", "x/+"));
    tree.add(&mut s, fake_sub("b", "x/+"));
    tree.add(&mut s, fake_sub("b", "#"));
    let ids = |s: &BrokerState, t: &str| -> Vec<String> {
        let mut v: Vec<String> = tree.match_topic(s, t).into_iter().map(|m| m.client_id).collect();
        v.sort();
        v
    };
    assert_eq!(ids(&s, "x/1"), ["a", "b", "b"]);
    assert_eq!(ids(&s, "y"), ["b"]);
    tree.remove(&mut s, "a", "x/+");
    assert_eq!(ids(&s, "x/1"), ["b", "b"]);
    tree.remove_client_subscriptions(&mut s, "b");
    assert!(ids(&s, "x/1").is_empty());
    assert!(s.list_topics().is_empty());
}

// ── Management ───────────────────────────────────────────────────────────

fn fake_client(id: &str) -> ClientInfo {
    ClientInfo {
        client_id: id.into(),
        addr: "127.0.0.1:12345".into(),
        protocol_version: MqttProtocol::V311,
        connected_at: 100,
        clean_session: true,
        keep_alive: 60,
        username: Some("alice".into()),
    }
}

fn subscribe(s: &mut BrokerState, topic: &str, client: &str) {
    SubscriptionTree::new().add(s, fake_sub(client, topic));
}

#[test]
fn list_clients_returns_all_connected() {
    let mut s = BrokerState::new();
    s.clients.insert("a".into(), fake_client("a"));
    s.clients.insert("b".into(), fake_client("b"));
    let clients = list_clients(&s);
    let ids: Vec<&str> = clients.iter().map(|c| c.client_id.as_str()).collect();
    assert_eq!(ids.len(), 2);
    assert!(ids.contains(&"a"));
    assert!(ids.contains(&"b"));
}

#[test]
fn get_client_returns_some_for_known_id() {
    let mut s = BrokerState::new();
    s.clients.insert("a".into(), fake_client("a"));
    let c = get_client(&s, "a").expect("client a exists");
    assert_eq!(c.client_id, "a");
    assert_eq!(c.username.as_deref(), Some("alice"));
}

#[test]
fn get_client_returns_none_for_unknown_id() {
    let s = BrokerState::new();
    assert!(get_client(&s, "ghost").is_none());
}

#[test]
fn list_subscriptions_returns_topics_with_subscriber_counts() {
    let mut s = BrokerState::new();
    subscribe(&mut s, "sensors/temp", "a");
    subscribe(&mut s, "sensors/temp", "b");
    subscribe(&mut s, "actuators/light", "a");
    let topics = list_subscriptions(&s);
    assert_eq!(topics.len(), 2);
    let temp = topics
        .iter()
        .find(|t| t.topic == "sensors/temp")
        .expect("sensors/temp present");
    assert_eq!(temp.subscribers.len(), 2);
    let light = topics
        .iter()
        .find(|t| t.topic == "actuators/light")
        .expect("actuators/light present");
    assert_eq!(light.subscribers.len(), 1);
}

#[test]
fn get_topic_subscribers_returns_empty_for_unknown_topic() {
    let s = BrokerState::new();
    assert!(get_topic_subscribers(&s, "never/subscribed").is_empty());
}

#[test]
fn get_topic_subscribers_returns_only_matching_topic() {
    let mut s = BrokerState::new();
    subscribe(&mut s, "foo", "a");
    subscribe(&mut s, "bar", "b");
    let subs = get_topic_subscribers(&s, "foo");
    assert_eq!(subs.len(), 1);
    assert_eq!(subs[0].client_id, "a");
}

#[test]
fn many_concurrent_list_clients_calls_all_succeed() {
    let mut s = BrokerState::new();
    s.clients.insert("a".into(), fake_client("a"));
    for _ in 0..20 {
        match answer_request(&s, &ManagementRequest::ListClients) {
            ManagementReply::Clients(clients) => {
                assert_eq!(clients.len(), 1);
                assert_eq!(clients[0].client_id, "a");
            }
            other => panic!("unexpected {other:?}"),
        }
    }
    assert!(matches!(
        answer_request(&s, &ManagementRequest::GetClient { client_id: "b".into() }),
        ManagementReply::Client(None)
    ));
    assert!(matches!(
        answer_request(&s, &ManagementRequest::ListSubscriptions),
        ManagementReply::Subscriptions(t) if t.is_empty()
    ));
    assert!(matches!(
        answer_request(&s, &ManagementRequest::GetTopicSubscribers { topic: "t".into() }),
        ManagementReply::Subscribers(t) if t.is_empty()
    ));
}

#[test]
fn api_answers() {
    let mut s = BrokerState::new();
    s.clients.insert("a".into(), fake_client("a"));
    subscribe(&mut s, "foo", "a");
    let h = api::health_check(&s, 7).data.unwrap();
    assert_eq!((h.status.as_str(), h.uptime_secs, h.components.mqtt_connections), ("ok", 7, 1));
    let list = api::list_clients(&s, 160).data.unwrap();
    assert_eq!(list[0].connected_at_secs, 60);
    assert_eq!(list[0].protocol_version, "V311");
    assert_eq!(api::get_client(&s, "a", 99).data.unwrap().connected_at_secs, 0);
    let none = api::get_client(&s, "b", 0);
    assert_eq!(none.http_status(), 404);
    assert_eq!(none.error.unwrap().message, "Client b not found");
    assert_eq!(api::list_subscriptions(&s).data.unwrap()[0].subscribers[0].qos, "AtLeastOnce");
    assert_eq!(api::get_topic_subscribers(&s, "foo").http_status(), 200);
    let none = api::get_topic_subscribers(&s, "bar");
    assert_eq!(none.error.unwrap().message, "No subscribers for topic bar");
    let admin = api::AuthRequest { username: "admin".into(), password: "admin".into() };
    let wrong = api::AuthRequest { username: "admin".into(), password: "x".into() };
    assert_eq!(api::auth_token(&admin, Some("t".into()), 9).data.unwrap().token, "t");
    assert_eq!(api::auth_token(&admin, None, 9).http_status(), 500);
    assert_eq!(api::auth_token(&wrong, Some("t".into()), 9).http_status(), 401);
    assert_eq!(api::refresh_token(&wrong, None, 9).error.unwrap().code, "UNAUTHORIZED");
    assert_eq!(api::bearer_token("Bearer abc").as_deref(), Some("abc"));
    assert_eq!(api::bearer_token("bearer abc"), None);
    assert_eq!(api::refusal::<u8>().http_status(), 401);
}

#[test]
fn tools_answer_with_rows() {
    let mut s = BrokerState::new();
    subscribe(&mut s, "foo", "a");
    let rows = client_rows(&vec![fake_client("a")], 112);
    assert_eq!((rows[0].connected_for_secs, rows[0].protocol.as_str()), (12, "V311"));
    let topics = topic_rows(&list_subscriptions(&s));
    assert_eq!((topics[0].subscriber_count, topics[0].topic.as_str()), (1, "foo"));
    assert_eq!(topics[0].subscribers[0].qos, "AtLeastOnce");
    assert_eq!(text_parameter(None, "topic").unwrap_err().message(), "Missing topic parameter");
    let p = |topic: Option<&str>, payload: Option<&str>, qos: Option<u64>| PublishParameters {
        topic: topic.map(String::from),
        payload: payload.map(String::from),
        qos,
        retain: None,
        user_properties: Some(vec![
            (Some("k".into()), Some("v".into())),
            (Some("k".into()), None),
            (None, Some("v".into())),
        ]),
    };
    let a = p(Some("t"), Some("x"), Some(258)).arguments().unwrap();
    assert_eq!((a.qos, a.retain), (2, false));
    assert_eq!(a.user_properties, vec![("k".to_string(), "v".to_string())]);
    assert_eq!(p(None, None, None).arguments().unwrap_err().name, "topic");
    assert_eq!(p(Some("t"), None, None).arguments().unwrap_err().name, "payload");
}

#[test]
fn tools_show_messages_as_text() {
    let mut readable = message("a");
    readable.payload = "温度 21".as_bytes().to_vec();
    readable.qos = QoS::AtLeastOnce;
    readable.retain = true;
    let mut broken = message("b");
    broken.payload = vec![b'x', 0xff, b'y'];
    let rows = message_rows(&vec![readable, broken]);
    assert_eq!((rows[0].topic.as_str(), rows[0].payload.as_str()), ("a", "温度 21"));
    assert_eq!((rows[0].qos.as_str(), rows[0].retain), ("AtLeastOnce", true));
    assert_eq!(rows[1].payload, "x\u{fffd}y");
    assert!(message_rows(&vec![]).is_empty());
}

// ── Sessions ─────────────────────────────────────────────────────────────

fn message(topic: &str) -> state::PublishPacket {
    state::PublishPacket {
        topic: topic.into(),
        payload: vec![1],
        qos: QoS::AtMostOnce,
        retain: false,
        user_properties: vec![],
        content_type: None,
        response_topic: None,
        correlation_data: None,
        message_expiry_interval: None,
        payload_format_indicator: None,
        topic_alias: None,
    }
}

#[test]
fn sessions_keep_messages_in_order() {
    let m = SessionManager::new();
    let mut s = BrokerState::new();
    m.enqueue_pending(&mut s, "a", message("lost"));
    m.create_session(&mut s, "a", false, None);
    m.add_subscription(&mut s, "a", "x".into(), QoS::AtMostOnce);
    m.add_subscription(&mut s, "a", "x".into(), QoS::ExactlyOnce);
    m.enqueue_pending(&mut s, "a", message("1"));
    m.enqueue_pending(&mut s, "a", message("2"));
    m.create_session(&mut s, "a", false, None);
    let session = m.get_session(&s, "a").unwrap();
    assert_eq!(session.subscriptions.len(), 1);
    assert_eq!(session.subscriptions[0].qos, QoS::ExactlyOnce);
    let topics: Vec<String> = m.drain_pending(&mut s, "a").into_iter().map(|p| p.topic).collect();
    assert_eq!(topics, ["1", "2"]);
    assert!(m.drain_pending(&mut s, "a").is_empty());
    m.remove_subscription(&mut s, "a", "x");
    assert!(m.get_session(&s, "a").unwrap().subscriptions.is_empty());
    m.create_session(&mut s, "a", true, None);
    assert!(m.delete_session(&mut s, "a").is_some());
    assert!(m.get_session(&s, "a").is_none());
}

#[test]
fn memory_storage_keeps_nothing() {
    let m = SessionManager::new();
    let mut s = BrokerState::new();
    m.create_session(&mut s, "a", false, None);
    let session = m.get_session(&s, "a").unwrap();
    let st = MemoryStorage;
    assert!(st.save_session("a", &session).is_ok());
    assert!(st.load_session("a").unwrap().is_none());
    assert!(st.save_pending("a", &[message("x")]).is_ok());
    assert!(st.load_pending("a").unwrap().is_empty());
    assert!(st.clear_pending("a").is_ok() && st.delete_session("a").is_ok());
}

#[test]
fn credentials_are_read_from_text() {
    let auth = FileAuth::from_text("# users\n\n alice:s:ecret \nbob\ncarol:\n");
    assert!(auth.authenticate("alice", "s:ecret"));
    assert!(!auth.authenticate("alice", "s"));
    assert!(!auth.authenticate("bob", ""));
    assert!(auth.authenticate("carol", ""));
    assert!(FileAuth::new(vec![("x".into(), "y".into())]).authenticate("x", "y"));
    assert!(AllowAllAuth.authenticate("anyone", ""));
}

#[test]
fn tables_keep_the_order_of_insertion() {
    let mut t: Table<ClientInfo> = Table::new();
    t.insert("b".into(), fake_client("1"));
    t.insert("a".into(), fake_client("2"));
    t.insert("b".into(), fake_client("3"));
    assert_eq!((t.len(), t.key_at(0).as_str(), t.value_at(0).client_id.as_str()), (2, "b", "3"));
    t.get_mut("a").unwrap().keep_alive = 5;
    assert_eq!(t.get("a").unwrap().keep_alive, 5);
    assert_eq!(t.remove("b").unwrap().client_id, "3");
    assert!(t.get("b").is_none() && t.remove("b").is_none() && !t.is_empty());
}

// ── Connections ──────────────────────────────────────────────────────────

fn connect_bytes(client_id: &str, keep_alive: u16, user: Option<(&str, &str)>) -> Vec<u8> {
    connect_bytes_as(5, client_id, keep_alive, user)
}

fn connect_bytes_as(
    version: u8,
    client_id: &str,
    keep_alive: u16,
    user: Option<(&str, &str)>,
) -> Vec<u8> {
    let mut body = Vec::new();
    encode_utf8(&mut body, "MQTT");
    body.push(version);
    body.push(if user.is_some() { 0xC2 } else { 0x02 });
    body.extend_from_slice(&keep_alive.to_be_bytes());
    if version == 5 {
        body.push(0);
    }
    encode_utf8(&mut body, client_id);
    if let Some((name, password)) = user {
        encode_utf8(&mut body, name);
        encode_binary(&mut body, password.as_bytes());
    }
    let mut raw = vec![0x10, body.len() as u8];
    raw.extend_from_slice(&body);
    raw
}

/// Lets a client in; the connection then awaits packets.
fn join(h: &ConnectionHandler, s: &mut BrokerState, id: &str) -> Connection {
    let mut c = Connection::new("127.0.0.1:1".into());
    assert!(matches!(h.handle_connection(&mut c, s, ConnectionEvent::Opened), ConnectionAction::Read(None)));
    let bytes = connect_bytes(id, 60, None);
    match h.handle_connection(&mut c, s, ConnectionEvent::Received(bytes)) {
        ConnectionAction::Authenticate(name, password) => assert_eq!((name.as_str(), password.as_str()), ("", "")),
        other => panic!("unexpected {other:?}"),
    }
    match h.handle_connection(&mut c, s, ConnectionEvent::Judged { allowed: true, now: 5 }) {
        ConnectionAction::Send(reply) => assert_eq!(&reply[..4], &[0x20, 3, 0, 0]),
        other => panic!("unexpected {other:?}"),
    }
    assert!(matches!(
        h.handle_connection(&mut c, s, ConnectionEvent::Sent),
        ConnectionAction::Read(Some(90))
    ));
    c
}

fn send(h: &ConnectionHandler, s: &mut BrokerState, c: &mut Connection, bytes: Vec<u8>) -> Vec<u8> {
    match h.handle_connection(c, s, ConnectionEvent::Received(bytes)) {
        ConnectionAction::Send(reply) => {
            h.handle_connection(c, s, ConnectionEvent::Sent);
            reply
        }
        ConnectionAction::Close => vec![],
        other => panic!("unexpected {other:?}"),
    }
}

fn publish_packet(topic: &str, qos: u8) -> Packet {
    Packet::Publish(PublishPacket {
        dup: false,
        qos,
        retain: false,
        topic: topic.into(),
        packet_id: if qos > 0 { Some(7) } else { None },
        properties: Properties::new(),
        payload: vec![1, 2],
    })
}

fn subscribe_bytes(filter: &str) -> Vec<u8> {
    let mut body = vec![0, 9, 0];
    encode_utf8(&mut body, filter);
    body.push(1);
    let mut raw = vec![0x82, body.len() as u8];
    raw.extend_from_slice(&body);
    raw
}

#[test]
fn a_published_message_reaches_its_subscribers() {
    let h = ConnectionHandler::new();
    let m = SessionManager::new();
    let mut s = BrokerState::new();
    let mut a = join(&h, &mut s, "a");
    let mut b = join(&h, &mut s, "b");
    match h.handle_connection(&mut a, &mut s, ConnectionEvent::Received(subscribe_bytes("x/+"))) {
        ConnectionAction::Send(reply) => assert_eq!(reply, [0x90, 4, 0, 9, 0, 1]),
        other => panic!("unexpected {other:?}"),
    }
    h.handle_connection(&mut a, &mut s, ConnectionEvent::Sent);
    assert_eq!(send(&h, &mut s, &mut b, publish_packet("x/1", 1).encode()), [0x40, 4, 0, 7, 0, 0]);
    assert!(send(&h, &mut s, &mut b, publish_packet("y", 0).encode()).is_empty());
    let got: Vec<String> = m.drain_pending(&mut s, "a").into_iter().map(|p| p.topic).collect();
    assert_eq!(got, ["x/1"]);
    assert_eq!(send(&h, &mut s, &mut b, vec![0xC0, 0]), [0xD0, 0]);
}

#[test]
fn a_client_that_leaves_is_forgotten() {
    let h = ConnectionHandler::new();
    let mut s = BrokerState::new();
    let mut a = join(&h, &mut s, "a");
    assert_eq!(s.clients.len(), 1);
    send(&h, &mut s, &mut a, vec![0xE0, 0]);
    assert!(matches!(a.phase, Phase::Closed));
    assert!(s.clients.is_empty());
    let mut b = join(&h, &mut s, "b");
    assert!(matches!(
        h.handle_connection(&mut b, &mut s, ConnectionEvent::TimedOut),
        ConnectionAction::Close
    ));
    assert!(s.clients.is_empty());
}

#[test]
fn a_will_is_published_when_a_client_is_gone() {
    let h = ConnectionHandler::new();
    let m = SessionManager::new();
    let mut s = BrokerState::new();
    m.create_session(&mut s, "watcher", true, None);
    subscribe(&mut s, "will", "watcher");
    let will = WillMessage { topic: "will".into(), payload: vec![9], qos: QoS::AtMostOnce, retain: false };
    m.create_session(&mut s, "a", true, Some(will));
    h.disconnect_client(&mut s, "a");
    let got = m.drain_pending(&mut s, "watcher");
    assert_eq!((got.len(), got[0].topic.as_str(), got[0].payload[0]), (1, "will", 9));
}

#[test]
fn a_refused_client_leaves_no_trace() {
    let h = ConnectionHandler::new();
    let mut s = BrokerState::new();
    let mut c = Connection::new("127.0.0.1:1".into());
    h.handle_connection(&mut c, &mut s, ConnectionEvent::Opened);
    let bytes = connect_bytes("a", 0, Some(("alice", "no")));
    let (first, second) = bytes.split_at(5);
    assert!(matches!(
        h.handle_connection(&mut c, &mut s, ConnectionEvent::Received(first.to_vec())),
        ConnectionAction::Read(_)
    ));
    match h.handle_connection(&mut c, &mut s, ConnectionEvent::Received(second.to_vec())) {
        ConnectionAction::Authenticate(name, password) => assert_eq!((name.as_str(), password.as_str()), ("alice", "no")),
        other => panic!("unexpected {other:?}"),
    }
    match h.handle_connection(&mut c, &mut s, ConnectionEvent::Judged { allowed: false, now: 5 }) {
        ConnectionAction::SendAndClose(reply) => assert_eq!(reply[3], RC_NOT_AUTHORIZED),
        other => panic!("unexpected {other:?}"),
    }
    assert!(s.clients.is_empty());
    assert_eq!(ConnectionHandler::idle_timeout(0), 120);
    assert_eq!(ConnectionHandler::idle_timeout(61), 92);
}

fn refusal(h: &ConnectionHandler, s: &mut BrokerState, first: Vec<u8>) -> Vec<u8> {
    let mut c = Connection::new("127.0.0.1:1".into());
    h.handle_connection(&mut c, s, ConnectionEvent::Opened);
    let mut action = h.handle_connection(&mut c, s, ConnectionEvent::Received(first));
    if matches!(action, ConnectionAction::Authenticate(_, _)) {
        action = h.handle_connection(&mut c, s, ConnectionEvent::Judged { allowed: false, now: 5 });
    }
    match action {
        ConnectionAction::SendAndClose(reply) => reply,
        other => panic!("unexpected {other:?}"),
    }
}

#[test]
fn a_refusal_has_the_code_of_the_version() {
    let h = ConnectionHandler::new();
    let mut s = BrokerState::new();
    let user = Some(("alice", "no"));
    assert_eq!(refusal(&h, &mut s, connect_bytes_as(4, "a", 0, user)), [0x20, 2, 0, V3_NOT_AUTHORIZED]);
    assert_eq!(refusal(&h, &mut s, connect_bytes_as(4, "", 0, None)), [0x20, 2, 0, V3_IDENTIFIER_REJECTED]);
    assert_eq!((V3_NOT_AUTHORIZED, V3_IDENTIFIER_REJECTED), (5, 2));
    assert_eq!(refusal(&h, &mut s, connect_bytes("a", 0, user))[3], RC_NOT_AUTHORIZED);
    assert_eq!(refusal(&h, &mut s, connect_bytes("", 0, None))[3], 0x80);
    assert_eq!(refusal(&h, &mut s, vec![0xC0, 0]), [0x20, 2, 0, 1]);
    assert!(s.clients.is_empty());
}

#[test]
fn a_client_of_the_older_version_sends_no_properties() {
    let h = ConnectionHandler::new();
    let m = SessionManager::new();
    let mut s = BrokerState::new();
    let mut c = Connection::new("127.0.0.1:1".into());
    h.handle_connection(&mut c, &mut s, ConnectionEvent::Opened);
    h.handle_connection(&mut c, &mut s, ConnectionEvent::Received(connect_bytes_as(4, "old", 60, None)));
    match h.handle_connection(&mut c, &mut s, ConnectionEvent::Judged { allowed: true, now: 5 }) {
        ConnectionAction::Send(reply) => assert_eq!(reply, [0x20, 2, 0, 0]),
        other => panic!("unexpected {other:?}"),
    }
    h.handle_connection(&mut c, &mut s, ConnectionEvent::Sent);
    let mut body = vec![0, 9];
    encode_utf8(&mut body, "x/+");
    body.push(1);
    let mut raw = vec![0x82, body.len() as u8];
    raw.extend_from_slice(&body);
    assert_eq!(send(&h, &mut s, &mut c, raw), [0x90, 3, 0, 9, 1]);
    let mut body = Vec::new();
    encode_utf8(&mut body, "x/1");
    body.extend_from_slice(&[0, 7, 0, 42]);
    let mut raw = vec![0x32, body.len() as u8];
    raw.extend_from_slice(&body);
    match scan_packet(&raw, 4) {
        Ok((Packet::Publish(p), used)) => {
            assert_eq!((p.packet_id, p.payload, used), (Some(7), vec![0, 42], raw.len()));
        }
        _ => panic!("expected a message"),
    }
    assert_eq!(send(&h, &mut s, &mut c, raw), [0x40, 2, 0, 7]);
    let got = m.drain_pending(&mut s, "old");
    assert_eq!((got.len(), got[0].payload.clone()), (1, vec![0, 42]));
    let mut body = vec![0, 4];
    encode_utf8(&mut body, "x/+");
    let mut raw = vec![0xA2, body.len() as u8];
    raw.extend_from_slice(&body);
    assert_eq!(send(&h, &mut s, &mut c, raw), [0xB0, 2, 0, 4]);
    assert!(s.get_topic_subscribers("x/+").is_empty());
}

#[test]
fn acknowledgements_fit_the_version() {
    assert_eq!(puback(258, true), [0x40, 4, 1, 2, 0, 0]);
    assert_eq!(puback(258, false), [0x40, 2, 1, 2]);
    assert_eq!(suback_v3(3, &vec![0, 0x80]), [0x90, 4, 0, 3, 0, 0x80]);
    assert_eq!(unsuback_v3(4), [0xB0, 2, 0, 4]);
}

#[test]
fn properties_say_how_long_they_are() {
    let mut p = Properties::new();
    p.reason_string = Some("不".into());
    p.topic_alias = Some(300);
    p.user_properties.push(UserProperty { key: "k".into(), value: "v".into() });
    let mut bytes = Vec::new();
    p.encode(&mut bytes);
    assert_eq!(p.encoded_length(), bytes.len() - 1);
    assert_eq!(bytes[0] as usize, bytes.len() - 1);
    let (back, used) = Properties::decode(&bytes).unwrap();
    assert_eq!(used, bytes.len());
    assert_eq!((back.reason_string.as_deref(), back.topic_alias), (Some("不"), Some(300)));
    assert_eq!(back.user_properties[0].value, "v");
}

#[test]
fn a_connection_must_start_with_connect() {
    let h = ConnectionHandler::new();
    let mut s = BrokerState::new();
    let mut c = Connection::new("127.0.0.1:1".into());
    h.handle_connection(&mut c, &mut s, ConnectionEvent::Opened);
    let a = h.handle_connection(&mut c, &mut s, ConnectionEvent::Received(vec![0xC0, 0]));
    assert!(matches!(a, ConnectionAction::Close | ConnectionAction::SendAndClose(_)), "{a:?}");
    let mut c = Connection::new("127.0.0.1:1".into());
    h.handle_connection(&mut c, &mut s, ConnectionEvent::Opened);
    let mut big = vec![0x10, 0xff, 0xff, 0xff, 0x7f];
    big.resize(CONNECT_LIMIT + 1, 0);
    let a = h.handle_connection(&mut c, &mut s, ConnectionEvent::Received(big));
    assert!(matches!(a, ConnectionAction::Close | ConnectionAction::SendAndClose(_)), "{a:?}");
}

#[test]
fn handlers_reply_on_their_own() {
    let h = ConnectionHandler::new();
    let mut s = BrokerState::new();
    SessionManager::new().create_session(&mut s, "a", true, None);
    let options = SubscribeOptions { qos: 2, no_local: true, retain_as_published: false, retain_handling: 1 };
    let sub = SubscribePacket {
        packet_id: 3,
        properties: Properties::new(),
        topic_filters: vec![SubscribeTopic { topic_filter: "f".into(), options }],
    };
    assert_eq!(h.handle_subscribe(&mut s, sub, "a", true), [0x90, 4, 0, 3, 0, 2]);
    assert!(s.get_topic_subscribers("f")[0].no_local);
    let unsub = UnsubscribePacket { packet_id: 4, properties: Properties::new(), topic_filters: vec!["f".into()] };
    assert_eq!(h.handle_unsubscribe(&mut s, unsub, "a", true), [0xB0, 4, 0, 4, 0, 0]);
    assert!(s.get_topic_subscribers("f").is_empty());
}

// ── Packets ──────────────────────────────────────────────────────────────

#[test]
fn lengths_that_do_not_fit_are_found() {
    let long = [0x30, 0xff, 0xff, 0xff, 0xff, 0xff, 0xff, 0xff, 0xff, 0xff, 0x7f];
    assert!(matches!(scan_varint(&long[1..]), Varint::Overlong));
    assert!(!lengths_fit(&long));
    assert!(matches!(scan_packet(&long, 5), Err(PacketFault::Overlong)));
    assert!(lengths_fit(&[0x30, 0x80]));
    assert_eq!(decode_remaining_length(&[0x80]), None);
    assert_eq!(decode_remaining_length(&[0x80, 0x01]), Some((128, 2)));
}

#[test]
fn decode_errors_tell_what_is_wrong() {
    assert!(matches!(decode_packet(&[0x10]), Err(DecodeError::InsufficientData)));
    assert!(matches!(decode_packet(&[0xF0, 0]), Err(DecodeError::UnsupportedPacket(15))));
    assert!(matches!(decode_packet(&[0x10, 2, 0, 9]), Err(DecodeError::Malformed(_))));
    for e in [DecodeError::InsufficientData, DecodeError::Malformed("x"), DecodeError::UnsupportedPacket(9)] {
        assert!(!e.message().is_empty());
    }
    assert_eq!(Packet::Pingresp.kind_name(), "PINGRESP");
}

#[test]
fn the_decoder_takes_whole_packets() {
    let mut d = MqttDecoder::new();
    let mut buf = BytesMut::new();
    let ack = Packet::Suback(SubackPacket { packet_id: 1, properties: Properties::new(), reason_codes: vec![0] }).encode();
    buf.extend_from_slice(&[0xC0]);
    assert!(d.decode(&mut buf).unwrap().is_none());
    buf.extend_from_slice(&[0x00]);
    buf.extend_from_slice(&ack[..2]);
    assert!(matches!(d.decode(&mut buf), Ok(Some(Packet::Pingreq))));
    assert_eq!(buf.len(), 2);
    assert!(d.decode(&mut buf).unwrap().is_none());
    buf.extend_from_slice(&ack[2..]);
    assert!(matches!(d.decode(&mut buf), Ok(Some(Packet::Suback(_)))));
    assert!(buf.is_empty());
    buf.extend_from_slice(&[0xF0, 0x00]);
    assert!(d.decode(&mut buf).is_err());
    assert_eq!(buf.len(), 2);
}

#[test]
fn properties_round_trip() {
    let mut p = Properties::new();
    p.session_expiry_interval = Some(5);
    p.receive_maximum = Some(6);
    p.user_properties.push(UserProperty { key: "k".into(), value: "值".into() });
    let mut buf = Vec::new();
    p.encode(&mut buf);
    let (q, n) = Properties::decode(&buf).unwrap();
    assert_eq!(n, buf.len());
    assert_eq!((q.session_expiry_interval, q.receive_maximum), (Some(5), Some(6)));
    assert_eq!((q.user_properties[0].key.as_str(), q.user_properties[0].value.as_str()), ("k", "值"));
    assert!(scan_properties(&[2, 0x7e, 0]).is_err());
    let mut b = Vec::new();
    encode_binary(&mut b, &[1, 2, 3]);
    assert_eq!(b, [0, 3, 1, 2, 3]);
    assert_eq!(decode_binary(&b), Some((&[1u8, 2, 3][..], 5)));
}

#[test]
fn acknowledgements_are_written() {
    let p = Packet::Unsuback(UnsubackPacket { packet_id: 258, properties: Properties::new(), reason_codes: vec![0, 17] });
    assert_eq!(p.encode(), [0xB0, 5, 1, 2, 0, 0, 17]);
}

// ── Text and settings ────────────────────────────────────────────────────

#[test]
fn white_space_is_that_of_unicode() {
    for n in 0..=0x10ffffu32 {
        if let Some(c) = char::from_u32(n) {
            assert_eq!(text::is_whitespace(c), c.is_whitespace(), "U+{n:04X}");
        }
    }
}

#[test]
fn texts_behave_as_those_of_the_standard_library() {
    let samples = ["", "a", " a\u{3000}", "b\r\n\nc\r", "Ünï\tcode\u{85}", "x:y:z", "\n", "abab"];
    for s in samples {
        let chars = text::chars_of(s);
        let trimmed: String = text::trimmed(&chars).into_iter().collect();
        assert_eq!(trimmed, s.trim());
        let lines: Vec<String> = text::lines_of(s).into_iter().map(|l| l.into_iter().collect()).collect();
        assert_eq!(lines, s.lines().map(String::from).collect::<Vec<_>>());
        let parts: Vec<String> = text::split_chars(&chars, ':').into_iter().map(|l| l.into_iter().collect()).collect();
        assert_eq!(parts, s.split(':').map(String::from).collect::<Vec<_>>());
        for t in samples {
            assert_eq!(text::comes_before(s, t), s < t);
            assert_eq!(text::same_text(s, t), s == t);
            let other = text::chars_of(t);
            assert_eq!(text::has_text(&chars, &other), s.contains(t));
            assert_eq!(text::equal_but_case(&chars, &other), s.eq_ignore_ascii_case(t));
        }
    }
    for s in ["0", "42", "4294967295", "4294967296", "", "+7", "-1", "1a", "007"] {
        assert_eq!(text::parse_u32(&text::chars_of(s)), s.parse::<u32>().ok(), "{s}");
    }
    let mut s = String::from("n=");
    text::push_decimal(&mut s, u64::MAX);
    assert_eq!(s, format!("n={}", u64::MAX));
}

#[test]
fn defaults_of_the_settings() {
    let v = VoiceChannelConfig::default();
    assert_eq!((v.engine.as_str(), v.sample_rate, v.kws_num_threads), ("stub", 16000, 2));
    assert_eq!(v.follow_up_patterns, default_followup_patterns());
    let o = VoiceOutputConfig::default();
    assert_eq!((o.max_chars, o.require_chinese_action.as_str()), (120, "warn"));
    let c = ChannelsConfig::default();
    assert!(c.text.enabled && !c.qq.enabled && !c.voice.enabled);
    assert!(c.qq.onebot_url.is_none() && c.qq.authorized_users.is_empty());
    assert_eq!((c.voice.wake_word, c.voice.wake_prompt), (v.wake_word, v.wake_prompt));
    assert_eq!(c.voice.tts_speaker_id, 3);
}

// ── Workspace ────────────────────────────────────────────────────────────

fn path_of(dir: WorkspaceDir) -> std::path::PathBuf {
    match dir {
        WorkspaceDir::Given(p) => std::path::PathBuf::from(p),
        WorkspaceDir::Below { base, path } => std::path::PathBuf::from(base).join(path),
    }
}

#[test]
fn resolve_relative_uses_cwd() {
    let resolved = path_of(resolve_workspace_dir("config/soul", false, Some("/srv/app")));
    assert!(resolved.is_absolute());
    assert!(resolved.ends_with("config/soul"));
    let resolved = path_of(resolve_workspace_dir("config/soul", false, None));
    assert_eq!(resolved, std::path::PathBuf::from("./config/soul"));
}

#[test]
fn resolve_absolute_passes_through() {
    let resolved = path_of(resolve_workspace_dir("/tmp/abs-soul", true, Some("/srv/app")));
    assert_eq!(resolved, std::path::PathBuf::from("/tmp/abs-soul"));
}

#[test]
fn identity_config_defaults_to_openclaw() {
    let cfg = build_identity_config("openclaw");
    assert_eq!(cfg.format, "openclaw");
    assert!(cfg.aieos_path.is_none());
}

#[test]
fn identity_config_normalizes_case_and_whitespace() {
    assert_eq!(build_identity_config("OpenClaw").format, "openclaw");
    assert_eq!(build_identity_config("  AIEOS  ").format, "aieos");
    assert_eq!(build_identity_config("").format, "openclaw");
}

#[test]
fn identity_config_unknown_falls_back_to_openclaw() {
    assert_eq!(build_identity_config("soul-md").format, "openclaw");
}

#[test]
fn ensure_workspace_seeds_then_idempotent() {
    let core = ["SOUL.md", "AGENTS.md", "IDENTITY.md", "TOOLS.md", "USER.md"];
    let plan = plan_workspace(&vec![], 17);
    let names: Vec<&str> = plan.writes.iter().map(|f| f.name.as_str()).collect();
    assert_eq!(names[..5], core);
    assert_eq!(names[5..], ["HEARTBEAT.md", "MEMORY.md", SEED_MARKER]);
    for f in &plan.writes[..5] {
        assert!(!f.content.trim().is_empty(), "default file {} is empty", f.name);
        let title = f.name.strip_suffix(".md").unwrap();
        assert!(f.content.starts_with(&format!("# {title}\n\n")));
    }
    assert!(plan.writes[2].content.contains("- **正式名**：`小金` (xiǎo jīn)\n"));
    assert!(plan.writes[3].content.contains("\n## get_topic_subscribers\n"));
    assert!(plan.writes[3].content.contains("`agent/src/voice_text.rs` 会在送进 TTS 之前"));
    assert_eq!((plan.writes[5].content.as_str(), plan.writes[6].content.as_str()), ("\n", "\n"));
    assert_eq!(plan.writes[7].content, "seeded_at_unix = 17\nformat = \"openclaw\"\n");
    assert_eq!((plan.seeded, plan.skipped), (5, 0));
    // What a user edited is there, and is left alone.
    let existing: Vec<String> = names.iter().map(|n| n.to_string()).collect();
    let again = plan_workspace(&existing, 18);
    assert!(again.writes.is_empty());
    assert_eq!((again.seeded, again.skipped), (0, 5));
    assert_eq!(again.message("/w"), "[soul] workspace ready at /w (5 existing file(s) preserved)");
    let part = plan_workspace(&vec!["SOUL.md".into(), "MEMORY.md".into()], 18);
    let names: Vec<&str> = part.writes.iter().map(|f| f.name.as_str()).collect();
    assert_eq!(names, ["AGENTS.md", "IDENTITY.md", "TOOLS.md", "USER.md", "HEARTBEAT.md", SEED_MARKER]);
    assert!(part.message("/w").starts_with("[soul] seeded 4 default file(s) in /w (skipped 1 existing)"));
}
