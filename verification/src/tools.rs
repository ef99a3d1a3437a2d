//! The agent's tools: what they are asked, and the rows that they answer with.

use crate::api;
use crate::management::TopicSubscribers;
use crate::properties::UserProperty;
use crate::state::{
    copy_user_properties, ClientInfo, ClientView, MessageView, PublishPacket, Subscription,
    SubscriptionView,
};
use crate::tts::copy_text;
use vstd::prelude::*;
use vstd::string::*;

verus! {

// ── Questions ────────────────────────────────────────────────────────────

/// A parameter that a tool needs and was not given.
#[derive(Debug)]
pub struct MissingParameter {
    pub name: &'static str,
}

impl MissingParameter {
    /// What is said about it.
    pub fn message(&self) -> (r: String)
        ensures
            r@ == "Missing "@ + self.name@ + " parameter"@,
    {
        let mut s = "Missing ".to_owned();
        s.append(self.name);
        s.append(" parameter");
        s
    }
}

/// A parameter that a tool needs.
pub fn text_parameter(value: Option<String>, name: &'static str) -> (r: Result<
    String,
    MissingParameter,
>)
    ensures
        match value {
            Some(v) => r matches Ok(t) && t@ == v@,
            None => r matches Err(e) && e.name@ == name@,
        },
{
    match value {
        Some(v) => Ok(v),
        None => Err(MissingParameter { name }),
    }
}

/// What a message is published with, as far as it was given.
#[derive(Debug)]
pub struct PublishParameters {
    pub topic: Option<String>,
    pub payload: Option<String>,
    pub qos: Option<u64>,
    pub retain: Option<bool>,
    /// The keys and values of the user properties, as far as they are texts.
    pub user_properties: Option<Vec<(Option<String>, Option<String>)>>,
}

/// What a message is published with.
#[derive(Debug)]
pub struct PublishArguments {
    pub topic: String,
    pub payload: String,
    pub qos: u8,
    pub retain: bool,
    pub user_properties: Vec<(String, String)>,
}

/// The texts of a pair.
pub open spec fn pair(p: (String, String)) -> (Seq<char>, Seq<char>) {
    (p.0@, p.1@)
}

/// The texts of pairs.
pub open spec fn pairs(list: Seq<(String, String)>) -> Seq<(Seq<char>, Seq<char>)> {
    Seq::new(list.len(), |i: int| pair(list[i]))
}

/// Those of the pairs of which both parts were given.
pub open spec fn complete(list: Seq<(Option<String>, Option<String>)>) -> Seq<
    (Seq<char>, Seq<char>),
>
    decreases list.len(),
{
    if list.len() == 0 {
        Seq::empty()
    } else {
        let front = complete(list.drop_last());
        match list.last() {
            (Some(k), Some(v)) => front.push((k@, v@)),
            _ => front,
        }
    }
}

/// The user properties of a message: none, where none were given.
pub open spec fn properties_of(
    list: Option<Vec<(Option<String>, Option<String>)>>,
) -> Seq<(Seq<char>, Seq<char>)> {
    match list {
        Some(list) => complete(list@),
        None => Seq::empty(),
    }
}

fn complete_pairs(list: &Vec<(Option<String>, Option<String>)>) -> (r: Vec<(String, String)>)
    ensures
        pairs(r@) == complete(list@),
{
    let mut r: Vec<(String, String)> = Vec::new();
    assert(pairs(r@) =~= complete(list@.take(0)));
    for i in 0..list.len()
        invariant
            pairs(r@) == complete(list@.take(i as int)),
    {
        let ghost before = pairs(r@);
        proof {
            assert(list@.take(i + 1).drop_last() == list@.take(i as int));
            assert(list@.take(i + 1).last() == list@[i as int]);
        }
        if let (Some(k), Some(v)) = &list[i] {
            r.push((k.clone(), v.clone()));
            assert(pairs(r@) =~= before.push((k@, v@)));
        }
    }
    assert(list@.take(list@.len() as int) == list@);
    r
}

impl PublishParameters {
    /// What a message is published with. A message needs a topic and a payload;
    /// the other parameters have defaults. Of the number that asks for a
    /// delivery guarantee the low eight bits count.
    pub fn arguments(self) -> (r: Result<PublishArguments, MissingParameter>)
        ensures
            match (self.topic, self.payload) {
                (None, _) => r matches Err(e) && e.name@ == "topic"@,
                (Some(_), None) => r matches Err(e) && e.name@ == "payload"@,
                (Some(topic), Some(payload)) => {
                    &&& r matches Ok(a)
                    &&& a.topic@ == topic@
                    &&& a.payload@ == payload@
                    &&& a.qos == (match self.qos {
                        Some(q) => q as u8,
                        None => 0,
                    })
                    &&& a.retain == self.retain.unwrap_or(false)
                    &&& pairs(a.user_properties@) == properties_of(self.user_properties)
                },
            },
    {
        let topic = match text_parameter(self.topic, "topic") {
            Ok(t) => t,
            Err(e) => {
                return Err(e);
            },
        };
        let payload = match text_parameter(self.payload, "payload") {
            Ok(t) => t,
            Err(e) => {
                return Err(e);
            },
        };
        let qos: u8 = match self.qos {
            Some(q) => #[verifier::truncate]
            (q as u8),
            None => 0,
        };
        let retain: bool = match self.retain {
            Some(b) => b,
            None => false,
        };
        let user_properties: Vec<(String, String)> = match &self.user_properties {
            Some(list) => complete_pairs(list),
            None => {
                let none: Vec<(String, String)> = Vec::new();
                assert(pairs(none@) =~= Seq::<(Seq<char>, Seq<char>)>::empty());
                none
            },
        };
        Ok(PublishArguments { topic, payload, qos, retain, user_properties })
    }
}

// ── Answers ──────────────────────────────────────────────────────────────

/// What a tool says of a client.
#[derive(Debug)]
pub struct ClientRow {
    pub client_id: String,
    pub address: String,
    pub protocol: String,
    pub connected_for_secs: u64,
    pub username: Option<String>,
    pub keep_alive: u16,
    pub clean_session: bool,
}

#[verifier::ext_equal]
pub struct ClientRowView {
    pub client_id: Seq<char>,
    pub address: Seq<char>,
    pub protocol: Seq<char>,
    pub connected_for_secs: u64,
    pub username: Option<Seq<char>>,
    pub keep_alive: u16,
    pub clean_session: bool,
}

impl View for ClientRow {
    type V = ClientRowView;

    open spec fn view(&self) -> ClientRowView {
        ClientRowView {
            client_id: self.client_id@,
            address: self.address@,
            protocol: self.protocol@,
            connected_for_secs: self.connected_for_secs,
            username: self.username.deep_view(),
            keep_alive: self.keep_alive,
            clean_session: self.clean_session,
        }
    }
}

impl DeepView for ClientRow {
    type V = ClientRowView;

    open spec fn deep_view(&self) -> ClientRowView {
        self@
    }
}

/// What a tool says of a client at a moment: not when it connected, but for how
/// long it has been connected.
pub open spec fn client_row(c: ClientView, now: u64) -> ClientRowView {
    ClientRowView {
        client_id: c.client_id,
        address: c.addr,
        protocol: api::protocol_text(c.protocol_version),
        connected_for_secs: if now >= c.connected_at {
            (now - c.connected_at) as u64
        } else {
            0
        },
        username: c.username,
        keep_alive: c.keep_alive,
        clean_session: c.clean_session,
    }
}

/// What a tool says of the clients at a moment.
pub fn client_rows(clients: &Vec<ClientInfo>, now: u64) -> (r: Vec<ClientRow>)
    ensures
        r.deep_view() == Seq::new(
            clients@.len(),
            |i: int| client_row(clients@[i]@, now),
        ),
{
    let mut r: Vec<ClientRow> = Vec::new();
    for i in 0..clients.len()
        invariant
            r@.len() == i,
            forall|j: int| 0 <= j < i ==> (#[trigger] r@[j])@ == client_row(clients@[j]@, now),
    {
        let c: &ClientInfo = &clients[i];
        let connected_for_secs: u64 = if now >= c.connected_at {
            now - c.connected_at
        } else {
            0
        };
        r.push(
            ClientRow {
                client_id: c.client_id.clone(),
                address: c.addr.clone(),
                protocol: api::protocol_name(c.protocol_version).to_owned(),
                connected_for_secs,
                username: copy_text(&c.username),
                keep_alive: c.keep_alive,
                clean_session: c.clean_session,
            },
        );
    }
    assert(r.deep_view() =~= Seq::new(
        clients@.len(),
        |i: int| client_row(clients@[i]@, now),
    ));
    r
}

/// What a tool says of a subscriber.
#[derive(Debug)]
pub struct SubscriberRow {
    pub client_id: String,
    pub topic_filter: String,
    pub qos: String,
}

impl View for SubscriberRow {
    type V = (Seq<char>, Seq<char>, Seq<char>);

    open spec fn view(&self) -> (Seq<char>, Seq<char>, Seq<char>) {
        (self.client_id@, self.topic_filter@, self.qos@)
    }
}

impl DeepView for SubscriberRow {
    type V = (Seq<char>, Seq<char>, Seq<char>);

    open spec fn deep_view(&self) -> (Seq<char>, Seq<char>, Seq<char>) {
        self@
    }
}

/// What a tool says of the subscribers.
pub open spec fn subscriber_rows_of(list: Seq<SubscriptionView>) -> Seq<
    (Seq<char>, Seq<char>, Seq<char>),
> {
    Seq::new(
        list.len(),
        |i: int| (list[i].client_id, list[i].topic_filter, api::qos_text(list[i].qos)),
    )
}

/// What a tool says of the subscribers.
pub fn subscriber_rows(list: &Vec<Subscription>) -> (r: Vec<SubscriberRow>)
    ensures
        r.deep_view() == subscriber_rows_of(list.deep_view()),
{
    let mut r: Vec<SubscriberRow> = Vec::new();
    for i in 0..list.len()
        invariant
            r@.len() == i,
            forall|j: int|
                0 <= j < i ==> (#[trigger] r@[j])@ == (
                    list@[j].client_id@,
                    list@[j].topic_filter@,
                    api::qos_text(list@[j].qos),
                ),
    {
        r.push(
            SubscriberRow {
                client_id: list[i].client_id.clone(),
                topic_filter: list[i].topic_filter.clone(),
                qos: api::qos_name(list[i].qos).to_owned(),
            },
        );
    }
    assert(r.deep_view() =~= subscriber_rows_of(list.deep_view()));
    r
}

/// What a tool says of a topic filter.
#[derive(Debug)]
pub struct TopicRow {
    pub topic: String,
    pub subscriber_count: usize,
    pub subscribers: Vec<SubscriberRow>,
}

impl View for TopicRow {
    type V = (Seq<char>, usize, Seq<(Seq<char>, Seq<char>, Seq<char>)>);

    open spec fn view(&self) -> (Seq<char>, usize, Seq<(Seq<char>, Seq<char>, Seq<char>)>) {
        (self.topic@, self.subscriber_count, self.subscribers.deep_view())
    }
}

impl DeepView for TopicRow {
    type V = (Seq<char>, usize, Seq<(Seq<char>, Seq<char>, Seq<char>)>);

    open spec fn deep_view(&self) -> (Seq<char>, usize, Seq<(Seq<char>, Seq<char>, Seq<char>)>) {
        self@
    }
}

/// What a tool says of a topic filter and its subscribers.
pub fn topic_row(topic: &str, subscribers: &Vec<Subscription>) -> (r: TopicRow)
    ensures
        r@ == (
            topic@,
            subscribers@.len() as usize,
            subscriber_rows_of(subscribers.deep_view()),
        ),
        r.subscriber_count == subscribers@.len(),
{
    TopicRow {
        topic: topic.to_owned(),
        subscriber_count: subscribers.len(),
        subscribers: subscriber_rows(subscribers),
    }
}

/// What a tool says of the topic filters and their subscribers.
pub fn topic_rows(topics: &Vec<TopicSubscribers>) -> (r: Vec<TopicRow>)
    ensures
        r@.len() == topics@.len(),
        forall|i: int|
            0 <= i < topics@.len() ==> (#[trigger] r@[i])@ == (
                topics@[i]@.0,
                topics@[i]@.1.len() as usize,
                subscriber_rows_of(topics@[i]@.1),
            ),
{
    let mut r: Vec<TopicRow> = Vec::new();
    for i in 0..topics.len()
        invariant
            r@.len() == i,
            forall|j: int|
                0 <= j < i ==> (#[trigger] r@[j])@ == (
                    topics@[j]@.0,
                    topics@[j]@.1.len() as usize,
                    subscriber_rows_of(topics@[j]@.1),
                ),
    {
        r.push(topic_row(topics[i].topic.as_str(), &topics[i].subscribers));
    }
    r
}

// ── Messages ─────────────────────────────────────────────────────────────

/// The text that `std`'s `String::from_utf8_lossy` makes of bytes.
pub uninterp spec fn lossy_text(bytes: Seq<u8>) -> Seq<char>;

/// `String::from_utf8_lossy`: bytes that are UTF-8 give their text. What stands
/// for other bytes is left to the name `lossy_text`.
#[verifier::external_body]
fn to_lossy_text(bytes: &[u8]) -> (r: String)
    ensures
        r@ == lossy_text(bytes@),
        vstd::utf8::valid_utf8(bytes@) ==> r@ == vstd::utf8::decode_utf8(bytes@),
{
    String::from_utf8_lossy(bytes).into_owned()
}

/// What a tool says of a message.
#[derive(Debug)]
pub struct MessageRow {
    pub topic: String,
    pub payload: String,
    pub qos: String,
    pub retain: bool,
    pub user_properties: Vec<UserProperty>,
}

#[verifier::ext_equal]
pub struct MessageRowView {
    pub topic: Seq<char>,
    pub payload: Seq<char>,
    pub qos: Seq<char>,
    pub retain: bool,
    pub user_properties: Seq<(Seq<char>, Seq<char>)>,
}

impl View for MessageRow {
    type V = MessageRowView;

    open spec fn view(&self) -> MessageRowView {
        MessageRowView {
            topic: self.topic@,
            payload: self.payload@,
            qos: self.qos@,
            retain: self.retain,
            user_properties: self.user_properties.deep_view(),
        }
    }
}

/// What a tool says of a message whose payload reads so.
pub open spec fn message_row_of(m: MessageView, payload: Seq<char>) -> MessageRowView {
    MessageRowView {
        topic: m.topic,
        payload,
        qos: api::qos_text(m.qos),
        retain: m.retain,
        user_properties: m.user_properties,
    }
}

/// What a tool says of a message whose payload reads so.
pub fn message_row(m: &PublishPacket, payload: String) -> (r: MessageRow)
    ensures
        r@ == message_row_of(m@, payload@),
{
    MessageRow {
        topic: m.topic.clone(),
        payload,
        qos: api::qos_name(m.qos).to_owned(),
        retain: m.retain,
        user_properties: copy_user_properties(&m.user_properties),
    }
}

/// What a tool says of the messages that were taken out of a queue.
pub fn message_rows(messages: &Vec<PublishPacket>) -> (r: Vec<MessageRow>)
    ensures
        r@.len() == messages@.len(),
        forall|i: int|
            0 <= i < messages@.len() ==> (#[trigger] r@[i])@ == message_row_of(
                messages@[i]@,
                lossy_text(messages@[i]@.payload),
            ),
        forall|i: int|
            0 <= i < messages@.len() && vstd::utf8::valid_utf8(messages@[i]@.payload)
                ==> (#[trigger] r@[i])@.payload == vstd::utf8::decode_utf8(messages@[i]@.payload),
{
    let mut r: Vec<MessageRow> = Vec::new();
    for i in 0..messages.len()
        invariant
            r@.len() == i,
            forall|j: int|
                0 <= j < i ==> (#[trigger] r@[j])@ == message_row_of(
                    messages@[j]@,
                    lossy_text(messages@[j]@.payload),
                ),
            forall|j: int|
                0 <= j < i && vstd::utf8::valid_utf8(messages@[j]@.payload) ==> (
                #[trigger] r@[j])@.payload == vstd::utf8::decode_utf8(messages@[j]@.payload),
    {
        let payload = to_lossy_text(messages[i].payload.as_slice());
        r.push(message_row(&messages[i], payload));
    }
    r
}

} // verus!
