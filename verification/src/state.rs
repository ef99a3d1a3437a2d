//! What the broker knows: its clients, their subscriptions and their sessions.

use crate::packet;
use crate::properties::UserProperty;
use crate::table::Table;
use crate::table;
use vstd::prelude::*;
use vstd::string::*;

verus! {

/// The protocol version that a client speaks.
#[derive(Clone, Copy, Debug, PartialEq, Eq, Structural)]
pub enum MqttProtocol {
    V311,
    V500,
}

/// The delivery guarantee of a message or a subscription.
#[derive(Clone, Copy, Debug, PartialEq, Eq, Structural)]
pub enum QoS {
    AtMostOnce,
    AtLeastOnce,
    ExactlyOnce,
}

/// The guarantee that a number on the wire asks for.
pub open spec fn qos_of(n: u8) -> QoS {
    if n == 0 {
        QoS::AtMostOnce
    } else if n == 1 {
        QoS::AtLeastOnce
    } else {
        QoS::ExactlyOnce
    }
}

impl QoS {
    /// The guarantee that a number on the wire asks for.
    pub fn from_wire(n: u8) -> (r: QoS)
        ensures
            r == qos_of(n),
    {
        match n {
            0 => QoS::AtMostOnce,
            1 => QoS::AtLeastOnce,
            _ => QoS::ExactlyOnce,
        }
    }
}

/// A connected client. `connected_at` counts the seconds of the broker's clock.
#[derive(Debug)]
pub struct ClientInfo {
    pub client_id: String,
    pub addr: String,
    pub protocol_version: MqttProtocol,
    pub connected_at: u64,
    pub clean_session: bool,
    pub keep_alive: u16,
    pub username: Option<String>,
}

#[verifier::ext_equal]
pub struct ClientView {
    pub client_id: Seq<char>,
    pub addr: Seq<char>,
    pub protocol_version: MqttProtocol,
    pub connected_at: u64,
    pub clean_session: bool,
    pub keep_alive: u16,
    pub username: Option<Seq<char>>,
}

impl View for ClientInfo {
    type V = ClientView;

    open spec fn view(&self) -> ClientView {
        ClientView {
            client_id: self.client_id@,
            addr: self.addr@,
            protocol_version: self.protocol_version,
            connected_at: self.connected_at,
            clean_session: self.clean_session,
            keep_alive: self.keep_alive,
            username: self.username.deep_view(),
        }
    }
}

impl DeepView for ClientInfo {
    type V = ClientView;

    open spec fn deep_view(&self) -> ClientView {
        self@
    }
}

impl Clone for ClientInfo {
    fn clone(&self) -> (r: Self)
        ensures
            r@ == self@,
    {
        ClientInfo {
            client_id: self.client_id.clone(),
            addr: self.addr.clone(),
            protocol_version: self.protocol_version,
            connected_at: self.connected_at,
            clean_session: self.clean_session,
            keep_alive: self.keep_alive,
            username: self.username.clone(),
        }
    }
}

/// A client's interest in the topics that match a filter.
#[derive(Debug)]
pub struct Subscription {
    pub client_id: String,
    pub topic_filter: String,
    pub qos: QoS,
    pub no_local: bool,
    pub retain_as_published: bool,
    pub retain_handling: u8,
}

#[verifier::ext_equal]
pub struct SubscriptionView {
    pub client_id: Seq<char>,
    pub topic_filter: Seq<char>,
    pub qos: QoS,
    pub no_local: bool,
    pub retain_as_published: bool,
    pub retain_handling: u8,
}

impl View for Subscription {
    type V = SubscriptionView;

    open spec fn view(&self) -> SubscriptionView {
        SubscriptionView {
            client_id: self.client_id@,
            topic_filter: self.topic_filter@,
            qos: self.qos,
            no_local: self.no_local,
            retain_as_published: self.retain_as_published,
            retain_handling: self.retain_handling,
        }
    }
}

impl DeepView for Subscription {
    type V = SubscriptionView;

    open spec fn deep_view(&self) -> SubscriptionView {
        self@
    }
}

impl Clone for Subscription {
    fn clone(&self) -> (r: Self)
        ensures
            r@ == self@,
    {
        Subscription {
            client_id: self.client_id.clone(),
            topic_filter: self.topic_filter.clone(),
            qos: self.qos,
            no_local: self.no_local,
            retain_as_published: self.retain_as_published,
            retain_handling: self.retain_handling,
        }
    }
}

/// A copy of a list of subscriptions.
pub fn copy_subscriptions(list: &Vec<Subscription>) -> (r: Vec<Subscription>)
    ensures
        r.deep_view() == list.deep_view(),
{
    let mut r: Vec<Subscription> = Vec::new();
    for i in 0..list.len()
        invariant
            r@.len() == i,
            forall|j: int| 0 <= j < i ==> r@[j]@ == list@[j]@,
    {
        let copy = list[i].clone();
        r.push(copy);
    }
    assert(r.deep_view() =~= list.deep_view());
    r
}

/// A message on its way to a client.
#[derive(Debug)]
pub struct PublishPacket {
    pub topic: String,
    pub payload: Vec<u8>,
    pub qos: QoS,
    pub retain: bool,
    pub user_properties: Vec<UserProperty>,
    pub content_type: Option<String>,
    pub response_topic: Option<String>,
    pub correlation_data: Option<Vec<u8>>,
    pub message_expiry_interval: Option<u32>,
    pub payload_format_indicator: Option<u8>,
    pub topic_alias: Option<u16>,
}

#[verifier::ext_equal]
pub struct MessageView {
    pub topic: Seq<char>,
    pub payload: Seq<u8>,
    pub qos: QoS,
    pub retain: bool,
    pub user_properties: Seq<(Seq<char>, Seq<char>)>,
    pub content_type: Option<Seq<char>>,
    pub response_topic: Option<Seq<char>>,
    pub correlation_data: Option<Seq<u8>>,
    pub message_expiry_interval: Option<u32>,
    pub payload_format_indicator: Option<u8>,
    pub topic_alias: Option<u16>,
}

impl View for PublishPacket {
    type V = MessageView;

    open spec fn view(&self) -> MessageView {
        MessageView {
            topic: self.topic@,
            payload: self.payload@,
            qos: self.qos,
            retain: self.retain,
            user_properties: self.user_properties.deep_view(),
            content_type: self.content_type.deep_view(),
            response_topic: self.response_topic.deep_view(),
            correlation_data: packet::opt_bytes(self.correlation_data),
            message_expiry_interval: self.message_expiry_interval,
            payload_format_indicator: self.payload_format_indicator,
            topic_alias: self.topic_alias,
        }
    }
}

impl DeepView for PublishPacket {
    type V = MessageView;

    open spec fn deep_view(&self) -> MessageView {
        self@
    }
}

/// A copy of some bytes.
pub fn copy_bytes(b: &Vec<u8>) -> (r: Vec<u8>)
    ensures
        r@ == b@,
{
    let r = b.clone();
    assert(r@ =~= b@);
    r
}

/// A copy of a list of user properties.
pub fn copy_user_properties(list: &Vec<UserProperty>) -> (r: Vec<UserProperty>)
    ensures
        r.deep_view() == list.deep_view(),
{
    let mut r: Vec<UserProperty> = Vec::new();
    for i in 0..list.len()
        invariant
            r@.len() == i,
            forall|j: int| 0 <= j < i ==> r@[j]@ == list@[j]@,
    {
        let copy = list[i].clone();
        r.push(copy);
    }
    assert(r.deep_view() =~= list.deep_view());
    r
}

impl Clone for PublishPacket {
    fn clone(&self) -> (r: Self)
        ensures
            r@ == self@,
    {
        PublishPacket {
            topic: self.topic.clone(),
            payload: copy_bytes(&self.payload),
            qos: self.qos,
            retain: self.retain,
            user_properties: copy_user_properties(&self.user_properties),
            content_type: self.content_type.clone(),
            response_topic: self.response_topic.clone(),
            correlation_data: match &self.correlation_data {
                Some(b) => Some(copy_bytes(b)),
                None => None,
            },
            message_expiry_interval: self.message_expiry_interval,
            payload_format_indicator: self.payload_format_indicator,
            topic_alias: self.topic_alias,
        }
    }
}

/// The message that the broker publishes for a client that is gone.
#[derive(Debug)]
pub struct WillMessage {
    pub topic: String,
    pub payload: Vec<u8>,
    pub qos: QoS,
    pub retain: bool,
}

#[verifier::ext_equal]
pub struct WillMessageView {
    pub topic: Seq<char>,
    pub payload: Seq<u8>,
    pub qos: QoS,
    pub retain: bool,
}

impl View for WillMessage {
    type V = WillMessageView;

    open spec fn view(&self) -> WillMessageView {
        WillMessageView {
            topic: self.topic@,
            payload: self.payload@,
            qos: self.qos,
            retain: self.retain,
        }
    }
}

impl DeepView for WillMessage {
    type V = WillMessageView;

    open spec fn deep_view(&self) -> WillMessageView {
        self@
    }
}

impl Clone for WillMessage {
    fn clone(&self) -> (r: Self)
        ensures
            r@ == self@,
    {
        WillMessage {
            topic: self.topic.clone(),
            payload: copy_bytes(&self.payload),
            qos: self.qos,
            retain: self.retain,
        }
    }
}

/// What the broker keeps for a client beyond its connection.
#[derive(Debug)]
pub struct SessionState {
    pub client_id: String,
    pub subscriptions: Vec<Subscription>,
    pub pending_messages: Vec<PublishPacket>,
    pub will_message: Option<WillMessage>,
}

#[verifier::ext_equal]
pub struct SessionView {
    pub client_id: Seq<char>,
    pub subscriptions: Seq<SubscriptionView>,
    pub pending_messages: Seq<MessageView>,
    pub will_message: Option<WillMessageView>,
}

impl View for SessionState {
    type V = SessionView;

    open spec fn view(&self) -> SessionView {
        SessionView {
            client_id: self.client_id@,
            subscriptions: self.subscriptions.deep_view(),
            pending_messages: self.pending_messages.deep_view(),
            will_message: self.will_message.deep_view(),
        }
    }
}

impl DeepView for SessionState {
    type V = SessionView;

    open spec fn deep_view(&self) -> SessionView {
        self@
    }
}

impl Clone for SessionState {
    fn clone(&self) -> (r: Self)
        ensures
            r@ == self@,
    {
        let mut pending_messages: Vec<PublishPacket> = Vec::new();
        for i in 0..self.pending_messages.len()
            invariant
                pending_messages@.len() == i,
                forall|j: int| 0 <= j < i ==> pending_messages@[j]@ == self.pending_messages@[j]@,
        {
            let copy = self.pending_messages[i].clone();
            pending_messages.push(copy);
        }
        assert(pending_messages.deep_view() =~= self.pending_messages.deep_view());
        SessionState {
            client_id: self.client_id.clone(),
            subscriptions: copy_subscriptions(&self.subscriptions),
            pending_messages,
            will_message: match &self.will_message {
                Some(will) => Some(will.clone()),
                None => None,
            },
        }
    }
}

/// The state of the broker. Clients and sessions are found by client
/// identifier, the lists of subscribers by topic filter.
#[derive(Debug)]
pub struct BrokerState {
    pub clients: Table<ClientInfo>,
    pub subscriptions: Table<Vec<Subscription>>,
    pub session_store: Table<SessionState>,
}

#[verifier::ext_equal]
pub struct StateView {
    pub clients: Seq<(Seq<char>, ClientView)>,
    pub subscriptions: Seq<(Seq<char>, Seq<SubscriptionView>)>,
    pub sessions: Seq<(Seq<char>, SessionView)>,
}

impl StateView {
    /// No identifier and no filter occurs twice.
    pub open spec fn wf(self) -> bool {
        &&& table::distinct(self.clients)
        &&& table::distinct(self.subscriptions)
        &&& table::distinct(self.sessions)
    }
}

impl View for BrokerState {
    type V = StateView;

    open spec fn view(&self) -> StateView {
        StateView {
            clients: self.clients@,
            subscriptions: self.subscriptions@,
            sessions: self.session_store@,
        }
    }
}

impl BrokerState {
    /// No identifier and no filter occurs twice.
    pub open spec fn wf(self) -> bool {
        self@.wf()
    }

    /// A broker without clients.
    pub fn new() -> (r: Self)
        ensures
            r.wf(),
            r@.clients.len() == 0,
            r@.subscriptions.len() == 0,
            r@.sessions.len() == 0,
    {
        BrokerState {
            clients: Table::new(),
            subscriptions: Table::new(),
            session_store: Table::new(),
        }
    }

    /// Every connected client, once.
    pub fn list_clients(&self) -> (r: Vec<&ClientInfo>)
        ensures
            r@.len() == self@.clients.len(),
            forall|i: int| 0 <= i < r@.len() ==> (#[trigger] r@[i])@ == self@.clients[i].1,
    {
        let mut r: Vec<&ClientInfo> = Vec::new();
        let n: usize = self.clients.len();
        for i in 0..n
            invariant
                n == self@.clients.len(),
                r@.len() == i,
                forall|j: int| 0 <= j < i ==> (#[trigger] r@[j])@ == self@.clients[j].1,
        {
            r.push(self.clients.value_at(i));
        }
        r
    }

    /// The client with this identifier.
    pub fn get_client(&self, client_id: &str) -> (r: Option<&ClientInfo>)
        ensures
            match r {
                Some(c) => table::lookup(self@.clients, client_id@) == Some(c@),
                None => table::lookup(self@.clients, client_id@) is None,
            },
    {
        self.clients.get(client_id)
    }

    /// Every topic filter that somebody subscribed to, once.
    pub fn list_topics(&self) -> (r: Vec<&str>)
        ensures
            r@.len() == self@.subscriptions.len(),
            forall|i: int| 0 <= i < r@.len() ==> (#[trigger] r@[i])@ == self@.subscriptions[i].0,
    {
        let mut r: Vec<&str> = Vec::new();
        let n: usize = self.subscriptions.len();
        for i in 0..n
            invariant
                n == self@.subscriptions.len(),
                r@.len() == i,
                forall|j: int| 0 <= j < i ==> (#[trigger] r@[j])@ == self@.subscriptions[j].0,
        {
            r.push(self.subscriptions.key_at(i).as_str());
        }
        r
    }

    /// The subscriptions with exactly this topic filter.
    pub fn get_topic_subscribers(&self, topic: &str) -> (r: Vec<&Subscription>)
        ensures
            r@.len() == subscribers_of(self@, topic@).len(),
            forall|i: int|
                0 <= i < r@.len() ==> (#[trigger] r@[i])@ == subscribers_of(self@, topic@)[i],
    {
        let mut r: Vec<&Subscription> = Vec::new();
        match self.subscriptions.get(topic) {
            None => {},
            Some(list) => {
                for i in 0..list.len()
                    invariant
                        table::lookup(self@.subscriptions, topic@) == Some(list.deep_view()),
                        r@.len() == i,
                        forall|j: int|
                            0 <= j < i ==> (#[trigger] r@[j])@ == subscribers_of(
                                self@,
                                topic@,
                            )[j],
                {
                    r.push(&list[i]);
                }
            },
        }
        r
    }
}

/// The subscriptions with exactly the filter `filter`.
pub open spec fn subscribers_of(s: StateView, filter: Seq<char>) -> Seq<SubscriptionView> {
    match table::lookup(s.subscriptions, filter) {
        Some(list) => list,
        None => Seq::empty(),
    }
}

} // verus!
