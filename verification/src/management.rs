//! Questions about the broker, and their answers.

use crate::state;
use crate::state::{
    BrokerState, ClientInfo, ClientView, StateView, Subscription, SubscriptionView,
};
use crate::table;
use vstd::prelude::*;
use vstd::string::*;

verus! {

/// How many questions may wait for an answer before the asker has to wait too.
pub const MGMT_CHANNEL_DEPTH: usize = 32;

/// A question about the broker.
#[derive(Debug)]
pub enum ManagementRequest {
    ListClients,
    GetClient { client_id: String },
    ListSubscriptions,
    GetTopicSubscribers { topic: String },
}

/// A topic filter and who subscribed to it.
#[derive(Debug)]
pub struct TopicSubscribers {
    pub topic: String,
    pub subscribers: Vec<Subscription>,
}

impl View for TopicSubscribers {
    type V = (Seq<char>, Seq<SubscriptionView>);

    open spec fn view(&self) -> (Seq<char>, Seq<SubscriptionView>) {
        (self.topic@, self.subscribers.deep_view())
    }
}

impl DeepView for TopicSubscribers {
    type V = (Seq<char>, Seq<SubscriptionView>);

    open spec fn deep_view(&self) -> (Seq<char>, Seq<SubscriptionView>) {
        self@
    }
}

impl Clone for TopicSubscribers {
    fn clone(&self) -> (r: Self)
        ensures
            r@ == self@,
    {
        TopicSubscribers {
            topic: self.topic.clone(),
            subscribers: state::copy_subscriptions(&self.subscribers),
        }
    }
}

/// An answer about the broker.
#[derive(Debug)]
pub enum ManagementReply {
    Clients(Vec<ClientInfo>),
    Client(Option<ClientInfo>),
    Subscriptions(Vec<TopicSubscribers>),
    Subscribers(Vec<Subscription>),
}

#[verifier::ext_equal]
pub enum ReplyView {
    Clients(Seq<ClientView>),
    Client(Option<ClientView>),
    Subscriptions(Seq<(Seq<char>, Seq<SubscriptionView>)>),
    Subscribers(Seq<SubscriptionView>),
}

impl View for ManagementReply {
    type V = ReplyView;

    open spec fn view(&self) -> ReplyView {
        match self {
            ManagementReply::Clients(list) => ReplyView::Clients(list.deep_view()),
            ManagementReply::Client(c) => ReplyView::Client(c.deep_view()),
            ManagementReply::Subscriptions(list) => ReplyView::Subscriptions(list.deep_view()),
            ManagementReply::Subscribers(list) => ReplyView::Subscribers(list.deep_view()),
        }
    }
}

/// The answer to a question.
pub open spec fn answer(s: StateView, request: ManagementRequest) -> ReplyView {
    match request {
        ManagementRequest::ListClients => ReplyView::Clients(
            Seq::new(s.clients.len(), |i: int| s.clients[i].1),
        ),
        ManagementRequest::GetClient { client_id } => ReplyView::Client(
            table::lookup(s.clients, client_id@),
        ),
        ManagementRequest::ListSubscriptions => ReplyView::Subscriptions(s.subscriptions),
        ManagementRequest::GetTopicSubscribers { topic } => ReplyView::Subscribers(
            state::subscribers_of(s, topic@),
        ),
    }
}

/// Every connected client, once.
pub fn list_clients(state: &BrokerState) -> (r: Vec<ClientInfo>)
    ensures
        r.deep_view() == Seq::new(state@.clients.len(), |i: int| state@.clients[i].1),
{
    let mut r: Vec<ClientInfo> = Vec::new();
    let n: usize = state.clients.len();
    for i in 0..n
        invariant
            n == state@.clients.len(),
            r@.len() == i,
            forall|j: int| 0 <= j < i ==> (#[trigger] r@[j])@ == state@.clients[j].1,
    {
        let copy = state.clients.value_at(i).clone();
        r.push(copy);
    }
    assert(r.deep_view() =~= Seq::new(state@.clients.len(), |i: int| state@.clients[i].1));
    r
}

/// The client with this identifier.
pub fn get_client(state: &BrokerState, client_id: &str) -> (r: Option<ClientInfo>)
    ensures
        r.deep_view() == table::lookup(state@.clients, client_id@),
{
    match state.clients.get(client_id) {
        Some(c) => Some(c.clone()),
        None => None,
    }
}

/// Every topic filter with its subscribers, once.
pub fn list_subscriptions(state: &BrokerState) -> (r: Vec<TopicSubscribers>)
    ensures
        r.deep_view() == state@.subscriptions,
{
    let mut r: Vec<TopicSubscribers> = Vec::new();
    let n: usize = state.subscriptions.len();
    for i in 0..n
        invariant
            n == state@.subscriptions.len(),
            r@.len() == i,
            forall|j: int| 0 <= j < i ==> (#[trigger] r@[j])@ == state@.subscriptions[j],
    {
        r.push(
            TopicSubscribers {
                topic: state.subscriptions.key_at(i).clone(),
                subscribers: state::copy_subscriptions(state.subscriptions.value_at(i)),
            },
        );
    }
    assert(r.deep_view() =~= state@.subscriptions);
    r
}

/// The subscriptions with exactly this filter.
pub fn get_topic_subscribers(state: &BrokerState, topic: &str) -> (r: Vec<Subscription>)
    ensures
        r.deep_view() == state::subscribers_of(state@, topic@),
{
    match state.subscriptions.get(topic) {
        Some(list) => state::copy_subscriptions(list),
        None => {
            let r: Vec<Subscription> = Vec::new();
            assert(r.deep_view() =~= Seq::<SubscriptionView>::empty());
            r
        },
    }
}

/// Answers a question from the state of the broker, which stays as it is.
pub fn answer_request(state: &BrokerState, request: &ManagementRequest) -> (r: ManagementReply)
    ensures
        r@ == answer(state@, *request),
{
    match request {
        ManagementRequest::ListClients => ManagementReply::Clients(list_clients(state)),
        ManagementRequest::GetClient { client_id } => ManagementReply::Client(
            get_client(state, client_id.as_str()),
        ),
        ManagementRequest::ListSubscriptions => ManagementReply::Subscriptions(
            list_subscriptions(state),
        ),
        ManagementRequest::GetTopicSubscribers { topic } => ManagementReply::Subscribers(
            get_topic_subscribers(state, topic.as_str()),
        ),
    }
}

} // verus!
