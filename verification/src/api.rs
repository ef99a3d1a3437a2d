//! The management interface: what it answers to each request.

use crate::state;
use crate::state::{
    BrokerState, ClientInfo, ClientView, MqttProtocol, QoS, Subscription, SubscriptionView,
};
use crate::table;
use crate::text;
use vstd::prelude::*;
use vstd::string::*;

verus! {

/// What is sent back: data, or an error.
#[derive(Debug)]
pub struct ApiResponse<T> {
    pub success: bool,
    pub data: Option<T>,
    pub error: Option<ApiError>,
}

#[derive(Debug)]
pub struct ApiError {
    pub code: String,
    pub message: String,
}

impl<T> ApiResponse<T> {
    /// Whether this is the answer with an error of this code and message.
    pub open spec fn is_error(self, code: Seq<char>, message: Seq<char>) -> bool {
        &&& !self.success
        &&& self.data is None
        &&& self.error matches Some(e) && e.code@ == code && e.message@ == message
    }

    /// Whether this is an answer with data, and without an error.
    pub open spec fn is_ok(self) -> bool {
        self.success && self.data is Some && self.error is None
    }

    pub fn ok(data: T) -> (r: Self)
        ensures
            r.is_ok(),
            r.data == Some(data),
    {
        ApiResponse { success: true, data: Some(data), error: None }
    }

    pub fn err(code: &str, message: &str) -> (r: Self)
        ensures
            r.is_error(code@, message@),
    {
        ApiResponse {
            success: false,
            data: None,
            error: Some(ApiError { code: code.to_owned(), message: message.to_owned() }),
        }
    }

    /// The HTTP status that goes with the answer.
    pub fn http_status(&self) -> (status: u16)
        ensures
            status == match self.error {
                None => 200,
                Some(e) => status_of(e.code@),
            },
    {
        match &self.error {
            None => 200,
            Some(e) => {
                let code: &str = e.code.as_str();
                if text::same_text(code, "UNAUTHORIZED") {
                    401
                } else if text::same_text(code, "NOT_FOUND") {
                    404
                } else {
                    500
                }
            },
        }
    }
}

/// The HTTP status that goes with an error code.
pub open spec fn status_of(code: Seq<char>) -> u16 {
    if code == "UNAUTHORIZED"@ {
        401
    } else if code == "NOT_FOUND"@ {
        404
    } else {
        500
    }
}

/// The name of a protocol version.
pub open spec fn protocol_text(v: MqttProtocol) -> Seq<char> {
    match v {
        MqttProtocol::V311 => "V311"@,
        MqttProtocol::V500 => "V500"@,
    }
}

pub(crate) fn protocol_name(v: MqttProtocol) -> (s: &'static str)
    ensures
        s@ == protocol_text(v),
{
    match v {
        MqttProtocol::V311 => "V311",
        MqttProtocol::V500 => "V500",
    }
}

/// The name of a delivery guarantee.
pub open spec fn qos_text(q: QoS) -> Seq<char> {
    match q {
        QoS::AtMostOnce => "AtMostOnce"@,
        QoS::AtLeastOnce => "AtLeastOnce"@,
        QoS::ExactlyOnce => "ExactlyOnce"@,
    }
}

pub(crate) fn qos_name(q: QoS) -> (s: &'static str)
    ensures
        s@ == qos_text(q),
{
    match q {
        QoS::AtMostOnce => "AtMostOnce",
        QoS::AtLeastOnce => "AtLeastOnce",
        QoS::ExactlyOnce => "ExactlyOnce",
    }
}

/// What is shown of a client.
#[derive(Debug)]
pub struct ClientInfoResponse {
    pub client_id: String,
    pub addr: String,
    pub protocol_version: String,
    pub connected_at_secs: u64,
    pub clean_session: bool,
    pub keep_alive: u16,
    pub username: Option<String>,
}

#[verifier::ext_equal]
pub struct ClientInfoResponseView {
    pub client_id: Seq<char>,
    pub addr: Seq<char>,
    pub protocol_version: Seq<char>,
    pub connected_at_secs: nat,
    pub clean_session: bool,
    pub keep_alive: u16,
    pub username: Option<Seq<char>>,
}

impl View for ClientInfoResponse {
    type V = ClientInfoResponseView;

    open spec fn view(&self) -> ClientInfoResponseView {
        ClientInfoResponseView {
            client_id: self.client_id@,
            addr: self.addr@,
            protocol_version: self.protocol_version@,
            connected_at_secs: self.connected_at_secs as nat,
            clean_session: self.clean_session,
            keep_alive: self.keep_alive,
            username: self.username.deep_view(),
        }
    }
}

impl DeepView for ClientInfoResponse {
    type V = ClientInfoResponseView;

    open spec fn deep_view(&self) -> ClientInfoResponseView {
        self@
    }
}

/// How many seconds of the broker's clock a client has been connected.
pub open spec fn connected_for(c: ClientView, now: u64) -> nat {
    if now >= c.connected_at {
        (now - c.connected_at) as nat
    } else {
        0
    }
}

/// What is shown of a client at the time `now` of the broker's clock.
pub open spec fn client_shown(c: ClientView, now: u64) -> ClientInfoResponseView {
    ClientInfoResponseView {
        client_id: c.client_id,
        addr: c.addr,
        protocol_version: protocol_text(c.protocol_version),
        connected_at_secs: connected_for(c, now),
        clean_session: c.clean_session,
        keep_alive: c.keep_alive,
        username: c.username,
    }
}

impl ClientInfoResponse {
    /// What is shown of a client at the time `now` of the broker's clock.
    pub fn from(c: &ClientInfo, now: u64) -> (r: Self)
        ensures
            r@ == client_shown(c@, now),
    {
        ClientInfoResponse {
            client_id: c.client_id.clone(),
            addr: c.addr.clone(),
            protocol_version: protocol_name(c.protocol_version).to_owned(),
            connected_at_secs: now.saturating_sub(c.connected_at),
            clean_session: c.clean_session,
            keep_alive: c.keep_alive,
            username: c.username.clone(),
        }
    }
}

/// What is shown of a topic filter.
#[derive(Debug)]
pub struct SubscriptionInfoResponse {
    pub topic: String,
    pub subscribers: Vec<SubscriberInfo>,
}

#[derive(Debug)]
pub struct SubscriberInfo {
    pub client_id: String,
    pub qos: String,
}

impl View for SubscriberInfo {
    type V = (Seq<char>, Seq<char>);

    open spec fn view(&self) -> (Seq<char>, Seq<char>) {
        (self.client_id@, self.qos@)
    }
}

impl DeepView for SubscriberInfo {
    type V = (Seq<char>, Seq<char>);

    open spec fn deep_view(&self) -> (Seq<char>, Seq<char>) {
        self@
    }
}

impl View for SubscriptionInfoResponse {
    type V = (Seq<char>, Seq<(Seq<char>, Seq<char>)>);

    open spec fn view(&self) -> (Seq<char>, Seq<(Seq<char>, Seq<char>)>) {
        (self.topic@, self.subscribers.deep_view())
    }
}

impl DeepView for SubscriptionInfoResponse {
    type V = (Seq<char>, Seq<(Seq<char>, Seq<char>)>);

    open spec fn deep_view(&self) -> (Seq<char>, Seq<(Seq<char>, Seq<char>)>) {
        self@
    }
}

/// What is shown of subscriptions: the client, and the guarantee by name.
pub open spec fn subscribers_shown(list: Seq<SubscriptionView>) -> Seq<(Seq<char>, Seq<char>)> {
    Seq::new(list.len(), |i: int| (list[i].client_id, qos_text(list[i].qos)))
}

fn show_subscribers(list: &Vec<&Subscription>) -> (r: Vec<SubscriberInfo>)
    ensures
        r@.len() == list@.len(),
        forall|i: int|
            0 <= i < r@.len() ==> (#[trigger] r@[i])@ == (
                list@[i]@.client_id,
                qos_text(list@[i]@.qos),
            ),
{
    let mut r: Vec<SubscriberInfo> = Vec::new();
    for i in 0..list.len()
        invariant
            r@.len() == i,
            forall|j: int|
                0 <= j < i ==> (#[trigger] r@[j])@ == (
                    list@[j]@.client_id,
                    qos_text(list@[j]@.qos),
                ),
    {
        let s: &Subscription = list[i];
        r.push(
            SubscriberInfo { client_id: s.client_id.clone(), qos: qos_name(s.qos).to_owned() },
        );
    }
    r
}

#[derive(Debug)]
pub struct AuthRequest {
    pub username: String,
    pub password: String,
}

#[derive(Debug)]
pub struct AuthResponse {
    pub token: String,
    pub expires_in: u64,
}

/// How the broker is doing.
#[derive(Debug)]
pub struct HealthResponse {
    pub status: String,
    pub uptime_secs: u64,
    pub components: HealthComponents,
}

/// How the parts of the broker are doing.
#[derive(Debug)]
pub struct HealthComponents {
    pub mqtt_status: String,
    pub mqtt_connections: usize,
    pub api_status: String,
}

/// How the broker is doing after `uptime_secs` seconds.
pub fn health_check(broker: &BrokerState, uptime_secs: u64) -> (r: ApiResponse<HealthResponse>)
    ensures
        r.is_ok(),
        r.data matches Some(h) && h.status@ == "ok"@ && h.uptime_secs == uptime_secs
            && h.components.mqtt_status@ == "ok"@ && h.components.mqtt_connections
            == broker@.clients.len() && h.components.api_status@ == "ok"@,
{
    ApiResponse::ok(
        HealthResponse {
            status: "ok".to_owned(),
            uptime_secs,
            components: HealthComponents {
                mqtt_status: "ok".to_owned(),
                mqtt_connections: broker.clients.len(),
                api_status: "ok".to_owned(),
            },
        },
    )
}

/// All clients at the time `now` of the broker's clock.
pub fn list_clients(broker: &BrokerState, now: u64) -> (r: ApiResponse<Vec<ClientInfoResponse>>)
    ensures
        r.is_ok(),
        r.data matches Some(list) && list.deep_view() == Seq::new(
            broker@.clients.len(),
            |i: int| client_shown(broker@.clients[i].1, now),
        ),
{
    let clients = broker.list_clients();
    let mut list: Vec<ClientInfoResponse> = Vec::new();
    for i in 0..clients.len()
        invariant
            clients@.len() == broker@.clients.len(),
            forall|j: int|
                0 <= j < clients@.len() ==> (#[trigger] clients@[j])@ == broker@.clients[j].1,
            list@.len() == i,
            forall|j: int|
                0 <= j < i ==> (#[trigger] list@[j])@ == client_shown(broker@.clients[j].1, now),
    {
        list.push(ClientInfoResponse::from(clients[i], now));
    }
    assert(list.deep_view() =~= Seq::new(
        broker@.clients.len(),
        |i: int| client_shown(broker@.clients[i].1, now),
    ));
    ApiResponse::ok(list)
}

/// One client at the time `now` of the broker's clock.
pub fn get_client(broker: &BrokerState, client_id: &str, now: u64) -> (r: ApiResponse<
    ClientInfoResponse,
>)
    ensures
        match table::lookup(broker@.clients, client_id@) {
            Some(c) => r.is_ok() && (r.data matches Some(shown) && shown@ == client_shown(c, now)),
            None => r.is_error("NOT_FOUND"@, "Client "@ + client_id@ + " not found"@),
        },
{
    match broker.get_client(client_id) {
        Some(c) => ApiResponse::ok(ClientInfoResponse::from(c, now)),
        None => {
            let mut message = "Client ".to_owned();
            message.append(client_id);
            message.append(" not found");
            ApiResponse::err("NOT_FOUND", message.as_str())
        },
    }
}

/// All topic filters with their subscribers.
pub fn list_subscriptions(broker: &BrokerState) -> (r: ApiResponse<Vec<SubscriptionInfoResponse>>)
    requires
        broker.wf(),
    ensures
        r.is_ok(),
        r.data matches Some(list) && list.deep_view() == Seq::new(
            broker@.subscriptions.len(),
            |i: int|
                (broker@.subscriptions[i].0, subscribers_shown(broker@.subscriptions[i].1)),
        ),
{
    let topics = broker.list_topics();
    let mut list: Vec<SubscriptionInfoResponse> = Vec::new();
    let ghost subs = broker@.subscriptions;
    for i in 0..topics.len()
        invariant
            broker.wf(),
            subs == broker@.subscriptions,
            topics@.len() == subs.len(),
            forall|j: int| 0 <= j < topics@.len() ==> (#[trigger] topics@[j])@ == subs[j].0,
            list@.len() == i,
            forall|j: int|
                0 <= j < i ==> (#[trigger] list@[j])@ == (subs[j].0, subscribers_shown(subs[j].1)),
    {
        let subscribers = broker.get_topic_subscribers(topics[i]);
        let shown = show_subscribers(&subscribers);
        proof {
            table::lemma_lookup_entry(subs, i as int);
            assert(shown.deep_view() =~= subscribers_shown(subs[i as int].1));
        }
        list.push(SubscriptionInfoResponse { topic: topics[i].to_owned(), subscribers: shown });
    }
    assert(list.deep_view() =~= Seq::new(
        subs.len(),
        |i: int| (subs[i].0, subscribers_shown(subs[i].1)),
    ));
    ApiResponse::ok(list)
}

/// The subscribers of one topic filter.
pub fn get_topic_subscribers(broker: &BrokerState, topic: &str) -> (r: ApiResponse<
    SubscriptionInfoResponse,
>)
    ensures
        ({
            let list = state::subscribers_of(broker@, topic@);
            if list.len() == 0 {
                r.is_error("NOT_FOUND"@, "No subscribers for topic "@ + topic@)
            } else {
                r.is_ok() && (r.data matches Some(shown) && shown@ == (
                    topic@,
                    subscribers_shown(list),
                ))
            }
        }),
{
    let subscribers = broker.get_topic_subscribers(topic);
    if subscribers.len() == 0 {
        let mut message = "No subscribers for topic ".to_owned();
        message.append(topic);
        return ApiResponse::err("NOT_FOUND", message.as_str());
    }
    let shown = show_subscribers(&subscribers);
    assert(shown.deep_view() =~= subscribers_shown(state::subscribers_of(broker@, topic@)));
    ApiResponse::ok(SubscriptionInfoResponse { topic: topic.to_owned(), subscribers: shown })
}

/// Whether a name and password may have a token.
pub open spec fn may_have_token(username: Seq<char>, password: Seq<char>) -> bool {
    username == "admin"@ && password == "admin"@
}

/// Whether a name and password may have a token.
pub fn credentials_accepted(req: &AuthRequest) -> (r: bool)
    ensures
        r == may_have_token(req.username@, req.password@),
{
    text::same_text(req.username.as_str(), "admin") && text::same_text(
        req.password.as_str(),
        "admin",
    )
}

/// The answer to a request for a token, where `issued` is the token that could
/// be made for an accepted name, valid for `expires_in` seconds.
pub fn auth_token(req: &AuthRequest, issued: Option<String>, expires_in: u64) -> (r: ApiResponse<
    AuthResponse,
>)
    ensures
        if !may_have_token(req.username@, req.password@) {
            r.is_error("UNAUTHORIZED"@, "Invalid username or password"@)
        } else {
            match issued {
                Some(token) => r.is_ok() && r.data == Some(AuthResponse { token, expires_in }),
                None => r.is_error("TOKEN_ERROR"@, "Failed to generate token"@),
            }
        },
{
    if credentials_accepted(req) {
        match issued {
            Some(token) => ApiResponse::ok(AuthResponse { token, expires_in }),
            None => ApiResponse::err("TOKEN_ERROR", "Failed to generate token"),
        }
    } else {
        ApiResponse::err("UNAUTHORIZED", "Invalid username or password")
    }
}

/// The answer to a request for a new token, which is that to one for a first.
pub fn refresh_token(
    req: &AuthRequest,
    issued: Option<String>,
    expires_in: u64,
) -> (r: ApiResponse<AuthResponse>)
    ensures
        if !may_have_token(req.username@, req.password@) {
            r.is_error("UNAUTHORIZED"@, "Invalid username or password"@)
        } else {
            match issued {
                Some(token) => r.is_ok() && r.data == Some(AuthResponse { token, expires_in }),
                None => r.is_error("TOKEN_ERROR"@, "Failed to generate token"@),
            }
        },
{
    auth_token(req, issued, expires_in)
}

/// The token in an `Authorization` header of the form `Bearer <token>`.
pub open spec fn token_in(header: Seq<char>) -> Option<Seq<char>> {
    let scheme = "Bearer "@;
    if text::starts(header, scheme) {
        Some(header.skip(scheme.len() as int))
    } else {
        None
    }
}

/// The token in an `Authorization` header of the form `Bearer <token>`.
pub fn bearer_token(header: &str) -> (r: Option<String>)
    ensures
        r.deep_view() == token_in(header@),
{
    let chars = text::chars_of(header);
    let scheme = text::chars_of("Bearer ");
    assert(chars@.skip(0) == chars@);
    if text::starts_at(chars.as_slice(), 0, scheme.as_slice()) {
        let rest = text::copy_range(chars.as_slice(), scheme.len(), chars.len());
        assert(rest@ == header@.skip(scheme@.len() as int));
        Some(text::text_from(rest.as_slice()))
    } else {
        None
    }
}

/// The answer to a request without a valid token.
pub fn refusal<T>() -> (r: ApiResponse<T>)
    ensures
        r.is_error("UNAUTHORIZED"@, "Invalid or expired token"@),
{
    ApiResponse::err("UNAUTHORIZED", "Invalid or expired token")
}

} // verus!
