//! MQTT 5 properties: the optional settings that travel with a packet.

use crate::wire;
use crate::wire::{Fault, Parsed, Varint, VarintView};
use vstd::prelude::*;
use vstd::string::*;

verus! {

pub const PROP_PAYLOAD_FORMAT_INDICATOR: u8 = 0x01;
pub const PROP_MESSAGE_EXPIRY_INTERVAL: u8 = 0x02;
pub const PROP_CONTENT_TYPE: u8 = 0x03;
pub const PROP_RESPONSE_TOPIC: u8 = 0x08;
pub const PROP_CORRELATION_DATA: u8 = 0x09;
pub const PROP_SUBSCRIPTION_IDENTIFIER: u8 = 0x0B;
pub const PROP_SESSION_EXPIRY_INTERVAL: u8 = 0x11;
pub const PROP_ASSIGNED_CLIENT_IDENTIFIER: u8 = 0x12;
pub const PROP_SERVER_KEEP_ALIVE: u8 = 0x13;
pub const PROP_AUTHENTICATION_METHOD: u8 = 0x15;
pub const PROP_AUTHENTICATION_DATA: u8 = 0x16;
pub const PROP_REQUEST_PROBLEM_INFORMATION: u8 = 0x18;
pub const PROP_WILL_DELAY_INTERVAL: u8 = 0x19;
pub const PROP_REQUEST_RESPONSE_INFORMATION: u8 = 0x1A;
pub const PROP_RESPONSE_INFORMATION: u8 = 0x1C;
pub const PROP_SERVER_REFERENCE: u8 = 0x1D;
pub const PROP_REASON_STRING: u8 = 0x1E;
pub const PROP_RECEIVE_MAXIMUM: u8 = 0x21;
pub const PROP_TOPIC_ALIAS_MAXIMUM: u8 = 0x22;
pub const PROP_TOPIC_ALIAS: u8 = 0x23;
pub const PROP_MAXIMUM_QOS: u8 = 0x24;
pub const PROP_RETAIN_AVAILABLE: u8 = 0x25;
pub const PROP_USER_PROPERTY: u8 = 0x26;
pub const PROP_MAXIMUM_PACKET_SIZE: u8 = 0x27;
pub const PROP_WILDCARD_SUBSCRIPTION_AVAILABLE: u8 = 0x28;
pub const PROP_SUBSCRIPTION_IDENTIFIER_AVAILABLE: u8 = 0x29;
pub const PROP_SHARED_SUBSCRIPTION_AVAILABLE: u8 = 0x2A;

/// One past the largest property identifier.
pub const PROP_END: u8 = 0x2B;

/// How the value of a property is laid out on the wire.
#[derive(Clone, Copy, Debug, PartialEq, Eq, Structural)]
pub enum PropertyKind {
    Byte,
    Two,
    Four,
    Variable,
    Text,
    Binary,
    Pair,
}

/// The value of one property.
pub enum ValueView {
    Byte(u8),
    Two(u16),
    Four(u32),
    Variable(u32),
    Text(Seq<char>),
    Binary(Seq<u8>),
    Pair(Seq<char>, Seq<char>),
}

impl ValueView {
    /// The layout that a value has.
    pub open spec fn kind(self) -> PropertyKind {
        match self {
            ValueView::Byte(_) => PropertyKind::Byte,
            ValueView::Two(_) => PropertyKind::Two,
            ValueView::Four(_) => PropertyKind::Four,
            ValueView::Variable(_) => PropertyKind::Variable,
            ValueView::Text(_) => PropertyKind::Text,
            ValueView::Binary(_) => PropertyKind::Binary,
            ValueView::Pair(_, _) => PropertyKind::Pair,
        }
    }
}

/// A property as it is read from the wire.
#[derive(Debug)]
pub enum PropertyValue {
    Byte(u8),
    Two(u16),
    Four(u32),
    Variable(u32),
    Text(String),
    Binary(Vec<u8>),
    Pair(String, String),
}

impl View for PropertyValue {
    type V = ValueView;

    open spec fn view(&self) -> ValueView {
        match self {
            PropertyValue::Byte(v) => ValueView::Byte(*v),
            PropertyValue::Two(v) => ValueView::Two(*v),
            PropertyValue::Four(v) => ValueView::Four(*v),
            PropertyValue::Variable(v) => ValueView::Variable(*v),
            PropertyValue::Text(v) => ValueView::Text(v@),
            PropertyValue::Binary(v) => ValueView::Binary(v@),
            PropertyValue::Pair(k, v) => ValueView::Pair(k@, v@),
        }
    }
}

/// A property as it is written to the wire.
pub enum PropertyRef<'a> {
    Byte(u8),
    Two(u16),
    Four(u32),
    Variable(u32),
    Text(&'a str),
    Binary(&'a [u8]),
}

impl<'a> View for PropertyRef<'a> {
    type V = ValueView;

    open spec fn view(&self) -> ValueView {
        match self {
            PropertyRef::Byte(v) => ValueView::Byte(*v),
            PropertyRef::Two(v) => ValueView::Two(*v),
            PropertyRef::Four(v) => ValueView::Four(*v),
            PropertyRef::Variable(v) => ValueView::Variable(*v),
            PropertyRef::Text(v) => ValueView::Text(v@),
            PropertyRef::Binary(v) => ValueView::Binary(v@),
        }
    }
}

/// The layout of the property that an identifier names.
pub open spec fn kind_of(id: u8) -> Option<PropertyKind> {
    if id == PROP_PAYLOAD_FORMAT_INDICATOR
        || id == PROP_REQUEST_PROBLEM_INFORMATION
        || id == PROP_REQUEST_RESPONSE_INFORMATION
        || id == PROP_MAXIMUM_QOS
        || id == PROP_RETAIN_AVAILABLE
        || id == PROP_WILDCARD_SUBSCRIPTION_AVAILABLE
        || id == PROP_SUBSCRIPTION_IDENTIFIER_AVAILABLE
        || id == PROP_SHARED_SUBSCRIPTION_AVAILABLE {
        Some(PropertyKind::Byte)
    } else if id == PROP_MESSAGE_EXPIRY_INTERVAL
        || id == PROP_SESSION_EXPIRY_INTERVAL
        || id == PROP_WILL_DELAY_INTERVAL
        || id == PROP_MAXIMUM_PACKET_SIZE {
        Some(PropertyKind::Four)
    } else if id == PROP_CONTENT_TYPE
        || id == PROP_RESPONSE_TOPIC
        || id == PROP_ASSIGNED_CLIENT_IDENTIFIER
        || id == PROP_AUTHENTICATION_METHOD
        || id == PROP_RESPONSE_INFORMATION
        || id == PROP_SERVER_REFERENCE
        || id == PROP_REASON_STRING {
        Some(PropertyKind::Text)
    } else if id == PROP_CORRELATION_DATA
        || id == PROP_AUTHENTICATION_DATA {
        Some(PropertyKind::Binary)
    } else if id == PROP_SUBSCRIPTION_IDENTIFIER {
        Some(PropertyKind::Variable)
    } else if id == PROP_SERVER_KEEP_ALIVE
        || id == PROP_RECEIVE_MAXIMUM
        || id == PROP_TOPIC_ALIAS_MAXIMUM
        || id == PROP_TOPIC_ALIAS {
        Some(PropertyKind::Two)
    } else if id == PROP_USER_PROPERTY {
        Some(PropertyKind::Pair)
    } else {
        None
    }
}

/// The layout of the property that `id` names, or nothing for an unknown one.
fn property_kind(id: u8) -> (kind: Option<PropertyKind>)
    ensures
        kind == kind_of(id),
{
    match id {
        PROP_PAYLOAD_FORMAT_INDICATOR | PROP_REQUEST_PROBLEM_INFORMATION | PROP_REQUEST_RESPONSE_INFORMATION | PROP_MAXIMUM_QOS | PROP_RETAIN_AVAILABLE | PROP_WILDCARD_SUBSCRIPTION_AVAILABLE | PROP_SUBSCRIPTION_IDENTIFIER_AVAILABLE | PROP_SHARED_SUBSCRIPTION_AVAILABLE => Some(PropertyKind::Byte),
        PROP_MESSAGE_EXPIRY_INTERVAL | PROP_SESSION_EXPIRY_INTERVAL | PROP_WILL_DELAY_INTERVAL | PROP_MAXIMUM_PACKET_SIZE => Some(PropertyKind::Four),
        PROP_CONTENT_TYPE | PROP_RESPONSE_TOPIC | PROP_ASSIGNED_CLIENT_IDENTIFIER | PROP_AUTHENTICATION_METHOD | PROP_RESPONSE_INFORMATION | PROP_SERVER_REFERENCE | PROP_REASON_STRING => Some(PropertyKind::Text),
        PROP_CORRELATION_DATA | PROP_AUTHENTICATION_DATA => Some(PropertyKind::Binary),
        PROP_SUBSCRIPTION_IDENTIFIER => Some(PropertyKind::Variable),
        PROP_SERVER_KEEP_ALIVE | PROP_RECEIVE_MAXIMUM | PROP_TOPIC_ALIAS_MAXIMUM | PROP_TOPIC_ALIAS => Some(PropertyKind::Two),
        PROP_USER_PROPERTY => Some(PropertyKind::Pair),
        _ => None,
    }
}

/// What is reported when the value of the property `id` cannot be read.
pub open spec fn fault_of(id: u8) -> Seq<char> {
    if id == PROP_PAYLOAD_FORMAT_INDICATOR {
        "truncated payload format indicator"@
    } else if id == PROP_MESSAGE_EXPIRY_INTERVAL {
        "truncated message expiry"@
    } else if id == PROP_CONTENT_TYPE {
        "invalid content type"@
    } else if id == PROP_RESPONSE_TOPIC {
        "invalid response topic"@
    } else if id == PROP_CORRELATION_DATA {
        "invalid correlation data"@
    } else if id == PROP_SUBSCRIPTION_IDENTIFIER {
        "invalid subscription identifier"@
    } else if id == PROP_SESSION_EXPIRY_INTERVAL {
        "truncated session expiry"@
    } else if id == PROP_ASSIGNED_CLIENT_IDENTIFIER {
        "invalid assigned client id"@
    } else if id == PROP_SERVER_KEEP_ALIVE {
        "truncated server keep alive"@
    } else if id == PROP_AUTHENTICATION_METHOD {
        "invalid auth method"@
    } else if id == PROP_AUTHENTICATION_DATA {
        "invalid auth data"@
    } else if id == PROP_REQUEST_PROBLEM_INFORMATION {
        "truncated request problem info"@
    } else if id == PROP_WILL_DELAY_INTERVAL {
        "truncated will delay"@
    } else if id == PROP_REQUEST_RESPONSE_INFORMATION {
        "truncated request response info"@
    } else if id == PROP_RESPONSE_INFORMATION {
        "invalid response info"@
    } else if id == PROP_SERVER_REFERENCE {
        "invalid server reference"@
    } else if id == PROP_REASON_STRING {
        "invalid reason string"@
    } else if id == PROP_RECEIVE_MAXIMUM {
        "truncated receive maximum"@
    } else if id == PROP_TOPIC_ALIAS_MAXIMUM {
        "truncated topic alias max"@
    } else if id == PROP_TOPIC_ALIAS {
        "truncated topic alias"@
    } else if id == PROP_MAXIMUM_QOS {
        "truncated max qos"@
    } else if id == PROP_RETAIN_AVAILABLE {
        "truncated retain available"@
    } else if id == PROP_USER_PROPERTY {
        "invalid user property key"@
    } else if id == PROP_MAXIMUM_PACKET_SIZE {
        "truncated max packet size"@
    } else if id == PROP_WILDCARD_SUBSCRIPTION_AVAILABLE {
        "truncated wildcard available"@
    } else if id == PROP_SUBSCRIPTION_IDENTIFIER_AVAILABLE {
        "truncated sub id available"@
    } else if id == PROP_SHARED_SUBSCRIPTION_AVAILABLE {
        "truncated shared sub available"@
    } else {
        "unknown property id"@
    }
}

fn property_fault(id: u8) -> (text: &'static str)
    ensures
        text@ == fault_of(id),
{
    match id {
        PROP_PAYLOAD_FORMAT_INDICATOR => "truncated payload format indicator",
        PROP_MESSAGE_EXPIRY_INTERVAL => "truncated message expiry",
        PROP_CONTENT_TYPE => "invalid content type",
        PROP_RESPONSE_TOPIC => "invalid response topic",
        PROP_CORRELATION_DATA => "invalid correlation data",
        PROP_SUBSCRIPTION_IDENTIFIER => "invalid subscription identifier",
        PROP_SESSION_EXPIRY_INTERVAL => "truncated session expiry",
        PROP_ASSIGNED_CLIENT_IDENTIFIER => "invalid assigned client id",
        PROP_SERVER_KEEP_ALIVE => "truncated server keep alive",
        PROP_AUTHENTICATION_METHOD => "invalid auth method",
        PROP_AUTHENTICATION_DATA => "invalid auth data",
        PROP_REQUEST_PROBLEM_INFORMATION => "truncated request problem info",
        PROP_WILL_DELAY_INTERVAL => "truncated will delay",
        PROP_REQUEST_RESPONSE_INFORMATION => "truncated request response info",
        PROP_RESPONSE_INFORMATION => "invalid response info",
        PROP_SERVER_REFERENCE => "invalid server reference",
        PROP_REASON_STRING => "invalid reason string",
        PROP_RECEIVE_MAXIMUM => "truncated receive maximum",
        PROP_TOPIC_ALIAS_MAXIMUM => "truncated topic alias max",
        PROP_TOPIC_ALIAS => "truncated topic alias",
        PROP_MAXIMUM_QOS => "truncated max qos",
        PROP_RETAIN_AVAILABLE => "truncated retain available",
        PROP_USER_PROPERTY => "invalid user property key",
        PROP_MAXIMUM_PACKET_SIZE => "truncated max packet size",
        PROP_WILDCARD_SUBSCRIPTION_AVAILABLE => "truncated wildcard available",
        PROP_SUBSCRIPTION_IDENTIFIER_AVAILABLE => "truncated sub id available",
        PROP_SHARED_SUBSCRIPTION_AVAILABLE => "truncated shared sub available",
        _ => "unknown property id",
    }
}

/// A name and a value that the protocol carries without reading them.
#[derive(Debug, PartialEq)]
pub struct UserProperty {
    pub key: String,
    pub value: String,
}

impl View for UserProperty {
    type V = (Seq<char>, Seq<char>);

    open spec fn view(&self) -> (Seq<char>, Seq<char>) {
        (self.key@, self.value@)
    }
}

impl DeepView for UserProperty {
    type V = (Seq<char>, Seq<char>);

    open spec fn deep_view(&self) -> (Seq<char>, Seq<char>) {
        self@
    }
}

impl Clone for UserProperty {
    fn clone(&self) -> (r: Self)
        ensures
            r@ == self@,
    {
        UserProperty { key: self.key.clone(), value: self.value.clone() }
    }
}

/// The properties of one packet. Each may be given once, except the user
/// properties, which keep the order in which they were given.
#[derive(Debug, PartialEq)]
pub struct Properties {
    pub payload_format_indicator: Option<u8>,
    pub message_expiry_interval: Option<u32>,
    pub content_type: Option<String>,
    pub response_topic: Option<String>,
    pub correlation_data: Option<Vec<u8>>,
    pub subscription_identifier: Option<u32>,
    pub session_expiry_interval: Option<u32>,
    pub assigned_client_identifier: Option<String>,
    pub server_keep_alive: Option<u16>,
    pub authentication_method: Option<String>,
    pub authentication_data: Option<Vec<u8>>,
    pub request_problem_information: Option<u8>,
    pub will_delay_interval: Option<u32>,
    pub request_response_information: Option<u8>,
    pub response_information: Option<String>,
    pub server_reference: Option<String>,
    pub reason_string: Option<String>,
    pub receive_maximum: Option<u16>,
    pub topic_alias_maximum: Option<u16>,
    pub topic_alias: Option<u16>,
    pub maximum_qos: Option<u8>,
    pub retain_available: Option<u8>,
    pub maximum_packet_size: Option<u32>,
    pub wildcard_subscription_available: Option<u8>,
    pub subscription_identifier_available: Option<u8>,
    pub shared_subscription_available: Option<u8>,
    pub user_properties: Vec<UserProperty>,
}

/// What a set of properties holds: one value per identifier, and the user
/// properties in order.
#[verifier::ext_equal]
pub struct PropertiesView {
    pub fields: Map<u8, ValueView>,
    pub user: Seq<(Seq<char>, Seq<char>)>,
}

impl PropertiesView {
    /// No property at all.
    pub open spec fn empty() -> Self {
        PropertiesView { fields: Map::empty(), user: Seq::empty() }
    }

    /// The properties after `value` was given for `id`: a pair joins the user
    /// properties, any other value takes the place of an earlier one.
    pub open spec fn with(self, id: u8, value: ValueView) -> Self {
        match value {
            ValueView::Pair(k, v) => PropertiesView { user: self.user.push((k, v)), ..self },
            _ => PropertiesView { fields: self.fields.insert(id, value), ..self },
        }
    }

    /// Every value has the layout of its identifier, and pairs are kept apart.
    pub open spec fn wf(self) -> bool {
        forall|id: u8| #[trigger]
            self.fields.contains_key(id) ==> kind_of(id) == Some(self.fields[id].kind()) && kind_of(
                id,
            ) != Some(PropertyKind::Pair)
    }
}

impl Properties {
    /// The value that is held for the identifier `id`.
    pub open spec fn field(self, id: u8) -> Option<ValueView> {
        if id == PROP_PAYLOAD_FORMAT_INDICATOR {
            match self.payload_format_indicator {
                Some(v) => Some(ValueView::Byte(v)),
                None => None,
            }
        } else if id == PROP_MESSAGE_EXPIRY_INTERVAL {
            match self.message_expiry_interval {
                Some(v) => Some(ValueView::Four(v)),
                None => None,
            }
        } else if id == PROP_CONTENT_TYPE {
            match self.content_type {
                Some(v) => Some(ValueView::Text(v@)),
                None => None,
            }
        } else if id == PROP_RESPONSE_TOPIC {
            match self.response_topic {
                Some(v) => Some(ValueView::Text(v@)),
                None => None,
            }
        } else if id == PROP_CORRELATION_DATA {
            match self.correlation_data {
                Some(v) => Some(ValueView::Binary(v@)),
                None => None,
            }
        } else if id == PROP_SUBSCRIPTION_IDENTIFIER {
            match self.subscription_identifier {
                Some(v) => Some(ValueView::Variable(v)),
                None => None,
            }
        } else if id == PROP_SESSION_EXPIRY_INTERVAL {
            match self.session_expiry_interval {
                Some(v) => Some(ValueView::Four(v)),
                None => None,
            }
        } else if id == PROP_ASSIGNED_CLIENT_IDENTIFIER {
            match self.assigned_client_identifier {
                Some(v) => Some(ValueView::Text(v@)),
                None => None,
            }
        } else if id == PROP_SERVER_KEEP_ALIVE {
            match self.server_keep_alive {
                Some(v) => Some(ValueView::Two(v)),
                None => None,
            }
        } else if id == PROP_AUTHENTICATION_METHOD {
            match self.authentication_method {
                Some(v) => Some(ValueView::Text(v@)),
                None => None,
            }
        } else if id == PROP_AUTHENTICATION_DATA {
            match self.authentication_data {
                Some(v) => Some(ValueView::Binary(v@)),
                None => None,
            }
        } else if id == PROP_REQUEST_PROBLEM_INFORMATION {
            match self.request_problem_information {
                Some(v) => Some(ValueView::Byte(v)),
                None => None,
            }
        } else if id == PROP_WILL_DELAY_INTERVAL {
            match self.will_delay_interval {
                Some(v) => Some(ValueView::Four(v)),
                None => None,
            }
        } else if id == PROP_REQUEST_RESPONSE_INFORMATION {
            match self.request_response_information {
                Some(v) => Some(ValueView::Byte(v)),
                None => None,
            }
        } else if id == PROP_RESPONSE_INFORMATION {
            match self.response_information {
                Some(v) => Some(ValueView::Text(v@)),
                None => None,
            }
        } else if id == PROP_SERVER_REFERENCE {
            match self.server_reference {
                Some(v) => Some(ValueView::Text(v@)),
                None => None,
            }
        } else if id == PROP_REASON_STRING {
            match self.reason_string {
                Some(v) => Some(ValueView::Text(v@)),
                None => None,
            }
        } else if id == PROP_RECEIVE_MAXIMUM {
            match self.receive_maximum {
                Some(v) => Some(ValueView::Two(v)),
                None => None,
            }
        } else if id == PROP_TOPIC_ALIAS_MAXIMUM {
            match self.topic_alias_maximum {
                Some(v) => Some(ValueView::Two(v)),
                None => None,
            }
        } else if id == PROP_TOPIC_ALIAS {
            match self.topic_alias {
                Some(v) => Some(ValueView::Two(v)),
                None => None,
            }
        } else if id == PROP_MAXIMUM_QOS {
            match self.maximum_qos {
                Some(v) => Some(ValueView::Byte(v)),
                None => None,
            }
        } else if id == PROP_RETAIN_AVAILABLE {
            match self.retain_available {
                Some(v) => Some(ValueView::Byte(v)),
                None => None,
            }
        } else if id == PROP_MAXIMUM_PACKET_SIZE {
            match self.maximum_packet_size {
                Some(v) => Some(ValueView::Four(v)),
                None => None,
            }
        } else if id == PROP_WILDCARD_SUBSCRIPTION_AVAILABLE {
            match self.wildcard_subscription_available {
                Some(v) => Some(ValueView::Byte(v)),
                None => None,
            }
        } else if id == PROP_SUBSCRIPTION_IDENTIFIER_AVAILABLE {
            match self.subscription_identifier_available {
                Some(v) => Some(ValueView::Byte(v)),
                None => None,
            }
        } else if id == PROP_SHARED_SUBSCRIPTION_AVAILABLE {
            match self.shared_subscription_available {
                Some(v) => Some(ValueView::Byte(v)),
                None => None,
            }
        } else {
            None
        }
    }
}

impl View for Properties {
    type V = PropertiesView;

    open spec fn view(&self) -> PropertiesView {
        PropertiesView {
            fields: Map::new(|id: u8| self.field(id) is Some, |id: u8| self.field(id)->0),
            user: self.user_properties.deep_view(),
        }
    }
}

impl Default for Properties {
    fn default() -> (r: Self)
        ensures
            r@ == PropertiesView::empty(),
    {
        let r = Properties {
            payload_format_indicator: None,
            message_expiry_interval: None,
            content_type: None,
            response_topic: None,
            correlation_data: None,
            subscription_identifier: None,
            session_expiry_interval: None,
            assigned_client_identifier: None,
            server_keep_alive: None,
            authentication_method: None,
            authentication_data: None,
            request_problem_information: None,
            will_delay_interval: None,
            request_response_information: None,
            response_information: None,
            server_reference: None,
            reason_string: None,
            receive_maximum: None,
            topic_alias_maximum: None,
            topic_alias: None,
            maximum_qos: None,
            retain_available: None,
            maximum_packet_size: None,
            wildcard_subscription_available: None,
            subscription_identifier_available: None,
            shared_subscription_available: None,
            user_properties: Vec::new(),
        };
        assert(r@ =~= PropertiesView::empty());
        r
    }
}

fn clone_bytes(v: &Option<Vec<u8>>) -> (r: Option<Vec<u8>>)
    ensures
        r.deep_view() == v.deep_view(),
        (r matches Some(a) ==> v matches Some(b) && a@ == b@),
        r is Some == v is Some,
{
    match v {
        Some(b) => {
            let c = b.clone();
            assert(c@ =~= b@);
            Some(c)
        },
        None => None,
    }
}

impl Clone for Properties {
    fn clone(&self) -> (r: Self)
        ensures
            r@ == self@,
    {
        let mut user_properties: Vec<UserProperty> = Vec::new();
        for i in 0..self.user_properties.len()
            invariant
                user_properties@.len() == i,
                forall|j: int| 0 <= j < i ==> user_properties@[j]@ == self.user_properties@[j]@,
        {
            let copy = self.user_properties[i].clone();
            user_properties.push(copy);
        }
        let r = Properties {
            payload_format_indicator: self.payload_format_indicator,
            message_expiry_interval: self.message_expiry_interval,
            content_type: self.content_type.clone(),
            response_topic: self.response_topic.clone(),
            correlation_data: clone_bytes(&self.correlation_data),
            subscription_identifier: self.subscription_identifier,
            session_expiry_interval: self.session_expiry_interval,
            assigned_client_identifier: self.assigned_client_identifier.clone(),
            server_keep_alive: self.server_keep_alive,
            authentication_method: self.authentication_method.clone(),
            authentication_data: clone_bytes(&self.authentication_data),
            request_problem_information: self.request_problem_information,
            will_delay_interval: self.will_delay_interval,
            request_response_information: self.request_response_information,
            response_information: self.response_information.clone(),
            server_reference: self.server_reference.clone(),
            reason_string: self.reason_string.clone(),
            receive_maximum: self.receive_maximum,
            topic_alias_maximum: self.topic_alias_maximum,
            topic_alias: self.topic_alias,
            maximum_qos: self.maximum_qos,
            retain_available: self.retain_available,
            maximum_packet_size: self.maximum_packet_size,
            wildcard_subscription_available: self.wildcard_subscription_available,
            subscription_identifier_available: self.subscription_identifier_available,
            shared_subscription_available: self.shared_subscription_available,
            user_properties,
        };
        assert forall|id: u8| r.field(id) == self.field(id) by {}
        assert(r@.fields =~= self@.fields);
        assert(r@.user =~= self@.user);
        r
    }
}

impl Properties {
    /// No property at all.
    pub fn new() -> (r: Self)
        ensures
            r@ == PropertiesView::empty(),
    {
        Self::default()
    }

    /// The value that is held for the identifier `id`.
    fn field_ref(&self, id: u8) -> (r: Option<PropertyRef<'_>>)
        ensures
            match r {
                Some(v) => self.field(id) == Some(v@),
                None => self.field(id) is None,
            },
    {
        match id {
            PROP_PAYLOAD_FORMAT_INDICATOR => match &self.payload_format_indicator {
                Some(v) => Some(PropertyRef::Byte(*v)),
                None => None,
            },
            PROP_MESSAGE_EXPIRY_INTERVAL => match &self.message_expiry_interval {
                Some(v) => Some(PropertyRef::Four(*v)),
                None => None,
            },
            PROP_CONTENT_TYPE => match &self.content_type {
                Some(v) => Some(PropertyRef::Text(v.as_str())),
                None => None,
            },
            PROP_RESPONSE_TOPIC => match &self.response_topic {
                Some(v) => Some(PropertyRef::Text(v.as_str())),
                None => None,
            },
            PROP_CORRELATION_DATA => match &self.correlation_data {
                Some(v) => Some(PropertyRef::Binary(v.as_slice())),
                None => None,
            },
            PROP_SUBSCRIPTION_IDENTIFIER => match &self.subscription_identifier {
                Some(v) => Some(PropertyRef::Variable(*v)),
                None => None,
            },
            PROP_SESSION_EXPIRY_INTERVAL => match &self.session_expiry_interval {
                Some(v) => Some(PropertyRef::Four(*v)),
                None => None,
            },
            PROP_ASSIGNED_CLIENT_IDENTIFIER => match &self.assigned_client_identifier {
                Some(v) => Some(PropertyRef::Text(v.as_str())),
                None => None,
            },
            PROP_SERVER_KEEP_ALIVE => match &self.server_keep_alive {
                Some(v) => Some(PropertyRef::Two(*v)),
                None => None,
            },
            PROP_AUTHENTICATION_METHOD => match &self.authentication_method {
                Some(v) => Some(PropertyRef::Text(v.as_str())),
                None => None,
            },
            PROP_AUTHENTICATION_DATA => match &self.authentication_data {
                Some(v) => Some(PropertyRef::Binary(v.as_slice())),
                None => None,
            },
            PROP_REQUEST_PROBLEM_INFORMATION => match &self.request_problem_information {
                Some(v) => Some(PropertyRef::Byte(*v)),
                None => None,
            },
            PROP_WILL_DELAY_INTERVAL => match &self.will_delay_interval {
                Some(v) => Some(PropertyRef::Four(*v)),
                None => None,
            },
            PROP_REQUEST_RESPONSE_INFORMATION => match &self.request_response_information {
                Some(v) => Some(PropertyRef::Byte(*v)),
                None => None,
            },
            PROP_RESPONSE_INFORMATION => match &self.response_information {
                Some(v) => Some(PropertyRef::Text(v.as_str())),
                None => None,
            },
            PROP_SERVER_REFERENCE => match &self.server_reference {
                Some(v) => Some(PropertyRef::Text(v.as_str())),
                None => None,
            },
            PROP_REASON_STRING => match &self.reason_string {
                Some(v) => Some(PropertyRef::Text(v.as_str())),
                None => None,
            },
            PROP_RECEIVE_MAXIMUM => match &self.receive_maximum {
                Some(v) => Some(PropertyRef::Two(*v)),
                None => None,
            },
            PROP_TOPIC_ALIAS_MAXIMUM => match &self.topic_alias_maximum {
                Some(v) => Some(PropertyRef::Two(*v)),
                None => None,
            },
            PROP_TOPIC_ALIAS => match &self.topic_alias {
                Some(v) => Some(PropertyRef::Two(*v)),
                None => None,
            },
            PROP_MAXIMUM_QOS => match &self.maximum_qos {
                Some(v) => Some(PropertyRef::Byte(*v)),
                None => None,
            },
            PROP_RETAIN_AVAILABLE => match &self.retain_available {
                Some(v) => Some(PropertyRef::Byte(*v)),
                None => None,
            },
            PROP_MAXIMUM_PACKET_SIZE => match &self.maximum_packet_size {
                Some(v) => Some(PropertyRef::Four(*v)),
                None => None,
            },
            PROP_WILDCARD_SUBSCRIPTION_AVAILABLE => match &self.wildcard_subscription_available {
                Some(v) => Some(PropertyRef::Byte(*v)),
                None => None,
            },
            PROP_SUBSCRIPTION_IDENTIFIER_AVAILABLE => match &self.subscription_identifier_available {
                Some(v) => Some(PropertyRef::Byte(*v)),
                None => None,
            },
            PROP_SHARED_SUBSCRIPTION_AVAILABLE => match &self.shared_subscription_available {
                Some(v) => Some(PropertyRef::Byte(*v)),
                None => None,
            },
            _ => None,
        }
    }

    /// Takes in a property.
    fn set(&mut self, id: u8, value: PropertyValue)
        requires
            kind_of(id) == Some(value@.kind()),
        ensures
            final(self)@ == old(self)@.with(id, value@),
    {
        let ghost before = *self;
        let ghost given = value@;
        match value {
            PropertyValue::Byte(v) => {
                match id {
                    PROP_PAYLOAD_FORMAT_INDICATOR => {
                        self.payload_format_indicator = Some(v);
                    },
                    PROP_REQUEST_PROBLEM_INFORMATION => {
                        self.request_problem_information = Some(v);
                    },
                    PROP_REQUEST_RESPONSE_INFORMATION => {
                        self.request_response_information = Some(v);
                    },
                    PROP_MAXIMUM_QOS => {
                        self.maximum_qos = Some(v);
                    },
                    PROP_RETAIN_AVAILABLE => {
                        self.retain_available = Some(v);
                    },
                    PROP_WILDCARD_SUBSCRIPTION_AVAILABLE => {
                        self.wildcard_subscription_available = Some(v);
                    },
                    PROP_SUBSCRIPTION_IDENTIFIER_AVAILABLE => {
                        self.subscription_identifier_available = Some(v);
                    },
                    _ => {
                        self.shared_subscription_available = Some(v);
                    },
                }
            },
            PropertyValue::Two(v) => {
                match id {
                    PROP_SERVER_KEEP_ALIVE => {
                        self.server_keep_alive = Some(v);
                    },
                    PROP_RECEIVE_MAXIMUM => {
                        self.receive_maximum = Some(v);
                    },
                    PROP_TOPIC_ALIAS_MAXIMUM => {
                        self.topic_alias_maximum = Some(v);
                    },
                    _ => {
                        self.topic_alias = Some(v);
                    },
                }
            },
            PropertyValue::Four(v) => {
                match id {
                    PROP_MESSAGE_EXPIRY_INTERVAL => {
                        self.message_expiry_interval = Some(v);
                    },
                    PROP_SESSION_EXPIRY_INTERVAL => {
                        self.session_expiry_interval = Some(v);
                    },
                    PROP_WILL_DELAY_INTERVAL => {
                        self.will_delay_interval = Some(v);
                    },
                    _ => {
                        self.maximum_packet_size = Some(v);
                    },
                }
            },
            PropertyValue::Variable(v) => {
                self.subscription_identifier = Some(v);
            },
            PropertyValue::Text(v) => {
                match id {
                    PROP_CONTENT_TYPE => {
                        self.content_type = Some(v);
                    },
                    PROP_RESPONSE_TOPIC => {
                        self.response_topic = Some(v);
                    },
                    PROP_ASSIGNED_CLIENT_IDENTIFIER => {
                        self.assigned_client_identifier = Some(v);
                    },
                    PROP_AUTHENTICATION_METHOD => {
                        self.authentication_method = Some(v);
                    },
                    PROP_RESPONSE_INFORMATION => {
                        self.response_information = Some(v);
                    },
                    PROP_SERVER_REFERENCE => {
                        self.server_reference = Some(v);
                    },
                    _ => {
                        self.reason_string = Some(v);
                    },
                }
            },
            PropertyValue::Binary(v) => {
                match id {
                    PROP_CORRELATION_DATA => {
                        self.correlation_data = Some(v);
                    },
                    _ => {
                        self.authentication_data = Some(v);
                    },
                }
            },
            PropertyValue::Pair(key, value) => {
                self.user_properties.push(UserProperty { key, value });
            },
        }
        proof {
            if given is Pair {
                assert(self@.user =~= before@.with(id, given).user);
                assert(forall|other: u8| self.field(other) == before.field(other));
            } else {
                assert(self@.user =~= before@.user);
                assert(self.field(id) == Some(given));
                assert(forall|other: u8| other != id ==> self.field(other) == before.field(other));
            }
            assert(self@.fields =~= before@.with(id, given).fields);
        }
    }
}

// ── The wire format ──────────────────────────────────────────────────────

/// The bytes of a value.
pub open spec fn value_wire(value: ValueView) -> Seq<u8> {
    match value {
        ValueView::Byte(v) => seq![v],
        ValueView::Two(v) => wire::u16_wire(v),
        ValueView::Four(v) => wire::u32_wire(v),
        ValueView::Variable(v) => wire::varint_wire(v as nat),
        ValueView::Text(v) => wire::text_wire(v),
        ValueView::Binary(v) => wire::binary_wire(v),
        ValueView::Pair(k, v) => wire::text_wire(k) + wire::text_wire(v),
    }
}

/// The identifier and value of the property `id`, or nothing where it is not given.
pub open spec fn field_wire(p: PropertiesView, id: u8) -> Seq<u8> {
    if p.fields.contains_key(id) {
        seq![id] + value_wire(p.fields[id])
    } else {
        Seq::empty()
    }
}

/// The properties whose identifier is below `end`, in increasing order.
pub open spec fn fields_wire(p: PropertiesView, end: nat) -> Seq<u8>
    decreases end,
{
    if end == 0 {
        Seq::empty()
    } else {
        fields_wire(p, (end - 1) as nat) + field_wire(p, (end - 1) as u8)
    }
}

/// The user properties, in order.
pub open spec fn user_wire(user: Seq<(Seq<char>, Seq<char>)>) -> Seq<u8>
    decreases user.len(),
{
    if user.len() == 0 {
        Seq::empty()
    } else {
        user_wire(user.drop_last()) + (seq![PROP_USER_PROPERTY] + value_wire(
            ValueView::Pair(user.last().0, user.last().1),
        ))
    }
}

/// All properties: those with an identifier of their own, then the user properties.
pub open spec fn body_wire(p: PropertiesView) -> Seq<u8> {
    fields_wire(p, PROP_END as nat) + user_wire(p.user)
}

/// The properties with their length in front.
pub open spec fn properties_wire(p: PropertiesView) -> Seq<u8> {
    wire::varint_wire(body_wire(p).len()) + body_wire(p)
}

/// Whether a value fits the length field in front of it.
pub open spec fn value_fits(value: ValueView) -> bool {
    match value {
        ValueView::Text(v) => wire::utf8(v).len() <= u16::MAX,
        ValueView::Binary(v) => v.len() <= u16::MAX,
        ValueView::Pair(k, v) => pair_fits((k, v)),
        _ => true,
    }
}

/// Whether both texts of a user property fit the length fields in front of them.
pub open spec fn pair_fits(pair: (Seq<char>, Seq<char>)) -> bool {
    wire::utf8(pair.0).len() <= u16::MAX && wire::utf8(pair.1).len() <= u16::MAX
}

/// Whether the properties can be written: every text and binary value fits its
/// two length bytes, and the length in front is a `usize`.
pub open spec fn encodable(p: PropertiesView) -> bool {
    &&& forall|id: u8| #[trigger] p.fields.contains_key(id) ==> value_fits(p.fields[id])
    &&& forall|i: int| 0 <= i < p.user.len() ==> #[trigger] pair_fits(p.user[i])
    &&& body_wire(p).len() <= usize::MAX
}

/// The value of the property `id` at the start of `data`, and how many bytes it takes.
pub open spec fn value_at(id: u8, data: Seq<u8>) -> Parsed<(ValueView, nat)> {
    match kind_of(id) {
        None => Parsed::Bad(fault_of(id)),
        Some(PropertyKind::Byte) => if data.len() < 1 {
            Parsed::Bad(fault_of(id))
        } else {
            Parsed::Done((ValueView::Byte(data[0]), 1))
        },
        Some(PropertyKind::Two) => if data.len() < 2 {
            Parsed::Bad(fault_of(id))
        } else {
            Parsed::Done((ValueView::Two(wire::u16_value(data)), 2))
        },
        Some(PropertyKind::Four) => if data.len() < 4 {
            Parsed::Bad(fault_of(id))
        } else {
            Parsed::Done((ValueView::Four(wire::u32_value(data)), 4))
        },
        Some(PropertyKind::Variable) => match wire::varint_at(data) {
            VarintView::Overlong => Parsed::Overlong,
            VarintView::Incomplete => Parsed::Bad(fault_of(id)),
            VarintView::Value(value, size) => Parsed::Done(
                (ValueView::Variable((value % 0x1_0000_0000) as u32), size),
            ),
        },
        Some(PropertyKind::Text) => match wire::text_at(data) {
            None => Parsed::Bad(fault_of(id)),
            Some((text, size)) => Parsed::Done((ValueView::Text(text), size)),
        },
        Some(PropertyKind::Binary) => match wire::binary_at(data) {
            None => Parsed::Bad(fault_of(id)),
            Some((content, size)) => Parsed::Done((ValueView::Binary(content), size)),
        },
        Some(PropertyKind::Pair) => match wire::text_at(data) {
            None => Parsed::Bad(fault_of(id)),
            Some((key, n)) => match wire::text_at(data.skip(n as int)) {
                None => Parsed::Bad("invalid user property value"@),
                Some((value, m)) => Parsed::Done((ValueView::Pair(key, value), n + m)),
            },
        },
    }
}

/// A value lies within the bytes it was read from and has its identifier's layout.
pub proof fn lemma_value_size(id: u8, data: Seq<u8>)
    ensures
        value_at(id, data) matches Parsed::Done((value, size)) ==> size <= data.len() && kind_of(id)
            == Some(value.kind()),
{
    wire::law_remaining_length_prefix(data, Seq::empty());
}

/// The properties that `data` spells from start to end, on top of those in `seen`.
pub open spec fn fields_at(data: Seq<u8>, seen: PropertiesView) -> Parsed<PropertiesView>
    decreases data.len(),
{
    if data.len() == 0 {
        Parsed::Done(seen)
    } else {
        match value_at(data[0], data.drop_first()) {
            Parsed::Overlong => Parsed::Overlong,
            Parsed::Bad(text) => Parsed::Bad(text),
            Parsed::Done((value, size)) => {
                proof {
                    lemma_value_size(data[0], data.drop_first());
                }
                fields_at(data.skip(1 + size as int), seen.with(data[0], value))
            },
        }
    }
}

/// The properties at the start of `data`, with the length in front of them,
/// and how many bytes both take.
pub open spec fn properties_at(data: Seq<u8>) -> Parsed<(PropertiesView, nat)> {
    match wire::varint_at(data) {
        VarintView::Overlong => Parsed::Overlong,
        VarintView::Incomplete => Parsed::Bad("invalid properties length"@),
        VarintView::Value(len, size) => if data.len() < size + len {
            Parsed::Bad("properties data truncated"@)
        } else {
            match fields_at(
                data.subrange(size as int, (size + len) as int),
                PropertiesView::empty(),
            ) {
                Parsed::Overlong => Parsed::Overlong,
                Parsed::Bad(text) => Parsed::Bad(text),
                Parsed::Done(p) => Parsed::Done((p, size + len)),
            }
        },
    }
}

// ── Reading and writing ──────────────────────────────────────────────────

/// The outcome of reading the properties at the start of some bytes.
pub open spec fn properties_outcome(r: Result<(Properties, usize), Fault>) -> Parsed<
    (PropertiesView, nat),
> {
    match r {
        Ok((p, size)) => Parsed::Done((p@, size as nat)),
        Err(fault) => fault.outcome(),
    }
}

spec fn value_outcome(r: Result<(PropertyValue, usize), Fault>) -> Parsed<(ValueView, nat)> {
    match r {
        Ok((value, size)) => Parsed::Done((value@, size as nat)),
        Err(fault) => fault.outcome(),
    }
}

/// Reads the value of the property `id` at the start of `data`.
fn scan_value(id: u8, data: &[u8]) -> (r: Result<(PropertyValue, usize), Fault>)
    ensures
        value_outcome(r) == value_at(id, data@),
{
    let fault = Fault::Bad(property_fault(id));
    match property_kind(id) {
        None => Err(fault),
        Some(PropertyKind::Byte) => {
            if data.len() < 1 {
                return Err(fault);
            }
            Ok((PropertyValue::Byte(data[0]), 1))
        },
        Some(PropertyKind::Two) => {
            if data.len() < 2 {
                return Err(fault);
            }
            Ok((PropertyValue::Two(wire::read_u16(data)), 2))
        },
        Some(PropertyKind::Four) => {
            if data.len() < 4 {
                return Err(fault);
            }
            Ok((PropertyValue::Four(wire::read_u32(data)), 4))
        },
        Some(PropertyKind::Variable) => match wire::scan_varint(data) {
            Varint::Overlong => Err(Fault::Overlong),
            Varint::Incomplete => Err(fault),
            Varint::Value(value, size) => {
                let low: u32 = (value as u64 % 0x1_0000_0000) as u32;
                Ok((PropertyValue::Variable(low), size))
            },
        },
        Some(PropertyKind::Text) => match wire::decode_utf8(data) {
            None => Err(fault),
            Some((text, size)) => Ok((PropertyValue::Text(text.to_owned()), size)),
        },
        Some(PropertyKind::Binary) => match wire::decode_binary(data) {
            None => Err(fault),
            Some((content, size)) => Ok(
                (PropertyValue::Binary(vstd::slice::slice_to_vec(content)), size),
            ),
        },
        Some(PropertyKind::Pair) => match wire::decode_utf8(data) {
            None => Err(fault),
            Some((key, n)) => {
                let rest = vstd::slice::slice_subrange(data, n, data.len());
                assert(rest@ == data@.skip(n as int));
                match wire::decode_utf8(rest) {
                    None => Err(Fault::Bad("invalid user property value")),
                    Some((value, m)) => Ok(
                        (PropertyValue::Pair(key.to_owned(), value.to_owned()), n + m),
                    ),
                }
            },
        },
    }
}

/// Reads the properties at the start of `data`, whatever `data` is.
pub fn scan_properties(data: &[u8]) -> (r: Result<(Properties, usize), Fault>)
    ensures
        properties_outcome(r) == properties_at(data@),
{
    match wire::scan_varint(data) {
        Varint::Overlong => Err(Fault::Overlong),
        Varint::Incomplete => Err(Fault::Bad("invalid properties length")),
        Varint::Value(len, size) => {
            proof {
                wire::law_remaining_length_prefix(data@, Seq::empty());
            }
            if data.len() - size < len {
                return Err(Fault::Bad("properties data truncated"));
            }
            let end: usize = size + len;
            let ghost whole = data@.subrange(size as int, end as int);
            let mut pos: usize = size;
            let mut props = Properties::new();
            while pos < end
                invariant
                    wire::varint_at(data@) == VarintView::Value(len as nat, size as nat),
                    end == size + len,
                    size <= pos <= end <= data@.len(),
                    whole == data@.subrange(size as int, end as int),
                    fields_at(data@.subrange(pos as int, end as int), props@) == fields_at(
                        whole,
                        PropertiesView::empty(),
                    ),
                decreases end - pos,
            {
                let id: u8 = data[pos];
                let rest = vstd::slice::slice_subrange(data, pos + 1, end);
                let ghost here = data@.subrange(pos as int, end as int);
                proof {
                    assert(here.drop_first() == rest@);
                    assert(here[0] == id);
                    lemma_value_size(id, rest@);
                }
                match scan_value(id, rest) {
                    Err(fault) => {
                        proof {
                            assert(fault.outcome::<(ValueView, nat)>() == value_at(id, rest@));
                        }
                        return Err(fault);
                    },
                    Ok((value, n)) => {
                        props.set(id, value);
                        proof {
                            assert(here.skip(1 + n as int) == data@.subrange(
                                pos + 1 + n,
                                end as int,
                            ));
                        }
                        pos = pos + 1 + n;
                    },
                }
            }
            Ok((props, end))
        },
    }
}

/// How many bytes a value takes.
fn value_size(value: &PropertyRef<'_>) -> (n: usize)
    requires
        value_wire(value@).len() <= usize::MAX,
    ensures
        n == value_wire(value@).len(),
{
    match value {
        PropertyRef::Byte(_) => 1,
        PropertyRef::Two(_) => 2,
        PropertyRef::Four(_) => 4,
        PropertyRef::Variable(v) => wire::encode_remaining_length(*v as usize).len(),
        PropertyRef::Text(v) => 2 + v.len(),
        PropertyRef::Binary(v) => 2 + v.len(),
    }
}

impl Properties {
    /// The length that stands in front of the written properties: the bytes that
    /// they take.
    pub fn encoded_length(&self) -> (len: usize)
        requires
            body_wire(self@).len() <= usize::MAX,
        ensures
            len == body_wire(self@).len(),
    {
        let mut len: usize = 0;
        for id in 0..PROP_END
            invariant
                len == fields_wire(self@, id as nat).len(),
                body_wire(self@).len() <= usize::MAX,
        {
            proof {
                lemma_fields_grow(self@, (id + 1) as nat, PROP_END as nat);
            }
            match self.field_ref(id) {
                None => {
                    assert(field_wire(self@, id) == Seq::<u8>::empty());
                },
                Some(value) => {
                    assert(self@.fields.contains_key(id));
                    assert(field_wire(self@, id).len() == 1 + value_wire(value@).len());
                    len = len + 1 + value_size(&value);
                },
            }
        }
        let ghost fields = len;
        for i in 0..self.user_properties.len()
            invariant
                fields == fields_wire(self@, PROP_END as nat).len(),
                len == fields + user_wire(self@.user.take(i as int)).len(),
                body_wire(self@).len() <= usize::MAX,
        {
            let pair = &self.user_properties[i];
            proof {
                lemma_user_grows(self@.user, i + 1);
                assert(self@.user.take(i + 1).drop_last() == self@.user.take(i as int));
                assert(self@.user.take(i + 1).last() == pair@);
                lemma_text_wire_len(pair@.0);
                lemma_text_wire_len(pair@.1);
            }
            len = len + 5 + pair.key.as_str().len() + pair.value.as_str().len();
        }
        assert(self@.user.take(self.user_properties@.len() as int) == self@.user);
        len
    }

    /// Appends the properties with their length in front.
    pub fn encode(&self, buf: &mut Vec<u8>)
        requires
            encodable(self@),
        ensures
            final(buf)@ == old(buf)@ + properties_wire(self@),
    {
        let len: usize = self.encoded_length();
        let mut prefix: Vec<u8> = wire::encode_remaining_length(len);
        buf.append(&mut prefix);
        let ghost base = buf@;
        for id in 0..PROP_END
            invariant
                encodable(self@),
                buf@ == base + fields_wire(self@, id as nat),
        {
            match self.field_ref(id) {
                None => {
                    assert(field_wire(self@, id) == Seq::<u8>::empty());
                },
                Some(value) => {
                    assert(self@.fields.contains_key(id));
                    buf.push(id);
                    put_value(buf, value);
                },
            }
            assert(buf@ == base + fields_wire(self@, (id + 1) as nat));
        }
        let ghost base = buf@;
        for i in 0..self.user_properties.len()
            invariant
                encodable(self@),
                buf@ == base + user_wire(self@.user.take(i as int)),
        {
            let pair = &self.user_properties[i];
            assert(pair_fits(self@.user[i as int]));
            buf.push(PROP_USER_PROPERTY);
            wire::encode_utf8(buf, pair.key.as_str());
            wire::encode_utf8(buf, pair.value.as_str());
            proof {
                let upto = self@.user.take(i + 1);
                assert(upto.drop_last() == self@.user.take(i as int));
                assert(upto.last() == pair@);
                assert(buf@ == base + user_wire(upto));
            }
        }
        assert(self@.user.take(self.user_properties@.len() as int) == self@.user);
        assert(buf@ == old(buf)@ + properties_wire(self@));
    }

    /// Reads the properties at the start of `data`, and how many bytes they take.
    pub fn decode(data: &[u8]) -> (r: Result<(Self, usize), &'static str>)
        requires
            properties_at(data@) !is Overlong,
        ensures
            match r {
                Ok((p, size)) => properties_at(data@) == Parsed::Done((p@, size as nat)),
                Err(text) => properties_at(data@) == Parsed::<(PropertiesView, nat)>::Bad(text@),
            },
    {
        match scan_properties(data) {
            Ok(found) => Ok(found),
            Err(Fault::Bad(text)) => Err(text),
            Err(Fault::Overlong) => Err("invalid properties length"),
        }
    }
}

/// Appends the bytes of a value.
fn put_value(buf: &mut Vec<u8>, value: PropertyRef<'_>)
    requires
        value_fits(value@),
    ensures
        final(buf)@ == old(buf)@ + value_wire(value@),
{
    match value {
        PropertyRef::Byte(v) => {
            buf.push(v);
            assert(buf@ == old(buf)@ + seq![v]);
        },
        PropertyRef::Two(v) => wire::put_u16(buf, v),
        PropertyRef::Four(v) => wire::put_u32(buf, v),
        PropertyRef::Variable(v) => {
            let mut bytes: Vec<u8> = wire::encode_remaining_length(v as usize);
            buf.append(&mut bytes);
        },
        PropertyRef::Text(v) => wire::encode_utf8(buf, v),
        PropertyRef::Binary(v) => wire::encode_binary(buf, v),
    }
}

proof fn lemma_fields_grow(p: PropertiesView, low: nat, high: nat)
    requires
        low <= high,
    ensures
        fields_wire(p, low).len() <= fields_wire(p, high).len(),
    decreases high,
{
    if low < high {
        lemma_fields_grow(p, low, (high - 1) as nat);
    }
}

proof fn lemma_user_grows(user: Seq<(Seq<char>, Seq<char>)>, end: int)
    requires
        0 <= end <= user.len(),
    ensures
        user_wire(user.take(end)).len() <= user_wire(user).len(),
    decreases user.len() - end,
{
    if end < user.len() {
        lemma_user_grows(user, end + 1);
        assert(user.take(end + 1).drop_last() == user.take(end));
    } else {
        assert(user.take(end) == user);
    }
}

proof fn lemma_text_wire_len(text: Seq<char>)
    ensures
        wire::text_wire(text).len() == 2 + wire::utf8(text).len(),
{
}

// ── Laws ─────────────────────────────────────────────────────────────────

/// Properties hold only values that have the layout of their identifier.
pub proof fn law_properties_well_formed(p: Properties)
    ensures
        p@.wf(),
{
    assert forall|id: u8| #[trigger] p@.fields.contains_key(id) implies kind_of(id) == Some(
        p@.fields[id].kind(),
    ) && kind_of(id) != Some(PropertyKind::Pair) by {
        assert(p.field(id) is Some);
    }
}

/// Whether a value is what its bytes are read as: a variable byte integer must
/// fit the seven bit groups of a `usize`.
pub open spec fn value_readable(value: ValueView) -> bool {
    value matches ValueView::Variable(v) ==> v < vstd::arithmetic::power::pow(
        128,
        wire::varint_limit(),
    )
}

proof fn lemma_value_round_trip(id: u8, value: ValueView, rest: Seq<u8>)
    requires
        kind_of(id) == Some(value.kind()),
        value_fits(value),
        value_readable(value),
    ensures
        value_at(id, value_wire(value) + rest) == Parsed::Done((value, value_wire(value).len())),
{
    match value {
        ValueView::Byte(v) => {},
        ValueView::Two(v) => wire::law_u16_round_trip(v, rest),
        ValueView::Four(v) => wire::law_u32_round_trip(v, rest),
        ValueView::Variable(v) => wire::law_remaining_length_round_trip(v as nat, rest),
        ValueView::Text(v) => wire::law_utf8_round_trip(v, rest),
        ValueView::Binary(v) => wire::law_binary_round_trip(v, rest),
        ValueView::Pair(k, v) => {
            assert(value_wire(value) + rest == wire::text_wire(k) + (wire::text_wire(v) + rest));
            wire::law_utf8_round_trip(k, wire::text_wire(v) + rest);
            wire::law_utf8_round_trip(v, rest);
            assert((value_wire(value) + rest).skip(wire::text_wire(k).len() as int)
                == wire::text_wire(v) + rest);
        },
    }
}

/// A property at the front is read, and reading goes on behind it.
#[verifier::spinoff_prover]
pub proof fn lemma_one_property(id: u8, value: ValueView, rest: Seq<u8>, seen: PropertiesView)
    requires
        kind_of(id) == Some(value.kind()),
        value_fits(value),
        value_readable(value),
    ensures
        fields_at(seq![id] + value_wire(value) + rest, seen) == fields_at(
            rest,
            seen.with(id, value),
        ),
{
    lemma_value_round_trip(id, value, rest);
    lemma_next_field(id, value, value_wire(value), rest, seen);
}

proof fn lemma_next_field(
    id: u8,
    value: ValueView,
    wire: Seq<u8>,
    rest: Seq<u8>,
    seen: PropertiesView,
)
    requires
        value_at(id, wire + rest) == Parsed::Done((value, wire.len())),
    ensures
        fields_at(seq![id] + wire + rest, seen) == fields_at(rest, seen.with(id, value)),
{
    let data = seq![id] + wire + rest;
    assert(data[0] == id);
    assert(data.drop_first() =~= wire + rest);
    assert(data.skip(1 + wire.len() as int) =~= rest);
}

/// Properties without any value are written as the length zero.
pub proof fn lemma_empty_properties()
    ensures
        PropertiesView::empty().wf(),
        encodable(PropertiesView::empty()),
        readable(PropertiesView::empty()),
        properties_wire(PropertiesView::empty()) == seq![0u8],
{
    let p = PropertiesView::empty();
    lemma_one_field(p, 0, PROP_END as nat);
    vstd::arithmetic::power::lemma_pow_positive(128, wire::varint_limit());
    assert(body_wire(p) =~= Seq::<u8>::empty());
    assert(properties_wire(p) =~= seq![0u8]);
}

/// Where at most one identifier has a value, that value alone is written.
proof fn lemma_one_field(p: PropertiesView, id: u8, end: nat)
    requires
        forall|other: u8| #[trigger] p.fields.contains_key(other) ==> other == id,
        end <= PROP_END,
    ensures
        fields_wire(p, end) == if id < end {
            field_wire(p, id)
        } else {
            Seq::empty()
        },
    decreases end,
{
    if end > 0 {
        lemma_one_field(p, id, (end - 1) as nat);
        assert(fields_wire(p, end) =~= if id < end {
            field_wire(p, id)
        } else {
            Seq::empty()
        });
    }
}

/// Properties with one text that fits its length field can be written.
pub proof fn lemma_one_text_encodable(id: u8, value: Seq<char>)
    requires
        wire::utf8(value).len() <= u16::MAX,
        id < PROP_END,
    ensures
        encodable(PropertiesView::empty().with(id, ValueView::Text(value))),
        body_wire(PropertiesView::empty().with(id, ValueView::Text(value))).len() == 3
            + wire::utf8(value).len(),
{
    let p = PropertiesView::empty().with(id, ValueView::Text(value));
    lemma_one_field(p, id, PROP_END as nat);
    lemma_text_wire_len(value);
    assert(user_wire(p.user).len() == 0);
}

/// Properties with one short text take a byte for the length, and three bytes
/// and the text.
pub proof fn lemma_one_text_size(id: u8, value: Seq<char>)
    requires
        wire::utf8(value).len() < 100,
        id < PROP_END,
    ensures
        properties_wire(PropertiesView::empty().with(id, ValueView::Text(value))).len() == 4
            + wire::utf8(value).len(),
{
    lemma_one_text_encodable(id, value);
}

/// The part of the properties whose identifier is below `end`.
spec fn below(p: PropertiesView, end: nat) -> PropertiesView {
    PropertiesView {
        fields: p.fields.restrict(Set::new(|id: u8| id < end)),
        user: Seq::empty(),
    }
}

proof fn lemma_fields_round_trip(p: PropertiesView, end: nat, rest: Seq<u8>)
    requires
        p.wf(),
        encodable(p),
        forall|id: u8| #[trigger] p.fields.contains_key(id) ==> value_readable(p.fields[id]),
        end <= PROP_END,
    ensures
        fields_at(fields_wire(p, end) + rest, PropertiesView::empty()) == fields_at(
            rest,
            below(p, end),
        ),
    decreases end,
{
    if end == 0 {
        assert(fields_wire(p, end) + rest == rest);
        assert(below(p, end) =~= PropertiesView::empty());
    } else {
        let id = (end - 1) as u8;
        let tail = field_wire(p, id) + rest;
        lemma_fields_round_trip(p, (end - 1) as nat, tail);
        assert(fields_wire(p, end) + rest == fields_wire(p, (end - 1) as nat) + tail);
        if p.fields.contains_key(id) {
            lemma_one_property(id, p.fields[id], rest, below(p, (end - 1) as nat));
            assert(tail == seq![id] + value_wire(p.fields[id]) + rest);
            assert(below(p, end) =~= below(p, (end - 1) as nat).with(id, p.fields[id]));
        } else {
            assert(tail == rest);
            assert(below(p, end) =~= below(p, (end - 1) as nat));
        }
    }
}

proof fn lemma_user_round_trip(
    user: Seq<(Seq<char>, Seq<char>)>,
    rest: Seq<u8>,
    seen: PropertiesView,
)
    requires
        forall|i: int| 0 <= i < user.len() ==> #[trigger] pair_fits(user[i]),
    ensures
        fields_at(user_wire(user) + rest, seen) == fields_at(
            rest,
            (PropertiesView { user: seen.user + user, ..seen }),
        ),
    decreases user.len(),
{
    if user.len() == 0 {
        assert(user_wire(user) + rest == rest);
        assert(seen.user + user == seen.user);
    } else {
        let front = user.drop_last();
        let last = ValueView::Pair(user.last().0, user.last().1);
        let tail = seq![PROP_USER_PROPERTY] + value_wire(last) + rest;
        assert forall|i: int| 0 <= i < front.len() implies #[trigger] pair_fits(front[i]) by {
            assert(pair_fits(user[i]));
        }
        assert(pair_fits(user[user.len() - 1]));
        lemma_user_round_trip(front, tail, seen);
        assert(user_wire(user) + rest == user_wire(front) + tail);
        let mid = PropertiesView { user: seen.user + front, ..seen };
        lemma_one_property(PROP_USER_PROPERTY, last, rest, mid);
        assert(mid.with(PROP_USER_PROPERTY, last).user == seen.user + user);
    }
}

proof fn lemma_no_field_past_end(p: PropertiesView)
    requires
        p.wf(),
    ensures
        below(p, PROP_END as nat).fields == p.fields,
{
    assert forall|id: u8| p.fields.contains_key(id) implies id < PROP_END by {
        assert(kind_of(id) is Some);
    }
    assert(below(p, PROP_END as nat).fields =~= p.fields);
}

/// Whether the length of the properties and every number in them fit the seven
/// bit groups of a `usize`.
pub open spec fn readable(p: PropertiesView) -> bool {
    &&& body_wire(p).len() < vstd::arithmetic::power::pow(128, wire::varint_limit())
    &&& forall|id: u8| #[trigger] p.fields.contains_key(id) ==> value_readable(p.fields[id])
}

/// Properties are read back from their encoding, whatever follows it.
pub proof fn law_properties_round_trip(p: PropertiesView, rest: Seq<u8>)
    requires
        p.wf(),
        encodable(p),
        readable(p),
    ensures
        properties_at(properties_wire(p) + rest) == Parsed::Done((p, properties_wire(p).len())),
{
    let data = properties_wire(p) + rest;
    let len = body_wire(p).len();
    let prefix = wire::varint_wire(len);
    assert(data == prefix + (body_wire(p) + rest));
    wire::law_remaining_length_round_trip(len, body_wire(p) + rest);
    let body = data.subrange(prefix.len() as int, (prefix.len() + len) as int);
    assert(body == body_wire(p));
    lemma_fields_round_trip(p, PROP_END as nat, user_wire(p.user));
    lemma_user_round_trip(p.user, Seq::empty(), below(p, PROP_END as nat));
    lemma_no_field_past_end(p);
    assert(user_wire(p.user) + Seq::<u8>::empty() == user_wire(p.user));
    assert(Seq::<(Seq<char>, Seq<char>)>::empty() + p.user == p.user);
    assert((PropertiesView { user: p.user, ..below(p, PROP_END as nat) }) =~= p);
    assert(below(p, PROP_END as nat).user + p.user == p.user);
}

} // verus!
