//! What the answers about the broker have in common: they tell of everything that is
//! there, of nothing else, and agree with each other. And who gets to ask.

use crate::api;
use crate::auth;
use crate::broker_laws;
use crate::config;
use crate::management;
use crate::management::{ManagementRequest, ReplyView};
use crate::state;
use crate::state::{ClientView, MessageView, MqttProtocol, QoS, StateView, SubscriptionView};
use crate::table;
use crate::text;
use crate::text_laws;
use crate::tools;
use vstd::prelude::*;

verus! {

// ── Questions about the broker ───────────────────────────────────────────

/// The list of clients holds exactly the clients that can be asked for one by one.
pub proof fn law_clients_are_listed(
    s: StateView,
    all: ManagementRequest,
    one: ManagementRequest,
    c: ClientView,
)
    requires
        s.wf(),
        all is ListClients,
        one is GetClient,
    ensures
        management::answer(s, all) matches ReplyView::Clients(list) && {
            &&& list.len() == s.clients.len()
            &&& management::answer(s, one) == ReplyView::Client(Some(c)) ==> list.contains(c)
            &&& list.contains(c) ==> exists|id: Seq<char>| #[trigger]
                table::lookup(s.clients, id) == Some(c)
        },
{
    let list = Seq::new(s.clients.len(), |i: int| s.clients[i].1);
    let id = one->client_id@;
    table::lemma_lookup(s.clients, id);
    if management::answer(s, one) == ReplyView::Client(Some(c)) {
        let i = choose|i: int| 0 <= i < s.clients.len() && #[trigger] s.clients[i] == (id, c);
        assert(list[i] == c);
    }
    if list.contains(c) {
        let i = choose|i: int| 0 <= i < list.len() && list[i] == c;
        table::lemma_lookup_entry(s.clients, i);
        assert(table::lookup(s.clients, s.clients[i].0) == Some(c));
    }
}

/// A client that is asked for by its identifier is the one with that identifier, and
/// one that is not there is not made up.
pub proof fn law_client_is_found(s: StateView, one: ManagementRequest, i: int)
    requires
        s.wf(),
        one is GetClient,
    ensures
        0 <= i < s.clients.len() && s.clients[i].0 == one->client_id@ ==> management::answer(s, one)
            == ReplyView::Client(Some(s.clients[i].1)),
        management::answer(s, one) == ReplyView::Client(None) <==> forall|j: int|
            0 <= j < s.clients.len() ==> (#[trigger] s.clients[j]).0 != one->client_id@,
{
    let id = one->client_id@;
    table::lemma_lookup(s.clients, id);
    if 0 <= i < s.clients.len() && s.clients[i].0 == id {
        table::lemma_lookup_entry(s.clients, i);
    }
    if table::lookup(s.clients, id) is Some {
        let c = table::lookup(s.clients, id)->0;
        let j = choose|j: int| 0 <= j < s.clients.len() && #[trigger] s.clients[j] == (id, c);
        assert(s.clients[j].0 == id);
    }
}

/// The list of subscriptions and the question about one filter agree: under every
/// filter stand exactly the subscriptions that the filter is asked for.
pub proof fn law_subscriptions_agree(
    s: StateView,
    all: ManagementRequest,
    one: ManagementRequest,
    i: int,
)
    requires
        s.wf(),
        all is ListSubscriptions,
        one is GetTopicSubscribers,
    ensures
        management::answer(s, all) matches ReplyView::Subscriptions(list) && {
            &&& list.len() == s.subscriptions.len()
            &&& 0 <= i < list.len() && list[i].0 == one->topic@ ==> management::answer(s, one)
                == ReplyView::Subscribers(list[i].1)
            &&& (forall|j: int| 0 <= j < list.len() ==> (#[trigger] list[j]).0 != one->topic@)
                ==> management::answer(s, one) == ReplyView::Subscribers(Seq::empty())
        },
{
    let topic = one->topic@;
    table::lemma_lookup(s.subscriptions, topic);
    if 0 <= i < s.subscriptions.len() && s.subscriptions[i].0 == topic {
        table::lemma_lookup_entry(s.subscriptions, i);
    }
    if table::lookup(s.subscriptions, topic) is Some {
        let list = table::lookup(s.subscriptions, topic)->0;
        let j = choose|j: int|
            0 <= j < s.subscriptions.len() && #[trigger] s.subscriptions[j] == (topic, list);
        assert(s.subscriptions[j].0 == topic);
    }
}

/// What is shown of a client is what the broker knows of it, with the time since it
/// connected in place of the time when it did.
pub proof fn law_client_is_shown(c: ClientView, now: u64)
    ensures
        ({
            let shown = api::client_shown(c, now);
            &&& shown.client_id == c.client_id && shown.addr == c.addr
            &&& shown.protocol_version == if c.protocol_version == MqttProtocol::V500 {
                "V500"@
            } else {
                "V311"@
            }
            &&& now >= c.connected_at ==> c.connected_at + shown.connected_at_secs == now
            &&& now < c.connected_at ==> shown.connected_at_secs == 0
            &&& shown.clean_session == c.clean_session && shown.keep_alive == c.keep_alive
            &&& shown.username == c.username
        }),
        ({
            let row = tools::client_row(c, now);
            &&& row.client_id == c.client_id && row.address == c.addr
            &&& row.protocol == if c.protocol_version == MqttProtocol::V500 {
                "V500"@
            } else {
                "V311"@
            }
            &&& now >= c.connected_at ==> c.connected_at + row.connected_for_secs == now
            &&& now < c.connected_at ==> row.connected_for_secs == 0
            &&& row.clean_session == c.clean_session && row.keep_alive == c.keep_alive
            &&& row.username == c.username
        }),
{
}

/// Every subscriber is shown, in order, with its delivery guarantee by name.
pub proof fn law_subscribers_are_shown(list: Seq<SubscriptionView>, i: int)
    requires
        0 <= i < list.len(),
    ensures
        api::subscribers_shown(list).len() == list.len(),
        tools::subscriber_rows_of(list).len() == list.len(),
        ({
            let qos = if list[i].qos == QoS::AtMostOnce {
                "AtMostOnce"@
            } else if list[i].qos == QoS::AtLeastOnce {
                "AtLeastOnce"@
            } else {
                "ExactlyOnce"@
            };
            &&& api::subscribers_shown(list)[i] == (list[i].client_id, qos)
            &&& tools::subscriber_rows_of(list)[i] == (
                list[i].client_id,
                list[i].topic_filter,
                qos,
            )
        }),
{
}

// ── Who may ask ──────────────────────────────────────────────────────────

/// A header gives a token exactly where the token stands behind the scheme, and all
/// that stands there is the token.
pub proof fn law_bearer_token(header: Seq<char>, token: Seq<char>)
    ensures
        api::token_in(header) == Some(token) <==> header == "Bearer "@ + token,
{
    let scheme = "Bearer "@;
    if api::token_in(header) == Some(token) {
        assert(header =~= header.take(scheme.len() as int) + header.skip(scheme.len() as int));
    }
    if header == scheme + token {
        assert(header.take(scheme.len() as int) =~= scheme);
        assert(header.skip(scheme.len() as int) =~= token);
    }
}

/// A line names a client and its password where it is no comment and holds a colon:
/// the name reaches up to the first colon, the password is all that follows.
pub proof fn law_credential(line: Seq<char>, user: Seq<char>, pass: Seq<char>)
    ensures
        auth::credential_of(line) == Some((user, pass)) <==> ({
            let t = text::trim(line);
            &&& t == user + seq![':'] + pass
            &&& !user.contains(':')
            &&& t[0] != '#'
        }),
{
    let t = text::trim(line);
    let i = text::first_index(t, ':') as int;
    text::lemma_first_index(t, ':');
    if auth::credential_of(line) == Some((user, pass)) {
        assert(t =~= t.take(i) + seq![':'] + t.skip(i + 1));
        if user.contains(':') {
            let k = choose|k: int| 0 <= k < user.len() && user[k] == ':';
            assert(t[k] == ':');
        }
    }
    if t == user + seq![':'] + pass && !user.contains(':') && t[0] != '#' {
        assert forall|k: int| 0 <= k < user.len() implies t[k] != ':' by {
            assert(t[k] == user[k]);
            assert(user.contains(user[k]));
        }
        assert(t[user.len() as int] == ':');
        text::lemma_first_index_is(t, ':', user.len() as int);
        assert(t.take(user.len() as int) =~= user);
        assert(t.skip(user.len() as int + 1) =~= pass);
    }
}

/// Exactly those may connect whose name and password some line gives: no line is
/// passed over.
pub proof fn law_every_line_counts(
    lines: Seq<Seq<char>>,
    seen: Seq<(Seq<char>, Seq<char>)>,
    c: (Seq<char>, Seq<char>),
)
    ensures
        auth::credentials_of(lines, seen).contains(c) <==> (seen.contains(c) || exists|i: int|
            0 <= i < lines.len() && auth::credential_of(#[trigger] lines[i]) == Some(c)),
    decreases lines.len(),
{
    if lines.len() > 0 {
        let rest = lines.drop_first();
        let next = match auth::credential_of(lines[0]) {
            Some(x) => seen.push(x),
            None => seen,
        };
        law_every_line_counts(rest, next, c);
        assert(next.contains(c) <==> (seen.contains(c) || auth::credential_of(lines[0]) == Some(
            c,
        ))) by {
            if auth::credential_of(lines[0]) is Some {
                let x = auth::credential_of(lines[0])->0;
                if seen.contains(c) {
                    let k = choose|k: int| 0 <= k < seen.len() && seen[k] == c;
                    assert(next[k] == c);
                }
                if x == c {
                    assert(next[seen.len() as int] == c);
                }
                if next.contains(c) {
                    let k = choose|k: int| 0 <= k < next.len() && next[k] == c;
                    if k < seen.len() {
                        assert(seen[k] == c);
                    }
                }
            }
        }
        if exists|i: int|
            0 <= i < lines.len() && auth::credential_of(#[trigger] lines[i]) == Some(c) {
            let i = choose|i: int|
                0 <= i < lines.len() && auth::credential_of(#[trigger] lines[i]) == Some(c);
            if i > 0 {
                assert(rest[i - 1] == lines[i]);
            }
        }
        if exists|i: int|
            0 <= i < rest.len() && auth::credential_of(#[trigger] rest[i]) == Some(c) {
            let i = choose|i: int|
                0 <= i < rest.len() && auth::credential_of(#[trigger] rest[i]) == Some(c);
            assert(lines[i + 1] == rest[i]);
        }
    }
}

// ── What a tool publishes ────────────────────────────────────────────────

/// Of the pairs that a message is published with those count, all of them and in
/// order, of which both parts were given.
pub proof fn law_complete_pairs(list: Seq<(Option<String>, Option<String>)>)
    ensures
        tools::complete(list) == list.filter(
            |p: (Option<String>, Option<String>)| p.0 is Some && p.1 is Some,
        ).map_values(|p: (Option<String>, Option<String>)| ((p.0->0)@, (p.1->0)@)),
    decreases list.len(),
{
    reveal(Seq::filter);
    let both = |p: (Option<String>, Option<String>)| p.0 is Some && p.1 is Some;
    let texts = |p: (Option<String>, Option<String>)| ((p.0->0)@, (p.1->0)@);
    if list.len() > 0 {
        law_complete_pairs(list.drop_last());
        let front = list.drop_last().filter(both);
        assert(front.push(list.last()).map_values(texts) =~= front.map_values(texts).push(
            texts(list.last()),
        ));
    } else {
        assert(tools::complete(list) =~= list.filter(both).map_values(texts));
    }
}

/// Which status an answer of the service has: 401 and 404 for the two failures that
/// are a caller's, 500 for every other.
pub proof fn law_statuses(code: Seq<char>)
    ensures
        api::status_of(code) == 401 <==> code == "UNAUTHORIZED"@,
        api::status_of(code) == 404 <==> code == "NOT_FOUND"@,
        code != "UNAUTHORIZED"@ && code != "NOT_FOUND"@ <==> api::status_of(code) == 500,
{
    reveal_strlit("UNAUTHORIZED");
    reveal_strlit("NOT_FOUND");
    assert("UNAUTHORIZED"@.len() != "NOT_FOUND"@.len());
}

/// Only the one name with the one password gets a token.
pub proof fn law_login(username: Seq<char>, password: Seq<char>)
    ensures
        api::may_have_token(username, password) <==> username == seq!['a', 'd', 'm', 'i', 'n']
            && password == seq!['a', 'd', 'm', 'i', 'n'],
{
    reveal_strlit("admin");
    assert("admin"@ =~= seq!['a', 'd', 'm', 'i', 'n']);
}

/// A message is shown with all that it carries.
pub proof fn law_message_is_shown(m: MessageView, payload: Seq<char>)
    ensures
        ({
            let row = tools::message_row_of(m, payload);
            &&& row.topic == m.topic && row.payload == payload && row.retain == m.retain
            &&& row.user_properties == m.user_properties
            &&& row.qos == match m.qos {
                QoS::AtMostOnce => "AtMostOnce"@,
                QoS::AtLeastOnce => "AtLeastOnce"@,
                QoS::ExactlyOnce => "ExactlyOnce"@,
            }
        }),
{
}

/// An address to listen at is the host, a colon and the port, which can be read back.
pub proof fn law_bind_address(host: Seq<char>, port: u16)
    ensures
        ({
            let r = config::bind_addr(host, port);
            &&& r.take(host.len() as int) == host
            &&& r[host.len() as int] == ':'
            &&& text::number_in(r.skip(host.len() as int + 1)) == Some(port as u32)
        }),
{
    let r = config::bind_addr(host, port);
    assert(r.take(host.len() as int) =~= host);
    assert(r.skip(host.len() as int + 1) =~= text::decimal(port as nat));
    text_laws::law_number(port as u32, host);
}

/// The subscribers of a topic are those under the filter of that name, all of them, and
/// none where there is no such filter.
pub proof fn law_subscribers_of(s: StateView, topic: Seq<char>, k: int)
    requires
        0 <= k <= s.subscriptions.len(),
        forall|j: int| 0 <= j < k ==> (#[trigger] s.subscriptions[j]).0 != topic,
        k < s.subscriptions.len() ==> s.subscriptions[k].0 == topic,
    ensures
        state::subscribers_of(s, topic) == if k < s.subscriptions.len() {
            s.subscriptions[k].1
        } else {
            Seq::empty()
        },
{
    broker_laws::law_entries(s.subscriptions, topic, Seq::empty(), k);
}

} // verus!
