//! The websocket side: clients subscribe to signatures and are notified of them.
use crate::clock::{current_timestamp_ms, is_time_ms};
use crate::json::{as_string, into_string, json_of, json_option_view, parse_json, Json, JsonView};
use crate::jsonrpc::{
    error_reply, invalid_params, invalid_request, result_reply, send_error, send_result, Error,
    ErrorCode, ErrorView,
};
use crate::scan::Found;
use crate::signature::{is_signature, signature_bytes};
use crate::subscriptions::{
    held, map_remove_if_websocket, subscribe, without_websocket, Subscription, Subscriptions,
    WebsocketSubscription,
};
use crate::text::{decimal, decimal_text, same_text};
use std::collections::HashMap;
use vstd::prelude::*;
use vstd::string::StringExecFns;

verus! {

broadcast use vstd::std_specs::hash::group_hash_axioms;

/// A websocket connection.
pub struct Connection {
    /// Number of the connection; no two connections have the same.
    pub number: u64,
    /// The signatures that the connection subscribed to, by number of the subscription.
    pub active_subscriptions: HashMap<u64, String>,
}

/// What a request works on: the table of subscriptions, the subscriptions of the connection that
/// it came over, and the number that the next subscription gets.
#[verifier::ext_equal]
pub ghost struct Session {
    pub table: Map<Seq<char>, Subscription>,
    pub number: u64,
    pub active: Map<u64, Seq<char>>,
    pub next_id: u64,
}

pub open spec fn active_view(active: Map<u64, String>) -> Map<u64, Seq<char>> {
    active.map_values(|signature: String| signature@)
}

/// The session of a table, a connection and a counter of subscriptions.
pub open spec fn session(
    subscriptions: Subscriptions,
    connection: Connection,
    next_id: u64,
) -> Session {
    Session {
        table: held(subscriptions),
        number: connection.number,
        active: active_view(connection.active_subscriptions@),
        next_id,
    }
}

/// The number after `id`; the last one is followed by zero.
pub open spec fn id_after(id: u64) -> u64 {
    if id == u64::MAX {
        0
    } else {
        (id + 1) as u64
    }
}

impl Session {
    /// The subscription that the next request of the connection enters.
    pub open spec fn next_subscription(self, now_ms: u64) -> Subscription {
        Subscription {
            client_timestamp_ms: now_ms,
            rpc_received_ms: now_ms,
            websocket: Some(WebsocketSubscription { id: self.next_id, sender: self.number }),
        }
    }

    /// The session once a signature has been subscribed to, unless it was subscribed to before.
    pub open spec fn subscribed(self, signature: Seq<char>, now_ms: u64) -> Session {
        if self.table.contains_key(signature) {
            self
        } else {
            Session {
                table: self.table.insert(signature, self.next_subscription(now_ms)),
                active: self.active.insert(self.next_id, signature),
                next_id: id_after(self.next_id),
                ..self
            }
        }
    }

    /// The reply to a request to subscribe to a signature: the number of the subscription.
    pub open spec fn subscribed_reply(self, id: Seq<char>, signature: Seq<char>) -> Seq<char> {
        if self.table.contains_key(signature) {
            error_reply(id, invalid_request("Transaction already subscribed"@))
        } else {
            result_reply(id, decimal(self.next_id as nat))
        }
    }

    /// The session once a subscription of the connection has been ended.
    pub open spec fn unsubscribed(self, subscription_id: u64) -> Session {
        if self.active.contains_key(subscription_id) {
            Session {
                table: without_websocket(
                    self.table,
                    self.active[subscription_id],
                    subscription_id,
                ),
                active: self.active.remove(subscription_id),
                ..self
            }
        } else {
            self
        }
    }

    /// The reply to a request to end a subscription: whether the connection had it.
    pub open spec fn unsubscribed_reply(self, id: Seq<char>, subscription_id: u64) -> Seq<char> {
        result_reply(
            id,
            if self.active.contains_key(subscription_id) {
                "true"@
            } else {
                "false"@
            },
        )
    }
}

/// Enters a subscription of the connection to a signature, at the time `now_ms`.
pub fn enter_subscription(
    id: &str,
    signature: String,
    subscriptions: &mut Subscriptions,
    connection: &mut Connection,
    next_id: &mut u64,
    now_ms: u64,
) -> (reply: String)
    ensures
        session(*final(subscriptions), *final(connection), *final(next_id)) == session(
            *old(subscriptions),
            *old(connection),
            *old(next_id),
        ).subscribed(signature@, now_ms),
        reply@ == session(*old(subscriptions), *old(connection), *old(next_id)).subscribed_reply(
            id@,
            signature@,
        ),
{
    let ghost before = session(*subscriptions, *connection, *next_id);
    let subscription_id = *next_id;
    let subscription = Subscription {
        client_timestamp_ms: now_ms,
        rpc_received_ms: now_ms,
        websocket: Some(WebsocketSubscription { id: subscription_id, sender: connection.number }),
    };
    if subscribe(subscriptions, signature.clone(), subscription) {
        *next_id = subscription_id.wrapping_add(1);
        let _ = connection.active_subscriptions.insert(subscription_id, signature);
        assert(session(*subscriptions, *connection, *next_id) =~= before.subscribed(
            signature@,
            now_ms,
        ));
        send_result(id, decimal_text(subscription_id).as_str())
    } else {
        send_error(id, &Error::invalid_request("Transaction already subscribed"))
    }
}

/// Ends a subscription of the connection.
pub fn end_subscription(
    id: &str,
    subscription_id: u64,
    subscriptions: &mut Subscriptions,
    connection: &mut Connection,
) -> (reply: String)
    ensures
        forall|next_id: u64| #[trigger]
            session(*final(subscriptions), *final(connection), next_id) == session(
                *old(subscriptions),
                *old(connection),
                next_id,
            ).unsubscribed(subscription_id),
        forall|next_id: u64|
            reply@ == (#[trigger] session(
                *old(subscriptions),
                *old(connection),
                next_id,
            )).unsubscribed_reply(id@, subscription_id),
{
    let ghost table = held(*subscriptions);
    let ghost active = active_view(connection.active_subscriptions@);
    match connection.active_subscriptions.remove(&subscription_id) {
        Some(signature) => {
            map_remove_if_websocket(subscriptions, signature.as_str(), subscription_id);
            assert(active_view(connection.active_subscriptions@) =~= active.remove(
                subscription_id,
            ));
            send_result(id, "true")
        },
        None => {
            assert(active_view(connection.active_subscriptions@) =~= active);
            send_result(id, "false")
        },
    }
}

/// Whether the table's entry of a signature is one of the listed websocket subscriptions.
pub open spec fn is_listed(
    table: Map<Seq<char>, Subscription>,
    active: Map<u64, Seq<char>>,
    signature: Seq<char>,
) -> bool {
    &&& table.contains_key(signature)
    &&& table[signature].websocket is Some
    &&& active.contains_key(table[signature].websocket->0.id)
    &&& active[table[signature].websocket->0.id] == signature
}

/// The table without the listed websocket subscriptions.
pub open spec fn without_listed(
    table: Map<Seq<char>, Subscription>,
    active: Map<u64, Seq<char>>,
) -> Map<Seq<char>, Subscription> {
    table.remove_keys(Set::new(|signature: Seq<char>| is_listed(table, active, signature)))
}

proof fn lemma_remove_another(
    table: Map<Seq<char>, Subscription>,
    active: Map<u64, Seq<char>>,
    visited: Set<u64>,
    id: u64,
)
    requires
        active.contains_key(id),
    ensures
        without_websocket(without_listed(table, active.restrict(visited)), active[id], id)
            == without_listed(table, active.restrict(visited.insert(id))),
{
    let before = active.restrict(visited);
    let after = active.restrict(visited.insert(id));
    let left = without_websocket(without_listed(table, before), active[id], id);
    let right = without_listed(table, after);
    assert forall|signature: Seq<char>| #[trigger] left.contains_key(signature)
        <==> right.contains_key(signature) by {
        assert(is_listed(table, after, signature) <==> is_listed(table, before, signature) || (
        table.contains_key(signature) && signature == active[id]
            && crate::subscriptions::has_websocket_id(table[signature], id)));
    }
    assert(left =~= right);
}

/// Ends the subscriptions of a connection that was closed. A subscription that was used up, and
/// whose signature was then subscribed to by another client, is not one of them.
pub fn cleanup_connection(
    subscriptions: &mut Subscriptions,
    active_subscriptions: HashMap<u64, String>,
)
    ensures
        held(*final(subscriptions)) == without_listed(
            held(*old(subscriptions)),
            active_view(active_subscriptions@),
        ),
{
    let ghost table = held(*subscriptions);
    let ghost active = active_view(active_subscriptions@);
    let ghost ids = vstd::std_specs::iter::IteratorSpec::remaining(
        &vstd::std_specs::hash::spec_keys_iter(&active_subscriptions),
    ).unref();
    assert(without_listed(table, active.restrict(ids.take(0).to_set())) =~= table);
    for subscription_id in keys: active_subscriptions.keys()
        invariant
            keys.seq().unref() == ids,
            active == active_view(active_subscriptions@),
            ids.to_set() == active_subscriptions@.dom(),
            held(*subscriptions) == without_listed(
                table,
                active.restrict(ids.take(keys.index() as int).to_set()),
            ),
    {
        let ghost index = keys.index() as int;
        let ghost visited = ids.take(index).to_set();
        assert(ids[index] == *subscription_id);
        assert(ids.to_set().contains(*subscription_id));
        match active_subscriptions.get(subscription_id) {
            Some(signature) => {
                proof {
                    lemma_remove_another(table, active, visited, *subscription_id);
                }
                map_remove_if_websocket(subscriptions, signature.as_str(), *subscription_id);
            },
            None => {},
        }
        assert(ids.take(index + 1).to_set() =~= visited.insert(*subscription_id)) by {
            assert(ids.take(index + 1) =~= ids.take(index).push(*subscription_id));
            ids.take(index).lemma_push_to_set_commute(*subscription_id);
        }
    }
    assert(ids.take(ids.len() as int) =~= ids);
    assert(active.restrict(ids.to_set()) =~= active);
}

/// What a request to subscribe says of the commitment that it asks for.
#[derive(Debug)]
pub enum Commitment {
    /// Nothing.
    Absent,
    /// Something that is not a commitment.
    Malformed,
    Level(String),
}

/// What is said of a commitment.
pub ghost enum CommitmentView {
    Absent,
    Malformed,
    Level(Seq<char>),
}

impl View for Commitment {
    type V = CommitmentView;

    open spec fn view(&self) -> CommitmentView {
        match *self {
            Commitment::Absent => CommitmentView::Absent,
            Commitment::Malformed => CommitmentView::Malformed,
            Commitment::Level(level) => CommitmentView::Level(level@),
        }
    }
}

/// The commitment that a value names: none where it is null.
pub open spec fn named_commitment(value: Option<JsonView>) -> CommitmentView {
    match value {
        Some(JsonView::Null) => CommitmentView::Absent,
        Some(JsonView::Text(level)) => CommitmentView::Level(level),
        _ => CommitmentView::Malformed,
    }
}

/// The commitment of a configuration: its member `commitment`, or its only item.
pub open spec fn configured_commitment(config: JsonView) -> CommitmentView {
    match config {
        JsonView::Object(members) => if members.contains_key("commitment"@) {
            named_commitment(json_of(members["commitment"@]))
        } else {
            CommitmentView::Absent
        },
        JsonView::Array(items) => if items.len() == 1 {
            named_commitment(json_of(items[0]))
        } else {
            CommitmentView::Malformed
        },
        _ => CommitmentView::Malformed,
    }
}

/// The commitment of the second parameter, which may be null.
pub open spec fn second_param_commitment(param: Option<JsonView>) -> CommitmentView {
    match param {
        Some(JsonView::Null) => CommitmentView::Absent,
        Some(config) => configured_commitment(config),
        None => CommitmentView::Malformed,
    }
}

/// Reads the commitment that a value names.
pub fn name_commitment(value: Option<Json>) -> (commitment: Commitment)
    ensures
        commitment@ == named_commitment(json_option_view(value)),
{
    match value {
        Some(Json::Null) => Commitment::Absent,
        Some(Json::Text(level)) => Commitment::Level(level),
        _ => Commitment::Malformed,
    }
}

fn read_commitment(param: Option<Json>) -> (commitment: Commitment)
    ensures
        commitment@ == second_param_commitment(json_option_view(param)),
{
    match param {
        Some(Json::Null) => Commitment::Absent,
        Some(config) => match config.member_text("commitment") {
            Some(text) => name_commitment(parse_json(text.as_str())),
            None => match &config {
                Json::Object(_) => Commitment::Absent,
                Json::Array(items) => if items.len() == 1 {
                    name_commitment(parse_json(items[0].as_str()))
                } else {
                    Commitment::Malformed
                },
                _ => Commitment::Malformed,
            },
        },
        None => Commitment::Malformed,
    }
}

/// Whether clients may ask for the commitment; all of them are served alike.
pub open spec fn is_supported(level: Seq<char>) -> bool {
    level == "processed"@ || level == "confirmed"@ || level == "finalized"@
}

/// The signature to subscribe to, where the first parameter is a string, `valid` as a signature,
/// and the commitment is one that clients may ask for.
pub open spec fn judged_subscription(
    first: Option<JsonView>,
    valid: bool,
    commitment: CommitmentView,
) -> Result<Seq<char>, ErrorView> {
    match first {
        Some(JsonView::Text(signature)) => if !valid {
            Err(invalid_params("Invalid transaction signature"@))
        } else {
            match commitment {
                CommitmentView::Absent => Ok(signature),
                CommitmentView::Malformed => Err(invalid_params("Invalid commitment config"@)),
                CommitmentView::Level(level) => if is_supported(level) {
                    Ok(signature)
                } else {
                    Err(invalid_params("Unsupported commitment level"@))
                },
            }
        },
        _ => Err(invalid_params("Signature parameter must be a string"@)),
    }
}

pub open spec fn text_result_view(result: Result<String, Error>) -> Result<Seq<char>, ErrorView> {
    match result {
        Ok(text) => Ok(text@),
        Err(error) => Err(error@),
    }
}

/// Judges the parameters of a request to subscribe.
pub fn judge_subscription(first: Option<Json>, valid: bool, commitment: Commitment) -> (judged:
    Result<String, Error>)
    ensures
        text_result_view(judged) == judged_subscription(json_option_view(first), valid, commitment@),
{
    let signature = match first {
        Some(Json::Text(signature)) => signature,
        _ => {
            return Err(Error::invalid_params("Signature parameter must be a string"));
        },
    };
    if !valid {
        return Err(Error::invalid_params("Invalid transaction signature"));
    }
    match commitment {
        Commitment::Absent => Ok(signature),
        Commitment::Malformed => Err(Error::invalid_params("Invalid commitment config")),
        Commitment::Level(level) => {
            let level = level.as_str();
            if same_text(level, "processed") || same_text(level, "confirmed") || same_text(
                level,
                "finalized",
            ) {
                Ok(signature)
            } else {
                Err(Error::invalid_params("Unsupported commitment level"))
            }
        },
    }
}

/// The signature that the parameters of `signatureSubscribe` ask for.
pub open spec fn subscribe_params(params: JsonView) -> Result<Seq<char>, ErrorView> {
    match params {
        JsonView::Array(items) => if items.len() == 0 {
            Err(invalid_params("signatureSubscribe requires signature parameter"@))
        } else if items.len() > 2 {
            Err(invalid_params("Too many parameters"@))
        } else {
            let first = json_of(items[0]);
            judged_subscription(
                first,
                as_string(first) is Some && signature_bytes(as_string(first)->0) is Some,
                if items.len() == 2 {
                    second_param_commitment(json_of(items[1]))
                } else {
                    CommitmentView::Absent
                },
            )
        },
        JsonView::Null => Err(
            invalid_params("signatureSubscribe requires signature parameter"@),
        ),
        _ => Err(invalid_params("Params must be an array"@)),
    }
}

fn read_subscribe_params(params: &Json) -> (signature: Result<String, Error>)
    ensures
        text_result_view(signature) == subscribe_params(params@),
{
    let items = match params {
        Json::Array(items) => items,
        Json::Null => {
            return Err(Error::invalid_params("signatureSubscribe requires signature parameter"));
        },
        _ => {
            return Err(Error::invalid_params("Params must be an array"));
        },
    };
    if items.len() == 0 {
        return Err(Error::invalid_params("signatureSubscribe requires signature parameter"));
    }
    if items.len() > 2 {
        return Err(Error::invalid_params("Too many parameters"));
    }
    let first = parse_json(items[0].as_str());
    let valid = match &first {
        Some(Json::Text(signature)) => is_signature(signature.as_str()),
        _ => false,
    };
    let commitment = if items.len() == 2 {
        read_commitment(parse_json(items[1].as_str()))
    } else {
        Commitment::Absent
    };
    judge_subscription(first, valid, commitment)
}

/// The number of the subscription that the parameters of `signatureUnsubscribe` ask to end.
pub open spec fn unsubscribe_params(params: JsonView) -> Result<u64, ErrorView> {
    match params {
        JsonView::Array(items) => if items.len() != 1 {
            Err(invalid_params("signatureUnsubscribe requires the subscription id"@))
        } else {
            match json_of(items[0]) {
                Some(JsonView::Number(Some(subscription_id))) => Ok(subscription_id),
                _ => Err(invalid_params("Subscription id must be an unsigned integer"@)),
            }
        },
        _ => Err(invalid_params("Params must be an array"@)),
    }
}

fn read_unsubscribe_params(params: &Json) -> (subscription_id: Result<u64, Error>)
    ensures
        match subscription_id {
            Ok(id) => unsubscribe_params(params@) == Ok::<u64, ErrorView>(id),
            Err(error) => unsubscribe_params(params@) == Err::<u64, ErrorView>(error@),
        },
{
    let items = match params {
        Json::Array(items) => items,
        _ => {
            return Err(Error::invalid_params("Params must be an array"));
        },
    };
    if items.len() != 1 {
        return Err(Error::invalid_params("signatureUnsubscribe requires the subscription id"));
    }
    match parse_json(items[0].as_str()) {
        Some(Json::Number(Some(subscription_id))) => Ok(subscription_id),
        _ => Err(Error::invalid_params("Subscription id must be an unsigned integer")),
    }
}

impl Session {
    /// The session after a request `signatureSubscribe`, and the reply to it.
    pub open spec fn after_subscribe(self, id: Seq<char>, params: JsonView, now_ms: u64) -> (
        Session,
        Seq<char>,
    ) {
        match subscribe_params(params) {
            Ok(signature) => (
                self.subscribed(signature, now_ms),
                self.subscribed_reply(id, signature),
            ),
            Err(error) => (self, error_reply(id, error)),
        }
    }

    /// The session after a request `signatureUnsubscribe`, and the reply to it.
    pub open spec fn after_unsubscribe(self, id: Seq<char>, params: JsonView) -> (
        Session,
        Seq<char>,
    ) {
        match unsubscribe_params(params) {
            Ok(subscription_id) => (
                self.unsubscribed(subscription_id),
                self.unsubscribed_reply(id, subscription_id),
            ),
            Err(error) => (self, error_reply(id, error)),
        }
    }

    /// The session after a request with that method and parameters, and the reply to it.
    pub open spec fn after_call(
        self,
        id: Seq<char>,
        method: Seq<char>,
        params: JsonView,
        now_ms: u64,
    ) -> (Session, Seq<char>) {
        if method == "signatureSubscribe"@ {
            self.after_subscribe(id, params, now_ms)
        } else if method == "signatureUnsubscribe"@ {
            self.after_unsubscribe(id, params)
        } else {
            (
                self,
                error_reply(
                    id,
                    ErrorView { code: ErrorCode::MethodNotFound, message: "Method not found"@ },
                ),
            )
        }
    }

    /// The session after a message that is that JSON value, if any, and the reply to it.
    pub open spec fn after_message(self, message: Option<JsonView>, now_ms: u64) -> (
        Session,
        Seq<char>,
    ) {
        match message {
            Some(request) => match call_of(request) {
                Ok((method, params)) => self.after_call(
                    message_id(message),
                    method,
                    params,
                    now_ms,
                ),
                Err(error) => (self, error_reply(message_id(message), error)),
            },
            None => (
                self,
                error_reply(
                    message_id(message),
                    ErrorView { code: ErrorCode::ParseError, message: "Invalid JSON"@ },
                ),
            ),
        }
    }
}

/// The id of a message, as a JSON text; null where it has none, or is not JSON.
pub open spec fn message_id(message: Option<JsonView>) -> Seq<char> {
    if message is Some && message->0.member_text("id"@) is Some {
        message->0.member_text("id"@)->0
    } else {
        "null"@
    }
}

/// The method that a request calls, and its parameters; null where it has none.
pub open spec fn call_of(request: JsonView) -> Result<(Seq<char>, JsonView), ErrorView> {
    if as_string(request.member("jsonrpc"@)) != Some("2.0"@) {
        Err(invalid_request("jsonrpc must be \"2.0\""@))
    } else {
        match as_string(request.member("method"@)) {
            Some(method) => Ok(
                (
                    method,
                    match request.member("params"@) {
                        Some(params) => params,
                        None => JsonView::Null,
                    },
                ),
            ),
            None => Err(invalid_request("Missing method"@)),
        }
    }
}

/// Handles a request `signatureSubscribe` at the time `now_ms`.
pub fn handle_signature_subscribe(
    id: &str,
    params: &Json,
    subscriptions: &mut Subscriptions,
    connection: &mut Connection,
    next_id: &mut u64,
    now_ms: u64,
) -> (reply: String)
    ensures
        (session(*final(subscriptions), *final(connection), *final(next_id)), reply@) == session(
            *old(subscriptions),
            *old(connection),
            *old(next_id),
        ).after_subscribe(id@, params@, now_ms),
{
    match read_subscribe_params(params) {
        Ok(signature) => enter_subscription(
            id,
            signature,
            subscriptions,
            connection,
            next_id,
            now_ms,
        ),
        Err(error) => send_error(id, &error),
    }
}

/// Handles a request `signatureUnsubscribe`.
pub fn handle_signature_unsubscribe(
    id: &str,
    params: &Json,
    subscriptions: &mut Subscriptions,
    connection: &mut Connection,
) -> (reply: String)
    ensures
        forall|next_id: u64|
            (#[trigger] session(*final(subscriptions), *final(connection), next_id), reply@)
                == session(*old(subscriptions), *old(connection), next_id).after_unsubscribe(
                id@,
                params@,
            ),
{
    match read_unsubscribe_params(params) {
        Ok(subscription_id) => end_subscription(id, subscription_id, subscriptions, connection),
        Err(error) => send_error(id, &error),
    }
}

/// Handles a message that is that JSON value, if any, at the time `now_ms`.
pub fn handle_request(
    message: Option<Json>,
    subscriptions: &mut Subscriptions,
    connection: &mut Connection,
    next_id: &mut u64,
    now_ms: u64,
) -> (reply: String)
    ensures
        (session(*final(subscriptions), *final(connection), *final(next_id)), reply@) == session(
            *old(subscriptions),
            *old(connection),
            *old(next_id),
        ).after_message(json_option_view(message), now_ms),
{
    let request = match message {
        Some(request) => request,
        None => {
            return send_error("null", &Error::new(ErrorCode::ParseError, "Invalid JSON"));
        },
    };
    let id = match request.member_text("id") {
        Some(id) => id,
        None => "null".to_owned(),
    };
    let version = into_string(request.member("jsonrpc"));
    let known = match &version {
        Some(version) => same_text(version.as_str(), "2.0"),
        None => false,
    };
    if !known {
        return send_error(
            id.as_str(),
            &Error::invalid_request("jsonrpc must be \"2.0\""),
        );
    }
    let method = match into_string(request.member("method")) {
        Some(method) => method,
        None => {
            return send_error(id.as_str(), &Error::invalid_request("Missing method"));
        },
    };
    let params = match request.member("params") {
        Some(params) => params,
        None => Json::Null,
    };
    if same_text(method.as_str(), "signatureSubscribe") {
        handle_signature_subscribe(
            id.as_str(),
            &params,
            subscriptions,
            connection,
            next_id,
            now_ms,
        )
    } else if same_text(method.as_str(), "signatureUnsubscribe") {
        handle_signature_unsubscribe(id.as_str(), &params, subscriptions, connection)
    } else {
        send_error(id.as_str(), &Error::new(ErrorCode::MethodNotFound, "Method not found"))
    }
}

/// Handles the text of a message.
pub fn handle_json_message(
    payload: &str,
    subscriptions: &mut Subscriptions,
    connection: &mut Connection,
    next_id: &mut u64,
) -> (reply: String)
    ensures
        exists|now_ms: u64|
            (session(*final(subscriptions), *final(connection), *final(next_id)), reply@)
                == #[trigger] session(
                *old(subscriptions),
                *old(connection),
                *old(next_id),
            ).after_message(json_of(payload@), now_ms) && is_time_ms(now_ms),
        forall|signature: Seq<char>| #[trigger]
            held(*final(subscriptions)).contains_key(signature) && !held(
                *old(subscriptions),
            ).contains_key(signature) ==> is_time_ms(
                held(*final(subscriptions))[signature].client_timestamp_ms,
            ) && is_time_ms(held(*final(subscriptions))[signature].rpc_received_ms),
{
    let now_ms = current_timestamp_ms();
    handle_request(parse_json(payload), subscriptions, connection, next_id, now_ms)
}

/// What comes in over a websocket connection.
#[derive(Debug)]
pub enum Incoming {
    Text(String),
    Binary,
    Ping(Vec<u8>),
    Pong,
    /// The client closes the connection.
    Close,
    /// A frame of another kind.
    Other,
    /// Reading failed.
    Failed,
}

/// What goes out over a websocket connection.
#[derive(Debug)]
pub enum Outgoing {
    Nothing,
    Text(String),
    Pong(Vec<u8>),
    /// The connection ends.
    Close,
}

/// The reply to a binary message.
pub open spec fn binary_reply() -> Seq<char> {
    error_reply("null"@, invalid_request("Binary messages are not supported"@))
}

/// What goes out in answer to what came in, and the session after it.
pub open spec fn answers(
    before: Session,
    incoming: Incoming,
    after: Session,
    outgoing: Outgoing,
) -> bool {
    match incoming {
        Incoming::Text(payload) => exists|now_ms: u64|
            {
                &&& outgoing is Text
                &&& (after, outgoing->Text_0@) == #[trigger] before.after_message(
                    json_of(payload@),
                    now_ms,
                )
                &&& is_time_ms(now_ms)
            },
        Incoming::Binary => after == before && outgoing is Text && outgoing->Text_0@
            == binary_reply(),
        Incoming::Ping(payload) => after == before && outgoing == Outgoing::Pong(payload),
        Incoming::Pong | Incoming::Other => after == before && outgoing is Nothing,
        Incoming::Close | Incoming::Failed => after == before && outgoing is Close,
    }
}

impl Connection {
    /// A connection without subscriptions.
    pub fn new(number: u64) -> (connection: Connection)
        ensures
            connection.number == number,
            connection.active_subscriptions@ == Map::<u64, String>::empty(),
    {
        Connection { number, active_subscriptions: HashMap::new() }
    }

    /// Answers what came in over the connection.
    pub fn handle_incoming(
        &mut self,
        incoming: Incoming,
        subscriptions: &mut Subscriptions,
        next_id: &mut u64,
    ) -> (outgoing: Outgoing)
        ensures
            answers(
                session(*old(subscriptions), *old(self), *old(next_id)),
                incoming,
                session(*final(subscriptions), *final(self), *final(next_id)),
                outgoing,
            ),
    {
        match incoming {
            Incoming::Text(payload) => Outgoing::Text(
                handle_json_message(payload.as_str(), subscriptions, self, next_id),
            ),
            Incoming::Binary => Outgoing::Text(
                send_error(
                    "null",
                    &Error::invalid_request("Binary messages are not supported"),
                ),
            ),
            Incoming::Ping(payload) => Outgoing::Pong(payload),
            Incoming::Pong | Incoming::Other => Outgoing::Nothing,
            Incoming::Close | Incoming::Failed => Outgoing::Close,
        }
    }

    /// Ends the subscriptions of the connection when it is closed.
    pub fn close(self, subscriptions: &mut Subscriptions)
        ensures
            held(*final(subscriptions)) == without_listed(
                held(*old(subscriptions)),
                active_view(self.active_subscriptions@),
            ),
    {
        cleanup_connection(subscriptions, self.active_subscriptions)
    }
}

/// The notification of a websocket client that a transaction was observed in a slot.
pub open spec fn signature_notification(subscription_id: u64, slot: u64) -> Seq<char> {
    "{\"jsonrpc\":\"2.0\",\"method\":\"signatureNotification\",\"params\":{\"result\":{\"context\":{\"slot\":"@
        + decimal(slot as nat) + "},\"value\":{\"err\":null}},\"subscription\":"@ + decimal(
        subscription_id as nat,
    ) + "}}"@
}

impl Found {
    /// The notification of the websocket client that waits for the transaction, if one does: the
    /// number of its connection, and the text.
    pub fn notification(&self) -> (notification: Option<(u64, String)>)
        ensures
            match notification {
                Some((connection, text)) => {
                    &&& self.websocket is Some
                    &&& connection == self.websocket->0.sender
                    &&& text@ == signature_notification(self.websocket->0.id, self.slot)
                },
                None => self.websocket is None,
            },
    {
        match self.websocket {
            Some(websocket) => {
                let mut text =
                    "{\"jsonrpc\":\"2.0\",\"method\":\"signatureNotification\",\"params\":{\"result\":{\"context\":{\"slot\":".to_owned();
                text.append(decimal_text(self.slot).as_str());
                text.append("},\"value\":{\"err\":null}},\"subscription\":");
                text.append(decimal_text(websocket.id).as_str());
                text.append("}}");
                Some((websocket.sender, text))
            },
            None => None,
        }
    }
}

/// The connections of the server: how many are open, how many may be, and the number of the next.
#[derive(Debug)]
pub struct Connections {
    active: usize,
    max_connections: usize,
    next_number: u64,
}

impl Connections {
    /// How many connections are open.
    pub closed spec fn active(self) -> usize {
        self.active
    }

    /// How many connections may be open.
    pub closed spec fn max_connections(self) -> usize {
        self.max_connections
    }

    /// The number that the next connection gets.
    pub closed spec fn next_number(self) -> u64 {
        self.next_number
    }

    /// No more connections are open than may be.
    pub open spec fn well_formed(self) -> bool {
        self.active() <= self.max_connections()
    }

    /// No connection is open.
    pub fn new(max_connections: usize) -> (connections: Connections)
        ensures
            connections.active() == 0,
            connections.max_connections() == max_connections,
            connections.next_number() == 0,
            connections.well_formed(),
    {
        Connections { active: 0, max_connections, next_number: 0 }
    }

    /// Accepts another connection, without subscriptions and under the next number, unless as many
    /// as may be are open.
    pub fn accept(&mut self) -> (connection: Option<Connection>)
        requires
            old(self).well_formed(),
        ensures
            connection is Some <==> old(self).active() < old(self).max_connections(),
            match connection {
                Some(connection) => {
                    &&& connection.number == old(self).next_number()
                    &&& connection.active_subscriptions@ == Map::<u64, String>::empty()
                    &&& final(self).active() == old(self).active() + 1
                    &&& final(self).next_number() == id_after(old(self).next_number())
                },
                None => *final(self) == *old(self),
            },
            final(self).max_connections() == old(self).max_connections(),
            final(self).well_formed(),
    {
        if self.active >= self.max_connections {
            return None;
        }
        self.active += 1;
        let number = self.next_number;
        self.next_number = number.wrapping_add(1);
        Some(Connection::new(number))
    }

    /// Takes note that a connection is closed.
    pub fn release(&mut self)
        requires
            old(self).well_formed(),
            old(self).active() > 0,
        ensures
            final(self).active() == old(self).active() - 1,
            final(self).max_connections() == old(self).max_connections(),
            final(self).next_number() == old(self).next_number(),
            final(self).well_formed(),
    {
        self.active -= 1;
    }
}

} // verus!
