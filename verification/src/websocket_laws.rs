//! What holds of websocket sessions over any number of messages.
use crate::clock::{given_times_tell_the_time, is_time_ms, tells_the_time};
use crate::json::{json_of, json_option_view, json_string, Json, JsonView};
use crate::jsonrpc::{
    error_reply, errors_are_json_rpc_objects, invalid_request, lemma_object_text, member_as_text,
    object_text, result_reply, results_are_json_rpc_objects, ErrorCode, ErrorView,
};
use crate::rpc::{RpcView, SubscribeRequestView, LEAST_TIMESTAMP_MS};
use crate::scan::{report, reports, subscribed_transactions_are_reported, unmatched, Found};
use crate::signature::signature_bytes;
use crate::subscriptions::{
    has_websocket_id, held, subscribe, Subscription, Subscriptions, WebsocketSubscription,
};
use crate::text::{decimal, signed_decimal};
use crate::websocket::{
    active_view, answers, call_of, handle_json_message, handle_request, id_after, is_listed,
    message_id, session, signature_notification, subscribe_params, unsubscribe_params,
    without_listed, Connection, Connections, Incoming, Outgoing, Session,
};
use vstd::prelude::*;

verus! {

/// Whether a connection knows its subscriptions: the table's entries that notify it are listed,
/// and what is listed notifies no other connection.
pub open spec fn knows_its_own(
    table: Map<Seq<char>, Subscription>,
    number: u64,
    active: Map<u64, Seq<char>>,
) -> bool {
    forall|signature: Seq<char>| #[trigger]
        table.contains_key(signature) && table[signature].websocket is Some ==> (
        table[signature].websocket->0.sender == number <==> is_listed(table, active, signature))
}

/// Whether every number of a subscription has been given out, and none will be again.
pub open spec fn numbers_given_out(session: Session) -> bool {
    &&& forall|signature: Seq<char>| #[trigger]
        session.table.contains_key(signature) && session.table[signature].websocket is Some
            ==> session.table[signature].websocket->0.id < session.next_id
    &&& forall|id: u64| #[trigger] session.active.contains_key(id) ==> id < session.next_id
}

impl Session {
    /// The connection knows its subscriptions, and the numbers that were given out are known.
    pub open spec fn well_formed(self) -> bool {
        &&& knows_its_own(self.table, self.number, self.active)
        &&& numbers_given_out(self)
    }
}

proof fn lemma_replies_differ(id: Seq<char>, error: ErrorView, result: Seq<char>)
    ensures
        error_reply(id, error) != result_reply(id, result),
{
    reveal_strlit("{\"error\":{\"code\":");
    reveal_strlit("{\"id\":");
    assert(error_reply(id, error)[2] == 'e');
    assert(result_reply(id, result)[2] == 'i');
}

/// The id that a message asks to be answered under: the text of its member `id`, whatever JSON value
/// that is, or else null.
pub open spec fn asked_id(message: Option<JsonView>) -> Seq<char> {
    match message {
        Some(JsonView::Object(members)) => if members.contains_key("id"@) {
            members["id"@]
        } else {
            "null"@
        },
        _ => "null"@,
    }
}

/// The JSON object of an id, the version and a result.
pub open spec fn result_object(id: Seq<char>, result: Seq<char>) -> Seq<char> {
    object_text(seq![("id"@, id), ("jsonrpc"@, "\"2.0\""@), ("result"@, result)])
}

/// The JSON object of an error, an id and the version.
pub open spec fn error_object(id: Seq<char>, error: Seq<char>) -> Seq<char> {
    object_text(seq![("error"@, error), ("id"@, id), ("jsonrpc"@, "\"2.0\""@)])
}

/// A message that is a JSON object with a member `id` is answered under exactly that, whatever JSON
/// value it is, and any other message under null: the reply is the JSON-RPC object of a result or of
/// an error with that id.
pub proof fn replies_carry_the_member_id(
    session: Session,
    message: Option<JsonView>,
    now_ms: u64,
)
    ensures
        ({
            let reply = session.after_message(message, now_ms).1;
            ||| exists|result: Seq<char>|
                reply == #[trigger] result_object(asked_id(message), result)
            ||| exists|error: Seq<char>|
                reply == #[trigger] error_object(asked_id(message), error)
        }),
{
    let reply = session.after_message(message, now_ms).1;
    assert(message_id(message) == asked_id(message));
    replies_carry_the_id(session, message, now_ms);
    if exists|result: Seq<char>| reply == #[trigger] result_reply(message_id(message), result) {
        let result = choose|result: Seq<char>|
            reply == #[trigger] result_reply(message_id(message), result);
        results_are_json_rpc_objects(message_id(message), result);
        assert(reply == result_object(asked_id(message), result));
    } else {
        let error = choose|error: ErrorView|
            reply == #[trigger] error_reply(message_id(message), error);
        errors_are_json_rpc_objects(message_id(message), error);
        let inner = object_text(
            seq![
                ("code"@, signed_decimal(error.code.number())),
                ("message"@, json_string(error.message)),
            ],
        );
        assert(reply == error_object(asked_id(message), inner));
    }
}

/// Every reply carries the id of its request, or null where the request has none or is not JSON.
pub proof fn replies_carry_the_id(session: Session, message: Option<JsonView>, now_ms: u64)
    ensures
        ({
            let reply = session.after_message(message, now_ms).1;
            ||| exists|result: Seq<char>|
                reply == #[trigger] result_reply(message_id(message), result)
            ||| exists|error: ErrorView| reply == #[trigger] error_reply(message_id(message), error)
        }),
{
    let id = message_id(message);
    let reply = session.after_message(message, now_ms).1;
    if message is Some {
        if let Ok((method, params)) = call_of(message->0) {
            if method == "signatureSubscribe"@ {
                if let Ok(signature) = subscribe_params(params) {
                    assert(reply == session.subscribed_reply(id, signature));
                }
            } else if method == "signatureUnsubscribe"@ {
                if let Ok(subscription_id) = unsubscribe_params(params) {
                    if session.active.contains_key(subscription_id) {
                        assert(reply == result_reply(id, "true"@));
                    } else {
                        assert(reply == result_reply(id, "false"@));
                    }
                }
            }
        }
    }
}

/// A request that is answered by an error leaves everything as it was.
pub proof fn refusals_change_nothing(
    session: Session,
    message: Option<JsonView>,
    now_ms: u64,
    error: ErrorView,
)
    requires
        session.after_message(message, now_ms).1 == error_reply(message_id(message), error),
    ensures
        session.after_message(message, now_ms).0 == session,
{
    if message is Some {
        let id = message_id(message);
        if let Ok((method, params)) = call_of(message->0) {
            if method == "signatureSubscribe"@ {
                if let Ok(signature) = subscribe_params(params) {
                    lemma_replies_differ(id, error, decimal(session.next_id as nat));
                }
            } else if method == "signatureUnsubscribe"@ {
                if let Ok(subscription_id) = unsubscribe_params(params) {
                    lemma_replies_differ(id, error, "true"@);
                    lemma_replies_differ(id, error, "false"@);
                }
            }
        }
    }
}

/// A signature is subscribed to once: a second request is refused, whoever made the first, and
/// changes nothing.
pub proof fn signatures_are_subscribed_once(
    session: Session,
    signature: Seq<char>,
    now_ms: u64,
    id: Seq<char>,
    later_ms: u64,
)
    ensures
        ({
            let once = session.subscribed(signature, now_ms);
            &&& once.table.contains_key(signature)
            &&& once.subscribed(signature, later_ms) == once
            &&& once.subscribed_reply(id, signature) == error_reply(
                id,
                invalid_request("Transaction already subscribed"@),
            )
        }),
{
}

/// To end a subscription undoes it: nothing of it remains but that its number was given out.
pub proof fn unsubscribing_undoes_subscribing(session: Session, signature: Seq<char>, now_ms: u64)
    requires
        !session.active.contains_key(session.next_id),
        !session.table.contains_key(signature),
    ensures
        ({
            let after = session.subscribed(signature, now_ms).unsubscribed(session.next_id);
            &&& after.table == session.table
            &&& after.active == session.active
        }),
{
    let during = session.subscribed(signature, now_ms);
    let after = during.unsubscribed(session.next_id);
    assert(during.active[session.next_id] == signature);
    assert(after.table =~= session.table);
    assert(after.active =~= session.active);
}

/// A session stays well-formed whatever message arrives, and the numbers of subscriptions only
/// grow, as long as there are numbers left.
pub proof fn sessions_stay_well_formed(
    session: Session,
    message: Option<JsonView>,
    now_ms: u64,
)
    requires
        session.well_formed(),
        session.next_id < u64::MAX,
    ensures
        session.after_message(message, now_ms).0.well_formed(),
        session.after_message(message, now_ms).0.next_id >= session.next_id,
{
    let after = session.after_message(message, now_ms).0;
    if message is Some {
        if let Ok((method, params)) = call_of(message->0) {
            if method == "signatureSubscribe"@ {
                if let Ok(signature) = subscribe_params(params) {
                    lemma_subscribed_well_formed(session, signature, now_ms);
                }
            } else if method == "signatureUnsubscribe"@ {
                if let Ok(subscription_id) = unsubscribe_params(params) {
                    lemma_unsubscribed_well_formed(session, subscription_id);
                }
            }
        }
    }
}

proof fn lemma_subscribed_well_formed(session: Session, signature: Seq<char>, now_ms: u64)
    requires
        session.well_formed(),
        session.next_id < u64::MAX,
    ensures
        session.subscribed(signature, now_ms).well_formed(),
{
    let after = session.subscribed(signature, now_ms);
    if !session.table.contains_key(signature) {
        assert forall|s: Seq<char>| #[trigger]
            after.table.contains_key(s) && after.table[s].websocket is Some implies (
        after.table[s].websocket->0.sender == session.number <==> is_listed(
            after.table,
            after.active,
            s,
        )) by {
            if s != signature {
                assert(session.table.contains_key(s));
                assert(is_listed(session.table, session.active, s) <==> is_listed(
                    after.table,
                    after.active,
                    s,
                ));
            }
        }
        assert forall|s: Seq<char>| #[trigger]
            after.table.contains_key(s)
                && after.table[s].websocket is Some implies after.table[s].websocket->0.id
            < after.next_id by {
            if s != signature {
                assert(session.table.contains_key(s));
            }
        }
        assert forall|id: u64| #[trigger] after.active.contains_key(id) implies id
            < after.next_id by {
            if id != session.next_id {
                assert(session.active.contains_key(id));
            }
        }
    }
}

proof fn lemma_unsubscribed_well_formed(session: Session, subscription_id: u64)
    requires
        session.well_formed(),
    ensures
        session.unsubscribed(subscription_id).well_formed(),
{
    let after = session.unsubscribed(subscription_id);
    if session.active.contains_key(subscription_id) {
        assert forall|s: Seq<char>| #[trigger]
            after.table.contains_key(s) && after.table[s].websocket is Some implies (
        after.table[s].websocket->0.sender == session.number <==> is_listed(
            after.table,
            after.active,
            s,
        )) && after.table[s].websocket->0.id < after.next_id by {
            assert(session.table.contains_key(s));
            assert(after.table[s] == session.table[s]);
            if s == session.active[subscription_id] {
                assert(!has_websocket_id(session.table[s], subscription_id));
            }
            assert(is_listed(session.table, session.active, s) <==> is_listed(
                after.table,
                after.active,
                s,
            ));
        }
        assert forall|id: u64| #[trigger] after.active.contains_key(id) implies id
            < after.next_id by {
            assert(session.active.contains_key(id));
        }
    }
}

/// What a client does over its connection leaves alone the subscriptions of all other clients.
pub proof fn other_clients_are_left_alone(
    session: Session,
    message: Option<JsonView>,
    now_ms: u64,
    signature: Seq<char>,
)
    requires
        session.well_formed(),
        session.table.contains_key(signature),
        session.table[signature].websocket is Some
            ==> session.table[signature].websocket->0.sender != session.number,
    ensures
        session.after_message(message, now_ms).0.table.contains_key(signature),
        session.after_message(message, now_ms).0.table[signature] == session.table[signature],
{
}

/// A connection that is closed leaves no subscription behind, and takes none of another client
/// with it.
pub proof fn closed_connections_leave_nothing(session: Session, signature: Seq<char>)
    requires
        session.well_formed(),
    ensures
        ({
            let table = without_listed(session.table, session.active);
            let own = session.table[signature].websocket is Some
                && session.table[signature].websocket->0.sender == session.number;
            &&& table.contains_key(signature) <==> session.table.contains_key(signature) && !own
            &&& table.contains_key(signature) ==> table[signature] == session.table[signature]
        }),
{
    if session.table.contains_key(signature) && session.table[signature].websocket is Some {
        assert(session.table[signature].websocket->0.sender == session.number <==> is_listed(
            session.table,
            session.active,
            signature,
        ));
    }
}

/// A session stays well-formed when subscriptions of observed transactions are taken out.
pub proof fn observations_keep_sessions_well_formed(session: Session, observed: Seq<Seq<char>>)
    requires
        session.well_formed(),
    ensures
        (Session { table: unmatched(session.table, observed), ..session }).well_formed(),
{
    lemma_fewer_entries(session, unmatched(session.table, observed));
}

/// A client that subscribed to a signature over a websocket is reported for notification, under
/// the number that it was given, when the transaction is observed.
pub proof fn websocket_subscribers_are_notified(
    session: Session,
    signature: Seq<char>,
    now_ms: u64,
    observed: Seq<Seq<char>>,
    slot: u64,
    found_ms: u64,
)
    requires
        !session.table.contains_key(signature),
        observed.contains(signature),
    ensures
        ({
            let table = session.subscribed(signature, now_ms).table;
            let found = report(signature, table[signature], slot, found_ms);
            &&& reports(table, observed, slot, found_ms).contains(found)
            &&& found.websocket == Some(
                WebsocketSubscription { id: session.next_id, sender: session.number },
            )
            &&& found.slot == slot
        }),
{
    subscribed_transactions_are_reported(
        session.subscribed(signature, now_ms).table,
        observed,
        slot,
        found_ms,
        signature,
    );
}

/// Both protocols share one table: a signature that was subscribed to over either of them is
/// refused over the other, and changes nothing.
pub proof fn protocols_share_their_subscriptions(
    session: Session,
    server: RpcView,
    request: SubscribeRequestView,
    valid: bool,
    signature: Seq<char>,
    id: Seq<char>,
    now_ms: u64,
)
    ensures
        server.answer(request, valid) is Ok ==> ({
            let after = Session {
                table: server.after_request(request, valid, now_ms).table,
                ..session
            };
            &&& after.subscribed(request.tx_sig, now_ms) == after
            &&& after.subscribed_reply(id, request.tx_sig) == error_reply(
                id,
                invalid_request("Transaction already subscribed"@),
            )
        }),
        request.tx_sig == signature ==> ({
            let after = RpcView { table: session.subscribed(signature, now_ms).table, ..server };
            &&& after.answer(request, valid) is Err
            &&& request.timestamp >= LEAST_TIMESTAMP_MS && valid ==> after.answer(request, valid)
                == Err::<Seq<char>, ErrorView>(invalid_request("Transaction already subscribed"@))
            &&& after.after_request(request, valid, now_ms) == after
        }),
{
}

proof fn lemma_fewer_entries(session: Session, table: Map<Seq<char>, Subscription>)
    requires
        session.well_formed(),
        forall|signature: Seq<char>| #[trigger]
            table.contains_key(signature) ==> session.table.contains_key(signature)
                && session.table[signature] == table[signature],
    ensures
        (Session { table, ..session }).well_formed(),
{
    let after = Session { table, ..session };
    assert forall|s: Seq<char>| #[trigger]
        after.table.contains_key(s) && after.table[s].websocket is Some implies (
    after.table[s].websocket->0.sender == session.number <==> is_listed(
        after.table,
        after.active,
        s,
    )) && after.table[s].websocket->0.id < after.next_id by {
        assert(session.table.contains_key(s) && session.table[s] == table[s]);
        assert(is_listed(session.table, session.active, s) <==> is_listed(
            after.table,
            after.active,
            s,
        ));
    }
}

proof fn lemma_another_entry(
    session: Session,
    signature: Seq<char>,
    subscription: Subscription,
    next_id: u64,
)
    requires
        session.well_formed(),
        session.next_id <= next_id,
        subscription.websocket is Some ==> {
            &&& subscription.websocket->0.sender != session.number
            &&& session.next_id <= subscription.websocket->0.id < next_id
        },
    ensures
        (Session {
            table: session.table.insert(signature, subscription),
            next_id,
            ..session
        }).well_formed(),
{
    let after = Session {
        table: session.table.insert(signature, subscription),
        next_id,
        ..session
    };
    assert forall|s: Seq<char>| #[trigger]
        after.table.contains_key(s) && after.table[s].websocket is Some implies (
    after.table[s].websocket->0.sender == session.number <==> is_listed(
        after.table,
        after.active,
        s,
    )) && after.table[s].websocket->0.id < after.next_id by {
        if s != signature {
            assert(session.table.contains_key(s));
            assert(is_listed(session.table, session.active, s) <==> is_listed(
                after.table,
                after.active,
                s,
            ));
        }
    }
    assert forall|id: u64| #[trigger] after.active.contains_key(id) implies id < after.next_id by {
        assert(session.active.contains_key(id));
    }
}

/// The session of a connection stays well-formed whatever message arrives over another one.
pub proof fn messages_keep_other_sessions_well_formed(
    mine: Session,
    other: Session,
    message: Option<JsonView>,
    now_ms: u64,
)
    requires
        mine.well_formed(),
        other.well_formed(),
        mine.table == other.table,
        mine.next_id == other.next_id,
        mine.next_id < u64::MAX,
        mine.number != other.number,
    ensures
        (Session {
            table: other.after_message(message, now_ms).0.table,
            next_id: other.after_message(message, now_ms).0.next_id,
            ..mine
        }).well_formed(),
{
    let after = other.after_message(message, now_ms).0;
    if message is Some {
        if let Ok((method, params)) = call_of(message->0) {
            if method == "signatureSubscribe"@ {
                if let Ok(signature) = subscribe_params(params) {
                    if !other.table.contains_key(signature) {
                        lemma_another_entry(
                            mine,
                            signature,
                            other.next_subscription(now_ms),
                            after.next_id,
                        );
                    }
                }
            } else if method == "signatureUnsubscribe"@ {
                if let Ok(subscription_id) = unsubscribe_params(params) {
                    lemma_fewer_entries(mine, after.table);
                }
            }
        }
    }
}

/// The session of a connection stays well-formed whatever request arrives over JSON-RPC.
pub proof fn requests_keep_sessions_well_formed(
    session: Session,
    server: RpcView,
    request: SubscribeRequestView,
    valid: bool,
    now_ms: u64,
)
    requires
        session.well_formed(),
        server.table == session.table,
    ensures
        (Session {
            table: server.after_request(request, valid, now_ms).table,
            ..session
        }).well_formed(),
{
    if server.answer(request, valid) is Ok {
        lemma_another_entry(
            session,
            request.tx_sig,
            server.after_request(request, valid, now_ms).table[request.tx_sig],
            session.next_id,
        );
    }
}

/// The session of a connection stays well-formed when another one is closed.
pub proof fn closing_keeps_other_sessions_well_formed(mine: Session, other: Session)
    requires
        mine.well_formed(),
        mine.table == other.table,
    ensures
        (Session { table: without_listed(other.table, other.active), ..mine }).well_formed(),
{
    lemma_fewer_entries(mine, without_listed(other.table, other.active));
}

/// Whether every entry that notifies a connection notifies one whose number has been given out.
pub open spec fn connections_given_out(
    table: Map<Seq<char>, Subscription>,
    next_number: u64,
) -> bool {
    forall|signature: Seq<char>| #[trigger]
        table.contains_key(signature) && table[signature].websocket is Some
            ==> table[signature].websocket->0.sender < next_number
}

/// The session of a new connection, whose number has not been given out before, is well-formed;
/// `session` is that of any other connection, or of none.
pub proof fn new_connections_are_well_formed(session: Session, number: u64)
    requires
        numbers_given_out(session),
        connections_given_out(session.table, number),
    ensures
        (Session { number, active: Map::empty(), ..session }).well_formed(),
{
}

/// No entry comes to notify a connection whose number has not been given out: not by a message
/// over one whose number has, nor by a request, an observation or the end of a connection.
pub proof fn connections_stay_given_out(
    session: Session,
    server: RpcView,
    next_number: u64,
    message: Option<JsonView>,
    request: SubscribeRequestView,
    valid: bool,
    observed: Seq<Seq<char>>,
    now_ms: u64,
)
    requires
        connections_given_out(session.table, next_number),
        session.number < next_number,
        server.table == session.table,
    ensures
        connections_given_out(session.after_message(message, now_ms).0.table, next_number),
        connections_given_out(server.after_request(request, valid, now_ms).table, next_number),
        connections_given_out(unmatched(session.table, observed), next_number),
        connections_given_out(without_listed(session.table, session.active), next_number),
        next_number < u64::MAX ==> connections_given_out(session.table, id_after(next_number)),
{
    let table = session.table;
    assert forall|s: Seq<char>| #[trigger]
        session.after_message(message, now_ms).0.table.contains_key(s)
            && session.after_message(message, now_ms).0.table[s].websocket is Some implies session.after_message(
        message,
        now_ms,
    ).0.table[s].websocket->0.sender < next_number by {
        if table.contains_key(s) {
            assert(session.after_message(message, now_ms).0.table[s] == table[s]);
        }
    }
    assert forall|s: Seq<char>| #[trigger]
        server.after_request(request, valid, now_ms).table.contains_key(s)
            && server.after_request(request, valid, now_ms).table[s].websocket is Some implies server.after_request(
        request,
        valid,
        now_ms,
    ).table[s].websocket->0.sender < next_number by {
        assert(table.contains_key(s));
    }
    assert forall|s: Seq<char>| #[trigger]
        unmatched(table, observed).contains_key(s) implies table.contains_key(s) by {}
    assert forall|s: Seq<char>| #[trigger]
        without_listed(table, session.active).contains_key(s) implies table.contains_key(s) by {}
    assert forall|s: Seq<char>| #[trigger]
        table.contains_key(s) && table[s].websocket is Some && next_number
            < u64::MAX implies table[s].websocket->0.sender < id_after(next_number) by {}
}

/// Whether a message is a request of JSON-RPC 2.0: an object whose member `jsonrpc` is the string of
/// that version, and whose member `method` is that string.
pub open spec fn calls(message: Option<JsonView>, method: Seq<char>) -> bool {
    match message {
        Some(JsonView::Object(members)) => {
            &&& members.contains_key("jsonrpc"@)
            &&& json_of(members["jsonrpc"@]) == Some(JsonView::Text("2.0"@))
            &&& members.contains_key("method"@)
            &&& json_of(members["method"@]) == Some(JsonView::Text(method))
        },
        _ => false,
    }
}

/// The parameters of a request: its member `params`, or null where it has none that is JSON.
pub open spec fn params_of(message: Option<JsonView>) -> JsonView {
    match message {
        Some(JsonView::Object(members)) => if members.contains_key("params"@) && json_of(
            members["params"@],
        ) is Some {
            json_of(members["params"@])->0
        } else {
            JsonView::Null
        },
        _ => JsonView::Null,
    }
}

/// Whether the second parameter of a request to subscribe asks for nothing that clients may not ask
/// for: it is null, or an object without a commitment, or it names one of the three, or none, as the
/// member `commitment` of an object or as the only item of an array.
pub open spec fn asks_for_commitment(config: Option<JsonView>) -> bool {
    match config {
        Some(JsonView::Null) => true,
        Some(JsonView::Object(members)) => members.contains_key("commitment"@) ==> is_commitment(
            json_of(members["commitment"@]),
        ),
        Some(JsonView::Array(items)) => items.len() == 1 && is_commitment(json_of(items[0])),
        _ => false,
    }
}

/// Whether a value is null or one of the three commitments.
pub open spec fn is_commitment(value: Option<JsonView>) -> bool {
    ||| value == Some(JsonView::Null)
    ||| value == Some(JsonView::Text("processed"@))
    ||| value == Some(JsonView::Text("confirmed"@))
    ||| value == Some(JsonView::Text("finalized"@))
}

/// Whether parameters ask to subscribe to a signature: an array of it, and perhaps of a second item
/// that asks for a commitment.
pub open spec fn asks_for(params: JsonView, signature: Seq<char>) -> bool {
    match params {
        JsonView::Array(items) => {
            &&& 1 <= items.len() <= 2
            &&& json_of(items[0]) == Some(JsonView::Text(signature))
            &&& signature_bytes(signature) is Some
            &&& items.len() == 2 ==> asks_for_commitment(json_of(items[1]))
        },
        _ => false,
    }
}

/// A request to subscribe to a signature is served where nobody is subscribed to it: the connection
/// gets the next number, under which it is entered with the time of arrival, and that number is the
/// result. Where somebody is, the request is refused. Parameters of no other form are served.
pub proof fn signatures_are_subscribed_to_by_request(
    session: Session,
    message: Option<JsonView>,
    now_ms: u64,
    signature: Seq<char>,
    other: Seq<char>,
    number: u64,
)
    requires
        calls(message, "signatureSubscribe"@),
    ensures
        ({
            let (after, reply) = session.after_message(message, now_ms);
            let id = asked_id(message);
            &&& asks_for(params_of(message), signature) && !session.table.contains_key(signature) ==> {
                &&& reply == result_reply(id, decimal(session.next_id as nat))
                &&& after.table.contains_key(signature)
                &&& after.table[signature].client_timestamp_ms == now_ms
                &&& after.table[signature].rpc_received_ms == now_ms
                &&& after.table[signature].websocket == Some(
                    WebsocketSubscription { id: session.next_id, sender: session.number },
                )
                &&& other != signature ==> (after.table.contains_key(other)
                    <==> session.table.contains_key(other))
                &&& session.table.contains_key(other) ==> after.table[other] == session.table[other]
                &&& after.active.contains_key(number) <==> session.active.contains_key(number)
                    || number == session.next_id
                &&& after.active[session.next_id] == signature
                &&& number != session.next_id ==> after.active[number] == session.active[number]
                &&& session.next_id < u64::MAX ==> after.next_id == session.next_id + 1
                &&& after.number == session.number
            }
            &&& asks_for(params_of(message), signature) && session.table.contains_key(signature) ==> {
                &&& reply == error_reply(
                    id,
                    ErrorView {
                        code: ErrorCode::InvalidRequest,
                        message: "Transaction already subscribed"@,
                    },
                )
                &&& after == session
            }
            &&& (forall|s: Seq<char>| !#[trigger] asks_for(params_of(message), s)) ==> after
                == session && exists|error: ErrorView|
                reply == #[trigger] error_reply(id, error) && error.code == ErrorCode::InvalidParams
        }),
{
    let params = params_of(message);
    reveal_strlit("signatureSubscribe");
    assert(call_of(message->0) == Ok::<(Seq<char>, JsonView), ErrorView>(
        ("signatureSubscribe"@, params),
    ));
    assert(message_id(message) == asked_id(message));
    if let Ok(s) = subscribe_params(params) {
        assert(asks_for(params, s));
        if asks_for(params, signature) {
            assert(s == signature);
        }
    } else {
        assert(!asks_for(params, signature));
    }
}

/// Parameters that do not ask for a signature are refused for the first reason that holds: they are
/// missing or empty, not an array, or too many; the first is not a string, or not a signature; the
/// commitment is malformed, or none that is known.
pub proof fn subscriptions_are_refused_for_the_first_reason(params: JsonView)
    ensures
        ({
            let refused = |text: Seq<char>|
                Err::<Seq<char>, ErrorView>(
                    ErrorView { code: ErrorCode::InvalidParams, message: text },
                );
            match params {
                JsonView::Null => subscribe_params(params) == refused(
                    "signatureSubscribe requires signature parameter"@,
                ),
                JsonView::Array(items) => {
                    let signature = json_of(items[0])->0->Text_0;
                    &&& items.len() == 0 ==> subscribe_params(params) == refused(
                        "signatureSubscribe requires signature parameter"@,
                    )
                    &&& items.len() > 2 ==> subscribe_params(params) == refused(
                        "Too many parameters"@,
                    )
                    &&& 1 <= items.len() <= 2 && !(json_of(items[0]) is Some && json_of(
                        items[0],
                    )->0 is Text) ==> subscribe_params(params) == refused(
                        "Signature parameter must be a string"@,
                    )
                    &&& 1 <= items.len() <= 2 && json_of(items[0]) is Some && json_of(
                        items[0],
                    )->0 is Text ==> {
                        &&& signature_bytes(signature) is None ==> subscribe_params(params)
                            == refused("Invalid transaction signature"@)
                        &&& signature_bytes(signature) is Some && (items.len() == 1
                            || asks_for_commitment(json_of(items[1]))) ==> subscribe_params(params)
                            == Ok::<Seq<char>, ErrorView>(signature)
                        &&& signature_bytes(signature) is Some && items.len() == 2
                            && !asks_for_commitment(json_of(items[1])) ==> subscribe_params(params)
                            == refused(
                            if names_a_text(json_of(items[1])) {
                                "Unsupported commitment level"@
                            } else {
                                "Invalid commitment config"@
                            },
                        )
                    }
                },
                _ => subscribe_params(params) == refused("Params must be an array"@),
            }
        }),
{
}

/// Whether the second parameter names some string as the commitment.
pub open spec fn names_a_text(config: Option<JsonView>) -> bool {
    match config {
        Some(JsonView::Object(members)) => members.contains_key("commitment"@) && json_of(
            members["commitment"@],
        ) matches Some(JsonView::Text(_)),
        Some(JsonView::Array(items)) => items.len() == 1 && json_of(items[0]) matches Some(
            JsonView::Text(_),
        ),
        _ => false,
    }
}

/// Whether a value is an unsigned integer of 64 bits.
pub open spec fn is_unsigned(value: Option<JsonView>) -> bool {
    value matches Some(JsonView::Number(Some(_)))
}

/// A request to end a subscription is answered by whether the connection has it. Where it has, the
/// subscription is no longer listed, and the entry of its signature is gone if it is that of the
/// subscription; nothing else changes. Parameters other than one unsigned integer are refused.
pub proof fn subscriptions_are_ended_by_request(
    session: Session,
    message: Option<JsonView>,
    now_ms: u64,
    ended: u64,
    other: Seq<char>,
    number: u64,
)
    requires
        calls(message, "signatureUnsubscribe"@),
    ensures
        ({
            let (after, reply) = session.after_message(message, now_ms);
            let id = asked_id(message);
            let params = params_of(message);
            let asked = params is Array && params->Array_0.len() == 1 && json_of(
                params->Array_0[0],
            ) == Some(JsonView::Number(Some(ended)));
            &&& asked && session.active.contains_key(ended) ==> {
                let signature = session.active[ended];
                let own = session.table.contains_key(signature)
                    && session.table[signature].websocket is Some
                    && session.table[signature].websocket->0.id == ended;
                &&& reply == result_reply(id, "true"@)
                &&& after.active.contains_key(number) <==> session.active.contains_key(number)
                    && number != ended
                &&& after.active.contains_key(number) ==> after.active[number]
                    == session.active[number]
                &&& after.table.contains_key(other) <==> session.table.contains_key(other) && !(own
                    && other == signature)
                &&& after.table.contains_key(other) ==> after.table[other] == session.table[other]
                &&& after.next_id == session.next_id
                &&& after.number == session.number
            }
            &&& asked && !session.active.contains_key(ended) ==> after == session && reply
                == result_reply(id, "false"@)
            &&& !(params is Array) ==> after == session && reply == error_reply(
                id,
                ErrorView { code: ErrorCode::InvalidParams, message: "Params must be an array"@ },
            )
            &&& params is Array && params->Array_0.len() != 1 ==> after == session && reply
                == error_reply(
                id,
                ErrorView {
                    code: ErrorCode::InvalidParams,
                    message: "signatureUnsubscribe requires the subscription id"@,
                },
            )
            &&& params is Array && params->Array_0.len() == 1 && !is_unsigned(
                json_of(params->Array_0[0]),
            ) ==> after == session && reply == error_reply(
                id,
                ErrorView {
                    code: ErrorCode::InvalidParams,
                    message: "Subscription id must be an unsigned integer"@,
                },
            )
        }),
{
    let params = params_of(message);
    reveal_strlit("signatureSubscribe");
    reveal_strlit("signatureUnsubscribe");
    assert("signatureUnsubscribe"@.len() != "signatureSubscribe"@.len());
    assert(call_of(message->0) == Ok::<(Seq<char>, JsonView), ErrorView>(
        ("signatureUnsubscribe"@, params),
    ));
    assert(message_id(message) == asked_id(message));
}

/// A message that is no request that can be served changes nothing and is refused: as no JSON, for
/// another version, for want of a method, or for an unknown one.
pub proof fn other_messages_are_refused(
    session: Session,
    message: Option<JsonView>,
    now_ms: u64,
    method: Seq<char>,
)
    ensures
        ({
            let (after, reply) = session.after_message(message, now_ms);
            let id = asked_id(message);
            let refused = |code: ErrorCode, text: Seq<char>|
                after == session && reply == error_reply(id, ErrorView { code, message: text });
            let versioned = message is Some && message->0 is Object
                && message->0->Object_0.contains_key("jsonrpc"@) && json_of(
                message->0->Object_0["jsonrpc"@],
            ) == Some(JsonView::Text("2.0"@));
            &&& message is None ==> refused(ErrorCode::ParseError, "Invalid JSON"@)
            &&& message is Some && !versioned ==> refused(
                ErrorCode::InvalidRequest,
                "jsonrpc must be \"2.0\""@,
            )
            &&& versioned && (forall|m: Seq<char>| !#[trigger] calls(message, m)) ==> refused(
                ErrorCode::InvalidRequest,
                "Missing method"@,
            )
            &&& calls(message, method) && method != "signatureSubscribe"@ && method
                != "signatureUnsubscribe"@ ==> refused(
                ErrorCode::MethodNotFound,
                "Method not found"@,
            )
        }),
{
    assert(message_id(message) == asked_id(message));
    if message is Some && message->0 is Object {
        let members = message->0->Object_0;
        if members.contains_key("method"@) {
            if let Some(JsonView::Text(m)) = json_of(members["method"@]) {
                if members.contains_key("jsonrpc"@) && json_of(members["jsonrpc"@]) == Some(
                    JsonView::Text("2.0"@),
                ) {
                    assert(calls(message, m));
                }
            }
        }
    }
}

/// A connection that is closed takes exactly those entries out of the table that are websocket
/// subscriptions it lists under their number and signature.
pub proof fn closing_ends_what_is_listed(
    table: Map<Seq<char>, Subscription>,
    active: Map<u64, Seq<char>>,
    signature: Seq<char>,
)
    ensures
        ({
            let after = without_listed(table, active);
            let ended = table[signature].websocket is Some && active.contains_key(
                table[signature].websocket->0.id,
            ) && active[table[signature].websocket->0.id] == signature;
            &&& after.contains_key(signature) <==> table.contains_key(signature) && !ended
            &&& after.contains_key(signature) ==> after[signature] == table[signature]
        }),
{
}

/// The notification of a websocket client is a JSON object that names the method, the slot in which
/// the transaction was observed, and the number of the subscription.
pub proof fn notifications_are_json_rpc_objects(subscription_id: u64, slot: u64)
    ensures
        ({
            let context = object_text(seq![("slot"@, decimal(slot as nat))]);
            let value = object_text(seq![("err"@, "null"@)]);
            let result = object_text(seq![("context"@, context), ("value"@, value)]);
            let params = object_text(
                seq![("result"@, result), ("subscription"@, decimal(subscription_id as nat))],
            );
            signature_notification(subscription_id, slot) == object_text(
                seq![
                    ("jsonrpc"@, "\"2.0\""@),
                    ("method"@, "\"signatureNotification\""@),
                    ("params"@, params),
                ],
            )
        }),
{
    let number = decimal(slot as nat);
    let id = decimal(subscription_id as nat);
    let context = object_text(seq![("slot"@, number)]);
    let value = object_text(seq![("err"@, "null"@)]);
    let result = object_text(seq![("context"@, context), ("value"@, value)]);
    let params = object_text(seq![("result"@, result), ("subscription"@, id)]);
    let whole = object_text(
        seq![
            ("jsonrpc"@, "\"2.0\""@),
            ("method"@, "\"signatureNotification\""@),
            ("params"@, params),
        ],
    );
    let open = seq!['{'];
    let close = seq!['}'];
    let comma = seq![','];
    let in_context = open + label("slot"@);
    let in_result = open + label("context"@) + in_context;
    let after_slot = close + (comma + member_as_text("value"@, value) + close);
    let in_params = open + label("result"@) + in_result;
    let before_id = after_slot + (comma + label("subscription"@));
    let version = member_as_text("jsonrpc"@, "\"2.0\""@);
    let method = member_as_text("method"@, "\"signatureNotification\""@);
    let in_whole = open + version + comma + method + comma + label("params"@) + in_params;
    lemma_one_member("slot"@, number);
    lemma_one_member("err"@, "null"@);
    lemma_two_members("context"@, context, "value"@, value);
    lemma_two_members("result"@, result, "subscription"@, id);
    lemma_three_members(version, method, "params"@, params);
    lemma_wrapped(
        open + label("context"@),
        in_context,
        number,
        close,
        comma + member_as_text("value"@, value) + close,
    );
    lemma_params(in_result, number, after_slot, id);
    lemma_whole(version, method, in_params, number, before_id, id);
    lemma_notification_literals();
}

proof fn lemma_one_member(name: Seq<char>, value: Seq<char>)
    ensures
        object_text(seq![(name, value)]) == seq!['{'] + label(name) + value + seq!['}'],
        object_text(seq![(name, value)]) == seq!['{'] + member_as_text(name, value) + seq!['}'],
{
    reveal(label);
    lemma_object_text((name, value), (name, value), (name, value), (name, value));
    assert(object_text(seq![(name, value)]) =~= seq!['{'] + label(name) + value + seq!['}']);
}

proof fn lemma_two_members(
    first: Seq<char>,
    value: Seq<char>,
    second: Seq<char>,
    other: Seq<char>,
)
    ensures
        object_text(seq![(first, value), (second, other)]) == seq!['{'] + label(first) + value + (
        seq![','] + member_as_text(second, other) + seq!['}']),
        object_text(seq![(first, value), (second, other)]) == seq!['{'] + label(first) + value + (
        seq![','] + label(second)) + other + seq!['}'],
{
    let a = (first, value);
    let b = (second, other);
    lemma_object_text(a, b, a, b);
    let text = object_text(seq![a, b]);
    lemma_label(first, value);
    lemma_label(second, other);
    assert(text =~= seq!['{'] + label(first) + value + (seq![','] + member_as_text(second, other)
        + seq!['}']));
    assert(text =~= seq!['{'] + label(first) + value + (seq![','] + label(second)) + other + seq![
        '}',
    ]);
}

proof fn lemma_three_members(
    version: Seq<char>,
    method: Seq<char>,
    name: Seq<char>,
    value: Seq<char>,
)
    requires
        version == member_as_text("jsonrpc"@, "\"2.0\""@),
        method == member_as_text("method"@, "\"signatureNotification\""@),
    ensures
        object_text(
            seq![
                ("jsonrpc"@, "\"2.0\""@),
                ("method"@, "\"signatureNotification\""@),
                (name, value),
            ],
        ) == (seq!['{'] + version + seq![','] + method + seq![','] + label(name)) + value + seq![
            '}',
        ],
{
    lemma_object_text(
        ("jsonrpc"@, "\"2.0\""@),
        ("method"@, "\"signatureNotification\""@),
        (name, value),
        (name, value),
    );
    lemma_label(name, value);
    lemma_three_parts(version, method, label(name), value);
}

proof fn lemma_three_parts(
    version: Seq<char>,
    method: Seq<char>,
    name: Seq<char>,
    value: Seq<char>,
)
    ensures
        seq!['{'] + (version + seq![','] + method + seq![','] + (name + value)) + seq!['}'] == (seq![
            '{',
        ] + version + seq![','] + method + seq![','] + name) + value + seq!['}'],
{
    assert(seq!['{'] + (version + seq![','] + method + seq![','] + (name + value)) + seq!['}']
        =~= (seq!['{'] + version + seq![','] + method + seq![','] + name) + value + seq!['}']);
}

proof fn lemma_params(in_result: Seq<char>, number: Seq<char>, after_slot: Seq<char>, id: Seq<char>)
    ensures
        seq!['{'] + label("result"@) + (in_result + number + after_slot) + (seq![','] + label(
            "subscription"@,
        )) + id + seq!['}'] == (seq!['{'] + label("result"@) + in_result) + number + (after_slot + (
        seq![','] + label("subscription"@))) + id + seq!['}'],
{
    lemma_wrapped(
        seq!['{'] + label("result"@),
        in_result,
        number,
        after_slot,
        seq![','] + label("subscription"@),
    );
}

proof fn lemma_whole(
    version: Seq<char>,
    method: Seq<char>,
    in_params: Seq<char>,
    number: Seq<char>,
    before_id: Seq<char>,
    id: Seq<char>,
)
    ensures
        (seq!['{'] + version + seq![','] + method + seq![','] + label("params"@)) + (in_params
            + number + before_id + id + seq!['}']) + seq!['}'] == (seq!['{'] + version + seq![',']
            + method + seq![','] + label("params"@) + in_params) + number + before_id + id + (seq![
            '}',
        ] + seq!['}']),
{
    let front = seq!['{'] + version + seq![','] + method + seq![','] + label("params"@);
    lemma_end(front, in_params, number, before_id, id);
}

proof fn lemma_end(
    front: Seq<char>,
    inner: Seq<char>,
    number: Seq<char>,
    before_id: Seq<char>,
    id: Seq<char>,
)
    ensures
        front + (inner + number + before_id + id + seq!['}']) + seq!['}'] == front + inner + number
            + before_id + id + (seq!['}'] + seq!['}']),
{
    assert(front + (inner + number + before_id + id + seq!['}']) + seq!['}'] =~= front + inner
        + number + before_id + id + (seq!['}'] + seq!['}']));
}

/// The name of a member and the colon behind it.
#[verifier::opaque]
spec fn label(name: Seq<char>) -> Seq<char> {
    seq!['"'] + name + seq!['"', ':']
}

proof fn lemma_label(name: Seq<char>, value: Seq<char>)
    ensures
        member_as_text(name, value) == label(name) + value,
{
    reveal(label);
}

proof fn lemma_wrapped(
    front: Seq<char>,
    before: Seq<char>,
    number: Seq<char>,
    after: Seq<char>,
    tail: Seq<char>,
)
    ensures
        front + (before + number + after) + tail == front + before + number + (after + tail),
{
    assert(front + (before + number + after) + tail =~= front + before + number + (after + tail));
}

proof fn lemma_notification_literals()
    ensures
        "{\"jsonrpc\":\"2.0\",\"method\":\"signatureNotification\",\"params\":{\"result\":{\"context\":{\"slot\":"@
            == seq!['{'] + member_as_text("jsonrpc"@, "\"2.0\""@) + seq![','] + member_as_text(
            "method"@,
            "\"signatureNotification\""@,
        ) + seq![','] + label("params"@) + (seq!['{'] + label("result"@) + (seq!['{'] + label(
            "context"@,
        ) + (seq!['{'] + label("slot"@)))),
        "},\"value\":{\"err\":null}},\"subscription\":"@ == seq!['}'] + (seq![',']
            + member_as_text("value"@, seq!['{'] + member_as_text("err"@, "null"@) + seq!['}'])
            + seq!['}']) + (seq![','] + label("subscription"@)),
        "}}"@ == seq!['}'] + seq!['}'],
{
    reveal(label);
    reveal_strlit(
        "{\"jsonrpc\":\"2.0\",\"method\":\"signatureNotification\",\"params\":{\"result\":{\"context\":{\"slot\":",
    );
    reveal_strlit("},\"value\":{\"err\":null}},\"subscription\":");
    reveal_strlit("}}");
    reveal_strlit("slot");
    reveal_strlit("err");
    reveal_strlit("null");
    reveal_strlit("context");
    reveal_strlit("value");
    reveal_strlit("result");
    reveal_strlit("subscription");
    reveal_strlit("jsonrpc");
    reveal_strlit("\"2.0\"");
    reveal_strlit("method");
    reveal_strlit("\"signatureNotification\"");
    reveal_strlit("params");
}

/// Every frame has its answer: a text is answered by a text, a binary frame by a refusal, a ping by a
/// pong with its payload, and the end of the connection by its end; other frames get none. Only a
/// text changes the session.
pub proof fn frames_have_their_answers(
    before: Session,
    incoming: Incoming,
    after: Session,
    outgoing: Outgoing,
)
    requires
        answers(before, incoming, after, outgoing),
    ensures
        !(incoming is Text) ==> after == before,
        match incoming {
            Incoming::Text(payload) => outgoing is Text && exists|now_ms: u64|
                {
                    &&& is_time_ms(now_ms)
                    &&& (after, outgoing->Text_0@) == #[trigger] before.after_message(
                        json_of(payload@),
                        now_ms,
                    )
                },
            Incoming::Binary => outgoing is Text && outgoing->Text_0@ == error_reply(
                "null"@,
                ErrorView {
                    code: ErrorCode::InvalidRequest,
                    message: "Binary messages are not supported"@,
                },
            ),
            Incoming::Ping(payload) => outgoing == Outgoing::Pong(payload),
            Incoming::Pong => outgoing is Nothing,
            Incoming::Other => outgoing is Nothing,
            Incoming::Close => outgoing is Close,
            Incoming::Failed => outgoing is Close,
        },
{
}

/// The numbers of subscriptions and connections follow each other, and start again from zero.
pub proof fn numbers_follow_each_other(id: u64)
    ensures
        id < u64::MAX ==> id_after(id) == id + 1,
        id_after(u64::MAX) == 0,
{
}

/// A message is answered under the text of its member `id`, whatever JSON value that is, or under null
/// where it has none or is not JSON: by the JSON-RPC object of a result or of an error.
pub proof fn messages_are_answered_under_their_id(
    message: Option<Json>,
    subscriptions: &mut Subscriptions,
    connection: &mut Connection,
    next_id: &mut u64,
    now_ms: u64,
    reply: String,
)
    requires
        call_ensures(handle_request, (message, subscriptions, connection, next_id, now_ms), reply),
    ensures
        ({
            let id = asked_id(json_option_view(message));
            ||| exists|result: Seq<char>| reply@ == #[trigger] result_object(id, result)
            ||| exists|error: Seq<char>| reply@ == #[trigger] error_object(id, error)
        }),
{
    replies_carry_the_member_id(
        session(*old(subscriptions), *old(connection), *old(next_id)),
        json_option_view(message),
        now_ms,
    );
}

/// A text is answered under the id that its JSON value has, and what it enters into the table is
/// entered with times that the clock gave while it was handled.
pub proof fn texts_are_answered_when_the_clock_says(
    payload: &str,
    subscriptions: &mut Subscriptions,
    connection: &mut Connection,
    next_id: &mut u64,
    reply: String,
    signature: Seq<char>,
)
    requires
        call_ensures(handle_json_message, (payload, subscriptions, connection, next_id), reply),
    ensures
        ({
            let id = asked_id(json_of(payload@));
            ||| exists|result: Seq<char>| reply@ == #[trigger] result_object(id, result)
            ||| exists|error: Seq<char>| reply@ == #[trigger] error_object(id, error)
        }),
        ({
            let before = held(*old(subscriptions));
            let after = held(*final(subscriptions));
            after.contains_key(signature) && !before.contains_key(signature) ==> {
                &&& tells_the_time(after[signature].client_timestamp_ms)
                &&& tells_the_time(after[signature].rpc_received_ms)
                &&& after[signature].websocket == Some(
                    WebsocketSubscription { id: *old(next_id), sender: old(connection).number },
                )
            }
        }),
{
    let before = session(*old(subscriptions), *old(connection), *old(next_id));
    let now_ms = choose|now_ms: u64|
        (session(*final(subscriptions), *final(connection), *final(next_id)), reply@)
            == #[trigger] before.after_message(json_of(payload@), now_ms) && is_time_ms(now_ms);
    replies_carry_the_member_id(before, json_of(payload@), now_ms);
    if held(*final(subscriptions)).contains_key(signature) && !held(
        *old(subscriptions),
    ).contains_key(signature) {
        given_times_tell_the_time(held(*final(subscriptions))[signature].client_timestamp_ms);
        given_times_tell_the_time(held(*final(subscriptions))[signature].rpc_received_ms);
    }
}

/// A connection is accepted exactly as long as fewer are open than may be. It is then counted, has no
/// subscriptions, and gets the next number, which is not given out again before all others are.
pub proof fn connections_are_accepted_up_to_the_limit(
    connections: &mut Connections,
    connection: Option<Connection>,
)
    requires
        call_ensures(Connections::accept, (connections,), connection),
    ensures
        connection is Some <==> old(connections).active() < old(connections).max_connections(),
        final(connections).max_connections() == old(connections).max_connections(),
        connection is Some ==> {
            &&& connection->0.number == old(connections).next_number()
            &&& connection->0.active_subscriptions@.dom().is_empty()
            &&& final(connections).active() == old(connections).active() + 1
            &&& old(connections).next_number() < u64::MAX ==> final(connections).next_number()
                == old(connections).next_number() + 1
        },
        connection is None ==> {
            &&& final(connections).active() == old(connections).active()
            &&& final(connections).next_number() == old(connections).next_number()
        },
{
}

/// A connection that is closed makes room for one more.
pub proof fn closed_connections_make_room(connections: &mut Connections)
    requires
        call_ensures(Connections::release, (connections,), ()),
    ensures
        final(connections).active() + 1 == old(connections).active(),
        final(connections).max_connections() == old(connections).max_connections(),
        final(connections).next_number() == old(connections).next_number(),
{
}

/// A subscription is entered exactly where its signature has none, and the answer says so; no other
/// entry changes.
pub proof fn signatures_have_one_subscription(
    subscriptions: &mut Subscriptions,
    signature: String,
    subscription: Subscription,
    entered: bool,
    other: Seq<char>,
)
    requires
        call_ensures(subscribe, (subscriptions, signature, subscription), entered),
    ensures
        ({
            let before = held(*old(subscriptions));
            let after = held(*final(subscriptions));
            &&& entered <==> !before.contains_key(signature@)
            &&& after.contains_key(other) <==> before.contains_key(other) || other == signature@
            &&& before.contains_key(other) ==> after[other] == before[other]
            &&& entered ==> after[signature@] == subscription
        }),
{
}

/// A websocket client is notified of a transaction exactly where the subscription came over a
/// websocket: over the connection that it came over, of the slot, and under its number.
pub proof fn websocket_clients_are_notified(found: &Found, notification: Option<(u64, String)>)
    requires
        call_ensures(Found::notification, (found,), notification),
    ensures
        notification is Some <==> found.websocket is Some,
        match notification {
            Some((connection, text)) => {
                &&& connection == found.websocket->0.sender
                &&& text@ == signature_notification(found.websocket->0.id, found.slot)
            },
            None => true,
        },
{
}

/// A message changes the table, the connection and the counter as its method says, and is answered
/// accordingly, at the time given.
pub proof fn messages_are_handled_at_their_time(
    message: Option<Json>,
    subscriptions: &mut Subscriptions,
    connection: &mut Connection,
    next_id: &mut u64,
    now_ms: u64,
    reply: String,
)
    requires
        call_ensures(handle_request, (message, subscriptions, connection, next_id, now_ms), reply),
    ensures
        ({
            let before = session(*old(subscriptions), *old(connection), *old(next_id));
            let after = session(*final(subscriptions), *final(connection), *final(next_id));
            &&& after == before.after_message(json_option_view(message), now_ms).0
            &&& reply@ == before.after_message(json_option_view(message), now_ms).1
        }),
{
}

/// Whatever comes in over a connection has its answer: a text one under its id, at a time that the
/// clock gave; a binary frame a refusal, a ping a pong with its payload, and the end of the connection
/// its end. Only a text changes anything.
pub proof fn connections_answer_every_frame(
    connection: &mut Connection,
    incoming: Incoming,
    subscriptions: &mut Subscriptions,
    next_id: &mut u64,
    outgoing: Outgoing,
)
    requires
        call_ensures(
            Connection::handle_incoming,
            (connection, incoming, subscriptions, next_id),
            outgoing,
        ),
    ensures
        ({
            let before = session(*old(subscriptions), *old(connection), *old(next_id));
            let after = session(*final(subscriptions), *final(connection), *final(next_id));
            &&& !(incoming is Text) ==> after == before
            &&& match incoming {
                Incoming::Text(payload) => outgoing is Text && exists|now_ms: u64|
                    {
                        &&& is_time_ms(now_ms)
                        &&& (after, outgoing->Text_0@) == #[trigger] before.after_message(
                            json_of(payload@),
                            now_ms,
                        )
                    },
                Incoming::Binary => outgoing is Text && exists|error: Seq<char>|
                    outgoing->Text_0@ == #[trigger] error_object("null"@, error),
                Incoming::Ping(payload) => outgoing == Outgoing::Pong(payload),
                Incoming::Pong => outgoing is Nothing,
                Incoming::Other => outgoing is Nothing,
                Incoming::Close => outgoing is Close,
                Incoming::Failed => outgoing is Close,
            }
        }),
{
    let before = session(*old(subscriptions), *old(connection), *old(next_id));
    let after = session(*final(subscriptions), *final(connection), *final(next_id));
    frames_have_their_answers(before, incoming, after, outgoing);
    if incoming is Binary {
        let error = ErrorView {
            code: ErrorCode::InvalidRequest,
            message: "Binary messages are not supported"@,
        };
        errors_are_json_rpc_objects("null"@, error);
        let inner = object_text(
            seq![
                ("code"@, signed_decimal(error.code.number())),
                ("message"@, json_string(error.message)),
            ],
        );
        assert(outgoing->Text_0@ == error_object("null"@, inner));
    }
}

/// A connection that is closed takes out of the table the websocket subscriptions that it lists, each
/// under its number and signature, and nothing else.
pub proof fn closed_connections_end_what_they_list(
    connection: Connection,
    subscriptions: &mut Subscriptions,
    signature: Seq<char>,
)
    requires
        call_ensures(Connection::close, (connection, subscriptions), ()),
    ensures
        ({
            let before = held(*old(subscriptions));
            let after = held(*final(subscriptions));
            let listed = connection.active_subscriptions@;
            let id = before[signature].websocket->0.id;
            let ended = before[signature].websocket is Some && listed.contains_key(id)
                && listed[id]@ == signature;
            &&& after.contains_key(signature) <==> before.contains_key(signature) && !ended
            &&& after.contains_key(signature) ==> after[signature] == before[signature]
        }),
{
    closing_ends_what_is_listed(
        held(*old(subscriptions)),
        active_view(connection.active_subscriptions@),
        signature,
    );
}

} // verus!
