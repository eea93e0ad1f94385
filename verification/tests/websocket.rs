use shreds_subscribe::json::{read_json, Json};
use shreds_subscribe::jsonrpc::{send_error, send_result, Error, ErrorCode};
use shreds_subscribe::subscriptions::{new_subscriptions, subscribe, Subscription, Subscriptions};
use shreds_subscribe::websocket::{
    cleanup_connection, end_subscription, enter_subscription, handle_json_message,
    handle_request, judge_subscription, name_commitment, Commitment, Connection, Connections,
    Incoming, Outgoing,
};
use std::time::{SystemTime, UNIX_EPOCH};

struct Session {
    table: Subscriptions,
    connection: Connection,
    next_id: u64,
}

impl Session {
    fn new() -> Session {
        Session { table: new_subscriptions(), connection: Connection::new(8), next_id: 1 }
    }

    fn send(&mut self, payload: &str) -> String {
        handle_json_message(payload, &mut self.table, &mut self.connection, &mut self.next_id)
    }
}

fn signature(byte: u8) -> String {
    solana_sdk::signature::Signature::from([byte; 64]).to_string()
}

fn request(id: &str, method: &str, params: &str) -> String {
    format!(
        "{{\"jsonrpc\":\"2.0\",\"id\":{},\"method\":\"{}\",\"params\":{}}}",
        id, method, params
    )
}

fn refused(id: &str, code: i64, message: &str) -> String {
    let mut error = serde_json::Map::new();
    error.insert("code".to_string(), serde_json::Value::from(code));
    error.insert("message".to_string(), serde_json::Value::from(message));
    let mut reply = serde_json::Map::new();
    reply.insert("jsonrpc".to_string(), serde_json::Value::from("2.0"));
    reply.insert("error".to_string(), serde_json::Value::Object(error));
    reply.insert("id".to_string(), serde_json::from_str(id).expect("id"));
    serde_json::Value::Object(reply).to_string()
}

fn accepted(id: &str, result: &str) -> String {
    let mut reply = serde_json::Map::new();
    reply.insert("jsonrpc".to_string(), serde_json::Value::from("2.0"));
    reply.insert("result".to_string(), serde_json::from_str(result).expect("result"));
    reply.insert("id".to_string(), serde_json::from_str(id).expect("id"));
    serde_json::Value::Object(reply).to_string()
}

fn now_ms() -> u64 {
    SystemTime::now().duration_since(UNIX_EPOCH).expect("clock").as_millis() as u64
}

#[test]
fn error_codes_are_those_of_json_rpc() {
    let pairs = [
        (ErrorCode::ParseError, jsonrpc_core::ErrorCode::ParseError),
        (ErrorCode::InvalidRequest, jsonrpc_core::ErrorCode::InvalidRequest),
        (ErrorCode::MethodNotFound, jsonrpc_core::ErrorCode::MethodNotFound),
        (ErrorCode::InvalidParams, jsonrpc_core::ErrorCode::InvalidParams),
        (ErrorCode::InternalError, jsonrpc_core::ErrorCode::InternalError),
    ];
    for (ours, theirs) in pairs {
        assert_eq!(ours.code(), theirs.code());
    }
    assert_eq!(ErrorCode::InvalidParams.code(), -32602);
    assert_eq!(ErrorCode::InvalidRequest.code(), -32600);
}

#[test]
fn replies_are_written_as_json() {
    assert_eq!(send_result("5", "true"), "{\"id\":5,\"jsonrpc\":\"2.0\",\"result\":true}");
    assert_eq!(
        send_error("\"a\"", &Error::new(ErrorCode::ParseError, "x \"y\"")),
        "{\"error\":{\"code\":-32700,\"message\":\"x \\\"y\\\"\"},\"id\":\"a\",\"jsonrpc\":\"2.0\"}"
    );
    assert_eq!(
        send_error("null", &Error::invalid_params("a\nb")),
        refused("null", -32602, "a\nb")
    );
}

#[test]
fn a_client_subscribes_to_a_signature() {
    let mut session = Session::new();
    session.next_id = 41;
    let before = now_ms();
    let params = format!("[\"{}\",{{\"commitment\":\"confirmed\"}}]", signature(1));
    let reply = session.send(&request("1", "signatureSubscribe", &params));
    let after = now_ms();
    assert_eq!(reply, accepted("1", "41"));
    assert_eq!(session.next_id, 42);
    assert_eq!(session.connection.active_subscriptions.get(&41), Some(&signature(1)));
    let entry = *session.table.get(&signature(1)).expect("entry");
    assert!(before <= entry.client_timestamp_ms && entry.client_timestamp_ms <= after);
    assert_eq!(entry.client_timestamp_ms, entry.rpc_received_ms);
    let websocket = entry.websocket.expect("websocket");
    assert_eq!((websocket.id, websocket.sender), (41, 8));
}

#[test]
fn commitments_are_checked() {
    let good = [
        "null",
        "{}",
        "{\"commitment\":null}",
        "{\"commitment\":\"processed\"}",
        "{\"commitment\":\"finalized\",\"other\":1}",
        "[\"confirmed\"]",
        "[null]",
    ];
    for config in good {
        let mut session = Session::new();
        let params = format!("[\"{}\",{}]", signature(1), config);
        assert_eq!(
            session.send(&request("1", "signatureSubscribe", &params)),
            accepted("1", "1"),
            "{}",
            config
        );
    }
    let malformed = ["5", "\"confirmed\"", "true", "[]", "[\"confirmed\",1]", "{\"commitment\":5}"];
    for config in malformed {
        let mut session = Session::new();
        let params = format!("[\"{}\",{}]", signature(1), config);
        assert_eq!(
            session.send(&request("1", "signatureSubscribe", &params)),
            refused("1", -32602, "Invalid commitment config"),
            "{}",
            config
        );
        assert!(session.table.is_empty());
    }
    let mut session = Session::new();
    let params = format!("[\"{}\",{{\"commitment\":\"recent\"}}]", signature(1));
    assert_eq!(
        session.send(&request("1", "signatureSubscribe", &params)),
        refused("1", -32602, "Unsupported commitment level")
    );
}

#[test]
fn bad_parameters_to_subscribe_are_refused() {
    let cases = [
        ("{}", "Params must be an array"),
        ("\"x\"", "Params must be an array"),
        ("null", "signatureSubscribe requires signature parameter"),
        ("[]", "signatureSubscribe requires signature parameter"),
        ("[1,2,3]", "Too many parameters"),
        ("[5]", "Signature parameter must be a string"),
        ("[\"abc\"]", "Invalid transaction signature"),
        ("[\"abc\",5]", "Invalid transaction signature"),
    ];
    for (params, message) in cases {
        let mut session = Session::new();
        assert_eq!(
            session.send(&request("[1]", "signatureSubscribe", params)),
            refused("[1]", -32602, message)
        );
        assert!(session.table.is_empty());
        assert!(session.connection.active_subscriptions.is_empty());
        assert_eq!(session.next_id, 1);
    }
}

#[test]
fn malformed_requests_are_refused() {
    let mut session = Session::new();
    assert_eq!(session.send("{"), refused("null", -32700, "Invalid JSON"));
    assert_eq!(session.send("7"), refused("null", -32600, "jsonrpc must be \"2.0\""));
    assert_eq!(
        session.send("{\"id\":{\"b\":1,\"a\":[2.50,\"x\"]}}"),
        refused("{\"a\":[2.5,\"x\"],\"b\":1}", -32600, "jsonrpc must be \"2.0\"")
    );
    assert_eq!(
        session.send("{\"id\":1,\"jsonrpc\":2.0}"),
        refused("1", -32600, "jsonrpc must be \"2.0\"")
    );
    assert_eq!(
        session.send("{\"id\":1,\"jsonrpc\":\"2.0\"}"),
        refused("1", -32600, "Missing method")
    );
    assert_eq!(
        session.send("{\"id\":1,\"jsonrpc\":\"2.0\",\"method\":5}"),
        refused("1", -32600, "Missing method")
    );
    assert_eq!(
        session.send(&request("1", "slotSubscribe", "[]")),
        refused("1", -32601, "Method not found")
    );
}

#[test]
fn a_signature_is_subscribed_to_once() {
    let mut session = Session::new();
    let subscribe_request =
        request("1", "signatureSubscribe", &format!("[\"{}\"]", signature(1)));
    assert_eq!(session.send(&subscribe_request), accepted("1", "1"));
    assert_eq!(
        session.send(&subscribe_request),
        refused("1", -32600, "Transaction already subscribed")
    );
    assert_eq!(session.table.len(), 1);
    assert_eq!(session.next_id, 2);
}

#[test]
fn unsubscribing_undoes_subscribing() {
    let mut session = Session::new();
    session.send(&request("1", "signatureSubscribe", &format!("[\"{}\"]", signature(1))));
    assert_eq!(
        session.send(&request("2", "signatureUnsubscribe", "[1]")),
        accepted("2", "true")
    );
    assert!(session.table.is_empty());
    assert!(session.connection.active_subscriptions.is_empty());
    assert_eq!(
        session.send(&request("3", "signatureUnsubscribe", "[1]")),
        accepted("3", "false")
    );
    // the number is not given out again
    assert_eq!(
        session.send(&request("4", "signatureSubscribe", &format!("[\"{}\"]", signature(1)))),
        accepted("4", "2")
    );
}

#[test]
fn bad_parameters_to_unsubscribe_are_refused() {
    let cases = [
        ("{}", "Params must be an array"),
        ("null", "Params must be an array"),
        ("[]", "signatureUnsubscribe requires the subscription id"),
        ("[1,2]", "signatureUnsubscribe requires the subscription id"),
        ("[\"1\"]", "Subscription id must be an unsigned integer"),
        ("[-1]", "Subscription id must be an unsigned integer"),
        ("[1.0]", "Subscription id must be an unsigned integer"),
    ];
    for (params, message) in cases {
        let mut session = Session::new();
        assert_eq!(
            session.send(&request("9", "signatureUnsubscribe", params)),
            refused("9", -32602, message)
        );
    }
}

#[test]
fn another_clients_subscription_is_not_ended() {
    let mut session = Session::new();
    session.send(&request("1", "signatureSubscribe", &format!("[\"{}\"]", signature(1))));
    // the transaction was observed, and someone else subscribed to it again
    session.table.clear();
    let other = Subscription { client_timestamp_ms: 5, rpc_received_ms: 6, websocket: None };
    assert!(subscribe(&mut session.table, signature(1), other));
    let reply = end_subscription("2", 1, &mut session.table, &mut session.connection);
    assert_eq!(reply, accepted("2", "true"));
    assert_eq!(session.table.len(), 1);
}

#[test]
fn a_closed_connection_leaves_nothing_behind() {
    let mut table = new_subscriptions();
    let mut next_id: u64 = 1;
    let mut one = Connection::new(1);
    let mut two = Connection::new(2);
    for byte in 1..4 {
        enter_subscription("1", signature(byte), &mut table, &mut one, &mut next_id, 10);
    }
    enter_subscription("1", signature(9), &mut table, &mut two, &mut next_id, 10);
    let other = Subscription { client_timestamp_ms: 5, rpc_received_ms: 6, websocket: None };
    assert!(subscribe(&mut table, signature(10), other));
    // a subscription that was used up, and whose signature the other client asked for
    table.remove(&signature(2));
    enter_subscription("1", signature(2), &mut table, &mut two, &mut next_id, 11);
    one.close(&mut table);
    assert_eq!(table.len(), 3);
    assert!(table.contains_key(&signature(2)));
    assert!(table.contains_key(&signature(9)));
    assert!(table.contains_key(&signature(10)));
    cleanup_connection(&mut table, two.active_subscriptions);
    assert_eq!(table.len(), 1);
}

#[test]
fn requests_are_handled_at_a_given_time() {
    let mut table = new_subscriptions();
    let mut connection = Connection::new(3);
    let mut next_id: u64 = u64::MAX;
    let payload = request("1", "signatureSubscribe", &format!("[\"{}\"]", signature(1)));
    let reply = handle_request(
        read_json(&payload),
        &mut table,
        &mut connection,
        &mut next_id,
        1_234,
    );
    assert_eq!(reply, accepted("1", "18446744073709551615"));
    assert_eq!(next_id, 0);
    assert_eq!(table.get(&signature(1)).expect("entry").client_timestamp_ms, 1_234);
    let reply = handle_request(None, &mut table, &mut connection, &mut next_id, 1);
    assert_eq!(reply, refused("null", -32700, "Invalid JSON"));
}

#[test]
fn parameters_are_judged_by_what_they_say() {
    let text = |t: &str| Some(Json::Text(t.to_string()));
    assert_eq!(
        judge_subscription(text("s"), true, Commitment::Absent).expect("judged"),
        "s"
    );
    let error = judge_subscription(text("s"), false, Commitment::Malformed).unwrap_err();
    assert_eq!(error.message, "Invalid transaction signature");
    let error = judge_subscription(Some(Json::Null), true, Commitment::Absent).unwrap_err();
    assert_eq!(error.message, "Signature parameter must be a string");
    assert!(matches!(name_commitment(Some(Json::Null)), Commitment::Absent));
    assert!(matches!(name_commitment(Some(Json::Bool(true))), Commitment::Malformed));
    assert!(matches!(name_commitment(text("x")), Commitment::Level(level) if level == "x"));
}

#[test]
fn every_frame_has_its_answer() {
    let mut session = Session::new();
    let mut answer = |incoming: Incoming| {
        session.connection.handle_incoming(incoming, &mut session.table, &mut session.next_id)
    };
    assert!(matches!(answer(Incoming::Pong), Outgoing::Nothing));
    assert!(matches!(answer(Incoming::Other), Outgoing::Nothing));
    assert!(matches!(answer(Incoming::Close), Outgoing::Close));
    assert!(matches!(answer(Incoming::Failed), Outgoing::Close));
    match answer(Incoming::Ping(vec![1, 2])) {
        Outgoing::Pong(payload) => assert_eq!(payload, vec![1, 2]),
        other => panic!("{:?}", other),
    }
    match answer(Incoming::Binary) {
        Outgoing::Text(text) => {
            assert_eq!(text, refused("null", -32600, "Binary messages are not supported"))
        }
        other => panic!("{:?}", other),
    }
    match answer(Incoming::Text(request("1", "signatureUnsubscribe", "[7]"))) {
        Outgoing::Text(text) => assert_eq!(text, accepted("1", "false")),
        other => panic!("{:?}", other),
    }
}

#[test]
fn connections_are_limited() {
    let mut connections = Connections::new(2);
    let first = connections.accept().expect("first");
    let second = connections.accept().expect("second");
    assert!(first.number != second.number);
    assert!(first.active_subscriptions.is_empty());
    assert!(connections.accept().is_none());
    connections.release();
    let third = connections.accept().expect("third");
    assert!(third.number != second.number && third.number != first.number);
    assert!(connections.accept().is_none());
    assert!(Connections::new(0).accept().is_none());
}

#[test]
fn connections_do_not_disturb_each_other() {
    let mut table = new_subscriptions();
    let mut next_id: u64 = 1;
    let mut connections = Connections::new(3);
    let mut one = connections.accept().expect("one");
    let mut two = connections.accept().expect("two");
    enter_subscription("1", signature(1), &mut table, &mut one, &mut next_id, 10);
    enter_subscription("1", signature(2), &mut table, &mut two, &mut next_id, 11);
    let other = Subscription { client_timestamp_ms: 5, rpc_received_ms: 6, websocket: None };
    assert!(subscribe(&mut table, signature(3), other));
    // neither client can end what the other one, or a request, subscribed to
    assert_eq!(end_subscription("2", 1, &mut table, &mut two), accepted("2", "false"));
    assert_eq!(table.len(), 3);
    two.close(&mut table);
    assert_eq!(table.len(), 2);
    let entry = *table.get(&signature(1)).expect("entry");
    assert_eq!(entry.websocket.expect("websocket").sender, one.number);
    let three = connections.accept().expect("three");
    three.close(&mut table);
    assert_eq!(table.len(), 2);
    assert_eq!(end_subscription("3", 1, &mut table, &mut one), accepted("3", "true"));
    assert_eq!(table.len(), 1);
    assert!(table.contains_key(&signature(3)));
}
