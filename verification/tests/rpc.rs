use shreds_subscribe::json::{read_json, Json};
use shreds_subscribe::jsonrpc::ErrorCode;
use shreds_subscribe::rpc::{
    make_request, unwrap_params, Params, Rpc, RpcImpl, SubscribeRequest, WebSocketEndpointsConfig,
};
use shreds_subscribe::scan::report_observed;
use shreds_subscribe::signature::is_signature;
use shreds_subscribe::subscriptions::new_subscriptions;
use shreds_subscribe::websocket::{enter_subscription, Connection};
use std::time::{SystemTime, UNIX_EPOCH};

const EXAMPLE_SIGNATURE: &str =
    "5WzvRtu7qxWbQBhbGKdqrpfuiLaZpKoSEQUZjhnYQ5XB2wGdZs9hPVLCLHKdqrpXJ9VhLLe9juMpGZYvgFnVUqeY";

fn server() -> RpcImpl {
    RpcImpl { subscriptions: new_subscriptions(), ws_config: None, followups: vec![] }
}

fn signature(byte: u8) -> String {
    solana_sdk::signature::Signature::from([byte; 64]).to_string()
}

fn object(members: &[(&str, &str)]) -> Params {
    Params::Object(members.iter().map(|(n, t)| (n.to_string(), t.to_string())).collect())
}

fn quoted(text: &str) -> String {
    serde_json::Value::from(text).to_string()
}

fn config() -> WebSocketEndpointsConfig {
    WebSocketEndpointsConfig {
        shred_ws_url: Some("ws://a".to_string()),
        local_ws_url: None,
        local_enhanced_ws_url: None,
        helius_ws_url: Some("ws://b".to_string()),
        solana_rpc_url: "http://c".to_string(),
    }
}

#[test]
fn signatures_are_base_58_of_64_bytes() {
    assert!(is_signature(&signature(0)));
    assert!(is_signature(&signature(255)));
    assert!(!is_signature(""));
    assert!(!is_signature("0"));
    assert!(!is_signature(&signature(0)[1..]));
    assert!(!is_signature(&format!("{}1", signature(255))));
    let parsed: Result<solana_sdk::signature::Signature, _> = EXAMPLE_SIGNATURE.parse();
    assert_eq!(is_signature(EXAMPLE_SIGNATURE), parsed.is_ok());
}

#[test]
fn an_accepted_request_is_entered() {
    let mut rpc = server();
    let before = SystemTime::now().duration_since(UNIX_EPOCH).expect("clock").as_millis() as u64;
    let params = object(&[("tx_sig", &quoted(&signature(1))), ("timestamp", "1701234567890")]);
    let response = rpc.subscribe_tx(params).expect("accepted");
    assert_eq!(response.clone().status, "subscribed");
    let entry = *rpc.subscriptions.get(&signature(1)).expect("entry");
    assert_eq!(entry.client_timestamp_ms, 1_701_234_567_890);
    assert!(entry.rpc_received_ms >= before);
    assert_eq!(entry.websocket, None);
    assert!(rpc.followups.is_empty());
}

#[test]
fn parameters_must_be_an_object() {
    for params in [Params::Absent, Params::Array(vec![]), Params::Array(vec!["5".to_string()])] {
        let mut rpc = server();
        let error = rpc.subscribe_tx(params).unwrap_err();
        assert_eq!(error.code, ErrorCode::InvalidParams);
        assert_eq!(error.message, "Expected params array: [{tx_sig, timestamp}]");
    }
}

#[test]
fn fields_must_have_their_types() {
    let sig = quoted(&signature(1));
    let cases: Vec<Vec<(&str, &str)>> = vec![
        vec![],
        vec![("tx_sig", &sig)],
        vec![("timestamp", "1701234567890")],
        vec![("tx_sig", "5"), ("timestamp", "1701234567890")],
        vec![("tx_sig", &sig), ("timestamp", "\"1701234567890\"")],
        vec![("tx_sig", &sig), ("timestamp", "-1")],
        vec![("tx_sig", &sig), ("timestamp", "1701234567890.0")],
        vec![("tx_sig", &sig), ("timestamp", "1701234567890"), ("transaction", "5")],
        vec![("tx_sig", &sig), ("timestamp", "1701234567890"), ("transaction", "[]")],
    ];
    for members in cases {
        let mut rpc = server();
        let error = rpc.subscribe_tx(object(&members)).unwrap_err();
        assert_eq!(error.code, ErrorCode::InvalidParams);
        assert_eq!(error.message, "Expected object with tx_sig and timestamp fields");
        assert!(rpc.subscriptions.is_empty());
    }
    for transaction in ["null", "\"AAAA\""] {
        let mut rpc = server();
        let members = [
            ("tx_sig", sig.as_str()),
            ("timestamp", "1701234567890"),
            ("transaction", transaction),
            ("other", "{}"),
        ];
        assert!(rpc.subscribe_tx(object(&members)).is_ok());
    }
}

#[test]
fn a_timestamp_in_seconds_is_refused() {
    let mut rpc = server();
    let members = [("tx_sig", "\"x\""), ("timestamp", "999999999999")];
    let error = rpc.subscribe_tx(object(&members)).unwrap_err();
    assert_eq!(error.code, ErrorCode::InvalidParams);
    assert_eq!(
        error.message,
        "`timestamp` must be milliseconds since UNIX epoch (ms), not seconds"
    );
    let sig = quoted(&signature(1));
    let members = [("tx_sig", sig.as_str()), ("timestamp", "1000000000000")];
    assert!(rpc.subscribe_tx(object(&members)).is_ok());
}

#[test]
fn an_invalid_signature_is_refused() {
    let mut rpc = server();
    let members = [("tx_sig", "\"abc\""), ("timestamp", "1701234567890")];
    let error = rpc.subscribe_tx(object(&members)).unwrap_err();
    assert_eq!(error.code.code(), -32602);
    assert_eq!(error.message, "Invalid transaction signature");
}

#[test]
fn a_transaction_is_subscribed_to_once() {
    let mut rpc = server();
    rpc.ws_config = Some(config());
    let sig = quoted(&signature(1));
    let members = [("tx_sig", sig.as_str()), ("timestamp", "1701234567890")];
    assert!(rpc.subscribe_tx(object(&members)).is_ok());
    let later = [("tx_sig", sig.as_str()), ("timestamp", "1801234567890")];
    let error = rpc.subscribe_tx(object(&later)).unwrap_err();
    assert_eq!(error.code.code(), -32600);
    assert_eq!(error.message, "Transaction already subscribed");
    let entry = *rpc.subscriptions.get(&signature(1)).expect("entry");
    assert_eq!(entry.client_timestamp_ms, 1_701_234_567_890);
    assert_eq!(rpc.followups.len(), 1);
    // once it was observed, it can be subscribed to again
    report_observed(&vec![signature(1)], &mut rpc.subscriptions, 1, 2);
    assert!(rpc.subscribe_tx(object(&later)).is_ok());
}

#[test]
fn accepted_requests_are_followed_up() {
    let mut rpc = server();
    rpc.ws_config = Some(config());
    let sig = quoted(&signature(1));
    let members = [
        ("tx_sig", sig.as_str()),
        ("timestamp", "1701234567890"),
        ("transaction", "\"AAAA\""),
    ];
    assert!(rpc.subscribe_tx(object(&members)).is_ok());
    assert_eq!(rpc.followups.len(), 1);
    let followup = &rpc.followups[0];
    assert_eq!(followup.tx_sig, signature(1));
    assert_eq!(followup.client_timestamp_ms, 1_701_234_567_890);
    assert_eq!(followup.transaction.as_deref(), Some("AAAA"));
    assert_eq!(followup.config.shred_ws_url.as_deref(), Some("ws://a"));
    assert_eq!(followup.config.local_ws_url, None);
    assert_eq!(followup.config.helius_ws_url.as_deref(), Some("ws://b"));
    assert_eq!(followup.config.solana_rpc_url, "http://c");
}

#[test]
fn requests_are_answered_at_a_given_time() {
    let mut rpc = server();
    let request = |timestamp: u64| SubscribeRequest {
        tx_sig: "sig".to_string(),
        timestamp,
        transaction: None,
    };
    assert!(rpc.handle_request(request(1_700_000_000_000), false, 9).is_err());
    assert!(rpc.handle_request(request(1_700_000_000), true, 9).is_err());
    assert!(rpc.subscriptions.is_empty());
    assert!(rpc.handle_request(request(1_700_000_000_000), true, 1_700_000_000_005).is_ok());
    let found =
        report_observed(&vec!["sig".to_string()], &mut rpc.subscriptions, 6, 1_700_000_000_025);
    assert_eq!(found.len(), 1);
    assert_eq!(found[0].rpc_latency_ms, 5);
    assert_eq!(found[0].after_rpc_latency_ms, 20);
    assert_eq!(found[0].total_latency_ms, 25);
}

#[test]
fn an_object_may_be_wrapped_in_an_array() {
    let sig = quoted(&signature(1));
    let text = format!("{{\"timestamp\":1701234567890,\"tx_sig\":{}}}", sig);
    let mut rpc = server();
    assert!(rpc.subscribe_tx(unwrap_params(Params::Array(vec![text.clone()]))).is_ok());
    assert!(rpc.subscriptions.contains_key(&signature(1)));
    match unwrap_params(Params::Array(vec![text.clone(), text.clone()])) {
        Params::Array(items) => assert_eq!(items.len(), 2),
        other => panic!("{:?}", other),
    }
    assert!(matches!(unwrap_params(Params::Array(vec!["5".to_string()])), Params::Array(_)));
    assert!(matches!(unwrap_params(Params::Absent), Params::Absent));
    match unwrap_params(object(&[("a", "1")])) {
        Params::Object(members) => {
            assert_eq!(members, vec![("a".to_string(), "1".to_string())])
        }
        other => panic!("{:?}", other),
    }
}

#[test]
fn requests_are_made_of_their_fields() {
    let text = |t: &str| Some(Json::Text(t.to_string()));
    let request = make_request(text("s"), Some(Json::Number(Some(7))), Some(Json::Null));
    let request = request.expect("request");
    assert_eq!((request.tx_sig.as_str(), request.timestamp), ("s", 7));
    assert!(request.transaction.is_none());
    assert!(make_request(text("s"), Some(Json::Number(None)), Some(Json::Null)).is_none());
    assert!(make_request(None, Some(Json::Number(Some(7))), Some(Json::Null)).is_none());
    assert!(make_request(text("s"), Some(Json::Number(Some(7))), None).is_none());
}

#[test]
fn json_is_taken_apart_level_by_level() {
    let json = read_json("{\"b\": [1, {\"x\": null}], \"a\": \"\\u0041\", \"b\": [true]}");
    let json = json.expect("json");
    assert_eq!(json.member_text("b").as_deref(), Some("[true]"));
    assert!(matches!(json.member("a"), Some(Json::Text(text)) if text == "A"));
    assert!(json.member("c").is_none());
    assert!(json.item(0).is_none());
    let list = json.member("b").expect("b");
    assert!(matches!(list.item(0), Some(Json::Bool(true))));
    assert!(list.item(1).is_none());
    assert!(matches!(read_json("18446744073709551615"), Some(Json::Number(Some(u64::MAX)))));
    assert!(matches!(read_json("18446744073709551616"), Some(Json::Number(None))));
    assert!(matches!(read_json(" null "), Some(Json::Null)));
    assert!(read_json("nul").is_none());
}

#[test]
fn both_protocols_share_one_table() {
    let mut rpc = server();
    let mut connection = Connection::new(1);
    let mut next_id: u64 = 1;
    let sig = quoted(&signature(1));
    let members = [("tx_sig", sig.as_str()), ("timestamp", "1701234567890")];
    enter_subscription("1", signature(1), &mut rpc.subscriptions, &mut connection, &mut next_id, 5);
    let error = rpc.subscribe_tx(object(&members)).unwrap_err();
    assert_eq!(error.message, "Transaction already subscribed");
    connection.close(&mut rpc.subscriptions);
    assert!(rpc.subscribe_tx(object(&members)).is_ok());
    let mut connection = Connection::new(2);
    let reply = enter_subscription(
        "1",
        signature(1),
        &mut rpc.subscriptions,
        &mut connection,
        &mut next_id,
        6,
    );
    assert!(reply.contains("Transaction already subscribed"));
    assert_eq!(next_id, 2);
}
