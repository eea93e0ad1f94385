use shreds_subscribe::followup::{
    configured_endpoints, decide_send, send_transaction_to_solana, spawn_ws_followups,
    FollowupAction, Payload, Readiness, ReadinessEvent, SendDecision,
};
use shreds_subscribe::rpc::{Followup, WebSocketEndpointsConfig};
use shreds_subscribe::ws_task::{
    extract_notification_signature, write_subscription_request, Notice, TaskAction, TaskEvent,
    WsTask,
};
use shreds_subscribe::json::read_json;
use base64::Engine;

fn config(urls: [Option<&str>; 4], rpc: &str) -> WebSocketEndpointsConfig {
    let url = |i: usize| urls[i].map(|u| u.to_string());
    WebSocketEndpointsConfig {
        shred_ws_url: url(0),
        local_ws_url: url(1),
        local_enhanced_ws_url: url(2),
        helius_ws_url: url(3),
        solana_rpc_url: rpc.to_string(),
    }
}

fn transaction_bytes() -> Vec<u8> {
    let transaction = solana_sdk::transaction::Transaction::default();
    bincode::serialize(&transaction).expect("serialize")
}

fn encoded() -> String {
    base64::engine::general_purpose::STANDARD.encode(transaction_bytes())
}

#[test]
fn configured_endpoints_are_listed_in_order() {
    let list = configured_endpoints(&config([Some("a"), Some("b"), Some("c"), Some("d")], ""));
    let list: Vec<(String, String)> = list.into_iter().map(|e| (e.name, e.url)).collect();
    let pair = |n: &str, u: &str| (n.to_string(), u.to_string());
    assert_eq!(
        list,
        vec![
            pair("Shred WS", "a"),
            pair("Local WS", "b"),
            pair("Local Enhanced WS", "c"),
            pair("Helius WS", "d"),
        ]
    );
    let list = configured_endpoints(&config([None, None, Some("c"), None], ""));
    assert_eq!(list.len(), 1);
    assert_eq!(list[0].name, "Local Enhanced WS");
    assert!(configured_endpoints(&config([None; 4], "")).is_empty());
}

#[test]
fn the_wait_ends_when_all_are_ready() {
    let readiness = Readiness::start(2);
    assert_eq!(readiness, Readiness::Waiting { ready: 0, expected: 2 });
    let readiness = readiness.advance(ReadinessEvent::Confirmed);
    assert_eq!(readiness, Readiness::Waiting { ready: 1, expected: 2 });
    let late = readiness.advance(ReadinessEvent::Timeout);
    assert_eq!(late, Readiness::Settled { ready: 1, expected: 2 });
    let closed = readiness.advance(ReadinessEvent::Closed);
    assert_eq!(closed, Readiness::Settled { ready: 1, expected: 2 });
    let readiness = readiness.advance(ReadinessEvent::Confirmed);
    assert_eq!(readiness, Readiness::Settled { ready: 2, expected: 2 });
    assert_eq!(readiness.advance(ReadinessEvent::Confirmed), readiness);
    assert_eq!(Readiness::start(0), Readiness::Settled { ready: 0, expected: 0 });
}

#[test]
fn a_transaction_is_sent_as_it_was_encoded() {
    let text = format!(" {}\n", encoded());
    match send_transaction_to_solana("http://x", &Some(text)) {
        SendDecision::Send(bytes) => assert_eq!(bytes, transaction_bytes()),
        other => panic!("{:?}", other),
    }
}

#[test]
fn a_transaction_that_cannot_be_sent_is_told() {
    let send = |url: &str, text: Option<&str>| {
        send_transaction_to_solana(url, &text.map(|t| t.to_string()))
    };
    assert!(matches!(send("http://x", None), SendDecision::MissingTransaction));
    assert!(matches!(send("", None), SendDecision::MissingTransaction));
    assert!(matches!(send(" \u{3000}\t", Some(&encoded())), SendDecision::MissingUrl));
    assert!(matches!(send("http://x", Some("***")), SendDecision::NotBase64));
    assert!(matches!(send("http://x", Some("AAA")), SendDecision::NotBase64));
    assert!(matches!(send("http://x", Some("/w==")), SendDecision::NotATransaction));
    assert!(matches!(decide_send(false, Payload::NotBase64), SendDecision::MissingUrl));
    assert!(matches!(
        decide_send(true, Payload::Bytes(vec![1], false)),
        SendDecision::NotATransaction
    ));
}

#[test]
fn the_transaction_is_held_back_until_the_wait_is_over() {
    let followup = Followup {
        config: config([Some("a"), None, None, Some("d")], "http://x"),
        tx_sig: "sig".to_string(),
        client_timestamp_ms: 5,
        transaction: Some(encoded()),
    };
    let (mut run, endpoints, action) = spawn_ws_followups(followup);
    assert_eq!(endpoints.len(), 2);
    assert!(matches!(action, FollowupAction::Wait));
    assert!(matches!(run.advance(ReadinessEvent::Confirmed), FollowupAction::Wait));
    match run.advance(ReadinessEvent::Timeout) {
        FollowupAction::Settle(SendDecision::Send(bytes)) => {
            assert_eq!(bytes, transaction_bytes())
        }
        other => panic!("{:?}", other),
    }
}

#[test]
fn without_endpoints_there_is_no_wait() {
    let followup = Followup {
        config: config([None; 4], "http://x"),
        tx_sig: "sig".to_string(),
        client_timestamp_ms: 5,
        transaction: None,
    };
    let (_, endpoints, action) = spawn_ws_followups(followup);
    assert!(endpoints.is_empty());
    assert!(matches!(action, FollowupAction::Settle(SendDecision::MissingTransaction)));
}

#[test]
fn the_subscription_request_is_json() {
    assert_eq!(
        write_subscription_request("ab\"c"),
        "{\"id\":1,\"jsonrpc\":\"2.0\",\"method\":\"signatureSubscribe\",\
         \"params\":[\"ab\\\"c\",{\"commitment\":\"processed\"}]}"
    );
    let text = write_subscription_request("sig");
    let value: serde_json::Value = serde_json::from_str(&text).expect("json");
    assert_eq!(value.to_string(), text);
}

fn text(t: &str) -> TaskEvent {
    TaskEvent::Text(t.to_string())
}

#[test]
fn the_wait_for_a_notification_goes_its_way() {
    let mut task = WsTask::new(1_000, false);
    assert!(matches!(task.advance(text("no json")), TaskAction::Wait));
    assert!(matches!(task.advance(TaskEvent::Other), TaskAction::Wait));
    match task.advance(TaskEvent::Ping(vec![4])) {
        TaskAction::Pong(payload) => assert_eq!(payload, vec![4]),
        other => panic!("{:?}", other),
    }
    assert!(matches!(task.advance(text("{\"method\":\"other\"}")), TaskAction::Wait));
    assert!(matches!(task.advance(text("{\"result\":null}")), TaskAction::Ready));
    assert!(matches!(task.advance(text("{\"result\":7}")), TaskAction::Wait));
    match task.advance(text("{\"method\":\"signatureNotification\",\"result\":1}")) {
        TaskAction::Finish { arrival_micros, latency_micros } => {
            assert!(arrival_micros > 1_600_000_000_000_000);
            assert_eq!(latency_micros, arrival_micros - 1_000_000);
        }
        other => panic!("{:?}", other),
    }
}

#[test]
fn the_wait_for_a_notification_can_fail() {
    let mut task = WsTask::new(1_000, true);
    assert!(matches!(task.advance(TaskEvent::Closed), TaskAction::ClosedEarly));
    assert!(matches!(task.advance(TaskEvent::Failed), TaskAction::Fail));
    match task.advance(text("{\"error\":{\"code\":-1},\"result\":1}")) {
        TaskAction::Reject(error) => assert_eq!(error, "{\"code\":-1}"),
        other => panic!("{:?}", other),
    }
}

#[test]
fn latencies_are_in_microseconds() {
    let notice = || {
        Some(Notice {
            error: None,
            has_result: false,
            method: Some("signatureNotification".to_string()),
            signature: None,
        })
    };
    let mut task = WsTask::new(1_000, true);
    match task.judge(notice(), 1_000_250) {
        TaskAction::Finish { arrival_micros, latency_micros } => {
            assert_eq!((arrival_micros, latency_micros), (1_000_250, 250))
        }
        other => panic!("{:?}", other),
    }
    match task.judge(notice(), 999_999) {
        TaskAction::Finish { latency_micros, .. } => assert_eq!(latency_micros, 0),
        other => panic!("{:?}", other),
    }
}

#[test]
fn notifications_about_other_signatures_are_ignored() {
    let mut task = WsTask::new(1_000, true);
    task.signature_filter = Some("abc".to_string());
    let about = |s: &str| {
        format!(
            "{{\"method\":\"signatureNotification\",\"params\":{{\"result\":{{\"signature\":{}}}}}}}",
            s
        )
    };
    assert!(matches!(task.advance(text(&about("\"abd\""))), TaskAction::Wait));
    assert!(matches!(task.advance(text(&about("5"))), TaskAction::Wait));
    assert!(matches!(task.advance(text(&about("\"abc\""))), TaskAction::Finish { .. }));
}

#[test]
fn the_signature_of_a_notification_is_found() {
    let find = |t: &str| extract_notification_signature(&read_json(t).expect("json"));
    assert_eq!(
        find("{\"params\":{\"result\":{\"signature\":\"s\"}}}").as_deref(),
        Some("s")
    );
    let nested = "{\"params\":{\"result\":{\"signature\":1,\"value\":{\"transaction\":\
                  {\"transaction\":{\"signatures\":[\"t\",\"u\"]}}}}}}";
    assert_eq!(find(nested).as_deref(), Some("t"));
    let empty = "{\"params\":{\"result\":{\"value\":{\"transaction\":\
                 {\"transaction\":{\"signatures\":[]}}}}}}";
    assert_eq!(find(empty), None);
    assert_eq!(find("{\"params\":[]}"), None);
    assert_eq!(find("3"), None);
}

/// The first word of each action up to the one that ends the wait.
fn course(confirmed: bool, events: Vec<TaskEvent>) -> Vec<&'static str> {
    let mut task = WsTask::new(1_000, confirmed);
    let mut words = vec![];
    for event in events {
        let (word, last) = match task.advance(event) {
            TaskAction::Wait => ("wait", false),
            TaskAction::Ready => ("ready", false),
            TaskAction::Pong(_) => ("pong", false),
            TaskAction::Finish { .. } => ("finish", true),
            TaskAction::Reject(_) => ("reject", true),
            TaskAction::ClosedEarly => ("closed", true),
            TaskAction::Fail => ("fail", true),
        };
        words.push(word);
        if last {
            break;
        }
    }
    words
}

#[test]
fn what_comes_first_ends_the_wait() {
    let result = || text("{\"result\":1}");
    let awaited = || text("{\"method\":\"signatureNotification\"}");
    let taken_for_result = || text("{\"method\":\"signatureNotification\",\"result\":1}");
    let error = || text("{\"method\":\"signatureNotification\",\"error\":null}");
    assert_eq!(
        course(false, vec![result(), TaskEvent::Ping(vec![]), result(), awaited(), error()]),
        vec!["ready", "pong", "wait", "finish"]
    );
    assert_eq!(course(false, vec![awaited(), TaskEvent::Closed]), vec!["finish"]);
    assert_eq!(
        course(false, vec![taken_for_result(), taken_for_result()]),
        vec!["ready", "finish"]
    );
    assert_eq!(course(true, vec![taken_for_result()]), vec!["finish"]);
    assert_eq!(course(true, vec![result(), TaskEvent::Closed, awaited()]), vec!["wait", "closed"]);
    assert_eq!(course(true, vec![TaskEvent::Failed, awaited()]), vec!["fail"]);
    assert_eq!(course(true, vec![TaskEvent::Other, error(), awaited()]), vec!["wait", "reject"]);
    assert_eq!(course(false, vec![result(), TaskEvent::Other]), vec!["ready", "wait"]);
}
