use shreds_subscribe::clock::{
    checked_timestamp, current_micros, current_timestamp_ms, micros_or_zero, millis_or_zero,
    ClockError, Reading,
};
use shreds_subscribe::config::{config_file, resolve, Config};
use shreds_subscribe::latency;
use shreds_subscribe::latency::{
    call_subscribe_tx, choose_timestamp_text, format_timestamp, judge_answer,
    write_subscribe_tx_request, write_transaction_request, SubscribeOutcome,
};
use shreds_subscribe::text::{decimal_text, signed_decimal_text};
use std::time::{SystemTime, UNIX_EPOCH};

#[test]
fn numbers_are_written_in_decimal() {
    for n in [0, 9, 10, 99, 100, 12_345, u64::MAX] {
        assert_eq!(decimal_text(n), n.to_string());
    }
    for n in [0, -1, -10, 32_700, -32_700, i64::MAX, i64::MIN] {
        assert_eq!(signed_decimal_text(n), n.to_string());
    }
}

#[test]
fn the_clock_shows_the_time() {
    let elapsed = || SystemTime::now().duration_since(UNIX_EPOCH).expect("clock");
    let before = elapsed();
    let millis = current_timestamp_ms();
    let checked = latency::current_timestamp_ms().expect("clock");
    let micros = current_micros();
    let after = elapsed();
    assert!(before.as_millis() as u64 <= millis && millis <= after.as_millis() as u64);
    assert!(before.as_millis() as u64 <= checked && checked <= after.as_millis() as u64);
    assert!(before.as_micros() <= micros && micros <= after.as_micros());
}

#[test]
fn readings_are_cut_to_whole_units() {
    let reading = Some(Reading { secs: 3, nanos: 2_999_999 });
    assert_eq!(checked_timestamp(reading), Ok(3_002));
    assert_eq!(millis_or_zero(reading), 3_002);
    assert_eq!(micros_or_zero(reading), 3_002_999);
    assert_eq!(checked_timestamp(None), Err(ClockError));
    assert_eq!(millis_or_zero(None), 0);
    assert_eq!(micros_or_zero(None), 0);
    let far = Some(Reading { secs: u64::MAX, nanos: 999_999_999 });
    assert_eq!(checked_timestamp(far), Ok(u64::MAX.wrapping_mul(1_000).wrapping_add(999)));
}

fn config(port: Option<u16>, path: Option<&str>) -> Config {
    Config {
        udp_port: port,
        rpc_port: port,
        ws_port: port,
        trace_log_path: path.map(|p| p.to_string()),
        log_path: path.map(|p| p.to_string()),
    }
}

#[test]
fn the_command_line_counts_before_the_file() {
    let settings = resolve(config(Some(1), Some("a")), config(Some(2), Some("b")));
    assert_eq!((settings.udp_port, settings.rpc_port, settings.ws_port), (1, 1, 1));
    assert_eq!(settings.trace_log_path.as_deref(), Some("a"));
    assert_eq!(settings.log_path.as_deref(), Some("a"));
    let settings = resolve(Config::default(), config(Some(2), Some("b")));
    assert_eq!((settings.udp_port, settings.rpc_port, settings.ws_port), (2, 2, 2));
    assert_eq!(settings.trace_log_path.as_deref(), Some("b"));
    assert_eq!(settings.log_path.as_deref(), Some("b"));
}

#[test]
fn the_defaults_are_known() {
    let settings = resolve(Config::default(), Config::default());
    assert_eq!(settings.udp_port, 18_888);
    assert_eq!(settings.rpc_port, 12_345);
    assert_eq!(settings.ws_port, 38_899);
    assert_eq!(settings.trace_log_path, None);
    assert_eq!(settings.log_path, None);
}

#[test]
fn the_configuration_file_is_found() {
    assert_eq!(config_file(Some("x.toml".to_string()), true).as_deref(), Some("x.toml"));
    assert_eq!(config_file(None, true).as_deref(), Some("config.toml"));
    assert_eq!(config_file(None, false), None);
}

#[test]
fn the_request_to_subscribe_is_json() {
    let text = write_subscribe_tx_request("sig", 1_701_234_567_890, "AA\"A=");
    assert_eq!(
        text,
        "{\"id\":1,\"jsonrpc\":\"2.0\",\"method\":\"subscribe_tx\",\"params\":\
         [{\"timestamp\":1701234567890,\"transaction\":\"AA\\\"A=\",\"tx_sig\":\"sig\"}]}"
    );
    let value: serde_json::Value = serde_json::from_str(&text).expect("json");
    assert_eq!(value.to_string(), text);
}

#[test]
fn a_transaction_is_sent_in_base_64() {
    let text = write_transaction_request("sig", 7, &[0, 255, 16]);
    assert_eq!(text, write_subscribe_tx_request("sig", 7, "AP8Q"));
    assert_eq!(
        write_transaction_request("sig", 7, &[255]),
        write_subscribe_tx_request("sig", 7, "/w==")
    );
}

#[test]
fn answers_are_judged() {
    let ok = "{\"jsonrpc\":\"2.0\",\"result\":{\"status\":\"subscribed\"},\"id\":1}";
    assert!(matches!(call_subscribe_tx(true, ok), SubscribeOutcome::Accepted));
    assert!(matches!(call_subscribe_tx(false, ok), SubscribeOutcome::BadStatus));
    assert!(matches!(call_subscribe_tx(true, "<html>"), SubscribeOutcome::BadBody));
    match call_subscribe_tx(true, "{\"error\": {\"code\": -32600}, \"id\": 1}") {
        SubscribeOutcome::Refused(error) => assert_eq!(error, "{\"code\":-32600}"),
        other => panic!("{:?}", other),
    }
    assert!(matches!(judge_answer(true, None), SubscribeOutcome::BadBody));
}

#[test]
fn timestamps_are_written_as_dates() {
    assert_eq!(format_timestamp(0), "1970-01-01 00:00:00.000 UTC");
    assert_eq!(format_timestamp(1_701_234_567_890), "2023-11-29 05:09:27.890 UTC");
    assert_eq!(format_timestamp(u64::MAX), "18446744073709551615");
    assert_eq!(choose_timestamp_text(None, 12), "12");
    assert_eq!(choose_timestamp_text(Some("x".to_string()), 12), "x");
}
