use shreds_subscribe::deshred::{reconstruct_shreds, Reconstruction};
use shreds_subscribe::reconstruction::{Action, Event, Step};
use shreds_subscribe::rpc::{Params, Rpc, RpcImpl};
use shreds_subscribe::scan::{
    report_observed, scan_entries, scan_entries_for_subscriptions_for_test, Entry, Transaction,
};
use shreds_subscribe::shred::{
    CodingHeader, CommonHeader, DataHeader, Shred, ShredCode, ShredData, ShredVariant,
    SIZE_OF_CODE_PAYLOAD,
};
use shreds_subscribe::subscriptions::{
    new_subscriptions, subscribe, Subscription, Subscriptions, WebsocketSubscription,
};
use solana_sdk::instruction::Instruction;
use solana_sdk::message::Message;
use solana_sdk::pubkey::Pubkey;
use solana_sdk::signature::{Keypair, Signer};
use std::time::{SystemTime, UNIX_EPOCH};

fn now_ms() -> u64 {
    SystemTime::now()
        .duration_since(UNIX_EPOCH)
        .map(|d| d.as_millis() as u64)
        .unwrap_or(0)
}

fn transfer() -> solana_sdk::transaction::Transaction {
    let from = Keypair::new();
    let to = Keypair::new();
    let system_program_id = Pubkey::new_from_array([0u8; 32]);
    let ix = Instruction::new_with_bincode(
        system_program_id,
        &(2u32, from.pubkey(), to.pubkey(), 1u64),
        vec![
            solana_sdk::instruction::AccountMeta::new(from.pubkey(), true),
            solana_sdk::instruction::AccountMeta::new(to.pubkey(), false),
        ],
    );
    let message = Message::new(&[ix], Some(&from.pubkey()));
    let recent_blockhash = solana_sdk::hash::Hash::new_unique();
    let mut tx = solana_sdk::transaction::Transaction::new_unsigned(message);
    tx.try_sign(&[&from], recent_blockhash).expect("sign");
    tx
}

fn ledger_entry(txs: Vec<solana_sdk::transaction::Transaction>) -> solana_entry::entry::Entry {
    let prev_hash = solana_sdk::hash::Hash::new_unique();
    solana_entry::entry::Entry::new(&prev_hash, 0, txs)
}

fn entry_of(entry: &solana_entry::entry::Entry) -> Entry {
    Entry {
        transactions: entry
            .transactions
            .iter()
            .map(|tx| Transaction {
                signatures: tx.signatures.iter().map(|s| (*s).into()).collect(),
            })
            .collect(),
    }
}

fn subscription(client: u64, received: u64) -> Subscription {
    Subscription { client_timestamp_ms: client, rpc_received_ms: received, websocket: None }
}

fn table_of(signatures: &[&str]) -> Subscriptions {
    let mut table = new_subscriptions();
    for signature in signatures {
        assert!(subscribe(&mut table, signature.to_string(), subscription(10, 15)));
    }
    table
}

#[test]
fn subscribe_and_detect_sol_transfer() {
    // Construct a simple SOL transfer transaction
    let tx = transfer();
    let tx_sig_str = tx.signatures[0].to_string();

    // Build a minimal entry containing the transaction
    let entries = vec![entry_of(&ledger_entry(vec![tx.clone()]))];

    // Create RPC with the subscriptions map
    let mut rpc =
        RpcImpl { subscriptions: new_subscriptions(), ws_config: None, followups: vec![] };
    let params = Params::Object(vec![
        ("tx_sig".to_string(), serde_json::Value::from(tx_sig_str.clone()).to_string()),
        ("timestamp".to_string(), serde_json::Value::from(now_ms()).to_string()),
    ]);
    let resp = rpc.subscribe_tx(params).expect("rpc subscribe ok");
    assert_eq!(resp.status, "subscribed");
    assert!(rpc.subscriptions.contains_key(&tx_sig_str));

    // Feed the entries into the scan helper to simulate detection
    let matched = scan_entries_for_subscriptions_for_test(&entries, &mut rpc.subscriptions);
    assert!(matched.contains(&tx_sig_str));
    assert!(!rpc.subscriptions.contains_key(&tx_sig_str));
}

#[test]
fn reports_hold_the_latencies() {
    let mut table = table_of(&["a"]);
    let found = report_observed(&vec!["b".to_string(), "a".to_string()], &mut table, 7, 40);
    assert_eq!(found.len(), 1);
    assert_eq!(found[0].signature, "a");
    assert_eq!(found[0].slot, 7);
    assert_eq!(found[0].total_latency_ms, 30);
    assert_eq!(found[0].rpc_latency_ms, 5);
    assert_eq!(found[0].after_rpc_latency_ms, 25);
    assert_eq!(found[0].client_timestamp_ms, 10);
    assert_eq!(found[0].rpc_received_ms, 15);
    assert_eq!(found[0].found_ms, 40);
    assert_eq!(found[0].websocket, None);
    assert!(table.is_empty());
}

#[test]
fn latencies_do_not_go_below_zero() {
    let mut table = table_of(&["a"]);
    let found = report_observed(&vec!["a".to_string()], &mut table, 1, 5);
    assert_eq!(found[0].total_latency_ms, 0);
    assert_eq!(found[0].rpc_latency_ms, 5);
    assert_eq!(found[0].after_rpc_latency_ms, 0);
}

#[test]
fn a_subscription_is_used_once() {
    let mut table = table_of(&["a", "c"]);
    let seen = vec!["a".to_string(), "b".to_string(), "a".to_string()];
    let first = report_observed(&seen, &mut table, 1, 20);
    assert_eq!(first.len(), 1);
    let again = report_observed(&seen, &mut table, 1, 21);
    assert!(again.is_empty());
    assert!(table.contains_key("c"));
    assert!(subscribe(&mut table, "a".to_string(), subscription(30, 31)));
    let third = report_observed(&seen, &mut table, 2, 50);
    assert_eq!(third.len(), 1);
    assert_eq!(third[0].total_latency_ms, 20);
}

#[test]
fn scanning_twice_finds_what_one_scan_finds() {
    let first = vec!["a".to_string(), "b".to_string()];
    let second = vec!["b".to_string(), "c".to_string()];
    let mut both = first.clone();
    both.extend(second.clone());

    let mut one = table_of(&["a", "b", "c", "d"]);
    let mut names: Vec<String> = vec![];
    for list in [&first, &second] {
        names.extend(report_observed(list, &mut one, 1, 20).into_iter().map(|f| f.signature));
    }
    let mut other = table_of(&["a", "b", "c", "d"]);
    let all: Vec<String> =
        report_observed(&both, &mut other, 1, 20).into_iter().map(|f| f.signature).collect();
    assert_eq!(names, all);
    assert_eq!(all, vec!["a".to_string(), "b".to_string(), "c".to_string()]);
    assert_eq!(one.len(), 1);
    assert_eq!(other.len(), 1);
}

#[test]
fn only_the_first_signature_identifies_a_transaction() {
    let first = solana_sdk::signature::Signature::from([1u8; 64]);
    let second = solana_sdk::signature::Signature::from([2u8; 64]);
    let entries = vec![
        Entry { transactions: vec![Transaction { signatures: vec![] }] },
        Entry { transactions: vec![Transaction { signatures: vec![[1u8; 64], [2u8; 64]] }] },
    ];
    let mut table = table_of(&[&first.to_string(), &second.to_string()]);
    let found = scan_entries(&entries, &mut table, 3, 20);
    assert_eq!(found.len(), 1);
    assert_eq!(found[0].signature, first.to_string());
    assert!(table.contains_key(&second.to_string()));
}

#[test]
fn the_trace_log_line_has_its_fields() {
    let mut table = table_of(&["abc"]);
    let found = report_observed(&vec!["abc".to_string()], &mut table, 1, 1_701_234_567_890);
    let line = found[0].trace_log_line();
    assert_eq!(line, "SOL,abc,,,,,501,10010,node_e2e_shreds_parse,,,1701234567890,,,\n");
    let fields: Vec<&str> = line.trim_end_matches('\n').split(',').collect();
    assert_eq!(fields.len(), 15);
    assert_eq!((fields[0], fields[1]), ("SOL", "abc"));
    assert_eq!((fields[6], fields[7], fields[8]), ("501", "10010", "node_e2e_shreds_parse"));
    assert_eq!(fields[11], "1701234567890");
    assert_eq!(fields.iter().filter(|field| field.is_empty()).count(), 9);
}

#[test]
fn a_websocket_subscriber_is_notified() {
    let mut table = new_subscriptions();
    let waiting = Subscription {
        client_timestamp_ms: 1,
        rpc_received_ms: 1,
        websocket: Some(WebsocketSubscription { id: 12, sender: 3 }),
    };
    assert!(subscribe(&mut table, "a".to_string(), waiting));
    assert!(subscribe(&mut table, "b".to_string(), subscription(1, 1)));
    let found = report_observed(&vec!["a".to_string(), "b".to_string()], &mut table, 345, 9);
    let (connection, text) = found[0].notification().expect("notification");
    assert_eq!(connection, 3);
    assert_eq!(
        text,
        "{\"jsonrpc\":\"2.0\",\"method\":\"signatureNotification\",\"params\":{\"result\":\
         {\"context\":{\"slot\":345},\"value\":{\"err\":null}},\"subscription\":12}}"
    );
    let value: serde_json::Value = serde_json::from_str(&text).expect("json");
    assert_eq!(value.to_string(), text);
    let params = value.get("params").and_then(|p| p.as_object()).expect("params");
    assert_eq!(params.get("subscription").and_then(|v| v.as_u64()), Some(12));
    let result = params.get("result").and_then(|r| r.as_object()).expect("result");
    let slot = result.get("context").and_then(|c| c.get("slot")).and_then(|s| s.as_u64());
    assert_eq!(slot, Some(345));
    assert!(result.get("value").is_some());
    assert!(found[1].notification().is_none());
}

/// The only shred of a run of entries.
fn closing_shred() -> Shred {
    Shred::ShredData(ShredData {
        common_header: CommonHeader {
            signature: [0u8; 64],
            shred_variant: ShredVariant::MerkleData {
                proof_size: 6,
                chained: false,
                resigned: false,
            },
            slot: 77,
            index: 0,
            version: 1,
            fec_set_index: 0,
        },
        data_header: DataHeader { parent_offset: 1, flags: 0, size: 100 },
        data_complete: true,
        last_in_slot: false,
        data: Some(vec![1, 2, 3]),
        payload: vec![9, 9],
    })
}

#[test]
fn entries_of_a_payload_are_searched() {
    let tx = transfer();
    let signature = tx.signatures[0].to_string();
    let other = transfer();
    let entries = vec![ledger_entry(vec![other]), ledger_entry(vec![tx])];
    let payload = bincode::serialize(&entries).expect("serialize");

    let mut table = table_of(&[&signature, "x"]);
    let mut state = Reconstruction::new();
    let shred = closing_shred();
    let Step { found, undecodable, action } =
        reconstruct_shreds(&mut state, &mut table, Event::Batch(vec![shred]));
    assert!(found.is_empty());
    assert!(!undecodable);
    match action {
        Action::Deshred { slot, start, end, payloads } => {
            assert_eq!((slot, start, end), (77, 0, 0));
            assert_eq!(payloads, vec![vec![9, 9]]);
        }
        other => panic!("{:?}", other),
    }
    let before = now_ms();
    let Step { found, undecodable, action } =
        reconstruct_shreds(&mut state, &mut table, Event::Deshredded(Some(payload)));
    let after = now_ms();
    assert_eq!(found.len(), 1);
    assert!(!undecodable);
    assert_eq!(found[0].signature, signature);
    assert_eq!(found[0].slot, 77);
    assert!(before <= found[0].found_ms && found[0].found_ms <= after);
    assert!(!table.contains_key(&signature));
    assert!(table.contains_key("x"));
    match action {
        Action::Done { recovered, incomplete } => {
            assert_eq!(recovered, 0);
            assert!(incomplete.is_empty());
        }
        other => panic!("{:?}", other),
    }
}

#[test]
fn a_payload_without_entries_is_told() {
    let mut table = table_of(&["x"]);
    let mut state = Reconstruction::new();
    for (payload, told) in [(None, false), (Some(vec![1, 2, 3]), true), (Some(vec![0; 8]), false)] {
        let coding = Shred::ShredCode(ShredCode {
            common_header: CommonHeader {
                shred_variant: ShredVariant::MerkleCode {
                    proof_size: 6,
                    chained: false,
                    resigned: false,
                },
                ..*closing_shred().common_header()
            },
            coding_header: CodingHeader { num_data_shreds: 1, num_coding_shreds: 1, position: 0 },
            payload: vec![0u8; SIZE_OF_CODE_PAYLOAD],
        });
        let shreds = Event::Batch(vec![closing_shred(), coding]);
        let step = reconstruct_shreds(&mut state, &mut table, shreds);
        assert!(!step.undecodable);
        assert!(matches!(step.action, Action::Deshred { .. }));
        let step = reconstruct_shreds(&mut state, &mut table, Event::Deshredded(payload));
        assert_eq!(step.undecodable, told);
        assert!(step.found.is_empty());
    }
    assert_eq!(table.len(), 1);
}
