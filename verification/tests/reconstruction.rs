use shreds_subscribe::deshred::{payload_len, Reconstruction};
use shreds_subscribe::reconstruction::{Action, Event, IncompleteSlot, Progress, Step};
use shreds_subscribe::scan::{Entry, Transaction};
use shreds_subscribe::shred::{
    CodingHeader, CommonHeader, DataHeader, Shred, ShredCode, ShredData, ShredVariant,
    SIZE_OF_CODE_PAYLOAD,
};
use shreds_subscribe::subscriptions::{new_subscriptions, subscribe, Subscription, Subscriptions};

fn data(slot: u64, index: u32, fec_set_index: u32, complete: bool) -> Shred {
    Shred::ShredData(ShredData {
        common_header: CommonHeader {
            signature: [7u8; 64],
            shred_variant: ShredVariant::MerkleData {
                proof_size: 6,
                chained: false,
                resigned: false,
            },
            slot,
            index,
            version: 2,
            fec_set_index,
        },
        data_header: DataHeader { parent_offset: 1, flags: 0, size: 10 },
        data_complete: complete,
        last_in_slot: false,
        data: Some(vec![index as u8]),
        payload: vec![slot as u8, index as u8],
    })
}

fn code(slot: u64, index: u32, fec_set_index: u32, num_data: u16) -> Shred {
    Shred::ShredCode(ShredCode {
        common_header: CommonHeader {
            signature: [7u8; 64],
            shred_variant: ShredVariant::MerkleCode {
                proof_size: 6,
                chained: false,
                resigned: false,
            },
            slot,
            index,
            version: 2,
            fec_set_index,
        },
        coding_header: CodingHeader {
            num_data_shreds: num_data,
            num_coding_shreds: num_data,
            position: index as u16,
        },
        payload: vec![3u8; SIZE_OF_CODE_PAYLOAD],
    })
}

fn batch(state: &mut Reconstruction, shreds: Vec<Shred>) -> Action {
    let mut table = new_subscriptions();
    state.advance(&mut table, Progress::Batch(shreds), 0).action
}

fn recovered(state: &mut Reconstruction, shreds: Option<Vec<Option<Shred>>>) -> Action {
    let mut table = new_subscriptions();
    state.advance(&mut table, Progress::Recovered(shreds), 0).action
}

fn decoded(state: &mut Reconstruction, entries: Option<Vec<Entry>>) -> Action {
    let mut table = new_subscriptions();
    state.advance(&mut table, Progress::Decoded(entries), 0).action
}

fn done(action: Action) -> (usize, Vec<IncompleteSlot>) {
    match action {
        Action::Done { recovered, incomplete } => (recovered, incomplete),
        other => panic!("{:?}", other),
    }
}

fn deshred(action: Action) -> (u64, usize, usize, Vec<Vec<u8>>) {
    match action {
        Action::Deshred { slot, start, end, payloads } => (slot, start, end, payloads),
        other => panic!("{:?}", other),
    }
}

fn recover(action: Action) -> (u64, u32, Vec<(&'static str, u32)>) {
    match action {
        Action::Recover { slot, fec_set_index, shreds } => {
            let keys = shreds
                .iter()
                .map(|s| match s {
                    Shred::ShredData(s) => ("data", s.common_header.index),
                    Shred::ShredCode(s) => ("code", s.common_header.index),
                })
                .collect();
            (slot, fec_set_index, keys)
        }
        other => panic!("{:?}", other),
    }
}

#[test]
fn an_empty_batch_is_done_at_once() {
    let mut state = Reconstruction::new();
    let (count, incomplete) = done(batch(&mut state, vec![]));
    assert_eq!(count, 0);
    assert!(incomplete.is_empty());
}

#[test]
fn a_closed_run_is_deshredded_in_order() {
    let mut state = Reconstruction::new();
    let action = batch(
        &mut state,
        vec![data(4, 1, 0, false), data(4, 2, 0, true), data(4, 0, 0, false)],
    );
    let (slot, start, end, payloads) = deshred(action);
    assert_eq!((slot, start, end), (4, 0, 2));
    assert_eq!(payloads, vec![vec![4, 0], vec![4, 1], vec![4, 2]]);
    done(decoded(&mut state, Some(vec![])));
    // the run is decoded, so its shreds are of no more use
    done(batch(&mut state, vec![data(4, 1, 0, false)]));
}

#[test]
fn a_payload_that_holds_no_entries_may_be_tried_again() {
    let mut state = Reconstruction::new();
    let action = batch(&mut state, vec![data(4, 0, 0, true)]);
    assert_eq!(deshred(action).0, 4);
    done(decoded(&mut state, None));
    let action = batch(&mut state, vec![code(4, 0, 0, 1)]);
    assert_eq!(deshred(action).1, 0);
    done(decoded(&mut state, None));
}

#[test]
fn a_run_without_a_known_start_waits() {
    let mut state = Reconstruction::new();
    done(batch(&mut state, vec![data(4, 3, 3, true)]));
    done(batch(&mut state, vec![data(4, 0, 0, false), data(4, 1, 0, false)]));
    let action = batch(&mut state, vec![data(4, 2, 0, false)]);
    let (_, start, end, payloads) = deshred(action);
    assert_eq!((start, end), (0, 3));
    assert_eq!(payloads.len(), 4);
    done(decoded(&mut state, Some(vec![])));
}

#[test]
fn recovery_is_asked_for_when_enough_shreds_arrived() {
    let mut state = Reconstruction::new();
    done(batch(&mut state, vec![data(4, 2, 0, true)]));
    let action = batch(
        &mut state,
        vec![code(4, 1, 0, 3), data(4, 0, 0, false), code(4, 0, 0, 3)],
    );
    let (slot, fec_set_index, keys) = recover(action);
    assert_eq!((slot, fec_set_index), (4, 0));
    assert_eq!(
        keys,
        vec![("data", 0), ("data", 2), ("code", 0), ("code", 1)]
    );
    // one shred could not be recovered, one was known, one is new
    let outcome = vec![None, Some(data(4, 0, 0, false)), Some(data(4, 1, 0, false))];
    let action = recovered(&mut state, Some(outcome));
    let (_, start, end, payloads) = deshred(action);
    assert_eq!((start, end), (0, 2));
    assert_eq!(payloads, vec![vec![4, 0], vec![4, 1], vec![4, 2]]);
    let (count, _) = done(decoded(&mut state, Some(vec![])));
    assert_eq!(count, 1);
    // the set is recovered: nothing of it is taken any more
    done(batch(&mut state, vec![code(4, 2, 0, 3)]));
}

#[test]
fn a_failed_recovery_is_tried_again_with_the_next_shred() {
    let mut state = Reconstruction::new();
    let action = batch(&mut state, vec![data(4, 0, 0, false), code(4, 0, 0, 2)]);
    assert_eq!(recover(action).2.len(), 2);
    let (count, _) = done(recovered(&mut state, None));
    assert_eq!(count, 0);
    let action = batch(&mut state, vec![code(4, 1, 0, 2)]);
    assert_eq!(recover(action).2.len(), 3);
    let (count, _) = done(recovered(&mut state, Some(vec![None])));
    assert_eq!(count, 0);
}

#[test]
fn a_complete_set_needs_no_recovery() {
    let mut state = Reconstruction::new();
    let action =
        batch(&mut state, vec![data(4, 0, 0, false), data(4, 1, 0, true), code(4, 0, 0, 2)]);
    assert_eq!(deshred(action).2, 1);
    done(decoded(&mut state, None));
}

#[test]
fn sets_are_worked_on_in_order() {
    let mut state = Reconstruction::new();
    let action = batch(
        &mut state,
        vec![
            data(9, 0, 0, true),
            data(4, 1, 1, true),
            data(4, 0, 0, true),
            data(9, 0, 0, true),
        ],
    );
    assert_eq!(deshred(action).0, 4);
    let action = decoded(&mut state, Some(vec![]));
    let (slot, start, _, _) = deshred(action);
    assert_eq!((slot, start), (4, 1));
    let action = decoded(&mut state, Some(vec![]));
    assert_eq!(deshred(action).0, 9);
    done(decoded(&mut state, Some(vec![])));
}

#[test]
fn a_repeated_shred_changes_nothing() {
    let mut state = Reconstruction::new();
    done(batch(&mut state, vec![data(4, 0, 0, false), data(4, 0, 0, false)]));
    let action = batch(&mut state, vec![code(4, 0, 0, 3), code(4, 0, 0, 3)]);
    done(action);
    // two shreds of three are there, whatever was repeated
    let action = batch(&mut state, vec![code(4, 1, 0, 3)]);
    assert_eq!(recover(action).2.len(), 3);
    done(recovered(&mut state, None));
}

#[test]
fn old_shreds_are_not_taken() {
    let mut state = Reconstruction::new();
    done(batch(&mut state, vec![data(100, 5, 5, false)]));
    done(batch(&mut state, vec![data(89, 0, 0, true)]));
    let action = batch(&mut state, vec![data(90, 0, 0, true)]);
    assert_eq!(deshred(action).0, 90);
    done(decoded(&mut state, Some(vec![])));
}

#[test]
fn old_slots_are_given_up() {
    let mut state = Reconstruction::new();
    for slot in 0..10 {
        let (_, incomplete) = done(batch(&mut state, vec![data(slot, 5, 3, slot == 1)]));
        assert!(incomplete.is_empty());
    }
    let (_, incomplete) = done(batch(&mut state, vec![data(10, 5, 3, false)]));
    assert!(incomplete.is_empty());
    done(batch(&mut state, vec![data(2, 9, 8, true), data(2, 10, 8, false)]));
    let (_, incomplete) = done(batch(&mut state, vec![data(13, 5, 3, false)]));
    let listed: Vec<(u64, Vec<(u32, u16, usize)>)> =
        incomplete.into_iter().map(|i| (i.slot, i.fec_sets)).collect();
    assert_eq!(
        listed,
        vec![
            (0, vec![(3, 0, 1)]),
            (1, vec![(3, 3, 1)]),
            (2, vec![(3, 0, 1), (8, 2, 2)]),
        ]
    );
    // a slot that was given up stays so
    done(batch(&mut state, vec![data(2, 0, 0, true)]));
    let action = batch(&mut state, vec![data(3, 0, 0, true)]);
    assert_eq!(deshred(action).0, 3);
    done(decoded(&mut state, None));
}

#[test]
fn subscribed_transactions_are_found_in_decoded_entries() {
    let mut table: Subscriptions = new_subscriptions();
    let signature = solana_sdk::signature::Signature::from([9u8; 64]).to_string();
    let waiting =
        Subscription { client_timestamp_ms: 100, rpc_received_ms: 101, websocket: None };
    assert!(subscribe(&mut table, signature.clone(), waiting));
    let mut state = Reconstruction::new();
    let shreds = vec![data(4, 0, 0, true)];
    let step: Step = state.advance(&mut table, Progress::Batch(shreds), 0);
    assert!(step.found.is_empty());
    let entries =
        vec![Entry { transactions: vec![Transaction { signatures: vec![[9u8; 64]] }] }];
    let step = state.advance(&mut table, Progress::Decoded(Some(entries)), 150);
    assert_eq!(step.found.len(), 1);
    assert_eq!(step.found[0].signature, signature);
    assert_eq!(step.found[0].slot, 4);
    assert_eq!(step.found[0].total_latency_ms, 50);
    assert!(table.is_empty());
}

#[test]
fn the_payload_of_a_packet_is_what_was_received() {
    assert_eq!(payload_len(100, 1_232), Some(100));
    assert_eq!(payload_len(1_232, 1_232), Some(1_232));
    assert_eq!(payload_len(1_233, 1_232), None);
    assert_eq!(payload_len(2_000, 1_232), None);
    assert_eq!(payload_len(0, 1_232), None);
    assert_eq!(payload_len(5, 0), None);
}

#[test]
fn shreds_outside_a_slot_are_not_expected() {
    let mut state = Reconstruction::new();
    assert!(state.expects(&Event::Batch(vec![])));
    assert!(state.expects(&Event::Batch(vec![data(4, 32_767, 32_767, false)])));
    assert!(!state.expects(&Event::Batch(vec![data(4, 32_768, 0, false)])));
    assert!(!state.expects(&Event::Batch(vec![code(4, 32_768, 0, 2)])));
    assert!(!state.expects(&Event::Batch(vec![data(4, 0, 0, true), data(4, 0, 32_768, true)])));
    // a slot that is too old by the time its shred is looked at is as good as any
    assert!(state.expects(&Event::Batch(vec![data(40, 0, 0, true), data(4, 32_768, 32_768, true)])));
    assert!(!state.expects(&Event::Batch(vec![data(4, 32_768, 32_768, true), data(40, 0, 0, true)])));
    let action = batch(&mut state, vec![data(4, 0, 0, true)]);
    assert_eq!(deshred(action).0, 4);
    done(decoded(&mut state, Some(vec![])));
    // the set is recovered
    assert!(state.expects(&Event::Batch(vec![data(4, 32_768, 0, false)])));
    assert!(!state.expects(&Event::Batch(vec![data(4, 32_768, 1, false)])));
    done(batch(&mut state, vec![data(4, 32_768, 0, false)]));
}

#[test]
fn only_what_was_asked_for_is_expected() {
    let mut state = Reconstruction::new();
    assert!(!state.expects(&Event::Recovered(None)));
    assert!(!state.expects(&Event::Deshredded(None)));
    let action = batch(&mut state, vec![data(4, 0, 0, false), code(4, 0, 0, 2)]);
    assert_eq!(recover(action).0, 4);
    assert!(!state.expects(&Event::Batch(vec![])));
    assert!(!state.expects(&Event::Deshredded(None)));
    assert!(state.expects(&Event::Recovered(None)));
    assert!(state.expects(&Event::Recovered(Some(vec![None, Some(data(4, 1, 0, true))]))));
    assert!(state.expects(&Event::Recovered(Some(vec![Some(code(4, 40_000, 0, 2))]))));
    assert!(!state.expects(&Event::Recovered(Some(vec![Some(code(4, 1, 32_768, 2))]))));
    assert!(!state.expects(&Event::Recovered(Some(vec![Some(data(4, 40_000, 0, true))]))));
    let action = recovered(&mut state, Some(vec![Some(data(4, 1, 0, true))]));
    assert_eq!(deshred(action).2, 1);
    assert!(state.expects(&Event::Deshredded(Some(vec![1]))));
    assert!(!state.expects(&Event::Recovered(None)));
}

#[test]
fn a_repeated_batch_brings_nothing() {
    let mut table: Subscriptions = new_subscriptions();
    let signature = solana_sdk::signature::Signature::from([9u8; 64]).to_string();
    let waiting =
        Subscription { client_timestamp_ms: 100, rpc_received_ms: 101, websocket: None };
    let shreds = || {
        vec![
            data(4, 0, 0, false),
            code(4, 0, 0, 2),
            code(4, 8, 8, 1),
            data(4, 9, 9, true),
            code(5, 0, 0, 1),
        ]
    };
    let entries =
        || vec![Entry { transactions: vec![Transaction { signatures: vec![[9u8; 64]] }] }];
    let mut state = Reconstruction::new();
    assert_eq!(recover(batch(&mut state, shreds())).1, 0);
    let action = recovered(&mut state, Some(vec![Some(data(4, 1, 0, true))]));
    assert_eq!(recover(action).1, 8);
    let action = recovered(&mut state, None);
    assert_eq!(recover(action).0, 5);
    let action = recovered(&mut state, Some(vec![Some(data(5, 0, 0, true))]));
    assert_eq!(deshred(action).0, 4);
    assert!(subscribe(&mut table, signature.clone(), waiting));
    let step = state.advance(&mut table, Progress::Decoded(Some(entries())), 150);
    assert_eq!(step.found.len(), 1);
    assert_eq!(deshred(step.action).0, 5);
    let (count, _) = done(decoded(&mut state, None));
    assert_eq!(count, 2);
    // only the recovery that failed is tried again
    assert!(subscribe(&mut table, signature, waiting));
    assert!(state.expects(&Event::Batch(shreds())));
    assert_eq!(recover(batch(&mut state, shreds())).1, 8);
    let step = state.advance(&mut table, Progress::Recovered(None), 160);
    assert!(step.found.is_empty());
    let (count, _) = done(step.action);
    assert_eq!(count, 0);
    assert_eq!(table.len(), 1);
}
