use shreds_subscribe::shred::{
    CodingHeader, CommonHeader, ComparableShred, DataHeader, Shred, ShredCode, ShredData,
    ShredVariant, MAX_DATA_SHREDS_PER_SLOT, SIZE_OF_CODE_PAYLOAD,
};
use shreds_subscribe::tracker::{
    get_data_shred_info, get_indexes, insert_shred, update_state_tracker, SlotStateTracker,
};

fn header(variant: ShredVariant, index: u32, fec_set_index: u32) -> CommonHeader {
    CommonHeader {
        signature: [7u8; 64],
        shred_variant: variant,
        slot: 5,
        index,
        version: 2,
        fec_set_index,
    }
}

fn merkle_code() -> ShredVariant {
    ShredVariant::MerkleCode { proof_size: 6, chained: false, resigned: false }
}

fn merkle_data() -> ShredVariant {
    ShredVariant::MerkleData { proof_size: 6, chained: false, resigned: false }
}

fn code(index: u32, fec_set_index: u32, num_data: u16, num_coding: u16) -> ShredCode {
    ShredCode {
        common_header: header(merkle_code(), index, fec_set_index),
        coding_header: CodingHeader {
            num_data_shreds: num_data,
            num_coding_shreds: num_coding,
            position: index as u16,
        },
        payload: vec![3u8; SIZE_OF_CODE_PAYLOAD],
    }
}

fn data(index: u32, fec_set_index: u32, complete: bool) -> ShredData {
    ShredData {
        common_header: header(merkle_data(), index, fec_set_index),
        data_header: DataHeader { parent_offset: 1, flags: 0, size: 10 },
        data_complete: complete,
        last_in_slot: false,
        data: Some(vec![1, 2, 3]),
        payload: vec![index as u8; 4],
    }
}

fn comparable_code(shred: ShredCode) -> ComparableShred {
    ComparableShred(Shred::ShredCode(shred))
}

fn comparable_data(shred: ShredData) -> ComparableShred {
    ComparableShred(Shred::ShredData(shred))
}

#[test]
fn coding_shreds_are_compared_up_to_the_proof() {
    let left = comparable_code(code(1, 0, 4, 4));
    // the proof takes six entries of twenty bytes at the end of the payload
    let mut other = code(1, 0, 4, 4);
    other.payload[SIZE_OF_CODE_PAYLOAD - 120] = 9;
    assert!(left == comparable_code(other));
    let mut other = code(1, 0, 4, 4);
    other.payload[SIZE_OF_CODE_PAYLOAD - 121] = 9;
    assert!(left != comparable_code(other));
}

#[test]
fn a_resigned_coding_shred_ignores_the_signature_too() {
    let resigned = ShredVariant::MerkleCode { proof_size: 6, chained: true, resigned: true };
    let mut left = code(1, 0, 4, 4);
    left.common_header.shred_variant = resigned;
    let mut right = code(1, 0, 4, 4);
    right.common_header.shred_variant = resigned;
    right.payload[SIZE_OF_CODE_PAYLOAD - 184] = 9;
    assert!(comparable_code(left) == comparable_code(right));
    let mut left = code(1, 0, 4, 4);
    left.common_header.shred_variant = resigned;
    let mut right = code(1, 0, 4, 4);
    right.common_header.shred_variant = resigned;
    right.payload[SIZE_OF_CODE_PAYLOAD - 185] = 9;
    assert!(comparable_code(left) != comparable_code(right));
}

#[test]
fn headers_tell_shreds_apart() {
    let left = comparable_code(code(1, 0, 4, 4));
    assert!(left != comparable_code(code(2, 0, 4, 4)));
    assert!(left != comparable_code(code(1, 0, 4, 5)));
    let mut other = code(1, 0, 4, 4);
    other.common_header.signature[63] = 0;
    assert!(left != comparable_code(other));
    let mut other = code(1, 0, 4, 4);
    other.common_header.version = 9;
    assert!(left != comparable_code(other));
}

#[test]
fn a_coding_shred_without_a_proof_equals_nothing() {
    let mut shred = code(1, 0, 4, 4);
    shred.common_header.shred_variant = ShredVariant::LegacyCode;
    let shred = comparable_code(shred);
    assert!(shred != shred.clone());
}

#[test]
fn data_shreds_are_compared_by_their_data() {
    let left = comparable_data(data(1, 0, false));
    let mut other = data(1, 0, false);
    other.payload = vec![200; 9];
    assert!(left == comparable_data(other));
    let mut other = data(1, 0, false);
    other.data = Some(vec![1, 2, 4]);
    assert!(left != comparable_data(other));
    let mut other = data(1, 0, false);
    other.data_header.size = 11;
    assert!(left != comparable_data(other));
    let mut broken = data(1, 0, false);
    broken.data = None;
    let broken = comparable_data(broken);
    assert!(broken != broken.clone());
    assert!(left != comparable_code(code(1, 0, 4, 4)));
    assert!(comparable_code(code(1, 0, 4, 4)) != left);
}

#[test]
fn a_set_holds_a_shred_once() {
    let mut set: Vec<ComparableShred> = vec![];
    insert_shred(&mut set, comparable_code(code(1, 0, 4, 4)));
    insert_shred(&mut set, comparable_code(code(1, 0, 4, 4)));
    insert_shred(&mut set, comparable_data(data(1, 0, false)));
    insert_shred(&mut set, comparable_code(code(2, 0, 4, 4)));
    assert_eq!(set.len(), 3);
    assert_eq!(set[1].payload().len(), 4);
}

#[test]
fn coding_shreds_announce_the_size_of_their_set() {
    let set = vec![
        comparable_data(data(8, 8, false)),
        comparable_code(code(0, 8, 32, 16)),
        comparable_data(data(9, 8, true)),
    ];
    assert_eq!(get_data_shred_info(&set), (32, 16, 2, 1));
}

#[test]
fn the_last_data_shred_tells_the_size_of_its_set() {
    let set = vec![comparable_data(data(8, 8, false)), comparable_data(data(12, 8, true))];
    assert_eq!(get_data_shred_info(&set), (5, 0, 2, 0));
    assert_eq!(get_data_shred_info(&vec![comparable_data(data(8, 8, false))]), (0, 0, 1, 0));
    assert_eq!(get_data_shred_info(&vec![]), (0, 0, 0, 0));
    // numbers are those of 16 bits
    assert_eq!(get_data_shred_info(&vec![comparable_data(data(7, 8, true))]), (0, 0, 1, 0));
    assert_eq!(get_data_shred_info(&vec![comparable_data(data(6, 8, true))]), (65_535, 0, 1, 0));
}

#[test]
fn a_tracker_takes_a_data_shred_once() {
    let mut tracker = SlotStateTracker::default();
    let shred = Shred::ShredData(data(3, 0, false));
    assert_eq!(update_state_tracker(&shred, &mut tracker), Some(3));
    assert_eq!(update_state_tracker(&shred, &mut tracker), None);
    let coding = Shred::ShredCode(code(3, 0, 4, 4));
    assert_eq!(update_state_tracker(&coding, &mut tracker), Some(3));
    assert_eq!(update_state_tracker(&coding, &mut tracker), Some(3));
    tracker.mark_recovered(0);
    assert!(tracker.is_recovered(0));
    assert_eq!(update_state_tracker(&coding, &mut tracker), None);
    assert_eq!(update_state_tracker(&Shred::ShredData(data(4, 0, false)), &mut tracker), None);
}

fn tracker_of(shreds: &[(u32, bool)]) -> SlotStateTracker {
    let mut tracker = SlotStateTracker::default();
    for (index, complete) in shreds {
        let shred = Shred::ShredData(data(*index, 0, *complete));
        assert_eq!(update_state_tracker(&shred, &mut tracker), Some(*index as usize));
    }
    tracker
}

#[test]
fn runs_reach_from_end_to_end() {
    let tracker = tracker_of(&[(0, false), (1, true), (2, false), (3, false), (4, true)]);
    assert_eq!(get_indexes(&tracker, 0), Some((0, 1, false)));
    assert_eq!(get_indexes(&tracker, 1), Some((0, 1, false)));
    assert_eq!(get_indexes(&tracker, 2), Some((2, 4, false)));
    assert_eq!(get_indexes(&tracker, 3), Some((2, 4, false)));
    assert_eq!(get_indexes(&tracker, 4), Some((2, 4, false)));
    assert_eq!(get_indexes(&tracker, 5), None);
    assert_eq!(get_indexes(&tracker, MAX_DATA_SHREDS_PER_SLOT), None);
    assert_eq!(get_indexes(&tracker_of(&[(0, true)]), 0), Some((0, 0, false)));
}

#[test]
fn a_run_with_a_gap_in_front_has_an_unknown_start() {
    let tracker = tracker_of(&[(5, false), (6, true)]);
    assert_eq!(get_indexes(&tracker, 6), Some((5, 6, true)));
    assert_eq!(get_indexes(&tracker, 5), Some((5, 6, true)));
    assert_eq!(get_indexes(&tracker_of(&[(5, false)]), 5), None);
}

#[test]
fn decoded_runs_are_not_found_again() {
    let mut tracker = tracker_of(&[(0, false), (1, true), (2, false), (3, true)]);
    assert_eq!(tracker.payloads(0, 1), vec![vec![0u8; 4], vec![1u8; 4]]);
    tracker.mark_deshredded(0, 1);
    assert!(tracker.is_deshredded(1));
    assert!(!tracker.is_deshredded(2));
    assert!(tracker.is_recovered(0));
    assert_eq!(get_indexes(&tracker, 0), None);
    assert_eq!(get_indexes(&tracker, 1), None);
    assert_eq!(get_indexes(&tracker, 3), Some((2, 3, false)));
}

#[test]
fn the_index_of_a_coding_shred_may_lie_outside_a_slot() {
    let mut tracker = SlotStateTracker::default();
    let coding = Shred::ShredCode(code(32_768, 32_767, 4, 4));
    assert_eq!(update_state_tracker(&coding, &mut tracker), Some(32_768));
    tracker.mark_recovered(32_767);
    let beyond = Shred::ShredData(data(40_000, 32_767, false));
    assert_eq!(update_state_tracker(&beyond, &mut tracker), None);
}

#[test]
fn the_comparison_is_symmetric_and_transitive() {
    let mut a = code(1, 0, 4, 4);
    a.payload[SIZE_OF_CODE_PAYLOAD - 1] = 1;
    let mut b = code(1, 0, 4, 4);
    b.payload[SIZE_OF_CODE_PAYLOAD - 1] = 2;
    let (a, b) = (comparable_code(a), comparable_code(b));
    let c = comparable_code(code(1, 0, 4, 4));
    assert!(a == a.clone() && a == b && b == a && b == c && a == c);
    let (d, e) = (comparable_data(data(1, 0, false)), comparable_data(data(2, 0, false)));
    assert!(d == d.clone() && d != e && e != d);
}

#[test]
fn the_announced_size_counts_in_any_order() {
    let set = |order: [usize; 3]| -> Vec<ComparableShred> {
        order
            .iter()
            .map(|i| match i {
                0 => comparable_data(data(3, 0, true)),
                1 => comparable_code(code(0, 0, 32, 8)),
                _ => comparable_code(code(1, 0, 32, 8)),
            })
            .collect()
    };
    for order in [[0, 1, 2], [1, 0, 2], [2, 1, 0], [1, 2, 0]] {
        assert_eq!(get_data_shred_info(&set(order)), (32, 8, 1, 2));
    }
}
