//! Reconstruction of ledger entries from shreds.
//!
//! A batch of shreds is sorted into the FEC sets of its slots. Sets that can be completed are
//! completed from their coding shreds, and the runs of entries that this closes are decoded and
//! searched for subscribed transactions. Recovery and deshredding are the caller's to perform:
//! [`reconstruct_shreds`] says what is to be done next and takes its outcome.
use crate::clock::{
    current_timestamp_ms, given_times_tell_the_time, is_time_ms, tells_the_time,
};
use crate::reconstruction::{
    accepted, action_fits, can_be_offered_all, closes_run, is_closed_run, is_incomplete, is_incomplete_entry,
    is_incomplete_list, is_incomplete_report, is_incomplete_slot, is_ordered, is_sorted_order,
    kept_slots, lemma_can_look_at_first, lemma_nothing_accepted, offered, plain_shred_views, precedes,
    shred_option_views, shreds_keep_the_state_consistent, sort_keys, with_pair, Action, Event, EventView,
    IncompleteSlot, Phase, Progress, ProgressView, ReconstructionView, SlotView, Step, SLOT_LOOKBACK,
};
use crate::reconstruction_laws::{
    actions_are_what_is_waited_for, batches_ask_for_recovery, can_be_completed,
    decoded_transactions_are_shown, is_left_alone, recovery_is_given_the_whole_set,
};
use crate::scan::{
    deserialize_entries, entries_in, found_views, report, reports, reports_tell_the_times,
    scan_entries, subscribed_transactions_are_reported, subscriptions_are_used_once, unmatched,
    Found,
};
use crate::shred::{ComparableShred, Shred, ShredView, MAX_DATA_SHREDS_PER_SLOT};
use crate::signature::signature_text;
use crate::subscriptions::{held, Subscription, Subscriptions};
use crate::tracker::{
    get_data_shred_info, get_indexes, insert_shred, run_is_held, run_is_unique, shred_option_view,
    shred_views, update_state_tracker, with_shred, SlotStateTracker,
};
use itertools::Itertools;
use std::collections::BTreeMap;
use vstd::prelude::*;

verus! {

/// How many bytes of a packet's buffer make up its payload: as many as were received. A packet that
/// is empty, or of which more was received than the buffer holds, has no payload.
pub fn payload_len(received: usize, buffer: usize) -> (len: Option<usize>)
    ensures
        len == if 0 < received <= buffer {
            Some(received)
        } else {
            None
        },
{
    if 0 < received && received <= buffer {
        Some(received)
    } else {
        None
    }
}

/// A packet has a payload exactly where something was received and the buffer holds it all; the
/// payload is then what was received.
pub proof fn payloads_are_what_was_received(received: usize, buffer: usize, len: Option<usize>)
    requires
        call_ensures(payload_len, (received, buffer), len),
    ensures
        len is Some <==> 1 <= received && received <= buffer,
        len is Some ==> len->0 == received,
{
}

/// The state of one slot.
#[derive(Debug)]
struct SlotState {
    /// The shreds received for each FEC set.
    fec_sets: BTreeMap<u32, Vec<ComparableShred>>,
    tracker: SlotStateTracker,
}

spec fn fec_sets_view(fec_sets: Map<u32, Vec<ComparableShred>>) -> Map<
    u32,
    Seq<ShredView>,
> {
    fec_sets.map_values(|shreds: Vec<ComparableShred>| shred_views(shreds@))
}

impl View for SlotState {
    type V = SlotView;

    closed spec fn view(&self) -> SlotView {
        SlotView { fec_sets: fec_sets_view(self.fec_sets@), tracker: self.tracker@ }
    }
}

/// The shreds received so far, and the work on the latest batch.
#[derive(Debug)]
pub struct Reconstruction {
    all_slots: BTreeMap<u64, SlotState>,
    /// The FEC sets, by slot and index, that took a shred of the latest batch.
    slot_fec_indexes: Vec<(u64, u32)>,
    highest_slot_seen: u64,
    /// Shreds recovered from the latest batch.
    recovered: usize,
    phase: Phase,
}

spec fn slots_view(slots: Map<u64, SlotState>) -> Map<u64, SlotView> {
    slots.map_values(|slot: SlotState| slot@)
}

impl View for Reconstruction {
    type V = ReconstructionView;

    closed spec fn view(&self) -> ReconstructionView {
        ReconstructionView {
            slots: slots_view(self.all_slots@),
            pending: self.slot_fec_indexes@,
            highest_slot: self.highest_slot_seen,
            recovered: self.recovered,
            phase: self.phase,
        }
    }
}

/// Puts a pair in its place in a list in ascending order, unless the list holds it.
fn insert_pair(pairs: &mut Vec<(u64, u32)>, pair: (u64, u32))
    ensures
        final(pairs)@ == with_pair(old(pairs)@, pair),
{
    let ghost all = pairs@;
    let mut position = pairs.len();
    assert(all.take(all.len() as int) =~= all);
    assert(all.skip(all.len() as int) =~= Seq::empty());
    assert(with_pair(all, pair) + Seq::empty() =~= with_pair(all, pair));
    while position > 0
        invariant
            position <= pairs@.len(),
            pairs@ == all,
            all == old(pairs)@,
            with_pair(all, pair) == with_pair(all.take(position as int), pair) + all.skip(
                position as int,
            ),
        decreases position,
    {
        let last = pairs[position - 1];
        let ghost prefix = all.take(position as int);
        assert(prefix.last() == last);
        if last.0 == pair.0 && last.1 == pair.1 {
            assert(prefix + all.skip(position as int) =~= all);
            return;
        }
        if last.0 < pair.0 || (last.0 == pair.0 && last.1 < pair.1) {
            assert(precedes(prefix.last(), pair));
            pairs.insert(position, pair);
            assert(pairs@ =~= prefix.push(pair) + all.skip(position as int));
            return;
        }
        proof {
            assert(!precedes(prefix.last(), pair));
            assert(prefix.drop_last() =~= all.take(position - 1));
            assert(with_pair(prefix.drop_last(), pair).push(last) + all.skip(position as int)
                =~= with_pair(all.take(position - 1), pair) + all.skip(position - 1));
        }
        position -= 1;
    }
    pairs.insert(0, pair);
    assert(all.take(0) =~= Seq::empty());
    assert(pairs@ =~= all.take(0).push(pair) + all.skip(0));
}

impl SlotState {
    fn new() -> (slot: SlotState)
        ensures
            slot@ == SlotView::empty(),
            forall|number: u64| slot@.well_formed(number),
    {
        let slot = SlotState {
            fec_sets: BTreeMap::new(),
            tracker: SlotStateTracker::default(),
        };
        assert(slot@ =~= SlotView::empty());
        slot
    }

    /// Adds a shred that the tracker has accepted to its FEC set.
    fn add_to_fec_set(&mut self, shred: Shred)
        ensures
            final(self)@ == (SlotView {
                fec_sets: old(self)@.fec_sets.insert(
                    shred@.fec_set_index(),
                    with_shred(old(self)@.fec_set(shred@.fec_set_index()), shred@),
                ),
                tracker: old(self)@.tracker,
            }),
    {
        let ghost before = self@;
        let ghost view = shred@;
        let fec_set_index = shred.common_header().fec_set_index;
        let mut shreds = match self.fec_sets.remove(&fec_set_index) {
            Some(shreds) => shreds,
            None => Vec::new(),
        };
        assert(shred_views(shreds@) =~= before.fec_set(fec_set_index));
        insert_shred(&mut shreds, ComparableShred(shred));
        let _ = self.fec_sets.insert(fec_set_index, shreds);
        assert(self@.fec_sets =~= before.fec_sets.insert(
            fec_set_index,
            with_shred(before.fec_set(fec_set_index), view),
        ));
    }
}

impl Reconstruction {
    /// Takes the state of a slot out of the table, or makes a new one.
    fn take_slot(&mut self, slot: u64) -> (state: SlotState)
        ensures
            state@ == old(self)@.slot(slot),
            final(self)@ == (ReconstructionView {
                slots: old(self)@.slots.remove(slot),
                ..old(self)@
            }),
    {
        let ghost before = self@;
        let taken = self.all_slots.remove(&slot);
        assert(self@.slots =~= before.slots.remove(slot));
        match taken {
            Some(state) => state,
            None => SlotState::new(),
        }
    }

    /// Puts the state of a slot into the table.
    fn put_slot(&mut self, slot: u64, state: SlotState)
        ensures
            final(self)@ == (ReconstructionView {
                slots: old(self)@.slots.insert(slot, state@),
                ..old(self)@
            }),
    {
        let ghost before = self@;
        let _ = self.all_slots.insert(slot, state);
        assert(self@.slots =~= before.slots.insert(slot, state@));
    }

    /// Sorts a shred of the batch into its FEC set.
    fn ingest(&mut self, shred: Shred)
        requires
            old(self)@.consistent(),
            old(self)@.can_look_at(shred@),
        ensures
            final(self)@ == old(self)@.with_shred(shred@),
            final(self)@.consistent(),
    {
        let ghost before = self@;
        let ghost view = shred@;
        proof {
            shreds_keep_the_state_consistent(before, view);
        }
        let slot = shred.common_header().slot;
        let index = shred.common_header().index;
        let fec_set_index = shred.common_header().fec_set_index;
        let mut state = self.take_slot(slot);
        let ghost slot_before = state@;
        if self.highest_slot_seen.saturating_sub(SLOT_LOOKBACK) <= slot
            && !state.tracker.is_recovered(fec_set_index) && !state.tracker.is_deshredded(index) {
            let accepted = update_state_tracker(&shred, &mut state.tracker);
            if accepted.is_some() {
                assert(state@ =~= SlotView {
                    tracker: slot_before.tracker.updated(view),
                    ..slot_before
                });
                state.add_to_fec_set(shred);
                assert(state@ =~= slot_before.with_shred(view));
                insert_pair(&mut self.slot_fec_indexes, (slot, fec_set_index));
                if self.highest_slot_seen < slot {
                    self.highest_slot_seen = slot;
                }
            } else {
                assert(state@ =~= slot_before);
            }
        }
        self.put_slot(slot, state);
        assert(self@ =~= before.with_shred(view));
    }
}

/// `Itertools::sorted_by_key` of the positions of a list of keys, by the key there: the sort is
/// stable, so the positions of equal keys stay in order.
#[verifier::external_body]
fn sorted_positions(keys: &Vec<(u8, u32)>) -> (positions: Vec<usize>)
    ensures
        is_sorted_order(keys@, positions@),
{
    (0..keys.len()).sorted_by_key(|position| keys[*position]).collect_vec()
}

/// Copies the shreds of a FEC set in their order.
fn ordered_shreds(set: &Vec<ComparableShred>) -> (shreds: Vec<Shred>)
    ensures
        is_ordered(shred_views(set@), plain_shred_views(shreds@)),
{
    let ghost views = shred_views(set@);
    let mut keys: Vec<(u8, u32)> = Vec::new();
    let mut i: usize = 0;
    while i < set.len()
        invariant
            i <= set@.len(),
            keys@.len() == i,
            views == shred_views(set@),
            forall|j: int| 0 <= j < i ==> #[trigger] keys@[j] == views[j].sort_key(),
        decreases set@.len() - i,
    {
        let kind: u8 = match &set[i].0 {
            Shred::ShredData(_) => 0,
            Shred::ShredCode(_) => 1,
        };
        keys.push((kind, set[i].0.common_header().index));
        i += 1;
    }
    assert(keys@ =~= sort_keys(views));
    let positions = sorted_positions(&keys);
    let mut shreds: Vec<Shred> = Vec::new();
    let mut next: usize = 0;
    while next < positions.len()
        invariant
            next <= positions@.len(),
            shreds@.len() == next,
            views == shred_views(set@),
            is_sorted_order(sort_keys(views), positions@),
            forall|j: int|
                0 <= j < next ==> (#[trigger] shreds@[j])@ == views[positions@[j] as int],
        decreases positions@.len() - next,
    {
        let copy = set[positions[next]].0.clone();
        shreds.push(copy);
        next += 1;
    }
    proof {
        assert(plain_shred_views(shreds@) =~= positions@.map_values(|p: usize| views[p as int]));
        assert(is_sorted_order(sort_keys(views), positions@));
    }
    shreds
}

proof fn lemma_next_is_not_taken(numbers: Seq<u64>, i: int)
    requires
        0 <= i < numbers.len(),
        forall|j: int, k: int|
            0 <= j < k < numbers.len() ==> #[trigger] numbers[j] < #[trigger] numbers[k],
    ensures
        !numbers.take(i).to_set().contains(numbers[i]),
        numbers.take(i + 1).to_set() == numbers.take(i).to_set().insert(numbers[i]),
{
    let taken = numbers.take(i);
    if taken.contains(numbers[i]) {
        let k = taken.index_of(numbers[i]);
        assert(numbers[k] == numbers[i]);
    }
    assert(numbers.take(i + 1) =~= taken.push(numbers[i]));
    taken.lemma_push_to_set_commute(numbers[i]);
}

/// The keys of a table of slots in ascending order.
fn slot_numbers(slots: &BTreeMap<u64, SlotState>) -> (numbers: Vec<u64>)
    ensures
        forall|i: int, j: int|
            0 <= i < j < numbers@.len() ==> #[trigger] numbers@[i] < #[trigger] numbers@[j],
        forall|slot: u64| #[trigger] slots@.contains_key(slot) <==> numbers@.contains(slot),
{
    let mut numbers: Vec<u64> = Vec::new();
    let ghost all = vstd::std_specs::iter::IteratorSpec::remaining(&vstd::std_specs::btree::spec_keys_iter(slots));
    for number in keys: slots.keys()
        invariant
            keys.seq() == all,
            numbers@.len() == keys.index(),
            forall|i: int| 0 <= i < numbers@.len() ==> #[trigger] numbers@[i] == *all[i],
    {
        numbers.push(*number);
    }
    assert(numbers@ =~= all.unref());
    assert(numbers@.to_set() == slots@.dom());
    proof {
        broadcast use vstd::laws_cmp::group_laws_cmp;

        assert(vstd::laws_cmp::obeys_cmp::<u64>());
        assert(vstd::laws_cmp::obeys_cmp::<&u64>());
        assert(vstd::std_specs::btree::increasing_seq(all));
        assert forall|i: int, j: int| 0 <= i < j < numbers@.len() implies #[trigger] numbers@[i]
            < #[trigger] numbers@[j] by {
            assert(vstd::std_specs::cmp::OrdSpec::cmp_spec(&all[i], &all[j]) is Less);
        }
    }
    numbers
}

/// The keys of a table of FEC sets in ascending order.
fn fec_set_numbers(fec_sets: &BTreeMap<u32, Vec<ComparableShred>>) -> (numbers: Vec<u32>)
    ensures
        forall|i: int, j: int|
            0 <= i < j < numbers@.len() ==> #[trigger] numbers@[i] < #[trigger] numbers@[j],
        forall|fec_set_index: u32| #[trigger]
            fec_sets@.contains_key(fec_set_index) <==> numbers@.contains(fec_set_index),
{
    let mut numbers: Vec<u32> = Vec::new();
    let ghost all = vstd::std_specs::iter::IteratorSpec::remaining(
        &vstd::std_specs::btree::spec_keys_iter(fec_sets),
    );
    for number in keys: fec_sets.keys()
        invariant
            keys.seq() == all,
            numbers@.len() == keys.index(),
            forall|i: int| 0 <= i < numbers@.len() ==> #[trigger] numbers@[i] == *all[i],
    {
        numbers.push(*number);
    }
    assert(numbers@ =~= all.unref());
    assert(numbers@.to_set() == fec_sets@.dom());
    proof {
        broadcast use vstd::laws_cmp::group_laws_cmp;

        assert(vstd::laws_cmp::obeys_cmp::<u32>());
        assert(vstd::laws_cmp::obeys_cmp::<&u32>());
        assert(vstd::std_specs::btree::increasing_seq(all));
        assert forall|i: int, j: int| 0 <= i < j < numbers@.len() implies #[trigger] numbers@[i]
            < #[trigger] numbers@[j] by {
            assert(vstd::std_specs::cmp::OrdSpec::cmp_spec(&all[i], &all[j]) is Less);
        }
    }
    numbers
}

impl SlotState {
    /// The shreds of a FEC set that the slot knows.
    fn fec_set(&self, fec_set_index: u32) -> (shreds: &Vec<ComparableShred>)
        requires
            self@.fec_sets.contains_key(fec_set_index),
        ensures
            shred_views(shreds@) == self@.fec_sets[fec_set_index],
    {
        assert(self.fec_sets@.contains_key(fec_set_index));
        self.fec_sets.get(&fec_set_index).unwrap()
    }

    /// Lists the FEC sets that are not recovered.
    fn incomplete_fec_sets(&self, slot: u64) -> (list: Vec<(u32, u16, usize)>)
        requires
            self@.well_formed(slot),
        ensures
            is_incomplete_list(self@, list@),
            is_incomplete(self@) <==> list@.len() > 0,
    {
        let numbers = fec_set_numbers(&self.fec_sets);
        let ghost view = self@;
        let ghost mut places: Seq<int> = Seq::empty();
        let mut list: Vec<(u32, u16, usize)> = Vec::new();
        let mut i: usize = 0;
        while i < numbers.len()
            invariant
                i <= numbers@.len(),
                view == self@,
                view.well_formed(slot),
                forall|j: int, k: int|
                    0 <= j < k < numbers@.len() ==> #[trigger] numbers@[j] < #[trigger] numbers@[k],
                forall|fec_set_index: u32| #[trigger]
                    view.fec_sets.contains_key(fec_set_index) <==> numbers@.contains(fec_set_index),
                forall|j: int, k: int|
                    0 <= j < k < list@.len() ==> (#[trigger] list@[j]).0 < (#[trigger] list@[k]).0,
                forall|j: int|
                    0 <= j < list@.len() ==> is_incomplete_entry(view, #[trigger] list@[j]),
                forall|j: int, k: int|
                    0 <= j < list@.len() && i <= k < numbers@.len() ==> (#[trigger] list@[j]).0
                        < #[trigger] numbers@[k],
                places.len() == i,
                forall|j: int|
                    0 <= j < i && !view.tracker.recovered[(#[trigger] numbers@[j]) as int] ==> 0
                        <= places[j] < list@.len() && list@[places[j]].0 == numbers@[j],
            decreases numbers@.len() - i,
        {
            let fec_set_index = numbers[i];
            assert(numbers@.contains(fec_set_index));
            assert(view.fec_sets.contains_key(fec_set_index));
            proof {
                places = places.push(list@.len() as int);
            }
            if !self.tracker.is_recovered(fec_set_index) {
                let shreds = self.fec_set(fec_set_index);
                let (expected_data, _, _, _) = get_data_shred_info(shreds);
                list.push((fec_set_index, expected_data, shreds.len()));
            }
            i += 1;
        }
        proof {
            assert forall|fec_set_index: u32| #[trigger]
                view.fec_sets.contains_key(fec_set_index)
                    && !view.tracker.recovered[fec_set_index as int] implies exists|k: int|
                0 <= k < list@.len() && (#[trigger] list@[k]).0 == fec_set_index by {
                let j = numbers@.index_of(fec_set_index);
                assert(numbers@[j] == fec_set_index);
                assert(list@[places[j]].0 == fec_set_index);
            }
            if list@.len() > 0 {
                assert(is_incomplete_entry(view, list@[0]));
                assert(view.fec_sets.contains_key(list@[0].0));
            }
        }
        list
    }
}

impl Reconstruction {
    /// Gives up the slots that are too old, once there are many, and lists the incomplete ones.
    fn prune(&mut self) -> (incomplete: Vec<IncompleteSlot>)
        requires
            old(self)@.consistent(),
        ensures
            final(self)@ == (ReconstructionView {
                slots: kept_slots(old(self)@.slots, old(self)@.highest_slot),
                ..old(self)@
            }),
            is_incomplete_report(old(self)@.slots, old(self)@.highest_slot, incomplete@),
    {
        let ghost before = self@;
        let mut incomplete: Vec<IncompleteSlot> = Vec::new();
        assert(before.slots.dom() =~= self.all_slots@.dom());
        if self.all_slots.len() <= SLOT_LOOKBACK as usize {
            return incomplete;
        }
        let oldest = self.highest_slot_seen.saturating_sub(SLOT_LOOKBACK);
        let numbers = slot_numbers(&self.all_slots);
        let ghost mut places: Seq<int> = Seq::empty();
        let mut i: usize = 0;
        while i < numbers.len() && numbers[i] < oldest
            invariant
                i <= numbers@.len(),
                before.consistent(),
                forall|j: int, k: int|
                    0 <= j < k < numbers@.len() ==> #[trigger] numbers@[j] < #[trigger] numbers@[k],
                forall|slot: u64| #[trigger]
                    before.slots.contains_key(slot) <==> numbers@.contains(slot),
                self@ == (ReconstructionView {
                    slots: before.slots.remove_keys(numbers@.take(i as int).to_set()),
                    ..before
                }),
                forall|j: int| 0 <= j < i ==> #[trigger] numbers@[j] < oldest,
                forall|j: int, k: int|
                    0 <= j < k < incomplete@.len() ==> (#[trigger] incomplete@[j]).slot < (
                    #[trigger] incomplete@[k]).slot,
                forall|j: int|
                    0 <= j < incomplete@.len() ==> is_incomplete_slot(
                        before.slots,
                        #[trigger] incomplete@[j],
                    ) && incomplete@[j].slot < oldest,
                forall|j: int, k: int|
                    0 <= j < incomplete@.len() && i <= k < numbers@.len() ==> (
                    #[trigger] incomplete@[j]).slot < #[trigger] numbers@[k],
                places.len() == i,
                forall|j: int|
                    0 <= j < i && is_incomplete(before.slots[#[trigger] numbers@[j]]) ==> 0
                        <= places[j] < incomplete@.len() && incomplete@[places[j]].slot
                        == numbers@[j],
            decreases numbers@.len() - i,
        {
            let slot = numbers[i];
            proof {
                assert(numbers@.contains(slot));
                assert(before.slots.contains_key(slot));
                lemma_next_is_not_taken(numbers@, i as int);
                assert(self@.slots.contains_key(slot));
                places = places.push(incomplete@.len() as int);
            }
            let state = self.take_slot(slot);
            let fec_sets = state.incomplete_fec_sets(slot);
            assert(self@.slots =~= before.slots.remove_keys(numbers@.take(i + 1).to_set()));
            if fec_sets.len() > 0 {
                incomplete.push(IncompleteSlot { slot, fec_sets });
            }
            i += 1;
        }
        proof {
            assert forall|slot: u64| #[trigger] before.slots.contains_key(slot) implies (
            numbers@.take(i as int).contains(slot) <==> slot < oldest) by {
                let k = numbers@.index_of(slot);
                assert(numbers@[k] == slot);
                if k < i {
                    assert(numbers@.take(i as int)[k] == slot);
                } else if numbers@.take(i as int).contains(slot) {
                    let m = numbers@.take(i as int).index_of(slot);
                    assert(numbers@[m] == slot);
                }
            }
            let kept = kept_slots(before.slots, before.highest_slot);
            assert(self@.slots =~= kept);
            assert forall|slot: u64| #[trigger]
                before.slots.contains_key(slot) && !kept.contains_key(slot) && is_incomplete(
                    before.slots[slot],
                ) implies exists|k: int|
                0 <= k < incomplete@.len() && (#[trigger] incomplete@[k]).slot == slot by {
                let taken = numbers@.take(i as int);
                assert(taken.contains(slot));
                let j = taken.index_of(slot);
                assert(numbers@[j] == slot);
                assert(incomplete@[places[j]].slot == slot);
            }
        }
        incomplete
    }
}

impl Reconstruction {
    /// The state of a slot that is known.
    fn slot_state(&self, slot: u64) -> (state: &SlotState)
        requires
            self@.slots.contains_key(slot),
        ensures
            state@ == self@.slots[slot],
    {
        assert(self.all_slots@.contains_key(slot));
        self.all_slots.get(&slot).unwrap()
    }

    /// Goes on to the next run of entries that can be decoded.
    fn resume_deshredding(&mut self, from: usize) -> (action: Action)
        requires
            old(self)@.consistent(),
        ensures
            final(self)@ == old(self)@.resume_deshredding(from as int),
            final(self)@.well_formed(),
            action_fits(old(self)@, final(self)@, action),
    {
        let ghost before = self@;
        let mut position = from;
        while position < self.slot_fec_indexes.len()
            invariant
                self@ == before,
                before == old(self)@,
                before.consistent(),
                before.resume_deshredding(position as int) == before.resume_deshredding(from as int),
            decreases before.pending.len() - position,
        {
            let (slot, fec_set_index) = self.slot_fec_indexes[position];
            assert(before.pending[position as int] == (slot, fec_set_index));
            let state = self.slot_state(slot);
            let ghost tracker = state@.tracker;
            assert(before.slots[slot].well_formed(slot));
            let run = get_indexes(&state.tracker, fec_set_index as usize);
            match run {
                Some((start, end, false)) => {
                    assert(is_closed_run(tracker, fec_set_index, start, end));
                    proof {
                        let (s, e) = choose|s: usize, e: usize|
                            is_closed_run(tracker, fec_set_index, s, e);
                        run_is_unique(
                            tracker,
                            fec_set_index as int,
                            start as int,
                            end as int,
                            false,
                            s as int,
                            e as int,
                            false,
                        );
                        run_is_held(
                            tracker,
                            fec_set_index as int,
                            start as int,
                            end as int,
                            false,
                        );
                    }
                    let payloads = state.tracker.payloads(start, end);
                    self.phase = Phase::Deshredding { position, start, end };
                    return Action::Deshred { slot, start, end, payloads };
                },
                _ => {
                    assert(!closes_run(tracker, fec_set_index)) by {
                        if closes_run(tracker, fec_set_index) {
                            let (s, e) = choose|s: usize, e: usize|
                                is_closed_run(tracker, fec_set_index, s, e);
                            if let Some((start, end, unknown_start)) = run {
                                run_is_unique(
                                    tracker,
                                    fec_set_index as int,
                                    start as int,
                                    end as int,
                                    unknown_start,
                                    s as int,
                                    e as int,
                                    false,
                                );
                            }
                        }
                    }
                },
            }
            position += 1;
        }
        let incomplete = self.prune();
        self.phase = Phase::Idle;
        assert(self@ =~= before.resume_deshredding(from as int));
        Action::Done { recovered: self.recovered, incomplete }
    }

    /// Goes on to the next FEC set that can and should be completed.
    fn resume_recovery(&mut self, from: usize) -> (action: Action)
        requires
            old(self)@.consistent(),
        ensures
            final(self)@ == old(self)@.resume_recovery(from as int),
            final(self)@.well_formed(),
            action_fits(old(self)@, final(self)@, action),
    {
        let ghost before = self@;
        let mut position = from;
        while position < self.slot_fec_indexes.len()
            invariant
                self@ == before,
                before == old(self)@,
                before.consistent(),
                before.resume_recovery(position as int) == before.resume_recovery(from as int),
            decreases before.pending.len() - position,
        {
            let (slot, fec_set_index) = self.slot_fec_indexes[position];
            assert(before.pending[position as int] == (slot, fec_set_index));
            let state = self.slot_state(slot);
            assert(before.slots[slot].well_formed(slot));
            let shreds = state.fec_set(fec_set_index);
            let (expected_data, _, data, _) = get_data_shred_info(shreds);
            if expected_data != 0 && shreds.len() >= expected_data as usize && data
                != expected_data {
                let shreds = ordered_shreds(shreds);
                self.phase = Phase::Recovering { position };
                return Action::Recover { slot, fec_set_index, shreds };
            }
            position += 1;
        }
        self.resume_deshredding(0)
    }
}

/// Offers recovered shreds to a tracker, one after the other, and counts those it had use for.
fn offer_recovered(tracker: &mut SlotStateTracker, recovered: &Vec<Option<Shred>>) -> (count: usize)
    requires
        old(tracker)@.well_formed(),
        can_be_offered_all(old(tracker)@, shred_option_views(recovered@)),
    ensures
        final(tracker)@ == offered(old(tracker)@, shred_option_views(recovered@)),
        final(tracker)@.well_formed(),
        count == accepted(old(tracker)@, shred_option_views(recovered@)),
        count <= recovered@.len(),
{
    let ghost before = tracker@;
    let ghost views = shred_option_views(recovered@);
    let mut count: usize = 0;
    let mut i: usize = 0;
    assert(views.take(0) =~= Seq::empty());
    while i < recovered.len()
        invariant
            i <= recovered@.len(),
            views == shred_option_views(recovered@),
            can_be_offered_all(before, views),
            tracker@.recovered == before.recovered,
            tracker@ == offered(before, views.take(i as int)),
            tracker@.well_formed(),
            count == accepted(before, views.take(i as int)),
            count <= i,
        decreases recovered@.len() - i,
    {
        proof {
            assert(views.take(i + 1).drop_last() =~= views.take(i as int));
            assert(views.take(i + 1).last() == shred_option_view(recovered@[i as int]));
            assert(views[i as int] == shred_option_view(recovered@[i as int]));
        }
        match &recovered[i] {
            Some(shred) => {
                if update_state_tracker(shred, tracker).is_some() {
                    count += 1;
                }
            },
            None => {},
        }
        i += 1;
    }
    assert(views.take(views.len() as int) =~= views);
    count
}

impl Reconstruction {
    /// Takes note of the outcome of the recovery of a pending FEC set.
    fn apply_recovery(&mut self, position: usize, outcome: Option<Vec<Option<Shred>>>)
        requires
            old(self)@.consistent(),
            position < old(self)@.pending.len(),
            outcome is Some ==> old(self)@.recovered + outcome->0@.len() <= usize::MAX,
            outcome is Some ==> can_be_offered_all(
                old(self)@.pending_slot(position as int).tracker,
                shred_option_views(outcome->0@),
            ),
        ensures
            final(self)@ == old(self)@.after_recovery(
                position as int,
                match outcome {
                    Some(recovered) => Some(shred_option_views(recovered@)),
                    None => None,
                },
            ),
            final(self)@.consistent(),
    {
        let ghost before = self@;
        let recovered = match outcome {
            Some(recovered) => recovered,
            None => {
                return;
            },
        };
        let ghost views = shred_option_views(recovered@);
        let (slot, fec_set_index) = self.slot_fec_indexes[position];
        assert(before.pending[position as int] == (slot, fec_set_index));
        let mut state = self.take_slot(slot);
        let ghost slot_before = state@;
        assert(slot_before.well_formed(slot));
        let count = offer_recovered(&mut state.tracker, &recovered);
        if count > 0 {
            assert(state@.fec_sets =~= slot_before.fec_sets);
            let ghost fec_sets = state.fec_sets@;
            state.tracker.mark_recovered(fec_set_index);
            let none: Vec<ComparableShred> = Vec::new();
            assert(shred_views(none@) =~= Seq::empty());
            let _ = state.fec_sets.insert(fec_set_index, none);
            assert(state@.fec_sets =~= slot_before.fec_sets.insert(fec_set_index, Seq::empty()));
            self.recovered = self.recovered + count;
        } else {
            proof {
                lemma_nothing_accepted(slot_before.tracker, views);
            }
            assert(state@ =~= slot_before);
        }
        self.put_slot(slot, state);
        assert(self@ =~= before.after_recovery(position as int, Some(views)));
    }
}

impl Reconstruction {
    /// Starts reconstruction with nothing received.
    pub fn new() -> (state: Reconstruction)
        ensures
            state@ == ReconstructionView::empty(),
            state@.well_formed(),
    {
        let state = Reconstruction {
            all_slots: BTreeMap::new(),
            slot_fec_indexes: Vec::new(),
            highest_slot_seen: 0,
            recovered: 0,
            phase: Phase::Idle,
        };
        assert(state@ =~= ReconstructionView::empty());
        state
    }

    /// Sorts the shreds of a batch into their FEC sets.
    #[verifier::spinoff_prover]
    fn ingest_batch(&mut self, shreds: Vec<Shred>)
        requires
            old(self)@.at_batch().consistent(),
            old(self)@.expects_batch(plain_shred_views(shreds@)),
        ensures
            final(self)@ == old(self)@.at_batch().with_shreds(plain_shred_views(shreds@)),
            final(self)@.consistent(),
    {
        let ghost views = plain_shred_views(shreds@);
        self.slot_fec_indexes.clear();
        self.recovered = 0;
        let ghost start = self@;
        assert(start =~= old(self)@.at_batch());
        assert(views.take(0) =~= Seq::empty());
        let mut i: usize = 0;
        while i < shreds.len()
            invariant
                i <= shreds@.len(),
                views == plain_shred_views(shreds@),
                start.can_look_at_all(views),
                self@ == start.with_shreds(views.take(i as int)),
                self@.consistent(),
            decreases shreds@.len() - i,
        {
            proof {
                lemma_with_next_shred(start, views, i as int);
            }
            self.ingest(shreds[i].clone());
            i += 1;
        }
        assert(views.take(views.len() as int) =~= views);
    }

    /// Takes note that the entries of the run at hand have been decoded.
    fn apply_decoding(&mut self, position: usize, start: usize, end: usize)
        requires
            old(self)@.well_formed(),
            old(self)@.phase == (Phase::Deshredding { position, start, end }),
        ensures
            final(self)@ == old(self)@.after_decoding(position as int, start as int, end as int),
            final(self)@.consistent(),
    {
        let ghost before = self@;
        let (slot, fec_set_index) = self.slot_fec_indexes[position];
        assert(before.pending[position as int] == (slot, fec_set_index));
        let mut state = self.take_slot(slot);
        let ghost slot_before = state@;
        proof {
            assert(slot_before.well_formed(slot));
            run_is_held(
                slot_before.tracker,
                fec_set_index as int,
                start as int,
                end as int,
                false,
            );
        }
        state.tracker.mark_deshredded(start, end);
        assert(state@.fec_sets =~= slot_before.fec_sets);
        self.put_slot(slot, state);
        assert(self@ =~= before.after_decoding(position as int, start as int, end as int));
    }

    /// Takes note of a decoded event that happened at `found_ms`, and says what is to be done next.
    pub fn advance(
        &mut self,
        subscriptions: &mut Subscriptions,
        progress: Progress,
        found_ms: u64,
    ) -> (step: Step)
        requires
            old(self)@.well_formed(),
            old(self)@.expects_progress(progress@),
        ensures
            final(self)@ == old(self)@.after(progress@),
            final(self)@.well_formed(),
            action_fits(old(self)@.noted(progress@), final(self)@, step.action),
            !step.undecodable,
            found_views(step.found@) == reports(
                held(*old(subscriptions)),
                old(self)@.shown(progress@),
                old(self)@.current_slot(),
                found_ms,
            ),
            held(*final(subscriptions)) == unmatched(
                held(*old(subscriptions)),
                old(self)@.shown(progress@),
            ),
    {
        let ghost before = self@;
        let ghost table = held(*subscriptions);
        let nothing: Vec<Found> = Vec::new();
        proof {
            assert(unmatched(table, Seq::empty()) =~= table);
            assert(found_views(nothing@) =~= reports(
                table,
                Seq::empty(),
                before.current_slot(),
                found_ms,
            ));
        }
        match progress {
            Progress::Batch(shreds) => {
                self.ingest_batch(shreds);
                Step { found: nothing, undecodable: false, action: self.resume_recovery(0) }
            },
            Progress::Recovered(outcome) => {
                let position: usize = match self.phase {
                    Phase::Recovering { position } => position,
                    _ => 0,
                };
                assert(position < self.slot_fec_indexes.len());
                self.apply_recovery(position, outcome);
                Step { found: nothing, undecodable: false, action: self.resume_recovery(position + 1) }
            },
            Progress::Decoded(entries) => {
                let (position, start, end) = match self.phase {
                    Phase::Deshredding { position, start, end } => (position, start, end),
                    _ => (0usize, 0usize, 0usize),
                };
                assert(position < self.slot_fec_indexes.len());
                let slot = self.slot_fec_indexes[position].0;
                match entries {
                    Some(entries) => {
                        let found = scan_entries(&entries, subscriptions, slot, found_ms);
                        self.apply_decoding(position, start, end);
                        Step { found, undecodable: false, action: self.resume_deshredding(position + 1) }
                    },
                    None => Step {
                        found: nothing,
                        undecodable: false,
                        action: self.resume_deshredding(position + 1),
                    },
                }
            },
        }
    }
}

/// The shreds of a batch are looked at one by one.
proof fn lemma_with_next_shred(start: ReconstructionView, shreds: Seq<ShredView>, i: int)
    requires
        start.can_look_at_all(shreds),
        0 <= i < shreds.len(),
    ensures
        start.with_shreds(shreds.take(i)).can_look_at(shreds[i]),
        start.with_shreds(shreds.take(i + 1)) == start.with_shreds(shreds.take(i)).with_shred(
            shreds[i],
        ),
{
    assert(shreds.take(i + 1).drop_last() =~= shreds.take(i));
    assert(shreds.take(i + 1).last() == shreds[i]);
    lemma_can_look_at_first(start, shreds, i + 1);
}

/// Whether the same FEC sets of each slot are recovered.
#[verifier::opaque]
spec fn same_recovered(left: ReconstructionView, right: ReconstructionView) -> bool {
    forall|slot: u64|
        (#[trigger] left.slot(slot)).tracker.recovered == right.slot(slot).tracker.recovered
}

proof fn lemma_look_at_next(
    known: ReconstructionView,
    start: ReconstructionView,
    shreds: Seq<ShredView>,
    i: int,
)
    requires
        0 <= i < shreds.len(),
        start.with_shreds(shreds.take(i)).consistent(),
        same_recovered(start.with_shreds(shreds.take(i)), known),
    ensures
        ({
            let state = start.with_shreds(shreds.take(i));
            let next = start.with_shreds(shreds.take(i + 1));
            let shred = shreds[i];
            &&& state.slot(shred.slot()).tracker.recovered == known.slot(
                shred.slot(),
            ).tracker.recovered
            &&& !state.can_look_at(shred) ==> !start.can_look_at_all(shreds)
            &&& state.can_look_at(shred) && start.can_look_at_all(shreds.take(i)) ==> {
                &&& start.can_look_at_all(shreds.take(i + 1))
                &&& next.consistent()
                &&& next.highest_slot == if state.highest_slot < shred.slot() {
                    shred.slot()
                } else {
                    state.highest_slot
                }
                &&& same_recovered(next, known)
            }
        }),
{
    reveal(same_recovered);
    let state = start.with_shreds(shreds.take(i));
    let next = start.with_shreds(shreds.take(i + 1));
    let shred = shreds[i];
    assert(shreds.take(i + 1).drop_last() =~= shreds.take(i));
    assert(shreds.take(i + 1).last() == shred);
    assert(next == state.with_shred(shred));
    assert forall|slot: u64| (#[trigger] next.slot(slot)).tracker.recovered == known.slot(
        slot,
    ).tracker.recovered by {
        assert(state.slot(slot).tracker.recovered == known.slot(slot).tracker.recovered);
    }
    if !state.can_look_at(shred) {
        if start.can_look_at_all(shreds) {
            lemma_can_look_at_first(start, shreds, i + 1);
        }
    } else {
        shreds_keep_the_state_consistent(state, shred);
    }
}

impl Reconstruction {
    /// Whether the FEC set of a slot, which may be unknown, is recovered.
    fn is_recovered(&self, slot: u64, fec_set_index: u32) -> (recovered: bool)
        requires
            self@.at_batch().consistent(),
            fec_set_index < MAX_DATA_SHREDS_PER_SLOT,
        ensures
            recovered == self@.slot(slot).tracker.recovered[fec_set_index as int],
    {
        match self.all_slots.get(&slot) {
            Some(state) => {
                assert(self@.slots[slot] == state@);
                assert(self@.at_batch().slots.contains_key(slot));
                state.tracker.is_recovered(fec_set_index)
            },
            None => {
                assert(!self@.slots.contains_key(slot));
                false
            },
        }
    }

    fn can_look_at_all(&self, shreds: &Vec<Shred>) -> (can: bool)
        requires
            self@.at_batch().consistent(),
        ensures
            can == self@.at_batch().can_look_at_all(plain_shred_views(shreds@)),
    {
        let ghost views = plain_shred_views(shreds@);
        let ghost start = self@.at_batch();
        let mut highest = self.highest_slot_seen;
        let mut i: usize = 0;
        proof {
            assert(views.take(0) =~= Seq::empty());
            reveal(same_recovered);
        }
        while i < shreds.len()
            invariant
                i <= shreds@.len(),
                views == plain_shred_views(shreds@),
                start == self@.at_batch(),
                start.consistent(),
                start.can_look_at_all(views.take(i as int)),
                start.with_shreds(views.take(i as int)).consistent(),
                start.with_shreds(views.take(i as int)).highest_slot == highest,
                same_recovered(start.with_shreds(views.take(i as int)), self@),
            decreases shreds@.len() - i,
        {
            proof {
                lemma_look_at_next(self@, start, views, i as int);
            }
            let header = shreds[i].common_header();
            assert(views[i as int].common_header() == *header);
            if highest.saturating_sub(SLOT_LOOKBACK) <= header.slot {
                let in_slot = (header.fec_set_index as usize) < MAX_DATA_SHREDS_PER_SLOT && ((
                header.index as usize) < MAX_DATA_SHREDS_PER_SLOT || self.is_recovered(
                    header.slot,
                    header.fec_set_index,
                ));
                if !in_slot {
                    return false;
                }
            }
            if highest < header.slot {
                highest = header.slot;
            }
            i += 1;
        }
        assert(views.take(views.len() as int) =~= views);
        true
    }

    fn can_be_offered_all(&self, position: usize, recovered: &Vec<Option<Shred>>) -> (can: bool)
        requires
            self@.consistent(),
            position < self@.pending.len(),
        ensures
            can == can_be_offered_all(
                self@.pending_slot(position as int).tracker,
                shred_option_views(recovered@),
            ),
    {
        let ghost views = shred_option_views(recovered@);
        let slot = self.slot_fec_indexes[position].0;
        assert(self@.pending[position as int].0 == slot);
        let state = self.slot_state(slot);
        let ghost tracker = state@.tracker;
        assert(state@.well_formed(slot));
        let mut i: usize = 0;
        while i < recovered.len()
            invariant
                i <= recovered@.len(),
                views == shred_option_views(recovered@),
                tracker == state.tracker@,
                tracker.well_formed(),
                tracker == self@.pending_slot(position as int).tracker,
                forall|j: int|
                    0 <= j < i && (#[trigger] views[j]) is Some ==> tracker.can_be_offered(
                        views[j]->0,
                    ),
            decreases recovered@.len() - i,
        {
            match &recovered[i] {
                Some(shred) => {
                    assert(views[i as int] == Some(shred@));
                    let header = shred.common_header();
                    if header.fec_set_index as usize >= MAX_DATA_SHREDS_PER_SLOT {
                        return false;
                    }
                    let is_data = match shred {
                        Shred::ShredData(_) => true,
                        Shred::ShredCode(_) => false,
                    };
                    if is_data && header.index as usize >= MAX_DATA_SHREDS_PER_SLOT
                        && !state.tracker.is_recovered(header.fec_set_index) {
                        assert(!tracker.can_be_offered(shred@));
                        return false;
                    }
                },
                None => {
                    assert(views[i as int] is None);
                },
            }
            i += 1;
        }
        true
    }

    /// Whether an event can be taken now: it is what is waited for, and its shreds lie within
    /// slots, as far as that matters.
    pub fn expects(&self, event: &Event) -> (expected: bool)
        requires
            self@.well_formed(),
        ensures
            expected == self@.expects(event@),
    {
        match event {
            Event::Batch(shreds) => match self.phase {
                Phase::Idle => self.can_look_at_all(shreds),
                _ => false,
            },
            Event::Recovered(outcome) => match self.phase {
                Phase::Recovering { position } => match outcome {
                    Some(recovered) => recovered.len() <= usize::MAX - self.recovered
                        && self.can_be_offered_all(position, recovered),
                    None => true,
                },
                _ => false,
            },
            Event::Deshredded(_) => match self.phase {
                Phase::Deshredding { .. } => true,
                _ => false,
            },
        }
    }
}

proof fn lemma_found_at(
    found: Seq<Found>,
    table: Map<Seq<char>, Subscription>,
    observed: Seq<Seq<char>>,
    slot: u64,
    found_ms: u64,
)
    requires
        found_views(found) == reports(table, observed, slot, found_ms),
    ensures
        forall|i: int| 0 <= i < found.len() ==> (#[trigger] found[i]).found_ms == found_ms,
        observed.len() == 0 ==> found.len() == 0,
{
    let all = reports(table, observed, slot, found_ms);
    assert(found.len() == found_views(found).len() == all.len());
    assert forall|i: int| 0 <= i < found.len() implies (#[trigger] found[i]).found_ms
        == found_ms by {
        assert(found_views(found)[i] == found[i]@);
        assert(all[i].found_ms == found_ms);
    }
}

/// Takes note of an event, and says what is to be done next. Where it brought a payload, the
/// entries in it are searched for subscribed transactions, which are reported with the time at
/// which they were found.
pub fn reconstruct_shreds(
    state: &mut Reconstruction,
    subscriptions: &mut Subscriptions,
    event: Event,
) -> (step: Step)
    requires
        old(state)@.well_formed(),
        old(state)@.expects(event@),
    ensures
        final(state)@ == old(state)@.after(event@.decoded()),
        final(state)@.well_formed(),
        action_fits(old(state)@.noted(event@.decoded()), final(state)@, step.action),
        step.undecodable == event@.is_undecodable(),
        exists|found_ms: u64|
            found_views(step.found@) == #[trigger] reports(
                held(*old(subscriptions)),
                old(state)@.shown(event@.decoded()),
                old(state)@.current_slot(),
                found_ms,
            ) && (event is Deshredded && event@.decoded() != ProgressView::Decoded(None)
                ==> is_time_ms(found_ms)),
        held(*final(subscriptions)) == unmatched(
            held(*old(subscriptions)),
            old(state)@.shown(event@.decoded()),
        ),
        forall|i: int|
            0 <= i < step.found@.len() ==> is_time_ms((#[trigger] step.found@[i]).found_ms),
{
    let ghost table = held(*subscriptions);
    let ghost shown = state@.shown(event@.decoded());
    let ghost slot = state@.current_slot();
    match event {
        Event::Batch(shreds) => {
            let step = state.advance(subscriptions, Progress::Batch(shreds), 0);
            proof {
                lemma_found_at(step.found@, table, shown, slot, 0);
            }
            step
        },
        Event::Recovered(outcome) => {
            let step = state.advance(subscriptions, Progress::Recovered(outcome), 0);
            proof {
                lemma_found_at(step.found@, table, shown, slot, 0);
            }
            step
        },
        Event::Deshredded(payload) => {
            let has_payload = payload.is_some();
            let entries = match payload {
                Some(payload) => deserialize_entries(payload.as_slice()),
                None => None,
            };
            let undecodable = has_payload && entries.is_none();
            let found_ms: u64 = match entries {
                Some(_) => current_timestamp_ms(),
                None => 0,
            };
            let step = state.advance(subscriptions, Progress::Decoded(entries), found_ms);
            proof {
                lemma_found_at(step.found@, table, shown, slot, found_ms);
            }
            Step { undecodable, ..step }
        },
    }
}

/// A batch asks for the recovery of the first pending FEC set that is not to be left alone, where that
/// set lacks announced data shreds and holds as many shreds as were announced: with its slot, its
/// index, and all of its shreds. Where all pending sets are to be left alone, no recovery is asked for.
pub proof fn a_batch_asks_to_recover_what_can_be(
    state: &mut Reconstruction,
    subscriptions: &mut Subscriptions,
    shreds: Vec<Shred>,
    step: Step,
    position: int,
)
    requires
        call_ensures(reconstruct_shreds, (state, subscriptions, Event::Batch(shreds)), step),
        old(state)@.well_formed(),
        old(state)@.expects(Event::Batch(shreds)@),
        ({
            let noted = old(state)@.noted(Event::Batch(shreds)@.decoded());
            &&& 0 <= position <= noted.pending.len()
            &&& forall|i: int|
                #![trigger noted.pending[i]]
                0 <= i < position ==> is_left_alone(noted.pending_set(i))
        }),
    ensures
        ({
            let noted = old(state)@.noted(Event::Batch(shreds)@.decoded());
            &&& position < noted.pending.len() && can_be_completed(noted.pending_set(position)) ==> {
                &&& step.action is Recover
                &&& step.action->Recover_slot == noted.pending[position].0
                &&& step.action->fec_set_index == noted.pending[position].1
                &&& step.action->shreds@.len() == noted.pending_set(position).len()
            }
            &&& position == noted.pending.len() ==> !(step.action is Recover)
        }),
{
    let views = plain_shred_views(shreds@);
    let noted = old(state)@.noted(ProgressView::Batch(views));
    assert(shreds@.len() == shreds.len());
    batches_ask_for_recovery(old(state)@, views, position);
    actions_are_what_is_waited_for(noted, final(state)@, step.action);
    if position < noted.pending.len() && can_be_completed(noted.pending_set(position)) {
        assert(final(state)@.phase == (Phase::Recovering { position: position as usize }));
        recovery_is_given_the_whole_set(
            noted.pending_set(position),
            plain_shred_views(step.action->shreds@),
        );
    }
}

/// Every transaction that is found was subscribed to, and its subscription is used up. It was found
/// at a time that the clock gave while the event was handled, and its latencies are the times from the
/// client's timestamp and from the arrival of the request up to then, as far as the clocks agree.
pub proof fn transactions_are_found_when_the_clock_says(
    state: &mut Reconstruction,
    subscriptions: &mut Subscriptions,
    event: Event,
    step: Step,
    i: int,
)
    requires
        call_ensures(reconstruct_shreds, (state, subscriptions, event), step),
        0 <= i < step.found@.len(),
    ensures
        ({
            let found = step.found@[i];
            let table = held(*old(subscriptions));
            let sent = table[found.signature@].client_timestamp_ms;
            let arrived = table[found.signature@].rpc_received_ms;
            &&& tells_the_time(found.found_ms)
            &&& table.contains_key(found.signature@)
            &&& !held(*final(subscriptions)).contains_key(found.signature@)
            &&& found.client_timestamp_ms == sent
            &&& found.rpc_received_ms == arrived
            &&& found.websocket == table[found.signature@].websocket
            &&& sent <= found.found_ms ==> sent + found.total_latency_ms == found.found_ms
            &&& sent > found.found_ms ==> found.total_latency_ms == 0
            &&& sent <= arrived ==> sent + found.rpc_latency_ms == arrived
            &&& arrived <= found.found_ms ==> arrived + found.after_rpc_latency_ms == found.found_ms
        }),
{
    let found = step.found@[i];
    let table = held(*old(subscriptions));
    let shown = old(state)@.shown(event@.decoded());
    let slot = old(state)@.current_slot();
    given_times_tell_the_time(found.found_ms);
    let found_ms = choose|found_ms: u64|
        found_views(step.found@) == #[trigger] reports(table, shown, slot, found_ms);
    let all = reports(table, shown, slot, found_ms);
    assert(found_views(step.found@).len() == all.len());
    assert(found_views(step.found@)[i] == found@);
    subscribed_transactions_are_reported(table, shown, slot, found_ms, found.signature@);
    assert(all[i].signature == found.signature@);
    reports_tell_the_times(found.signature@, table[found.signature@], slot, found_ms);
}

/// A payload that is deshredded shows each of its transactions: one that was subscribed to is found,
/// in the slot that is worked on, under the notation of its first signature.
pub proof fn subscribed_transactions_in_a_payload_are_found(
    state: &mut Reconstruction,
    subscriptions: &mut Subscriptions,
    payload: Vec<u8>,
    step: Step,
    entry: int,
    transaction: int,
)
    requires
        call_ensures(
            reconstruct_shreds,
            (state, subscriptions, Event::Deshredded(Some(payload))),
            step,
        ),
        entries_in(payload@) is Some,
        0 <= entry < entries_in(payload@)->0.len(),
        0 <= transaction < entries_in(payload@)->0[entry].len(),
        entries_in(payload@)->0[entry][transaction].len() > 0,
        held(*old(subscriptions)).contains_key(
            signature_text(entries_in(payload@)->0[entry][transaction][0]),
        ),
    ensures
        exists|i: int|
            {
                &&& 0 <= i < step.found@.len()
                &&& (#[trigger] step.found@[i]).signature@ == signature_text(
                    entries_in(payload@)->0[entry][transaction][0],
                )
                &&& step.found@[i].slot == old(state)@.current_slot()
            },
{
    let event = Event::Deshredded(Some(payload));
    let entries = entries_in(payload@)->0;
    let signature = signature_text(entries[entry][transaction][0]);
    let table = held(*old(subscriptions));
    let shown = old(state)@.shown(event@.decoded());
    let slot = old(state)@.current_slot();
    decoded_transactions_are_shown(old(state)@, entries, entry, transaction);
    let found_ms = choose|found_ms: u64|
        found_views(step.found@) == #[trigger] reports(table, shown, slot, found_ms);
    let all = reports(table, shown, slot, found_ms);
    subscribed_transactions_are_reported(table, shown, slot, found_ms, signature);
    let k = all.index_of(report(signature, table[signature], slot, found_ms));
    assert(found_views(step.found@)[k] == step.found@[k]@);
    assert(step.found@[k].signature@ == signature);
}

/// An event moves the state on by one step, uses up exactly the subscriptions of the transactions that
/// it shows, and is told to be undecodable exactly where it brings a payload without entries.
pub proof fn events_move_the_state_on(
    state: &mut Reconstruction,
    subscriptions: &mut Subscriptions,
    event: Event,
    step: Step,
    signature: Seq<char>,
)
    requires
        call_ensures(reconstruct_shreds, (state, subscriptions, event), step),
    ensures
        final(state)@ == old(state)@.after(event@.decoded()),
        held(*final(subscriptions)).contains_key(signature) <==> held(
            *old(subscriptions),
        ).contains_key(signature) && !old(state)@.shown(event@.decoded()).contains(signature),
        held(*final(subscriptions)).contains_key(signature) ==> held(
            *final(subscriptions),
        )[signature] == held(*old(subscriptions))[signature],
        step.undecodable <==> (event matches Event::Deshredded(Some(payload)) && entries_in(
            payload@,
        ) is None),
{
    subscriptions_are_used_once(
        held(*old(subscriptions)),
        old(state)@.shown(event@.decoded()),
        Seq::empty(),
    );
}

/// An event can be taken exactly where the state expects it.
pub proof fn expected_events_are_told(state: &Reconstruction, event: &Event, expected: bool)
    requires
        call_ensures(Reconstruction::expects, (state, event), expected),
    ensures
        expected <==> state@.expects(event@),
        state@.phase is Deshredding && *event is Deshredded ==> expected,
        state@.phase is Recovering && event@ == EventView::Recovered(None) ==> expected,
{
}

} // verus!
