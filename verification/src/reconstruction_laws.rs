//! What holds of reconstruction over any number of events.
use crate::reconstruction::{
    accepted, ascending, can_be_offered_all, closes_run, is_closed_run, kept_slots, needs_recovery, offered,
    lemma_with_pair, oldest_slot, precedes, shreds_keep_the_state_consistent, with_pair, Phase, ProgressView,
    ReconstructionView, SlotView, SLOT_LOOKBACK,
};
use crate::reconstruction::{
    action_fits, is_incomplete, is_incomplete_report, is_ordered, is_sorted_order,
    plain_shred_views, sort_keys, Action, EventView, IncompleteSlot,
};
use crate::scan::{entries_in, observed};
use crate::shred::{same_shred, ShredView, MAX_DATA_SHREDS_PER_SLOT};
use crate::signature::signature_text;
use crate::tracker::{
    data_count, decoded_runs_stay_decoded, fec_set_info, is_flagged,
    shreds_are_counted_by_type, the_first_flag_tells_the_size, tracker_extends, TrackerView,
};
use vstd::prelude::*;

verus! {

proof fn lemma_resume_deshredding(state: ReconstructionView, position: int)
    requires
        0 <= position,
    ensures
        ({
            let after = state.resume_deshredding(position);
            &&& after.highest_slot == state.highest_slot
            &&& after.recovered == state.recovered
            &&& match after.phase {
                Phase::Idle => after.slots == kept_slots(state.slots, state.highest_slot)
                    && after.pending == state.pending,
                Phase::Recovering { .. } => false,
                Phase::Deshredding { position: next, start, end } => {
                    &&& after.slots == state.slots
                    &&& after.pending == state.pending
                    &&& state.pending.len() <= usize::MAX ==> position <= next
                        < state.pending.len()
                },
            }
        }),
    decreases state.pending.len() - position,
{
    if position < state.pending.len() {
        let tracker = state.pending_slot(position).tracker;
        if !closes_run(tracker, state.pending[position].1) {
            lemma_resume_deshredding(state, position + 1);
        }
    }
}

proof fn lemma_resume_recovery(state: ReconstructionView, position: int)
    requires
        0 <= position,
    ensures
        ({
            let after = state.resume_recovery(position);
            &&& after.highest_slot == state.highest_slot
            &&& after.recovered == state.recovered
            &&& match after.phase {
                Phase::Idle => after.slots == kept_slots(state.slots, state.highest_slot)
                    && after.pending == state.pending,
                Phase::Recovering { position: next } => {
                    &&& after.slots == state.slots
                    &&& after.pending == state.pending
                    &&& state.pending.len() <= usize::MAX ==> position <= next
                        < state.pending.len()
                },
                Phase::Deshredding { position: next, .. } => {
                    &&& after.slots == state.slots
                    &&& after.pending == state.pending
                    &&& state.pending.len() <= usize::MAX ==> next < state.pending.len()
                },
            }
        }),
    decreases state.pending.len() - position,
{
    if position >= state.pending.len() {
        lemma_resume_deshredding(state, 0);
    } else if !needs_recovery(state.pending_set(position)) {
        lemma_resume_recovery(state, position + 1);
    }
}

proof fn lemma_with_shreds_highest(state: ReconstructionView, shreds: Seq<ShredView>)
    ensures
        state.with_shreds(shreds).highest_slot >= state.highest_slot,
    decreases shreds.len(),
{
    if shreds.len() > 0 {
        lemma_with_shreds_highest(state, shreds.drop_last());
    }
}

proof fn lemma_after(state: ReconstructionView, progress: ProgressView)
    requires
        state.well_formed(),
        state.expects_progress(progress),
    ensures
        state.after(progress).highest_slot == state.noted(progress).highest_slot,
        state.after(progress).phase is Idle ==> state.after(progress).slots == kept_slots(
            state.noted(progress).slots,
            state.noted(progress).highest_slot,
        ),
        !(state.after(progress).phase is Idle) ==> state.after(progress).slots == state.noted(
            progress,
        ).slots,
{
    match state.phase {
        Phase::Idle => lemma_resume_recovery(state.noted(progress), 0),
        Phase::Recovering { position } => lemma_resume_recovery(
            state.noted(progress),
            position + 1,
        ),
        Phase::Deshredding { position, .. } => lemma_resume_deshredding(
            state.noted(progress),
            position + 1,
        ),
    }
}

/// The highest slot seen never falls.
pub proof fn highest_slot_never_falls(state: ReconstructionView, progress: ProgressView)
    requires
        state.well_formed(),
        state.expects_progress(progress),
    ensures
        state.after(progress).highest_slot >= state.highest_slot,
{
    lemma_after(state, progress);
    if let ProgressView::Batch(shreds) = progress {
        lemma_with_shreds_highest(state.at_batch(), shreds);
    }
}

proof fn lemma_with_shreds_consistent(state: ReconstructionView, shreds: Seq<ShredView>)
    requires
        state.consistent(),
        state.can_look_at_all(shreds),
    ensures
        state.with_shreds(shreds).consistent(),
    decreases shreds.len(),
{
    if shreds.len() > 0 {
        let shorter = shreds.drop_last();
        lemma_with_shreds_consistent(state, shorter);
        assert(shreds.last() == shreds[shreds.len() - 1]);
        shreds_keep_the_state_consistent(state.with_shreds(shorter), shreds.last());
    }
}

proof fn lemma_noted_consistent(state: ReconstructionView, progress: ProgressView)
    requires
        state.well_formed(),
        state.expects_progress(progress),
    ensures
        state.noted(progress).consistent(),
{
    let noted = state.noted(progress);
    match (state.phase, progress) {
        (Phase::Idle, ProgressView::Batch(shreds)) => {
            assert(state.at_batch().consistent());
            lemma_with_shreds_consistent(state.at_batch(), shreds);
        },
        (Phase::Recovering { position }, ProgressView::Recovered(outcome)) => {
            let slot = state.pending[position as int].0;
            assert(state.slots[slot].well_formed(slot));
            if outcome is Some {
                lemma_offered_extends(state.slots[slot].tracker, outcome->0);
            }
            assert(noted.slots[slot].well_formed(slot));
        },
        (Phase::Deshredding { position, start, end }, ProgressView::Decoded(_)) => {
            let slot = state.pending[position as int].0;
            assert(state.slots[slot].well_formed(slot));
            assert(noted.slots[slot].well_formed(slot));
        },
        _ => {},
    }
}

proof fn lemma_resume_deshredding_well_formed(state: ReconstructionView, position: int)
    requires
        state.consistent(),
        state.pending.len() <= usize::MAX,
        0 <= position,
    ensures
        state.resume_deshredding(position).well_formed(),
    decreases state.pending.len() - position,
{
    if position < state.pending.len() {
        let tracker = state.pending_slot(position).tracker;
        if !closes_run(tracker, state.pending[position].1) {
            lemma_resume_deshredding_well_formed(state, position + 1);
        }
    }
}

proof fn lemma_resume_recovery_well_formed(state: ReconstructionView, position: int)
    requires
        state.consistent(),
        state.pending.len() <= usize::MAX,
        0 <= position,
    ensures
        state.resume_recovery(position).well_formed(),
    decreases state.pending.len() - position,
{
    if position >= state.pending.len() {
        lemma_resume_deshredding_well_formed(state, 0);
    } else if !needs_recovery(state.pending_set(position)) {
        lemma_resume_recovery_well_formed(state, position + 1);
    }
}

/// The state stays well-formed whatever happens, as long as its pending work can be counted.
pub proof fn events_keep_the_state_well_formed(state: ReconstructionView, progress: ProgressView)
    requires
        state.well_formed(),
        state.expects_progress(progress),
        state.noted(progress).pending.len() <= usize::MAX,
    ensures
        state.after(progress).well_formed(),
{
    lemma_noted_consistent(state, progress);
    match state.phase {
        Phase::Idle => lemma_resume_recovery_well_formed(state.noted(progress), 0),
        Phase::Recovering { position } => lemma_resume_recovery_well_formed(
            state.noted(progress),
            position + 1,
        ),
        Phase::Deshredding { position, .. } => lemma_resume_deshredding_well_formed(
            state.noted(progress),
            position + 1,
        ),
    }
}

/// How many events the work on the latest batch can still take.
pub open spec fn events_left(state: ReconstructionView) -> nat {
    match state.phase {
        Phase::Idle => 0,
        Phase::Recovering { position } => (2 * state.pending.len() - position) as nat,
        Phase::Deshredding { position, .. } => (state.pending.len() - position) as nat,
    }
}

/// The work on a batch comes to an end: every event but a new batch leaves less of it.
pub proof fn work_on_a_batch_ends(state: ReconstructionView, progress: ProgressView)
    requires
        state.well_formed(),
        state.pending.len() <= usize::MAX,
        state.expects_progress(progress),
        !(progress is Batch),
    ensures
        events_left(state.after(progress)) < events_left(state),
{
    match state.phase {
        Phase::Idle => {},
        Phase::Recovering { position } => lemma_resume_recovery(
            state.noted(progress),
            position + 1,
        ),
        Phase::Deshredding { position, .. } => lemma_resume_deshredding(
            state.noted(progress),
            position + 1,
        ),
    }
}

proof fn lemma_few_numbers(numbers: Set<u64>, least: u64, greatest: u64)
    requires
        least <= greatest,
        forall|number: u64| #[trigger] numbers.contains(number) ==> least <= number <= greatest,
    ensures
        numbers.finite(),
        numbers.len() <= greatest - least + 1,
    decreases greatest - least,
{
    let rest = numbers.remove(greatest);
    if least == greatest {
        assert(rest =~= Set::empty());
    } else {
        lemma_few_numbers(rest, least, (greatest - 1) as u64);
    }
    if numbers.contains(greatest) {
        assert(numbers =~= rest.insert(greatest));
    } else {
        assert(numbers =~= rest);
    }
}

/// Once the work on a batch is done, the state holds few slots: none beyond the highest one, and
/// where there are more than the lookback allows for, none that lies further behind it. No other
/// slot is given up.
pub proof fn few_slots_are_kept(state: ReconstructionView, progress: ProgressView)
    requires
        state.well_formed(),
        state.expects_progress(progress),
        state.after(progress).phase is Idle,
    ensures
        state.after(progress).slots.len() <= SLOT_LOOKBACK + 1,
        state.after(progress).slots.len() > SLOT_LOOKBACK ==> forall|slot: u64| #[trigger]
            state.after(progress).slots.contains_key(slot) ==> oldest_slot(
                state.after(progress).highest_slot,
            ) <= slot <= state.after(progress).highest_slot,
        forall|slot: u64| #[trigger]
            state.noted(progress).slots.contains_key(slot) && oldest_slot(
                state.after(progress).highest_slot,
            ) <= slot ==> state.after(progress).slots.contains_key(slot),
        forall|slot: u64| #[trigger]
            state.slots.contains_key(slot) && oldest_slot(state.after(progress).highest_slot)
                <= slot ==> state.after(progress).slots.contains_key(slot),
{
    let noted = state.noted(progress);
    let after = state.after(progress);
    lemma_after(state, progress);
    lemma_noted_consistent(state, progress);
    assert forall|slot: u64| #[trigger] state.slots.contains_key(slot) implies noted.slots.contains_key(
        slot,
    ) by {
        if let ProgressView::Batch(shreds) = progress {
            assert(state.at_batch().slots.contains_key(slot));
            lemma_with_shreds_extends(state.at_batch(), shreds);
        }
    }
    if noted.slots.len() > SLOT_LOOKBACK {
        lemma_few_numbers(after.slots.dom(), oldest_slot(after.highest_slot), after.highest_slot);
    }
}

/// A shred of a slot that is too old adds no work and teaches nothing.
pub proof fn old_shreds_are_ignored(state: ReconstructionView, shred: ShredView)
    requires
        shred.slot() < oldest_slot(state.highest_slot),
    ensures
        state.with_shred(shred).pending == state.pending,
        state.with_shred(shred).highest_slot == state.highest_slot,
        forall|slot: u64| #[trigger] state.with_shred(shred).slot(slot) == state.slot(slot),
{
}

proof fn lemma_with_pair_again(pairs: Seq<(u64, u32)>, pair: (u64, u32))
    requires
        ascending(pairs),
    ensures
        with_pair(with_pair(pairs, pair), pair) == with_pair(pairs, pair),
    decreases pairs.len(),
{
    let once = with_pair(pairs, pair);
    if pairs.len() == 0 || precedes(pairs.last(), pair) {
        assert(once.last() == pair);
    } else if pairs.last() != pair {
        let shorter = pairs.drop_last();
        lemma_with_pair_again(shorter, pair);
        assert(once.drop_last() =~= with_pair(shorter, pair));
        assert(once.last() == pairs.last());
    }
}

/// Whether a shred is known again when it is repeated: any data shred is, and a coding shred that
/// counts as the same as itself.
pub open spec fn is_repeatable(shred: ShredView) -> bool {
    shred is Data || same_shred(shred, shred)
}

/// A shred that is known again when it is repeated changes nothing then.
pub proof fn repeated_shreds_change_nothing(state: ReconstructionView, shred: ShredView)
    requires
        state.consistent(),
        state.can_look_at(shred),
        is_repeatable(shred),
    ensures
        state.with_shred(shred).with_shred(shred) == state.with_shred(shred),
{
    let once = state.with_shred(shred);
    let twice = once.with_shred(shred);
    let slot = state.slot(shred.slot());
    let f = shred.fec_set_index();
    if oldest_slot(state.highest_slot) <= shred.slot() && slot.takes(shred) {
        let after = slot.with_shred(shred);
        assert(once.slot(shred.slot()) == after);
        if shred is Data {
            assert(!after.takes(shred));
            assert(twice.slots =~= once.slots);
        } else {
            lemma_with_pair_again(state.pending, (shred.slot(), f));
            let set = slot.fec_set(f);
            assert(after.fec_set(f) == crate::tracker::with_shred(set, shred));
            assert(crate::tracker::with_shred(after.fec_set(f), shred) == after.fec_set(f)) by {
                if after.fec_set(f) == set.push(shred) {
                    assert(same_shred(shred, after.fec_set(f)[set.len() as int]));
                }
            }
            assert(after.with_shred(shred).fec_sets =~= after.fec_sets);
            assert(twice.slots =~= once.slots);
            assert(twice.pending == once.pending);
        }
    } else {
        assert(once.slot(shred.slot()) == slot);
        assert(twice.slots =~= once.slots);
    }
}

/// A FEC set that was recovered is done with: the slot takes no more shreds of it, and its
/// recovery is not asked for again.
pub proof fn recovered_sets_are_done(
    state: ReconstructionView,
    position: int,
    outcome: Seq<Option<ShredView>>,
    shred: ShredView,
)
    requires
        state.consistent(),
        0 <= position < state.pending.len(),
        can_be_offered_all(state.pending_slot(position).tracker, outcome),
        accepted(state.pending_slot(position).tracker, outcome) > 0,
        shred.fec_set_index() == state.pending[position].1,
    ensures
        !state.after_recovery(position, Some(outcome)).pending_slot(position).takes(shred),
        !needs_recovery(state.after_recovery(position, Some(outcome)).pending_set(position)),
{
    let slot = state.pending[position].0;
    assert(state.slots[slot].well_formed(slot));
    lemma_offered_extends(state.slots[slot].tracker, outcome);
}

/// Whether the state knows at least as much of every slot that it still holds.
pub open spec fn reconstruction_extends(
    before: ReconstructionView,
    after: ReconstructionView,
) -> bool {
    forall|slot: u64| #[trigger]
        before.slots.contains_key(slot) && after.slots.contains_key(slot) ==> tracker_extends(
            before.slots[slot].tracker,
            after.slots[slot].tracker,
        )
}

/// A tracker only learns from recovered shreds that are offered to it, and they alone recover no
/// FEC set.
pub proof fn lemma_offered_extends(tracker: TrackerView, recovered: Seq<Option<ShredView>>)
    requires
        tracker.well_formed(),
        can_be_offered_all(tracker, recovered),
    ensures
        tracker_extends(tracker, offered(tracker, recovered)),
        offered(tracker, recovered).recovered == tracker.recovered,
    decreases recovered.len(),
{
    if recovered.len() > 0 {
        let shorter = recovered.drop_last();
        assert forall|i: int|
            0 <= i < shorter.len() && (
            #[trigger] shorter[i]) is Some implies tracker.can_be_offered(shorter[i]->0) by {
            assert(shorter[i] == recovered[i]);
        }
        lemma_offered_extends(tracker, shorter);
        assert(recovered.last() == recovered[recovered.len() - 1]);
    }
}

proof fn lemma_with_shreds_extends(state: ReconstructionView, shreds: Seq<ShredView>)
    requires
        state.consistent(),
        state.can_look_at_all(shreds),
    ensures
        forall|slot: u64| #[trigger]
            state.slots.contains_key(slot) ==> state.with_shreds(shreds).slots.contains_key(slot)
                && tracker_extends(
                state.slots[slot].tracker,
                state.with_shreds(shreds).slots[slot].tracker,
            ),
    decreases shreds.len(),
{
    if shreds.len() > 0 {
        let shorter = shreds.drop_last();
        lemma_with_shreds_extends(state, shorter);
        assert(shreds.last() == shreds[shreds.len() - 1]);
        let middle = state.with_shreds(shorter);
        let after = state.with_shreds(shreds);
        assert forall|slot: u64| #[trigger] state.slots.contains_key(slot) implies after.slots.contains_key(slot)
            && tracker_extends(state.slots[slot].tracker, after.slots[slot].tracker) by {
            assert(middle.slots.contains_key(slot));
        }
    }
}

/// Nothing that is known of a slot is forgotten while the slot is held: no data shred, no
/// recovery of a FEC set, and no decoding of a run of entries.
pub proof fn reconstruction_only_learns(state: ReconstructionView, progress: ProgressView)
    requires
        state.well_formed(),
        state.expects_progress(progress),
    ensures
        reconstruction_extends(state, state.after(progress)),
{
    lemma_after(state, progress);
    let noted = state.noted(progress);
    match (state.phase, progress) {
        (Phase::Idle, ProgressView::Batch(shreds)) => {
            lemma_with_shreds_extends(state.at_batch(), shreds);
        },
        (Phase::Recovering { position }, ProgressView::Recovered(outcome)) => {
            if outcome is Some {
                lemma_offered_extends(
                    state.pending_slot(position as int).tracker,
                    outcome->0,
                );
            }
        },
        _ => {},
    }
    assert forall|slot: u64| #[trigger]
        state.slots.contains_key(slot) && noted.slots.contains_key(slot) implies tracker_extends(
        state.slots[slot].tracker,
        noted.slots[slot].tracker,
    ) by {
        assert(state.at_batch().slots.contains_key(slot));
        assert(state.slots[slot].well_formed(slot));
    }
}

/// The entries of a run are decoded once: what is decoded after it, around whatever FEC set of
/// the slot, shares no shred with it.
pub proof fn runs_are_decoded_once(
    state: ReconstructionView,
    entries: Seq<Seq<Seq<Seq<u8>>>>,
    fec_set_index: u32,
    start: usize,
    end: usize,
)
    requires
        state.well_formed(),
        state.phase is Deshredding,
        is_closed_run(
            state.noted(ProgressView::Decoded(Some(entries))).slots[state.current_slot()].tracker,
            fec_set_index,
            start,
            end,
        ),
    ensures
        end < state.phase->start || state.phase->end < start,
{
    let position = state.phase->Deshredding_position as int;
    decoded_runs_stay_decoded(
        state.pending_slot(position).tracker,
        state.phase->start as int,
        state.phase->end as int,
        fec_set_index as int,
        start as int,
        end as int,
        false,
    );
}

/// Whether the state takes a shred: its slot is not too old, and the slot takes it.
pub open spec fn takes(state: ReconstructionView, shred: ShredView) -> bool {
    oldest_slot(state.highest_slot) <= shred.slot() && state.slot(shred.slot()).takes(shred)
}

/// Whether the FEC set takes the shred of that position of a batch, once the shreds before it have
/// been looked at.
pub open spec fn takes_at(
    state: ReconstructionView,
    shreds: Seq<ShredView>,
    position: int,
    set: (u64, u32),
) -> bool {
    &&& takes(state.with_shreds(shreds.take(position)), shreds[position])
    &&& set == (shreds[position].slot(), shreds[position].fec_set_index())
}

proof fn lemma_pending_after_shred(state: ReconstructionView, shred: ShredView, set: (u64, u32))
    requires
        ascending(state.pending),
    ensures
        ascending(state.with_shred(shred).pending),
        state.with_shred(shred).pending.contains(set) <==> state.pending.contains(set) || (takes(
            state,
            shred,
        ) && set == (shred.slot(), shred.fec_set_index())),
{
    lemma_with_pair(state.pending, (shred.slot(), shred.fec_set_index()));
}

/// Work is pending on exactly those FEC sets that took a shred of the batch.
pub proof fn pending_sets_took_a_shred(
    state: ReconstructionView,
    shreds: Seq<ShredView>,
    set: (u64, u32),
)
    requires
        state.pending.len() == 0,
    ensures
        ascending(state.with_shreds(shreds).pending),
        state.with_shreds(shreds).pending.contains(set) <==> exists|i: int|
            0 <= i < shreds.len() && #[trigger] takes_at(state, shreds, i, set),
    decreases shreds.len(),
{
    if shreds.len() > 0 {
        let shorter = shreds.drop_last();
        let last = shreds.len() - 1;
        let before = state.with_shreds(shorter);
        let pending = state.with_shreds(shreds).pending;
        pending_sets_took_a_shred(state, shorter, set);
        lemma_pending_after_shred(before, shreds[last], set);
        assert(shreds.take(last) =~= shorter);
        assert(takes_at(state, shreds, last, set) <==> takes(before, shreds[last]) && set == (
            shreds[last].slot(),
            shreds[last].fec_set_index(),
        ));
        assert forall|i: int| 0 <= i < last implies #[trigger] takes_at(state, shorter, i, set)
            == takes_at(state, shreds, i, set) by {
            assert(shorter.take(i) =~= shreds.take(i));
        }
        if before.pending.contains(set) {
            let i = choose|i: int|
                0 <= i < shorter.len() && #[trigger] takes_at(state, shorter, i, set);
            assert(takes_at(state, shreds, i, set));
        }
        if exists|i: int| 0 <= i < shreds.len() && #[trigger] takes_at(state, shreds, i, set) {
            let i = choose|i: int|
                0 <= i < shreds.len() && #[trigger] takes_at(state, shreds, i, set);
            if i < last {
                assert(takes_at(state, shorter, i, set));
            }
        }
    }
}

/// No pending run of entries is passed over: what is deshredded next is the first one, from the
/// position on, that is closed, and where nothing is deshredded none is.
pub proof fn no_closed_run_is_skipped(state: ReconstructionView, position: int, other: int)
    requires
        state.pending.len() <= usize::MAX,
        0 <= position <= other < state.pending.len(),
    ensures
        match state.resume_deshredding(position).phase {
            Phase::Deshredding { position: next, .. } => {
                &&& closes_run(state.pending_slot(next as int).tracker, state.pending[next as int].1)
                &&& other < next ==> !closes_run(
                    state.pending_slot(other).tracker,
                    state.pending[other].1,
                )
            },
            _ => !closes_run(state.pending_slot(other).tracker, state.pending[other].1),
        },
    decreases state.pending.len() - position,
{
    lemma_resume_deshredding(state, position);
    if !closes_run(state.pending_slot(position).tracker, state.pending[position].1) {
        if position < other {
            no_closed_run_is_skipped(state, position + 1, other);
        } else if position + 1 < state.pending.len() {
            no_closed_run_is_skipped(state, position + 1, position + 1);
            lemma_resume_deshredding(state, position + 1);
        }
    }
}

/// No pending FEC set is passed over: what is recovered next is the first one, from the position
/// on, that can and should be, and where nothing is recovered none can and should be.
pub proof fn no_recovery_is_skipped(state: ReconstructionView, position: int, other: int)
    requires
        state.pending.len() <= usize::MAX,
        0 <= position <= other < state.pending.len(),
    ensures
        match state.resume_recovery(position).phase {
            Phase::Recovering { position: next } => {
                &&& needs_recovery(state.pending_set(next as int))
                &&& other < next ==> !needs_recovery(state.pending_set(other))
            },
            _ => !needs_recovery(state.pending_set(other)),
        },
    decreases state.pending.len() - position,
{
    lemma_resume_recovery(state, position);
    if !needs_recovery(state.pending_set(position)) {
        if position < other {
            no_recovery_is_skipped(state, position + 1, other);
        } else if position + 1 < state.pending.len() {
            no_recovery_is_skipped(state, position + 1, position + 1);
            lemma_resume_recovery(state, position + 1);
        } else {
            lemma_resume_deshredding(state, 0);
        }
    }
}

/// A shred is taken exactly where its slot is at most ten behind the highest one seen, its FEC set is
/// not recovered, it is not decoded, and a data shred is the first of its index. It then joins its
/// FEC set, work is pending on that set, and its slot counts as seen. Whatever becomes of it, no other
/// slot and no other FEC set changes.
pub proof fn shreds_are_taken_by_age_and_novelty(
    state: ReconstructionView,
    shred: ShredView,
    slot: u64,
    fec_set_index: u32,
)
    requires
        state.consistent(),
        state.can_look_at(shred),
    ensures
        ({
            let header = shred.common_header();
            let after = state.with_shred(shred);
            let before = state.slot(header.slot);
            let tracker = before.tracker;
            let taken = header.slot + 10 >= state.highest_slot
                && !tracker.recovered[header.fec_set_index as int]
                && !tracker.deshredded[header.index as int] && (shred is Data
                ==> tracker.shreds[header.index as int] is None);
            &&& taken ==> {
                &&& after.highest_slot >= header.slot
                &&& after.highest_slot == state.highest_slot || after.highest_slot == header.slot
                &&& after.highest_slot >= state.highest_slot
                &&& after.slot(header.slot).fec_set(header.fec_set_index)
                    == crate::tracker::with_shred(before.fec_set(header.fec_set_index), shred)
                &&& after.slot(header.slot).tracker == tracker.updated(shred)
            }
            &&& !taken ==> after.highest_slot == state.highest_slot && after.slot(header.slot)
                == before
            &&& after.pending.contains((slot, fec_set_index)) <==> state.pending.contains(
                (slot, fec_set_index),
            ) || (taken && slot == header.slot && fec_set_index == header.fec_set_index)
            &&& after.slots.contains_key(slot) <==> state.slots.contains_key(slot) || slot
                == header.slot
            &&& slot != header.slot ==> after.slot(slot) == state.slot(slot)
            &&& fec_set_index != header.fec_set_index ==> after.slot(slot).fec_set(fec_set_index)
                == state.slot(slot).fec_set(fec_set_index)
            &&& after.recovered == state.recovered
            &&& after.phase == state.phase
        }),
{
    let s = shred.slot();
    if state.slots.contains_key(s) {
        assert(state.slots[s].well_formed(s));
    }
    lemma_pending_after_shred(state, shred, (slot, fec_set_index));
}

/// The shreds of a batch are looked at one after the other, in the order in which they came.
pub proof fn batches_are_looked_at_in_order(
    state: ReconstructionView,
    shreds: Seq<ShredView>,
    shred: ShredView,
)
    ensures
        state.with_shreds(Seq::empty()) == state,
        state.with_shreds(shreds.push(shred)) == state.with_shreds(shreds).with_shred(shred),
{
    assert(shreds.push(shred).drop_last() =~= shreds);
}

/// A batch starts with no pending work and nothing recovered; what is known of slots stays.
pub proof fn batches_start_afresh(state: ReconstructionView, shreds: Seq<ShredView>)
    requires
        state.phase is Idle,
    ensures
        ({
            let start = ReconstructionView { pending: Seq::empty(), recovered: 0, ..state };
            state.noted(ProgressView::Batch(shreds)) == start.with_shreds(shreds)
        }),
{
}

/// Once the work on a batch is done, slots are given up exactly where more than ten are known and
/// they lie more than ten behind the highest one; of the others nothing is forgotten.
pub proof fn slots_are_given_up_by_age(
    state: ReconstructionView,
    progress: ProgressView,
    slot: u64,
)
    requires
        state.well_formed(),
        state.expects_progress(progress),
        state.after(progress).phase is Idle,
    ensures
        ({
            let noted = state.noted(progress);
            let after = state.after(progress);
            &&& after.slots.contains_key(slot) <==> noted.slots.contains_key(slot) && (
            noted.slots.len() <= 10 || slot + 10 >= noted.highest_slot)
            &&& after.slots.contains_key(slot) ==> after.slots[slot] == noted.slots[slot]
            &&& after.highest_slot == noted.highest_slot
            &&& after.recovered == noted.recovered
        }),
{
    lemma_after(state, progress);
    lemma_counts_after(state, progress);
}

proof fn lemma_counts_after(state: ReconstructionView, progress: ProgressView)
    ensures
        state.after(progress).recovered == state.noted(progress).recovered,
        state.after(progress).pending == state.noted(progress).pending,
{
    match state.phase {
        Phase::Idle => lemma_resume_recovery(state.noted(progress), 0),
        Phase::Recovering { position } => lemma_resume_recovery(
            state.noted(progress),
            position + 1,
        ),
        Phase::Deshredding { position, .. } => lemma_resume_deshredding(
            state.noted(progress),
            position + 1,
        ),
    }
}

/// Whether the coding shreds of a FEC set, of which there is one, announce so many data shreds.
pub open spec fn announces(set: Seq<ShredView>, size: u16) -> bool {
    &&& exists|i: int| 0 <= i < set.len() && (#[trigger] set[i]) is Code
    &&& forall|i: int|
        0 <= i < set.len() && (#[trigger] set[i]) is Code
            ==> set[i]->coding_header.num_data_shreds == size
}

/// Whether a FEC set lacks data shreds that its coding shreds announce, and holds as many shreds of
/// either type as the announced data shreds.
pub open spec fn can_be_completed(set: Seq<ShredView>) -> bool {
    exists|size: u16| #[trigger]
        announces(set, size) && 0 < size <= set.len() && data_count(set) < size
}

/// Whether a FEC set is to be left alone: its coding shreds announce more data shreds than it holds
/// shreds, or as many as it holds data shreds; or it holds no coding shred, and no data shred that
/// tells its size.
pub open spec fn is_left_alone(set: Seq<ShredView>) -> bool {
    ||| exists|size: u16| #[trigger]
        announces(set, size) && size > 0 && (set.len() < size || data_count(set) == size)
    ||| forall|i: int|
        0 <= i < set.len() ==> (#[trigger] set[i]) is Data && !is_flagged(set[i])
}

proof fn lemma_announced(set: Seq<ShredView>, size: u16)
    requires
        announces(set, size),
        size > 0,
    ensures
        fec_set_info(set).expected_data == size,
    decreases set.len(),
{
    if set.last() is Data {
        let shorter = set.drop_last();
        let i = choose|i: int| 0 <= i < set.len() && (#[trigger] set[i]) is Code;
        assert(shorter[i] == set[i]);
        assert forall|j: int| 0 <= j < shorter.len() && (#[trigger] shorter[j]) is Code implies shorter[j]->coding_header.num_data_shreds
            == size by {
            assert(shorter[j] == set[j]);
        }
        assert(announces(shorter, size));
        lemma_announced(shorter, size);
    } else {
        assert(set[set.len() - 1] is Code);
    }
}

proof fn lemma_completion(set: Seq<ShredView>)
    ensures
        can_be_completed(set) ==> needs_recovery(set),
        is_left_alone(set) ==> !needs_recovery(set),
{
    shreds_are_counted_by_type(set);
    if can_be_completed(set) {
        let size = choose|size: u16| #[trigger]
            announces(set, size) && 0 < size <= set.len() && data_count(set) < size;
        lemma_announced(set, size);
    }
    if is_left_alone(set) {
        if exists|size: u16| #[trigger]
            announces(set, size) && size > 0 && (set.len() < size || data_count(set) == size) {
            let size = choose|size: u16| #[trigger]
                announces(set, size) && size > 0 && (set.len() < size || data_count(set) == size);
            lemma_announced(set, size);
        } else {
            the_first_flag_tells_the_size(set, set.len() as int);
        }
    }
}

/// A batch asks for the recovery of a pending FEC set that lacks announced data shreds as soon as it
/// holds as many shreds as were announced, where the sets before it are to be left alone. Where all
/// pending sets are, no recovery is asked for. No more sets are pending than the batch has shreds.
pub proof fn batches_ask_for_recovery(
    state: ReconstructionView,
    shreds: Seq<ShredView>,
    position: int,
)
    requires
        state.well_formed(),
        state.expects_batch(shreds),
        shreds.len() <= usize::MAX,
        0 <= position <= state.noted(ProgressView::Batch(shreds)).pending.len(),
        forall|i: int|
            #![trigger state.noted(ProgressView::Batch(shreds)).pending[i]]
            0 <= i < position ==> is_left_alone(
                state.noted(ProgressView::Batch(shreds)).pending_set(i),
            ),
    ensures
        ({
            let noted = state.noted(ProgressView::Batch(shreds));
            let after = state.after(ProgressView::Batch(shreds));
            &&& position < noted.pending.len() && can_be_completed(noted.pending_set(position)) ==> {
                &&& after.phase == (Phase::Recovering { position: position as usize })
                &&& after.pending == noted.pending
                &&& after.slots == noted.slots
            }
            &&& position == noted.pending.len() ==> !(after.phase is Recovering)
            &&& noted.pending.len() <= shreds.len()
        }),
{
    let noted = state.noted(ProgressView::Batch(shreds));
    lemma_pending_len(state.at_batch(), shreds);
    assert forall|i: int|
        #![trigger noted.pending[i]]
        0 <= i < position implies !needs_recovery(noted.pending_set(i)) by {
        lemma_completion(noted.pending_set(i));
    }
    lemma_resume_past(noted, 0, position);
    if position < noted.pending.len() {
        lemma_completion(noted.pending_set(position));
    } else {
        lemma_resume_deshredding(noted, 0);
    }
}

proof fn lemma_pending_len(state: ReconstructionView, shreds: Seq<ShredView>)
    ensures
        state.with_shreds(shreds).pending.len() <= state.pending.len() + shreds.len(),
    decreases shreds.len(),
{
    if shreds.len() > 0 {
        lemma_pending_len(state, shreds.drop_last());
        let before = state.with_shreds(shreds.drop_last());
        let last = shreds.last();
        lemma_pair_len(before.pending, (last.slot(), last.fec_set_index()));
    }
}

proof fn lemma_pair_len(pairs: Seq<(u64, u32)>, pair: (u64, u32))
    ensures
        with_pair(pairs, pair).len() <= pairs.len() + 1,
    decreases pairs.len(),
{
    if pairs.len() > 0 {
        lemma_pair_len(pairs.drop_last(), pair);
    }
}

proof fn lemma_resume_past(state: ReconstructionView, from: int, position: int)
    requires
        0 <= from <= position <= state.pending.len(),
        forall|i: int|
            #![trigger state.pending[i]]
            from <= i < position ==> !needs_recovery(state.pending_set(i)),
    ensures
        state.resume_recovery(from) == state.resume_recovery(position),
    decreases position - from,
{
    if from < position {
        assert(state.pending[from] == state.pending[from]);
        lemma_resume_past(state, from + 1, position);
    }
}

/// Where the work on a pending FEC set is over, the next one that lacks announced data shreds and
/// holds enough shreds is recovered, and where none is left the runs of entries are looked at from
/// the first pending set on. Nothing that can be done is passed over.
pub proof fn no_work_is_passed_over(
    state: ReconstructionView,
    progress: ProgressView,
    other: int,
)
    requires
        state.well_formed(),
        state.expects_progress(progress),
        state.noted(progress).pending.len() <= usize::MAX,
        0 <= other < state.noted(progress).pending.len(),
    ensures
        ({
            let noted = state.noted(progress);
            let after = state.after(progress);
            let next_set = match state.phase {
                Phase::Idle => 0int,
                Phase::Recovering { position } => position + 1,
                Phase::Deshredding { .. } => noted.pending.len() as int,
            };
            let next_run = match state.phase {
                Phase::Deshredding { position, .. } => position + 1,
                _ => 0int,
            };
            match after.phase {
                Phase::Recovering { position } => {
                    &&& next_set <= position < noted.pending.len()
                    &&& !is_left_alone(noted.pending_set(position as int))
                    &&& next_set <= other < position ==> !can_be_completed(noted.pending_set(other))
                },
                Phase::Deshredding { position, start, end } => {
                    &&& next_run <= position < noted.pending.len()
                    &&& noted.pending_slot(position as int).tracker.is_run(
                        noted.pending[position as int].1 as int,
                        start as int,
                        end as int,
                        false,
                    )
                    &&& next_run <= other < position ==> !closes_run(
                        noted.pending_slot(other).tracker,
                        noted.pending[other].1,
                    )
                    &&& next_set <= other ==> !can_be_completed(noted.pending_set(other))
                },
                Phase::Idle => {
                    &&& next_run <= other ==> !closes_run(
                        noted.pending_slot(other).tracker,
                        noted.pending[other].1,
                    )
                    &&& next_set <= other ==> !can_be_completed(noted.pending_set(other))
                },
            }
        }),
{
    let noted = state.noted(progress);
    lemma_completion(noted.pending_set(other));
    match state.phase {
        Phase::Idle => lemma_resumed(noted, 0, other),
        Phase::Recovering { position } => lemma_resumed(noted, position + 1, other),
        Phase::Deshredding { position, .. } => lemma_resumed_runs(noted, position + 1, other),
    }
    if let Phase::Recovering { position } = state.after(progress).phase {
        lemma_completion(noted.pending_set(position as int));
    }
}

proof fn lemma_resumed(state: ReconstructionView, from: int, other: int)
    requires
        state.pending.len() <= usize::MAX,
        0 <= from,
        0 <= other < state.pending.len(),
    ensures
        match state.resume_recovery(from).phase {
            Phase::Recovering { position } => {
                &&& from <= position < state.pending.len()
                &&& needs_recovery(state.pending_set(position as int))
                &&& from <= other < position ==> !needs_recovery(state.pending_set(other))
            },
            Phase::Deshredding { position, start, end } => {
                &&& position < state.pending.len()
                &&& is_closed_run(
                    state.pending_slot(position as int).tracker,
                    state.pending[position as int].1,
                    start,
                    end,
                )
                &&& other < position ==> !closes_run(
                    state.pending_slot(other).tracker,
                    state.pending[other].1,
                )
                &&& from <= other ==> !needs_recovery(state.pending_set(other))
            },
            Phase::Idle => {
                &&& !closes_run(state.pending_slot(other).tracker, state.pending[other].1)
                &&& from <= other ==> !needs_recovery(state.pending_set(other))
            },
        },
    decreases state.pending.len() - from,
{
    if from >= state.pending.len() {
        lemma_resumed_runs(state, 0, other);
    } else if !needs_recovery(state.pending_set(from)) {
        lemma_resumed(state, from + 1, other);
    }
}

proof fn lemma_resumed_runs(state: ReconstructionView, from: int, other: int)
    requires
        state.pending.len() <= usize::MAX,
        0 <= from,
        0 <= other < state.pending.len(),
    ensures
        match state.resume_deshredding(from).phase {
            Phase::Recovering { .. } => false,
            Phase::Deshredding { position, start, end } => {
                &&& from <= position < state.pending.len()
                &&& is_closed_run(
                    state.pending_slot(position as int).tracker,
                    state.pending[position as int].1,
                    start,
                    end,
                )
                &&& from <= other < position ==> !closes_run(
                    state.pending_slot(other).tracker,
                    state.pending[other].1,
                )
            },
            Phase::Idle => from <= other ==> !closes_run(
                state.pending_slot(other).tracker,
                state.pending[other].1,
            ),
        },
    decreases state.pending.len() - from,
{
    if from < state.pending.len() {
        if !closes_run(state.pending_slot(from).tracker, state.pending[from].1) {
            lemma_resumed_runs(state, from + 1, other);
        }
    }
}

/// A FEC set closes a run exactly where there is a run of entries with a known start around the
/// data shred of its index.
pub proof fn closed_runs_have_a_known_start(tracker: TrackerView, fec_set_index: u32)
    requires
        tracker.well_formed(),
    ensures
        closes_run(tracker, fec_set_index) <==> exists|start: int, end: int| #[trigger]
            tracker.is_run(fec_set_index as int, start, end, false),
{
    if closes_run(tracker, fec_set_index) {
        let (start, end) = choose|start: usize, end: usize|
            is_closed_run(tracker, fec_set_index, start, end);
        assert(tracker.is_run(fec_set_index as int, start as int, end as int, false));
    }
    if exists|start: int, end: int| #[trigger]
        tracker.is_run(fec_set_index as int, start, end, false) {
        let (start, end) = choose|start: int, end: int| #[trigger]
            tracker.is_run(fec_set_index as int, start, end, false);
        assert(is_closed_run(tracker, fec_set_index, start as usize, end as usize));
    }
}

/// A FEC set is to be completed exactly where its size is known, it holds as many shreds of either
/// type as data shreds belong to it, and the data shreds among them are not so many; they are counted
/// in 16 bits.
pub proof fn sets_are_completed_by_count(set: Seq<ShredView>)
    ensures
        ({
            let size = fec_set_info(set).expected_data;
            needs_recovery(set) <==> 0 < size <= set.len() && data_count(set) % 0x1_0000 != size
        }),
{
    shreds_are_counted_by_type(set);
}

/// Whether the recovered shred of that position brings something new: its FEC set is not recovered,
/// and a data shred is neither held nor the same in index as a data shred before it that counted.
pub open spec fn is_news(
    tracker: TrackerView,
    recovered: Seq<Option<ShredView>>,
    position: int,
) -> bool {
    match recovered[position] {
        Some(shred) => {
            &&& !tracker.recovered[shred.common_header().fec_set_index as int]
            &&& shred is Data ==> {
                &&& tracker.shreds[shred.common_header().index as int] is None
                &&& forall|i: int|
                    0 <= i < position ==> !brings(
                        tracker,
                        #[trigger] recovered[i],
                        shred.common_header().index as int,
                    )
            }
        },
        None => false,
    }
}

/// Whether a recovered shred is the data shred of that index, of a FEC set that is not recovered.
pub open spec fn brings(tracker: TrackerView, recovered: Option<ShredView>, index: int) -> bool {
    match recovered {
        Some(shred) => {
            &&& shred is Data
            &&& shred.common_header().index == index
            &&& !tracker.recovered[shred.common_header().fec_set_index as int]
        },
        None => false,
    }
}

/// How many of the first recovered shreds bring something new.
pub open spec fn news(
    tracker: TrackerView,
    recovered: Seq<Option<ShredView>>,
    count: nat,
) -> nat
    decreases count,
{
    if count == 0 {
        0
    } else {
        news(tracker, recovered, (count - 1) as nat) + if is_news(tracker, recovered, count - 1) {
            1nat
        } else {
            0
        }
    }
}

proof fn lemma_offered_shreds(
    tracker: TrackerView,
    recovered: Seq<Option<ShredView>>,
    count: int,
    index: int,
)
    requires
        tracker.well_formed(),
        can_be_offered_all(tracker, recovered),
        0 <= count <= recovered.len(),
        0 <= index < MAX_DATA_SHREDS_PER_SLOT,
    ensures
        ({
            let after = offered(tracker, recovered.take(count));
            &&& after.well_formed()
            &&& after.recovered == tracker.recovered
            &&& after.deshredded == tracker.deshredded
            &&& after.shreds[index] is Some <==> tracker.shreds[index] is Some || exists|i: int|
                0 <= i < count && brings(tracker, #[trigger] recovered[i], index)
            &&& tracker.shreds[index] is Some ==> after.shreds[index] == tracker.shreds[index]
            &&& forall|i: int|
                0 <= i < count && tracker.shreds[index] is None && brings(
                    tracker,
                    #[trigger] recovered[i],
                    index,
                ) && (forall|j: int|
                    0 <= j < i ==> !brings(tracker, #[trigger] recovered[j], index))
                    ==> after.shreds[index] == recovered[i]
        }),
    decreases count,
{
    if count > 0 {
        lemma_offered_shreds(tracker, recovered, count - 1, index);
        let shorter = recovered.take(count - 1);
        assert(recovered.take(count).drop_last() =~= shorter);
        assert(recovered.take(count).last() == recovered[count - 1]);
        let before = offered(tracker, shorter);
        if let Some(shred) = recovered[count - 1] {
            assert(tracker.can_be_offered(shred));
            assert(before.can_be_offered(shred));
            if brings(tracker, recovered[count - 1], index) {
                assert(shred.index() == index);
            }
        }
    } else {
        assert(recovered.take(0) =~= Seq::empty());
    }
}

proof fn lemma_news(tracker: TrackerView, recovered: Seq<Option<ShredView>>, count: nat)
    requires
        tracker.well_formed(),
        can_be_offered_all(tracker, recovered),
        count <= recovered.len(),
    ensures
        accepted(tracker, recovered.take(count as int)) == news(tracker, recovered, count),
    decreases count,
{
    if count > 0 {
        let last = count - 1;
        let shorter = recovered.take(last);
        lemma_news(tracker, recovered, last as nat);
        assert(recovered.take(count as int).drop_last() =~= shorter);
        assert(recovered.take(count as int).last() == recovered[last]);
        lemma_offered_shreds(tracker, recovered, last, 0);
        if let Some(shred) = recovered[last] {
            assert(tracker.can_be_offered(shred));
            if shred is Data && !tracker.recovered[shred.fec_set_index() as int] {
                lemma_offered_shreds(tracker, recovered, last, shred.index());
            }
        }
    } else {
        assert(recovered.take(0) =~= Seq::empty());
    }
}

/// Of the shreds that a recovery brings, those count that bring something new. Where there are any,
/// they are counted, the FEC set is recovered, its shreds are dropped, and the new data shreds are
/// held, of two with one index the first; where there are none, or recovery failed, nothing changes.
/// No other slot and no other FEC set is touched.
pub proof fn recoveries_bring_what_is_new(
    state: ReconstructionView,
    outcome: Option<Seq<Option<ShredView>>>,
    slot: u64,
    fec_set_index: u32,
    index: int,
)
    requires
        state.well_formed(),
        state.expects_recovered(outcome),
        0 <= index < MAX_DATA_SHREDS_PER_SLOT,
        fec_set_index < MAX_DATA_SHREDS_PER_SLOT,
    ensures
        ({
            let position = state.phase->Recovering_position as int;
            let (s, f) = state.pending[position];
            let before = state.slots[s].tracker;
            let noted = state.noted(ProgressView::Recovered(outcome));
            let after = noted.slots[s].tracker;
            let count = match outcome {
                Some(recovered) => news(before, recovered, recovered.len()),
                None => 0,
            };
            &&& count == 0 ==> noted == state
            &&& count > 0 ==> {
                let recovered = outcome->0;
                &&& noted.recovered == state.recovered + count
                &&& noted.slots[s].fec_set(f).len() == 0
                &&& after.recovered[fec_set_index as int] <==> before.recovered[fec_set_index as int]
                    || fec_set_index == f
                &&& after.deshredded == before.deshredded
                &&& after.shreds[index] is Some <==> before.shreds[index] is Some || exists|i: int|
                    0 <= i < recovered.len() && brings(before, #[trigger] recovered[i], index)
                &&& before.shreds[index] is Some ==> after.shreds[index] == before.shreds[index]
                &&& forall|i: int|
                    0 <= i < recovered.len() && before.shreds[index] is None && brings(
                        before,
                        #[trigger] recovered[i],
                        index,
                    ) && (forall|j: int|
                        0 <= j < i ==> !brings(before, #[trigger] recovered[j], index))
                        ==> after.shreds[index] == recovered[i]
                &&& fec_set_index != f ==> noted.slots[s].fec_set(fec_set_index)
                    == state.slots[s].fec_set(fec_set_index)
            }
            &&& slot != s ==> noted.slot(slot) == state.slot(slot)
            &&& noted.pending == state.pending
            &&& noted.highest_slot == state.highest_slot
        }),
{
    let position = state.phase->Recovering_position as int;
    let (s, f) = state.pending[position];
    assert(state.slots.contains_key(s));
    assert(state.slots[s].well_formed(s));
    assert(state.slots[s].fec_sets.contains_key(f));
    if let Some(recovered) = outcome {
        assert(recovered.take(recovered.len() as int) =~= recovered);
        lemma_news(state.slots[s].tracker, recovered, recovered.len());
        lemma_offered_shreds(
            state.slots[s].tracker,
            recovered,
            recovered.len() as int,
            index,
        );
        lemma_accepted_at_most(state.slots[s].tracker, recovered);
    }
}

proof fn lemma_accepted_at_most(tracker: TrackerView, recovered: Seq<Option<ShredView>>)
    ensures
        accepted(tracker, recovered) <= recovered.len(),
    decreases recovered.len(),
{
    if recovered.len() > 0 {
        lemma_accepted_at_most(tracker, recovered.drop_last());
    }
}

/// Where a run of entries is decoded, its shreds are marked as decoded and the FEC sets that they
/// belong to as recovered; where it is not, nothing changes. No other slot is touched, and no FEC
/// set loses a shred.
pub proof fn decoding_marks_the_run(
    state: ReconstructionView,
    entries: Option<Seq<Seq<Seq<Seq<u8>>>>>,
    slot: u64,
    i: int,
)
    requires
        state.well_formed(),
        state.phase is Deshredding,
        0 <= i < MAX_DATA_SHREDS_PER_SLOT,
    ensures
        ({
            let s = state.pending[state.phase->Deshredding_position as int].0;
            let before = state.slots[s].tracker;
            let noted = state.noted(ProgressView::Decoded(entries));
            let after = noted.slots[s].tracker;
            &&& entries is None ==> noted == state
            &&& entries is Some ==> {
                &&& after.deshredded[i] <==> before.deshredded[i] || state.phase->start <= i
                    <= state.phase->end
                &&& after.recovered[i] <==> before.recovered[i] || exists|k: int|
                    state.phase->start <= k <= state.phase->end && (
                    #[trigger] before.shreds[k]) is Some
                        && before.shreds[k]->0.common_header().fec_set_index == i
                &&& after.shreds == before.shreds
                &&& noted.slots[s].fec_sets == state.slots[s].fec_sets
            }
            &&& slot != s ==> noted.slot(slot) == state.slot(slot)
            &&& noted.pending == state.pending
            &&& noted.highest_slot == state.highest_slot
            &&& noted.recovered == state.recovered
        }),
{
    let s = state.pending[state.phase->Deshredding_position as int].0;
    assert(state.slots.contains_key(s));
    assert(state.slots[s].well_formed(s));
}

/// What an event shows is the first signature of every transaction in the entries that were decoded,
/// and nothing where none were.
pub proof fn decoded_transactions_are_shown(
    state: ReconstructionView,
    entries: Seq<Seq<Seq<Seq<u8>>>>,
    entry: int,
    transaction: int,
)
    requires
        0 <= entry < entries.len(),
        0 <= transaction < entries[entry].len(),
        entries[entry][transaction].len() > 0,
    ensures
        state.shown(ProgressView::Decoded(Some(entries))).contains(
            signature_text(entries[entry][transaction][0]),
        ),
        state.shown(ProgressView::Decoded(Some(entries))) == observed(entries),
        state.shown(ProgressView::Decoded(None)).len() == 0,
        forall|shreds: Seq<ShredView>|
            (#[trigger] state.shown(ProgressView::Batch(shreds))).len() == 0,
        forall|outcome: Option<Seq<Option<ShredView>>>|
            (#[trigger] state.shown(ProgressView::Recovered(outcome))).len() == 0,
{
    crate::scan::every_transaction_is_seen(entries, entries[entry][transaction][0]);
    assert(entries[entry][transaction].len() > 0);
}

/// The slot that is worked on is that of the pending FEC set whose recovery, or whose run of
/// entries, is waited for.
pub proof fn the_slot_of_the_pending_set_is_worked_on(state: ReconstructionView)
    ensures
        match state.phase {
            Phase::Idle => true,
            Phase::Recovering { position } => state.current_slot()
                == state.pending[position as int].0,
            Phase::Deshredding { position, .. } => state.current_slot()
                == state.pending[position as int].0,
        },
{
}

/// The shreds of a FEC set are handed to recovery all of them and each once, data shreds before
/// coding shreds, and those of one type by index.
pub proof fn recovery_is_given_the_whole_set(set: Seq<ShredView>, shreds: Seq<ShredView>)
    requires
        is_ordered(set, shreds),
    ensures
        shreds.len() == set.len(),
        exists|positions: Seq<usize>|
            {
                &&& positions.len() == set.len()
                &&& positions.no_duplicates()
                &&& forall|i: int|
                    0 <= i < shreds.len() ==> (#[trigger] positions[i]) < set.len() && shreds[i]
                        == set[positions[i] as int]
            },
        forall|i: int, j: int|
            0 <= i < j < shreds.len() ==> {
                let left = #[trigger] shreds[i];
                let right = #[trigger] shreds[j];
                &&& !(left is Code && right is Data)
                &&& (left is Code <==> right is Code) ==> left.common_header().index
                    <= right.common_header().index
            },
{
    let positions = choose|positions: Seq<usize>|
        {
            &&& #[trigger] is_sorted_order(sort_keys(set), positions)
            &&& shreds == positions.map_values(|p: usize| set[p as int])
        };
    let keys = sort_keys(set);
    assert forall|i: int, j: int| 0 <= i < j < shreds.len() implies {
        let left = #[trigger] shreds[i];
        let right = #[trigger] shreds[j];
        &&& !(left is Code && right is Data)
        &&& (left is Code <==> right is Code) ==> left.common_header().index
            <= right.common_header().index
    } by {
        assert(keys[positions[i] as int] == shreds[i].sort_key());
        assert(keys[positions[j] as int] == shreds[j].sort_key());
    }
    assert(positions.no_duplicates());
    assert(forall|i: int|
        0 <= i < shreds.len() ==> (#[trigger] positions[i]) < set.len() && shreds[i]
            == set[positions[i] as int]);
}

/// What is to be done next is what the state waits for: the recovery of the pending FEC set from its
/// shreds, the deshredding of the run from the payloads of its data shreds in order, or the next
/// batch, with the number of shreds that were recovered.
pub proof fn actions_are_what_is_waited_for(
    before: ReconstructionView,
    state: ReconstructionView,
    action: Action,
)
    requires
        action_fits(before, state, action),
    ensures
        match state.phase {
            Phase::Idle => action is Done && action->recovered == state.recovered
                && is_incomplete_report(before.slots, before.highest_slot, action->incomplete@),
            Phase::Recovering { position } => {
                &&& action is Recover
                &&& action->Recover_slot == state.pending[position as int].0
                &&& action->fec_set_index == state.pending[position as int].1
                &&& is_ordered(
                    state.slots[action->Recover_slot].fec_sets[action->fec_set_index],
                    plain_shred_views(action->shreds@),
                )
            },
            Phase::Deshredding { position, start, end } => {
                &&& action is Deshred
                &&& action->Deshred_slot == state.pending[position as int].0
                &&& action->start == start
                &&& action->end == end
                &&& action->payloads@.len() == end - start + 1
                &&& forall|i: int|
                    start <= i <= end ==> (#[trigger] action->payloads@[i - start])@
                        == state.slots[action->Deshred_slot].tracker.shreds[i]->0.payload()
            },
        },
{
    if let Phase::Deshredding { position, start, end } = state.phase {
        assert forall|i: int| start <= i <= end implies (#[trigger] action->payloads@[i - start])@
            == state.slots[action->Deshred_slot].tracker.shreds[i]->0.payload() by {
            assert(start + (i - start) == i);
        }
    }
}

/// A slot is reported as incomplete exactly where it is given up, more than ten slots being known
/// and the slot more than ten behind the highest one, and a FEC set of it is not recovered. The
/// report names each such set once, with the number of its shreds that arrived.
pub proof fn incomplete_slots_are_reported(
    slots: Map<u64, SlotView>,
    highest_slot: u64,
    incomplete: Seq<IncompleteSlot>,
    slot: u64,
    fec_set_index: u32,
)
    requires
        is_incomplete_report(slots, highest_slot, incomplete),
    ensures
        (exists|i: int| 0 <= i < incomplete.len() && (#[trigger] incomplete[i]).slot == slot) <==> {
            &&& slots.contains_key(slot)
            &&& slots.len() > 10
            &&& slot + 10 < highest_slot
            &&& exists|f: u32| #[trigger]
                slots[slot].fec_sets.contains_key(f) && !slots[slot].tracker.recovered[f as int]
        },
        forall|i: int|
            0 <= i < incomplete.len() && (#[trigger] incomplete[i]).slot == slot ==> {
                let list = incomplete[i].fec_sets@;
                &&& (exists|k: int| 0 <= k < list.len() && (#[trigger] list[k]).0 == fec_set_index)
                    <==> slots[slot].fec_sets.contains_key(fec_set_index)
                    && !slots[slot].tracker.recovered[fec_set_index as int]
                &&& forall|k: int|
                    0 <= k < list.len() && (#[trigger] list[k]).0 == fec_set_index ==> {
                        &&& list[k].1 == fec_set_info(
                            slots[slot].fec_sets[fec_set_index],
                        ).expected_data
                        &&& list[k].2 == slots[slot].fec_sets[fec_set_index].len()
                    }
            },
{
    if slots.contains_key(slot) && slots.len() > 10 && slot + 10 < highest_slot && is_incomplete(
        slots[slot],
    ) {
        assert(!kept_slots(slots, highest_slot).contains_key(slot));
    }
    assert forall|i: int| 0 <= i < incomplete.len() && (#[trigger] incomplete[i]).slot == slot implies {
        &&& slots.contains_key(slot)
        &&& slots.len() > 10
        &&& slot + 10 < highest_slot
        &&& is_incomplete(slots[slot])
    } by {
        assert(!kept_slots(slots, highest_slot).contains_key(slot));
    }
}

/// A shred can be looked at exactly where its slot is more than ten behind the highest one, or its
/// FEC set lies within the slot and is recovered, or both the set and the shred lie within the slot.
/// The shreds of a batch can be where each can when its turn comes, and so can any that lie within
/// their slots.
pub proof fn shreds_within_their_slots_can_be_looked_at(
    state: ReconstructionView,
    shreds: Seq<ShredView>,
    shred: ShredView,
)
    ensures
        state.can_look_at(shred) <==> {
            let header = shred.common_header();
            ||| header.slot + 10 < state.highest_slot
            ||| header.fec_set_index < 32_768 && (header.index < 32_768 || state.slot(
                header.slot,
            ).tracker.recovered[header.fec_set_index as int])
        },
        state.can_look_at_all(Seq::empty()),
        state.can_look_at_all(shreds.push(shred)) <==> state.can_look_at_all(shreds)
            && state.with_shreds(shreds).can_look_at(shred),
        (forall|i: int|
            0 <= i < shreds.len() ==> (#[trigger] shreds[i]).common_header().index < 32_768
                && shreds[i].common_header().fec_set_index < 32_768) ==> state.can_look_at_all(
            shreds,
        ),
    decreases shreds.len(),
{
    assert(shreds.push(shred).drop_last() =~= shreds);
    if shreds.len() > 0 {
        let shorter = shreds.drop_last();
        shreds_within_their_slots_can_be_looked_at(state, shorter, shreds.last());
        assert forall|i: int| 0 <= i < shorter.len() implies #[trigger] shorter[i] == shreds[i] by {}
        assert(shreds.last() == shreds[shreds.len() - 1]);
        assert(shorter.push(shreds.last()) =~= shreds);
        if shreds.last().common_header().index < 32_768
            && shreds.last().common_header().fec_set_index < 32_768 {
            lemma_within_a_slot(state.with_shreds(shorter), shreds.last());
        }
    }
}

proof fn lemma_within_a_slot(state: ReconstructionView, shred: ShredView)
    requires
        shred.common_header().index < 32_768,
        shred.common_header().fec_set_index < 32_768,
    ensures
        state.can_look_at(shred),
{
}

/// An event is expected exactly where it answers what the state waits for and can be taken in: a
/// batch where no work is left and its shreds can be looked at; the failure of a recovery that was
/// asked for, or shreds that it brought, each of a FEC set within the slot, with every data shred of
/// a set that is not recovered within it too, and not too many to be counted; and whatever comes of
/// deshredding that was asked for.
pub proof fn what_was_asked_for_is_expected(
    state: ReconstructionView,
    shreds: Seq<ShredView>,
    recovered: Seq<Option<ShredView>>,
    payload: Option<Seq<u8>>,
)
    ensures
        state.expects(EventView::Batch(shreds)) <==> state.phase is Idle && (ReconstructionView {
            pending: Seq::empty(),
            recovered: 0,
            ..state
        }).can_look_at_all(shreds),
        state.expects(EventView::Recovered(None)) <==> state.phase is Recovering,
        state.expects(EventView::Recovered(Some(recovered))) <==> {
            &&& state.phase is Recovering
            &&& state.recovered + recovered.len() <= usize::MAX
            &&& forall|i: int|
                0 <= i < recovered.len() && (#[trigger] recovered[i]) is Some ==> {
                    let header = recovered[i]->0.common_header();
                    let tracker = state.slots[state.pending[state.phase->Recovering_position as int].0].tracker;
                    &&& header.fec_set_index < 32_768
                    &&& recovered[i]->0 is Code || header.index < 32_768
                        || tracker.recovered[header.fec_set_index as int]
                }
        },
        state.expects(EventView::Deshredded(payload)) <==> state.phase is Deshredding,
{
    if state.expects(EventView::Recovered(Some(recovered))) {
        let tracker = state.pending_slot(state.phase->Recovering_position as int).tracker;
        assert(forall|i: int|
            0 <= i < recovered.len() && (#[trigger] recovered[i]) is Some ==> tracker.can_be_offered(
                recovered[i]->0,
            ));
    }
}

/// A decoded event stands for the event: the entries that the payload holds, where it holds any.
pub proof fn events_are_decoded(payload: Seq<u8>)
    ensures
        EventView::Deshredded(Some(payload)).decoded() == ProgressView::Decoded(
            entries_in(payload),
        ),
        EventView::Deshredded(None).decoded() == ProgressView::Decoded(None),
        EventView::Deshredded(Some(payload)).is_undecodable() <==> entries_in(payload) is None,
        !EventView::Deshredded(None).is_undecodable(),
        forall|shreds: Seq<ShredView>|
            (#[trigger] EventView::Batch(shreds).decoded()) == ProgressView::Batch(shreds)
                && !EventView::Batch(shreds).is_undecodable(),
        forall|outcome: Option<Seq<Option<ShredView>>>|
            (#[trigger] EventView::Recovered(outcome).decoded()) == ProgressView::Recovered(outcome)
                && !EventView::Recovered(outcome).is_undecodable(),
{
}

/// The FEC sets that a batch brought shreds for are worked on by slot, and those of one slot by index;
/// none is worked on twice.
pub proof fn pending_sets_are_in_order(
    state: ReconstructionView,
    shreds: Seq<ShredView>,
    i: int,
    j: int,
)
    requires
        state.phase is Idle,
        0 <= i < j < state.noted(ProgressView::Batch(shreds)).pending.len(),
    ensures
        ({
            let pending = state.noted(ProgressView::Batch(shreds)).pending;
            pending[i].0 < pending[j].0 || (pending[i].0 == pending[j].0 && pending[i].1
                < pending[j].1)
        }),
{
    pending_sets_took_a_shred(state.at_batch(), shreds, (0, 0));
}

/// Reconstruction starts with no slot known, nothing to do, and nothing recovered.
pub proof fn reconstruction_starts_with_nothing(slot: u64)
    ensures
        ({
            let state = ReconstructionView::empty();
            &&& state.well_formed()
            &&& !state.slots.contains_key(slot)
            &&& state.slot(slot).tracker == TrackerView::empty()
            &&& state.slot(slot).fec_sets.dom().is_empty()
            &&& state.pending.len() == 0
            &&& state.highest_slot == 0
            &&& state.recovered == 0
            &&& state.phase is Idle
        }),
{
}

} // verus!
