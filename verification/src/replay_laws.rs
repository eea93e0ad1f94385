//! What holds of a batch that is taken again.
use crate::reconstruction::{
    accepted, can_be_offered_all, closes_run, is_closed_run, lemma_nothing_accepted,
    lemma_with_pair, needs_recovery, oldest_slot, shreds_keep_the_state_consistent, with_pair,
    Phase, ProgressView, ReconstructionView, SlotView,
};
use crate::reconstruction_laws::{
    events_keep_the_state_well_formed, is_repeatable, lemma_offered_extends,
};
use crate::scan::unmatched;
use crate::shred::{same_shred, ShredView, MAX_DATA_SHREDS_PER_SLOT};
use crate::subscriptions::Subscription;
use crate::tracker::{run_is_unique, tracker_extends, TrackerView};
use vstd::prelude::*;

verus! {

/// What comes of the work that reconstruction asks for.
pub ghost struct Outcomes {
    /// What recovery brings, given the shreds of a FEC set.
    pub recover: spec_fn(Seq<ShredView>) -> Option<Seq<Option<ShredView>>>,
    /// The entries, each as the signatures of its transactions, that the payloads of a run of data
    /// shreds hold.
    pub decode: spec_fn(Seq<Seq<u8>>) -> Option<Seq<Seq<Seq<Seq<u8>>>>>,
}

/// The payloads of the shreds from `start` up to `end`, in order.
pub open spec fn run_payloads(tracker: TrackerView, start: int, end: int) -> Seq<Seq<u8>> {
    Seq::new((end - start + 1) as nat, |i: int| tracker.shreds[start + i]->0.payload())
}

/// What comes of the work that the state waits for.
pub open spec fn outcome(state: ReconstructionView, outcomes: Outcomes) -> ProgressView {
    match state.phase {
        Phase::Idle => ProgressView::Batch(Seq::empty()),
        Phase::Recovering { position } => ProgressView::Recovered(
            (outcomes.recover)(state.pending_set(position as int)),
        ),
        Phase::Deshredding { position, start, end } => ProgressView::Decoded(
            (outcomes.decode)(
                run_payloads(
                    state.pending_slot(position as int).tracker,
                    start as int,
                    end as int,
                ),
            ),
        ),
    }
}

/// Whether the state waits for work on the batch, and what comes of it can be taken.
pub open spec fn goes_on(state: ReconstructionView, outcomes: Outcomes) -> bool {
    !(state.phase is Idle) && state.expects_progress(outcome(state, outcomes))
}

/// The state after so many events of the work on the batch, or fewer where the work ends before.
pub open spec fn worked_on(
    state: ReconstructionView,
    outcomes: Outcomes,
    events: nat,
) -> ReconstructionView
    decreases events,
{
    if events == 0 {
        state
    } else {
        let earlier = worked_on(state, outcomes, (events - 1) as nat);
        if goes_on(earlier, outcomes) {
            earlier.after(outcome(earlier, outcomes))
        } else {
            earlier
        }
    }
}

/// The transactions that these events show.
pub open spec fn shown_by(
    state: ReconstructionView,
    outcomes: Outcomes,
    events: nat,
) -> Seq<Seq<char>>
    decreases events,
{
    if events == 0 {
        Seq::empty()
    } else {
        let earlier = worked_on(state, outcomes, (events - 1) as nat);
        let before = shown_by(state, outcomes, (events - 1) as nat);
        if goes_on(earlier, outcomes) {
            before + earlier.shown(outcome(earlier, outcomes))
        } else {
            before
        }
    }
}

spec fn accepts_none(tracker: TrackerView, shreds: Seq<Option<ShredView>>) -> bool {
    forall|i: int|
        0 <= i < shreds.len() && (#[trigger] shreds[i]) is Some ==> !tracker.accepts(shreds[i]->0)
}

proof fn lemma_accepts_none(tracker: TrackerView, shreds: Seq<Option<ShredView>>)
    ensures
        accepts_none(tracker, shreds) <==> accepted(tracker, shreds) == 0,
    decreases shreds.len(),
{
    if shreds.len() > 0 {
        let shorter = shreds.drop_last();
        lemma_accepts_none(tracker, shorter);
        assert(shreds.last() == shreds[shreds.len() - 1]);
        if accepts_none(tracker, shreds) {
            assert forall|i: int|
                0 <= i < shorter.len() && (
                #[trigger] shorter[i]) is Some implies !tracker.accepts(shorter[i]->0) by {
                assert(shorter[i] == shreds[i]);
            }
            lemma_nothing_accepted(tracker, shorter);
        }
        if accepted(tracker, shreds) == 0 {
            lemma_nothing_accepted(tracker, shorter);
            assert forall|i: int|
                0 <= i < shreds.len() && (
                #[trigger] shreds[i]) is Some implies !tracker.accepts(shreds[i]->0) by {
                if i < shorter.len() {
                    assert(shorter[i] == shreds[i]);
                }
            }
        }
    }
}

/// Whether recovery fails, or brings only shreds that the tracker has no use for.
spec fn brings_nothing(tracker: TrackerView, recovered: Option<Seq<Option<ShredView>>>) -> bool {
    recovered is Some ==> can_be_offered_all(tracker, recovered->0) && accepts_none(
        tracker,
        recovered->0,
    )
}

/// Whether a FEC set is recovered, or its recovery is not asked for or brings nothing.
spec fn set_done(slot: SlotView, fec_set_index: u32, outcomes: Outcomes) -> bool {
    ||| slot.tracker.recovered[fec_set_index as int]
    ||| !needs_recovery(slot.fec_set(fec_set_index))
    ||| brings_nothing(slot.tracker, (outcomes.recover)(slot.fec_set(fec_set_index)))
}

/// Whether there is no run of entries around the first shred of a FEC set, or it holds no entries.
spec fn run_done(tracker: TrackerView, fec_set_index: u32, outcomes: Outcomes) -> bool {
    forall|start: usize, end: usize| #[trigger]
        is_closed_run(tracker, fec_set_index, start, end) ==> (outcomes.decode)(
            run_payloads(tracker, start as int, end as int),
        ) is None
}

/// Whether at least as much is known of the slot, and its FEC sets are the same but for those that
/// are recovered.
spec fn slot_extends(before: SlotView, after: SlotView) -> bool {
    &&& tracker_extends(before.tracker, after.tracker)
    &&& forall|fec_set_index: u32|
        fec_set_index < MAX_DATA_SHREDS_PER_SLOT ==> (#[trigger] after.fec_set(fec_set_index))
            == before.fec_set(fec_set_index) || after.tracker.recovered[fec_set_index as int]
}

proof fn lemma_slot_extends_on(first: SlotView, second: SlotView, third: SlotView)
    requires
        slot_extends(first, second),
        slot_extends(second, third),
    ensures
        slot_extends(first, third),
{
    assert forall|f: u32| f < MAX_DATA_SHREDS_PER_SLOT implies (#[trigger] third.fec_set(f))
        == first.fec_set(f) || third.tracker.recovered[f as int] by {
        assert(second.fec_set(f) == first.fec_set(f) || second.tracker.recovered[f as int]);
    }
}

proof fn lemma_set_stays_done(
    before: SlotView,
    after: SlotView,
    fec_set_index: u32,
    outcomes: Outcomes,
)
    requires
        before.tracker.well_formed(),
        fec_set_index < MAX_DATA_SHREDS_PER_SLOT,
        slot_extends(before, after),
        set_done(before, fec_set_index, outcomes),
    ensures
        set_done(after, fec_set_index, outcomes),
{
    let recovered = (outcomes.recover)(before.fec_set(fec_set_index));
    assert(after.fec_set(fec_set_index) == before.fec_set(fec_set_index)
        || after.tracker.recovered[fec_set_index as int]);
    if recovered is Some && brings_nothing(before.tracker, recovered) {
        assert forall|i: int|
            0 <= i < recovered->0.len() && (
            #[trigger] recovered->0[i]) is Some implies after.tracker.can_be_offered(
            recovered->0[i]->0,
        ) && !after.tracker.accepts(recovered->0[i]->0) by {
            let shred = recovered->0[i]->0;
            assert(before.tracker.can_be_offered(shred));
            assert(!before.tracker.accepts(shred));
        }
    }
}

spec fn extends(before: ReconstructionView, after: ReconstructionView) -> bool {
    &&& after.highest_slot == before.highest_slot
    &&& after.pending == before.pending
    &&& forall|slot: u64| slot_extends(before.slot(slot), #[trigger] after.slot(slot))
}

/// Whether that many of the pending FEC sets are done.
spec fn sets_done(state: ReconstructionView, count: int, outcomes: Outcomes) -> bool {
    forall|i: int|
        0 <= i < count ==> {
            let (slot, fec_set_index) = #[trigger] state.pending[i];
            set_done(state.slot(slot), fec_set_index, outcomes)
        }
}

/// Whether the runs of entries around that many of the pending FEC sets are done.
spec fn runs_done(state: ReconstructionView, count: int, outcomes: Outcomes) -> bool {
    forall|i: int|
        0 <= i < count ==> {
            let (slot, fec_set_index) = #[trigger] state.pending[i];
            run_done(state.slot(slot).tracker, fec_set_index, outcomes)
        }
}

/// How far the work on a batch has come; `noted` is the state once its shreds were looked at.
spec fn is_under_way(
    noted: ReconstructionView,
    state: ReconstructionView,
    outcomes: Outcomes,
) -> bool {
    match state.phase {
        Phase::Idle => {
            &&& state.highest_slot == noted.highest_slot
            &&& forall|slot: u64|
                oldest_slot(noted.highest_slot) <= slot ==> slot_extends(
                    noted.slot(slot),
                    #[trigger] state.slot(slot),
                )
            &&& forall|i: int|
                0 <= i < noted.pending.len() ==> {
                    let (slot, fec_set_index) = #[trigger] noted.pending[i];
                    oldest_slot(noted.highest_slot) <= slot ==> set_done(
                        state.slot(slot),
                        fec_set_index,
                        outcomes,
                    ) && run_done(state.slot(slot).tracker, fec_set_index, outcomes)
                }
        },
        Phase::Recovering { position } => {
            &&& extends(noted, state)
            &&& sets_done(state, position as int, outcomes)
        },
        Phase::Deshredding { position, .. } => {
            &&& extends(noted, state)
            &&& sets_done(state, state.pending.len() as int, outcomes)
            &&& runs_done(state, position as int, outcomes)
        },
    }
}

proof fn lemma_deshredding_under_way(
    noted: ReconstructionView,
    state: ReconstructionView,
    position: int,
    outcomes: Outcomes,
)
    requires
        state.consistent(),
        state.pending.len() <= usize::MAX,
        0 <= position <= state.pending.len(),
        extends(noted, state),
        sets_done(state, state.pending.len() as int, outcomes),
        runs_done(state, position, outcomes),
    ensures
        is_under_way(noted, state.resume_deshredding(position), outcomes),
    decreases state.pending.len() - position,
{
    let after = state.resume_deshredding(position);
    if position >= state.pending.len() {
        assert forall|slot: u64| oldest_slot(noted.highest_slot) <= slot implies (
        #[trigger] after.slot(slot)) == state.slot(slot) by {}
        assert forall|i: int| 0 <= i < noted.pending.len() implies {
            let (slot, fec_set_index) = #[trigger] noted.pending[i];
            oldest_slot(noted.highest_slot) <= slot ==> set_done(
                after.slot(slot),
                fec_set_index,
                outcomes,
            ) && run_done(after.slot(slot).tracker, fec_set_index, outcomes)
        } by {
            assert(state.pending[i] == noted.pending[i]);
        }
    } else {
        let (slot, fec_set_index) = state.pending[position];
        assert(state.slots.contains_key(slot));
        assert(state.pending_slot(position) == state.slot(slot));
        let tracker = state.slot(slot).tracker;
        if closes_run(tracker, fec_set_index) {
            assert(after.slots == state.slots);
            assert(forall|x: u64| #[trigger] after.slot(x) == state.slot(x));
        } else {
            assert(run_done(tracker, fec_set_index, outcomes));
            assert(runs_done(state, position + 1, outcomes));
            lemma_deshredding_under_way(noted, state, position + 1, outcomes);
        }
    }
}

proof fn lemma_recovery_under_way(
    noted: ReconstructionView,
    state: ReconstructionView,
    position: int,
    outcomes: Outcomes,
)
    requires
        state.consistent(),
        state.pending.len() <= usize::MAX,
        0 <= position <= state.pending.len(),
        extends(noted, state),
        sets_done(state, position, outcomes),
    ensures
        is_under_way(noted, state.resume_recovery(position), outcomes),
    decreases state.pending.len() - position,
{
    let after = state.resume_recovery(position);
    if position >= state.pending.len() {
        lemma_deshredding_under_way(noted, state, 0, outcomes);
    } else {
        let (slot, fec_set_index) = state.pending[position];
        assert(state.slots.contains_key(slot));
        assert(state.pending_set(position) == state.slot(slot).fec_set(fec_set_index));
        if needs_recovery(state.pending_set(position)) {
            assert(after.slots == state.slots);
            assert(forall|x: u64| #[trigger] after.slot(x) == state.slot(x));
        } else {
            assert(sets_done(state, position + 1, outcomes));
            lemma_recovery_under_way(noted, state, position + 1, outcomes);
        }
    }
}

proof fn lemma_noted_extends(state: ReconstructionView, progress: ProgressView)
    requires
        state.well_formed(),
        !(state.phase is Idle),
        state.expects_progress(progress),
    ensures
        extends(state, state.noted(progress)),
        state.noted(progress).consistent(),
{
    let after = state.noted(progress);
    let position = match state.phase {
        Phase::Idle => 0int,
        Phase::Recovering { position } => position as int,
        Phase::Deshredding { position, .. } => position as int,
    };
    let (slot, fec_set_index) = state.pending[position];
    assert(state.slots.contains_key(slot));
    assert(state.slots[slot].well_formed(slot));
    if let ProgressView::Recovered(Some(recovered)) = progress {
        lemma_offered_extends(state.slots[slot].tracker, recovered);
    }
    assert(state.slots[slot].fec_sets.contains_key(fec_set_index));
    assert(after.slots[slot].well_formed(slot));
    assert forall|x: u64| slot_extends(state.slot(x), #[trigger] after.slot(x)) by {
        if state.slots.contains_key(x) {
            assert(state.slots[x].well_formed(x));
        }
    }
}

proof fn lemma_sets_stay_done(
    before: ReconstructionView,
    after: ReconstructionView,
    count: int,
    outcomes: Outcomes,
)
    requires
        before.consistent(),
        extends(before, after),
        count <= before.pending.len(),
        sets_done(before, count, outcomes),
    ensures
        sets_done(after, count, outcomes),
{
    assert forall|i: int| 0 <= i < count implies {
        let (slot, fec_set_index) = #[trigger] after.pending[i];
        set_done(after.slot(slot), fec_set_index, outcomes)
    } by {
        let (slot, fec_set_index) = before.pending[i];
        assert(before.slots.contains_key(slot));
        assert(before.slots[slot].well_formed(slot));
        assert(before.slots[slot].fec_sets.contains_key(fec_set_index));
        assert(slot_extends(before.slot(slot), after.slot(slot)));
        lemma_set_stays_done(before.slot(slot), after.slot(slot), fec_set_index, outcomes);
    }
}

proof fn lemma_recovered_under_way(
    noted: ReconstructionView,
    state: ReconstructionView,
    outcomes: Outcomes,
)
    requires
        state.well_formed(),
        state.pending.len() <= usize::MAX,
        state.phase is Recovering,
        goes_on(state, outcomes),
        is_under_way(noted, state, outcomes),
    ensures
        is_under_way(noted, state.after(outcome(state, outcomes)), outcomes),
{
    let progress = outcome(state, outcomes);
    let middle = state.noted(progress);
    let position = state.phase->Recovering_position as int;
    let (slot, fec_set_index) = state.pending[position];
    let recovered = (outcomes.recover)(state.pending_set(position));
    lemma_noted_extends(state, progress);
    lemma_extends_on(noted, state, middle);
    lemma_sets_stay_done(state, middle, position, outcomes);
    assert(state.slots.contains_key(slot));
    assert(state.slots[slot].well_formed(slot));
    assert(state.slots[slot].fec_sets.contains_key(fec_set_index));
    assert(set_done(middle.slot(slot), fec_set_index, outcomes)) by {
        if recovered is Some {
            lemma_accepts_none(state.slots[slot].tracker, recovered->0);
            lemma_offered_extends(state.slots[slot].tracker, recovered->0);
        }
        assert(state.slot(slot).fec_set(fec_set_index) == state.pending_set(position));
    }
    assert(sets_done(middle, position + 1, outcomes));
    lemma_recovery_under_way(noted, middle, position + 1, outcomes);
}

proof fn lemma_extends_on(
    first: ReconstructionView,
    second: ReconstructionView,
    third: ReconstructionView,
)
    requires
        extends(first, second),
        extends(second, third),
    ensures
        extends(first, third),
{
    assert forall|slot: u64| slot_extends(first.slot(slot), #[trigger] third.slot(slot)) by {
        assert(slot_extends(first.slot(slot), second.slot(slot)));
        lemma_slot_extends_on(first.slot(slot), second.slot(slot), third.slot(slot));
    }
}

proof fn lemma_run_stays_done(
    tracker: TrackerView,
    start: int,
    end: int,
    fec_set_index: u32,
    outcomes: Outcomes,
)
    requires
        tracker.well_formed(),
        run_done(tracker, fec_set_index, outcomes) || start <= fec_set_index <= end
            < MAX_DATA_SHREDS_PER_SLOT,
    ensures
        run_done(tracker.with_deshredded(start, end), fec_set_index, outcomes),
{
    let after = tracker.with_deshredded(start, end);
    assert forall|s: usize, e: usize| #[trigger]
        is_closed_run(after, fec_set_index, s, e) implies (outcomes.decode)(
        run_payloads(after, s as int, e as int),
    ) is None by {
        assert(!after.deshredded[fec_set_index as int]);
        assert(is_closed_run(tracker, fec_set_index, s, e)) by {
            assert forall|i: int| s <= i <= e implies !#[trigger] tracker.deshredded[i] by {
                assert(!after.deshredded[i]);
            }
        }
        assert(run_payloads(after, s as int, e as int) =~= run_payloads(
            tracker,
            s as int,
            e as int,
        ));
    }
}

proof fn lemma_decoded_under_way(
    noted: ReconstructionView,
    state: ReconstructionView,
    outcomes: Outcomes,
)
    requires
        state.well_formed(),
        state.pending.len() <= usize::MAX,
        state.phase is Deshredding,
        goes_on(state, outcomes),
        is_under_way(noted, state, outcomes),
    ensures
        is_under_way(noted, state.after(outcome(state, outcomes)), outcomes),
{
    let progress = outcome(state, outcomes);
    let middle = state.noted(progress);
    let position = state.phase->Deshredding_position as int;
    let start = state.phase->start;
    let end = state.phase->end;
    let (slot, fec_set_index) = state.pending[position];
    let tracker = state.pending_slot(position).tracker;
    let decoded = (outcomes.decode)(run_payloads(tracker, start as int, end as int));
    lemma_noted_extends(state, progress);
    lemma_extends_on(noted, state, middle);
    lemma_sets_stay_done(state, middle, state.pending.len() as int, outcomes);
    assert(state.slots.contains_key(slot));
    assert(state.slots[slot].well_formed(slot));
    assert(state.slot(slot).tracker == tracker);
    assert(is_closed_run(tracker, fec_set_index, start, end));
    if decoded is None {
        assert forall|s: usize, e: usize| #[trigger]
            is_closed_run(tracker, fec_set_index, s, e) implies (outcomes.decode)(
            run_payloads(tracker, s as int, e as int),
        ) is None by {
            run_is_unique(
                tracker,
                fec_set_index as int,
                start as int,
                end as int,
                false,
                s as int,
                e as int,
                false,
            );
        }
    }
    assert(runs_done(middle, position + 1, outcomes)) by {
        assert forall|i: int| 0 <= i < position + 1 implies {
            let (x, f) = #[trigger] middle.pending[i];
            run_done(middle.slot(x).tracker, f, outcomes)
        } by {
            let (x, f) = state.pending[i];
            assert(state.slots.contains_key(x));
            assert(i < position ==> run_done(state.slot(x).tracker, f, outcomes));
            if decoded is Some && x == slot {
                assert(middle.slot(x).tracker == tracker.with_deshredded(start as int, end as int));
                lemma_run_stays_done(tracker, start as int, end as int, f, outcomes);
            }
        }
    }
    lemma_deshredding_under_way(noted, middle, position + 1, outcomes);
}

proof fn lemma_worked_on(
    noted: ReconstructionView,
    state: ReconstructionView,
    outcomes: Outcomes,
    events: nat,
)
    requires
        state.well_formed(),
        state.pending.len() <= usize::MAX,
        is_under_way(noted, state, outcomes),
    ensures
        worked_on(state, outcomes, events).well_formed(),
        worked_on(state, outcomes, events).pending.len() <= usize::MAX,
        is_under_way(noted, worked_on(state, outcomes, events), outcomes),
    decreases events,
{
    if events > 0 {
        let earlier = worked_on(state, outcomes, (events - 1) as nat);
        lemma_worked_on(noted, state, outcomes, (events - 1) as nat);
        if goes_on(earlier, outcomes) {
            let progress = outcome(earlier, outcomes);
            lemma_noted_extends(earlier, progress);
            events_keep_the_state_well_formed(earlier, progress);
            lemma_pending_after(earlier, progress);
            if earlier.phase is Recovering {
                lemma_recovered_under_way(noted, earlier, outcomes);
            } else {
                lemma_decoded_under_way(noted, earlier, outcomes);
            }
        }
    }
}

proof fn lemma_pending_after(state: ReconstructionView, progress: ProgressView)
    ensures
        state.after(progress).pending.len() <= state.noted(progress).pending.len(),
{
    let noted = state.noted(progress);
    match state.phase {
        Phase::Idle => lemma_pending_resumed(noted, 0),
        Phase::Recovering { position } => lemma_pending_resumed(noted, position + 1),
        Phase::Deshredding { position, .. } => lemma_pending_resumed(noted, position + 1),
    }
}

proof fn lemma_pending_resumed(state: ReconstructionView, position: int)
    requires
        0 <= position,
    ensures
        state.resume_recovery(position).pending.len() <= state.pending.len(),
        state.resume_deshredding(position).pending.len() <= state.pending.len(),
    decreases state.pending.len() - position,
{
    if position < state.pending.len() {
        lemma_pending_resumed(state, position + 1);
    } else if position > 0 {
        lemma_deshredding_pending(state, 0);
    }
}

proof fn lemma_deshredding_pending(state: ReconstructionView, position: int)
    ensures
        state.resume_deshredding(position).pending.len() <= state.pending.len(),
    decreases state.pending.len() - position,
{
    if position < state.pending.len() {
        lemma_deshredding_pending(state, position + 1);
    }
}

spec fn holds_same(shreds: Seq<ShredView>, shred: ShredView) -> bool {
    exists|i: int| 0 <= i < shreds.len() && same_shred(shred, #[trigger] shreds[i])
}

/// Whether the shred has been looked at: its slot is too old, or its FEC set is recovered, or it is
/// decoded, or a data shred of its index is held, or the same coding shred is held by its set, on
/// which work is pending.
spec fn looked_at(state: ReconstructionView, shred: ShredView) -> bool {
    oldest_slot(state.highest_slot) <= shred.slot() ==> {
        let slot = state.slot(shred.slot());
        let fec_set_index = shred.fec_set_index();
        &&& fec_set_index < MAX_DATA_SHREDS_PER_SLOT
        &&& {
            ||| slot.tracker.recovered[fec_set_index as int]
            ||| shred.index() < MAX_DATA_SHREDS_PER_SLOT && {
                ||| slot.tracker.deshredded[shred.index()]
                ||| shred is Data && slot.tracker.shreds[shred.index()] is Some
                ||| shred is Code && holds_same(slot.fec_set(fec_set_index), shred)
                    && state.pending.contains((shred.slot(), fec_set_index))
            }
        }
    }
}

proof fn lemma_looks_at(state: ReconstructionView, shred: ShredView)
    requires
        state.consistent(),
        state.can_look_at(shred),
        is_repeatable(shred),
    ensures
        looked_at(state.with_shred(shred), shred),
{
    let slot = state.slot(shred.slot());
    let after = state.with_shred(shred);
    let f = shred.fec_set_index();
    lemma_with_pair(state.pending, (shred.slot(), f));
    assert(slot.tracker.well_formed()) by {
        if state.slots.contains_key(shred.slot()) {
            assert(slot.well_formed(shred.slot()));
        }
    }
    if oldest_slot(state.highest_slot) <= shred.slot() {
        if slot.takes(shred) {
            let set = slot.fec_set(f);
            let joined = after.slot(shred.slot()).fec_set(f);
            assert(joined == crate::tracker::with_shred(set, shred));
            if shred is Code {
                assert(holds_same(joined, shred)) by {
                    if joined == set.push(shred) {
                        assert(same_shred(shred, joined[set.len() as int]));
                    }
                }
            }
        } else {
            assert(after.slot(shred.slot()) == slot);
        }
    }
}

proof fn lemma_stays_looked_at(state: ReconstructionView, shred: ShredView, next: ShredView)
    requires
        state.consistent(),
        state.can_look_at(next),
        looked_at(state, shred),
    ensures
        looked_at(state.with_shred(next), shred),
{
    let slot = state.slot(shred.slot());
    let after = state.with_shred(next);
    let f = shred.fec_set_index();
    shreds_keep_the_state_consistent(state, next);
    lemma_with_pair(state.pending, (next.slot(), next.fec_set_index()));
    assert(slot.tracker.well_formed()) by {
        if state.slots.contains_key(shred.slot()) {
            assert(slot.well_formed(shred.slot()));
        }
    }
    let set = slot.fec_set(f);
    let joined = after.slot(shred.slot()).fec_set(f);
    assert(joined == set || joined == set.push(next));
    if holds_same(set, shred) {
        let i = choose|i: int| 0 <= i < set.len() && same_shred(shred, #[trigger] set[i]);
        assert(joined[i] == set[i]);
    }
}

proof fn lemma_all_looked_at(state: ReconstructionView, shreds: Seq<ShredView>)
    requires
        state.consistent(),
        state.can_look_at_all(shreds),
        forall|i: int| 0 <= i < shreds.len() ==> is_repeatable(#[trigger] shreds[i]),
    ensures
        state.with_shreds(shreds).consistent(),
        state.with_shreds(shreds).pending.len() <= state.pending.len() + shreds.len(),
        forall|i: int|
            0 <= i < shreds.len() ==> looked_at(state.with_shreds(shreds), #[trigger] shreds[i]),
    decreases shreds.len(),
{
    if shreds.len() > 0 {
        let shorter = shreds.drop_last();
        let last = shreds.last();
        let before = state.with_shreds(shorter);
        assert forall|i: int| 0 <= i < shorter.len() implies is_repeatable(
            #[trigger] shorter[i],
        ) by {
            assert(shorter[i] == shreds[i]);
        }
        lemma_all_looked_at(state, shorter);
        assert(last == shreds[shreds.len() - 1]);
        shreds_keep_the_state_consistent(before, last);
        lemma_looks_at(before, last);
        lemma_with_pair_len(before.pending, (last.slot(), last.fec_set_index()));
        assert forall|i: int| 0 <= i < shreds.len() implies looked_at(
            state.with_shreds(shreds),
            #[trigger] shreds[i],
        ) by {
            if i < shorter.len() {
                assert(shorter[i] == shreds[i]);
                lemma_stays_looked_at(before, shreds[i], last);
            }
        }
    }
}

proof fn lemma_with_pair_len(pairs: Seq<(u64, u32)>, pair: (u64, u32))
    ensures
        with_pair(pairs, pair).len() <= pairs.len() + 1,
    decreases pairs.len(),
{
    if pairs.len() > 0 {
        lemma_with_pair_len(pairs.drop_last(), pair);
    }
}

/// Whether work on a FEC set would bring nothing.
spec fn is_settled(slot: SlotView, fec_set_index: u32, outcomes: Outcomes) -> bool {
    &&& !needs_recovery(slot.fec_set(fec_set_index)) || brings_nothing(
        slot.tracker,
        (outcomes.recover)(slot.fec_set(fec_set_index)),
    )
    &&& run_done(slot.tracker, fec_set_index, outcomes)
}

spec fn all_settled(state: ReconstructionView, outcomes: Outcomes) -> bool {
    forall|i: int|
        0 <= i < state.pending.len() ==> {
            let (slot, fec_set_index) = #[trigger] state.pending[i];
            is_settled(state.slot(slot), fec_set_index, outcomes)
        }
}

/// Whether looking at the shred again would teach nothing, and bring no work but such as brings
/// nothing.
spec fn is_spent(state: ReconstructionView, shred: ShredView, outcomes: Outcomes) -> bool {
    oldest_slot(state.highest_slot) <= shred.slot() ==> {
        let slot = state.slot(shred.slot());
        let fec_set_index = shred.fec_set_index();
        &&& fec_set_index < MAX_DATA_SHREDS_PER_SLOT
        &&& {
            ||| slot.tracker.recovered[fec_set_index as int]
            ||| shred.index() < MAX_DATA_SHREDS_PER_SLOT && {
                ||| slot.tracker.deshredded[shred.index()]
                ||| shred is Data && slot.tracker.shreds[shred.index()] is Some
                ||| shred is Code && holds_same(slot.fec_set(fec_set_index), shred) && is_settled(
                    slot,
                    fec_set_index,
                    outcomes,
                )
            }
        }
    }
}

proof fn lemma_spent(
    noted: ReconstructionView,
    state: ReconstructionView,
    shred: ShredView,
    outcomes: Outcomes,
)
    requires
        is_under_way(noted, state, outcomes),
        state.phase is Idle,
        looked_at(noted, shred),
    ensures
        is_spent(state, shred, outcomes),
{
    let f = shred.fec_set_index();
    let pair = (shred.slot(), f);
    if oldest_slot(state.highest_slot) <= shred.slot() {
        let before = noted.slot(shred.slot());
        let after = state.slot(shred.slot());
        assert(slot_extends(before, after));
        assert(after.fec_set(f) == before.fec_set(f) || after.tracker.recovered[f as int]);
        if noted.pending.contains(pair) {
            let i = noted.pending.index_of(pair);
            assert(noted.pending[i] == pair);
        }
    }
}

proof fn lemma_spent_shred(state: ReconstructionView, shred: ShredView, outcomes: Outcomes)
    requires
        state.consistent(),
        is_spent(state, shred, outcomes),
        all_settled(state, outcomes),
    ensures
        state.can_look_at(shred),
        ({
            let after = state.with_shred(shred);
            &&& forall|slot: u64| #[trigger] after.slot(slot) == state.slot(slot)
            &&& after.highest_slot == state.highest_slot
            &&& after.recovered == state.recovered
            &&& after.phase == state.phase
            &&& all_settled(after, outcomes)
        }),
{
    let after = state.with_shred(shred);
    let slot = state.slot(shred.slot());
    let f = shred.fec_set_index();
    let pair = (shred.slot(), f);
    if oldest_slot(state.highest_slot) <= shred.slot() && slot.takes(shred) {
        assert(shred is Code);
        assert(holds_same(slot.fec_set(f), shred));
        assert(slot.fec_sets.contains_key(f));
        assert(slot.with_shred(shred).fec_sets =~= slot.fec_sets);
        assert(slot.with_shred(shred) == slot);
        assert(state.slots.contains_key(shred.slot()));
        assert(forall|x: u64| #[trigger] after.slot(x) == state.slot(x));
        lemma_with_pair(state.pending, pair);
        assert forall|i: int| 0 <= i < after.pending.len() implies {
            let (x, g) = #[trigger] after.pending[i];
            is_settled(after.slot(x), g, outcomes)
        } by {
            assert(after.pending.contains(after.pending[i]));
            if after.pending[i] != pair {
                let k = state.pending.index_of(after.pending[i]);
                assert(state.pending[k] == after.pending[i]);
            }
        }
    } else {
        assert(forall|x: u64| #[trigger] after.slot(x) == state.slot(x));
        assert(after.pending == state.pending);
    }
}

proof fn lemma_spent_batch(state: ReconstructionView, shreds: Seq<ShredView>, outcomes: Outcomes)
    requires
        state.consistent(),
        all_settled(state, outcomes),
        forall|i: int| 0 <= i < shreds.len() ==> is_spent(state, #[trigger] shreds[i], outcomes),
    ensures
        state.can_look_at_all(shreds),
        ({
            let after = state.with_shreds(shreds);
            &&& after.consistent()
            &&& forall|slot: u64| #[trigger] after.slot(slot) == state.slot(slot)
            &&& after.highest_slot == state.highest_slot
            &&& after.recovered == state.recovered
            &&& after.phase == state.phase
            &&& all_settled(after, outcomes)
        }),
    decreases shreds.len(),
{
    if shreds.len() > 0 {
        let shorter = shreds.drop_last();
        let last = shreds.last();
        let before = state.with_shreds(shorter);
        assert forall|i: int| 0 <= i < shorter.len() implies is_spent(
            state,
            #[trigger] shorter[i],
            outcomes,
        ) by {
            assert(shorter[i] == shreds[i]);
        }
        lemma_spent_batch(state, shorter, outcomes);
        assert(last == shreds[shreds.len() - 1]);
        assert(before.slot(last.slot()) == state.slot(last.slot()));
        assert(is_spent(before, last, outcomes));
        lemma_spent_shred(before, last, outcomes);
        shreds_keep_the_state_consistent(before, last);
        let after = state.with_shreds(shreds);
        assert forall|slot: u64| #[trigger] after.slot(slot) == state.slot(slot) by {
            assert(before.slot(slot) == state.slot(slot));
        }
    }
}

/// Whether the work that is left brings nothing.
spec fn is_idle_work(state: ReconstructionView, outcomes: Outcomes) -> bool {
    &&& state.recovered == 0
    &&& state.well_formed()
    &&& state.pending.len() <= usize::MAX
    &&& !(state.phase is Idle) ==> all_settled(state, outcomes)
    &&& state.phase matches Phase::Recovering { position } ==> needs_recovery(
        state.pending_set(position as int),
    )
}

proof fn lemma_deshredding_idle(state: ReconstructionView, position: int, outcomes: Outcomes)
    requires
        state.consistent(),
        state.recovered == 0,
        state.pending.len() <= usize::MAX,
        all_settled(state, outcomes),
        0 <= position,
    ensures
        is_idle_work(state.resume_deshredding(position), outcomes),
    decreases state.pending.len() - position,
{
    let after = state.resume_deshredding(position);
    if position < state.pending.len() {
        let tracker = state.pending_slot(position).tracker;
        if closes_run(tracker, state.pending[position].1) {
            assert(forall|x: u64| #[trigger] after.slot(x) == state.slot(x));
        } else {
            lemma_deshredding_idle(state, position + 1, outcomes);
        }
    }
}

proof fn lemma_recovery_idle(state: ReconstructionView, position: int, outcomes: Outcomes)
    requires
        state.consistent(),
        state.recovered == 0,
        state.pending.len() <= usize::MAX,
        all_settled(state, outcomes),
        0 <= position,
    ensures
        is_idle_work(state.resume_recovery(position), outcomes),
    decreases state.pending.len() - position,
{
    let after = state.resume_recovery(position);
    if position >= state.pending.len() {
        lemma_deshredding_idle(state, 0, outcomes);
    } else if needs_recovery(state.pending_set(position)) {
        assert(forall|x: u64| #[trigger] after.slot(x) == state.slot(x));
        assert(after.pending_set(position) == state.pending_set(position));
    } else {
        lemma_recovery_idle(state, position + 1, outcomes);
    }
}

proof fn lemma_idle_event(state: ReconstructionView, outcomes: Outcomes)
    requires
        is_idle_work(state, outcomes),
        goes_on(state, outcomes),
    ensures
        is_idle_work(state.after(outcome(state, outcomes)), outcomes),
        state.shown(outcome(state, outcomes)).len() == 0,
{
    let progress = outcome(state, outcomes);
    let position = match state.phase {
        Phase::Idle => 0int,
        Phase::Recovering { position } => position as int,
        Phase::Deshredding { position, .. } => position as int,
    };
    let (slot, fec_set_index) = state.pending[position];
    assert(state.slots.contains_key(slot));
    assert(state.slots[slot].fec_sets.contains_key(fec_set_index));
    assert(is_settled(state.slot(slot), fec_set_index, outcomes));
    match state.phase {
        Phase::Idle => {},
        Phase::Recovering { .. } => {
            let set = state.pending_set(position);
            assert(state.slot(slot).fec_set(fec_set_index) == set);
            let recovered = (outcomes.recover)(set);
            if recovered is Some {
                lemma_accepts_none(state.slots[slot].tracker, recovered->0);
            }
            assert(state.noted(progress) == state);
            lemma_recovery_idle(state, position + 1, outcomes);
        },
        Phase::Deshredding { start, end, .. } => {
            assert(is_closed_run(state.slots[slot].tracker, fec_set_index, start, end));
            assert(state.noted(progress) == state);
            lemma_deshredding_idle(state, position + 1, outcomes);
        },
    }
}

proof fn lemma_idle_events(state: ReconstructionView, outcomes: Outcomes, events: nat)
    requires
        is_idle_work(state, outcomes),
    ensures
        is_idle_work(worked_on(state, outcomes, events), outcomes),
        shown_by(state, outcomes, events).len() == 0,
    decreases events,
{
    if events > 0 {
        let earlier = worked_on(state, outcomes, (events - 1) as nat);
        lemma_idle_events(state, outcomes, (events - 1) as nat);
        if goes_on(earlier, outcomes) {
            lemma_idle_event(earlier, outcomes);
        }
    }
}

/// A batch that is taken again, once the work on it is done, brings nothing: it can be taken, and
/// however far the work on it has come, no shred has been recovered and no transaction shown.
///
/// So the subscriptions, whatever they are by then, stay as they are. The same work has the same
/// outcome both times, and the shreds of the batch are such as are known again.
pub proof fn repeated_batches_bring_nothing(
    state: ReconstructionView,
    shreds: Seq<ShredView>,
    outcomes: Outcomes,
    events: nat,
    later_events: nat,
    table: Map<Seq<char>, Subscription>,
)
    requires
        state.well_formed(),
        state.expects_batch(shreds),
        shreds.len() <= usize::MAX,
        forall|i: int| 0 <= i < shreds.len() ==> is_repeatable(#[trigger] shreds[i]),
        worked_on(state.after(ProgressView::Batch(shreds)), outcomes, events).phase is Idle,
    ensures
        ({
            let done = worked_on(state.after(ProgressView::Batch(shreds)), outcomes, events);
            let again = done.after(ProgressView::Batch(shreds));
            &&& done.expects_batch(shreds)
            &&& worked_on(again, outcomes, later_events).recovered == 0
            &&& shown_by(again, outcomes, later_events).len() == 0
            &&& unmatched(table, shown_by(again, outcomes, later_events)) == table
        }),
{
    let batch = ProgressView::Batch(shreds);
    let noted = state.noted(batch);
    let taken = state.after(batch);
    let start = state.at_batch();
    assert(start.consistent());
    lemma_all_looked_at(start, shreds);
    events_keep_the_state_well_formed(state, batch);
    lemma_pending_after(state, batch);
    assert(extends(noted, noted)) by {
        assert forall|slot: u64| slot_extends(noted.slot(slot), #[trigger] noted.slot(slot)) by {
            if noted.slots.contains_key(slot) {
                assert(noted.slots[slot].well_formed(slot));
            }
        }
    }
    lemma_recovery_under_way(noted, noted, 0, outcomes);
    lemma_worked_on(noted, taken, outcomes, events);
    let done = worked_on(taken, outcomes, events);
    let later = done.at_batch();
    assert(later.consistent());
    assert(forall|slot: u64| #[trigger] later.slot(slot) == done.slot(slot));
    assert forall|i: int| 0 <= i < shreds.len() implies is_spent(
        later,
        #[trigger] shreds[i],
        outcomes,
    ) by {
        lemma_spent(noted, done, shreds[i], outcomes);
    }
    lemma_spent_batch(later, shreds, outcomes);
    lemma_all_looked_at(later, shreds);
    lemma_recovery_idle(done.noted(batch), 0, outcomes);
    lemma_idle_events(done.after(batch), outcomes, later_events);
    assert(unmatched(table, shown_by(done.after(batch), outcomes, later_events)) =~= table);
}

} // verus!
