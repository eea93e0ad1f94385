//! The state of reconstruction, and how events change it.
use crate::scan::{entries_in, entry_views, observed, Entry, Found};
use crate::shred::{Shred, ShredView, MAX_DATA_SHREDS_PER_SLOT};
use crate::tracker::{
    distinct_shreds, fec_set_info, shred_option_view, shreds_stay_distinct, with_shred, TrackerView,
};
use vstd::prelude::*;

verus! {

/// How many slots behind the highest one shreds are still taken.
pub const SLOT_LOOKBACK: u64 = 10;

/// What is known of one slot: the shreds of its FEC sets, and the state of its data shreds.
#[verifier::ext_equal]
pub ghost struct SlotView {
    pub fec_sets: Map<u32, Seq<ShredView>>,
    pub tracker: TrackerView,
}

impl SlotView {
    /// A slot of which nothing has been received.
    pub open spec fn empty() -> SlotView {
        SlotView { fec_sets: Map::empty(), tracker: TrackerView::empty() }
    }

    /// The shreds received for a FEC set.
    pub open spec fn fec_set(self, fec_set_index: u32) -> Seq<ShredView> {
        if self.fec_sets.contains_key(fec_set_index) {
            self.fec_sets[fec_set_index]
        } else {
            Seq::empty()
        }
    }

    /// The tracker is well-formed, and so are the shreds of each FEC set, which belong to it and
    /// are all different.
    pub open spec fn well_formed(self, slot: u64) -> bool {
        &&& self.tracker.well_formed()
        &&& forall|fec_set_index: u32| #[trigger]
            self.fec_sets.contains_key(fec_set_index) ==> {
                &&& fec_set_index < MAX_DATA_SHREDS_PER_SLOT
                &&& distinct_shreds(self.fec_sets[fec_set_index])
                &&& forall|i: int|
                    0 <= i < self.fec_sets[fec_set_index].len() ==> {
                        let shred = #[trigger] self.fec_sets[fec_set_index][i];
                        &&& shred.well_formed()
                        &&& shred.slot() == slot
                        &&& shred.fec_set_index() == fec_set_index
                    }
            }
    }

    /// Whether a shred brings something new to the slot: its FEC set is not recovered, its index
    /// is not decoded, and the tracker has use for it.
    pub open spec fn takes(self, shred: ShredView) -> bool {
        &&& !self.tracker.recovered[shred.fec_set_index() as int]
        &&& !self.tracker.deshredded[shred.index()]
        &&& self.tracker.accepts(shred)
    }

    /// The slot once a shred that it takes has joined it.
    pub open spec fn with_shred(self, shred: ShredView) -> SlotView {
        SlotView {
            fec_sets: self.fec_sets.insert(
                shred.fec_set_index(),
                with_shred(self.fec_set(shred.fec_set_index()), shred),
            ),
            tracker: self.tracker.updated(shred),
        }
    }
}

/// What reconstruction is waiting for.
#[derive(Clone, Copy, Debug, PartialEq, Eq, Structural)]
pub enum Phase {
    /// The next batch.
    Idle,
    /// The recovery of the pending FEC set of that position.
    Recovering { position: usize },
    /// The deshredding of a run of entries around the pending FEC set of that position.
    Deshredding { position: usize, start: usize, end: usize },
}

/// The state of reconstruction.
#[verifier::ext_equal]
pub ghost struct ReconstructionView {
    pub slots: Map<u64, SlotView>,
    /// The FEC sets, by slot and index, that took a shred of the latest batch.
    pub pending: Seq<(u64, u32)>,
    pub highest_slot: u64,
    pub recovered: usize,
    pub phase: Phase,
}

/// The order of FEC sets: by slot, then by index.
pub open spec fn precedes(left: (u64, u32), right: (u64, u32)) -> bool {
    left.0 < right.0 || (left.0 == right.0 && left.1 < right.1)
}

/// In strictly ascending order, so that nothing occurs twice.
pub open spec fn ascending(pairs: Seq<(u64, u32)>) -> bool {
    forall|i: int, j: int| 0 <= i < j < pairs.len() ==> precedes(#[trigger] pairs[i], #[trigger] pairs[j])
}

/// A list in ascending order with another element put in its place.
pub open spec fn with_pair(pairs: Seq<(u64, u32)>, pair: (u64, u32)) -> Seq<(u64, u32)>
    decreases pairs.len(),
{
    if pairs.len() == 0 || precedes(pairs.last(), pair) {
        pairs.push(pair)
    } else if pairs.last() == pair {
        pairs
    } else {
        with_pair(pairs.drop_last(), pair).push(pairs.last())
    }
}

/// The oldest slot of which shreds are still taken.
pub open spec fn oldest_slot(highest_slot: u64) -> u64 {
    if highest_slot < SLOT_LOOKBACK {
        0
    } else {
        (highest_slot - SLOT_LOOKBACK) as u64
    }
}

impl ReconstructionView {
    /// What is known of a slot.
    pub open spec fn slot(self, slot: u64) -> SlotView {
        if self.slots.contains_key(slot) {
            self.slots[slot]
        } else {
            SlotView::empty()
        }
    }

    /// Whether a shred can be looked at: its slot is too old, or its FEC set lies within the slot
    /// and is recovered, or the shred lies within the slot, too.
    pub open spec fn can_look_at(self, shred: ShredView) -> bool {
        oldest_slot(self.highest_slot) <= shred.slot() ==> {
            &&& shred.fec_set_index() < MAX_DATA_SHREDS_PER_SLOT
            &&& self.slot(shred.slot()).tracker.recovered[shred.fec_set_index() as int]
                || shred.index() < MAX_DATA_SHREDS_PER_SLOT
        }
    }

    /// Whether the shreds of a batch can be looked at, one after the other.
    pub open spec fn can_look_at_all(self, shreds: Seq<ShredView>) -> bool
        decreases shreds.len(),
    {
        shreds.len() > 0 ==> {
            &&& self.can_look_at_all(shreds.drop_last())
            &&& self.with_shreds(shreds.drop_last()).can_look_at(shreds.last())
        }
    }

    /// The state once a shred of the batch has been looked at. One of a slot that is too old, or
    /// that brings nothing new, leaves no trace but its slot.
    pub open spec fn with_shred(self, shred: ShredView) -> ReconstructionView {
        let slot = self.slot(shred.slot());
        if oldest_slot(self.highest_slot) <= shred.slot() && slot.takes(shred) {
            ReconstructionView {
                slots: self.slots.insert(shred.slot(), slot.with_shred(shred)),
                pending: with_pair(self.pending, (shred.slot(), shred.fec_set_index())),
                highest_slot: if self.highest_slot <= shred.slot() {
                    shred.slot()
                } else {
                    self.highest_slot
                },
                ..self
            }
        } else {
            ReconstructionView { slots: self.slots.insert(shred.slot(), slot), ..self }
        }
    }

    /// The state once the shreds of a batch have been looked at, one after the other.
    pub open spec fn with_shreds(self, shreds: Seq<ShredView>) -> ReconstructionView
        decreases shreds.len(),
    {
        if shreds.len() == 0 {
            self
        } else {
            self.with_shreds(shreds.drop_last()).with_shred(shreds.last())
        }
    }

    /// The slot of the pending FEC set of that position.
    pub open spec fn pending_slot(self, position: int) -> SlotView {
        self.slots[self.pending[position].0]
    }

    /// The shreds of the pending FEC set of that position.
    pub open spec fn pending_set(self, position: int) -> Seq<ShredView> {
        self.pending_slot(position).fec_sets[self.pending[position].1]
    }

    /// No slot lies beyond the highest one, every slot is well-formed, and the FEC sets that the
    /// batch brought shreds for are known.
    pub open spec fn consistent(self) -> bool {
        &&& forall|slot: u64| #[trigger]
            self.slots.contains_key(slot) ==> slot <= self.highest_slot
                && self.slots[slot].well_formed(slot)
        &&& ascending(self.pending)
        &&& forall|i: int|
            0 <= i < self.pending.len() ==> {
                &&& self.slots.contains_key((#[trigger] self.pending[i]).0)
                &&& self.slots[self.pending[i].0].fec_sets.contains_key(self.pending[i].1)
            }
    }
}

/// Whether a FEC set can and should be completed: its size is known, enough of its shreds have
/// arrived, and not all of its data shreds are among them.
pub open spec fn needs_recovery(shreds: Seq<ShredView>) -> bool {
    let info = fec_set_info(shreds);
    info.expected_data != 0 && shreds.len() >= info.expected_data && info.data
        != info.expected_data
}

/// The tracker once recovered shreds have been offered to it, one after the other. Those that
/// could not be recovered are `None`.
pub open spec fn offered(tracker: TrackerView, recovered: Seq<Option<ShredView>>) -> TrackerView
    decreases recovered.len(),
{
    if recovered.len() == 0 {
        tracker
    } else {
        let earlier = offered(tracker, recovered.drop_last());
        match recovered.last() {
            Some(shred) => earlier.updated(shred),
            None => earlier,
        }
    }
}

/// Whether recovered shreds can be offered to the tracker.
pub open spec fn can_be_offered_all(
    tracker: TrackerView,
    recovered: Seq<Option<ShredView>>,
) -> bool {
    forall|i: int|
        0 <= i < recovered.len() && (#[trigger] recovered[i]) is Some ==> tracker.can_be_offered(
            recovered[i]->0,
        )
}

/// How many recovered shreds the tracker had use for.
pub open spec fn accepted(tracker: TrackerView, recovered: Seq<Option<ShredView>>) -> nat
    decreases recovered.len(),
{
    if recovered.len() == 0 {
        0
    } else {
        let earlier = accepted(tracker, recovered.drop_last());
        match recovered.last() {
            Some(shred) => if offered(tracker, recovered.drop_last()).accepts(shred) {
                earlier + 1
            } else {
                earlier
            },
            None => earlier,
        }
    }
}

/// Whether there is a run of entries with a known start around the first shred of a FEC set.
pub open spec fn closes_run(tracker: TrackerView, fec_set_index: u32) -> bool {
    exists|start: usize, end: usize| is_closed_run(tracker, fec_set_index, start, end)
}

/// Whether that is the run of entries, with a known start, around the first shred of a FEC set.
pub open spec fn is_closed_run(
    tracker: TrackerView,
    fec_set_index: u32,
    start: usize,
    end: usize,
) -> bool {
    tracker.is_run(fec_set_index as int, start as int, end as int, false)
}

/// The slots that are kept once a batch is done: all of them while they are few, else those that
/// are not too old.
pub open spec fn kept_slots(slots: Map<u64, SlotView>, highest_slot: u64) -> Map<u64, SlotView> {
    if slots.len() > SLOT_LOOKBACK {
        slots.restrict(Set::new(|slot: u64| oldest_slot(highest_slot) <= slot))
    } else {
        slots
    }
}

impl ReconstructionView {
    /// The state at the start of a batch.
    pub open spec fn at_batch(self) -> ReconstructionView {
        ReconstructionView { pending: Seq::empty(), recovered: 0, ..self }
    }

    /// The state once the recovery of a pending FEC set has been tried. Where that brought shreds
    /// that the tracker had use for, the set is recovered and its shreds are no longer needed.
    pub open spec fn after_recovery(
        self,
        position: int,
        outcome: Option<Seq<Option<ShredView>>>,
    ) -> ReconstructionView {
        let (slot, fec_set_index) = self.pending[position];
        let state = self.slots[slot];
        if outcome is Some && accepted(state.tracker, outcome->0) > 0 {
            ReconstructionView {
                slots: self.slots.insert(
                    slot,
                    SlotView {
                        fec_sets: state.fec_sets.insert(fec_set_index, Seq::empty()),
                        tracker: offered(state.tracker, outcome->0).with_recovered(
                            fec_set_index as int,
                        ),
                    },
                ),
                recovered: (self.recovered + accepted(state.tracker, outcome->0)) as usize,
                ..self
            }
        } else {
            self
        }
    }

    /// The state once the entries of a run have been decoded.
    pub open spec fn after_decoding(self, position: int, start: int, end: int) -> ReconstructionView {
        let slot = self.pending[position].0;
        let state = self.slots[slot];
        ReconstructionView {
            slots: self.slots.insert(
                slot,
                SlotView { tracker: state.tracker.with_deshredded(start, end), ..state },
            ),
            ..self
        }
    }

    /// The state that waits for the recovery of the first pending FEC set, from a position on,
    /// that can and should be completed; with none left, for deshredding.
    pub open spec fn resume_recovery(self, position: int) -> ReconstructionView
        decreases self.pending.len() - position,
    {
        if position >= self.pending.len() {
            self.resume_deshredding(0)
        } else if needs_recovery(self.pending_set(position)) {
            ReconstructionView { phase: Phase::Recovering { position: position as usize }, ..self }
        } else {
            self.resume_recovery(position + 1)
        }
    }

    /// The state that waits for the deshredding of the run of entries around the first pending FEC
    /// set, from a position on, that closes one; with none left, for the next batch.
    pub open spec fn resume_deshredding(self, position: int) -> ReconstructionView
        decreases self.pending.len() - position,
    {
        if position >= self.pending.len() {
            ReconstructionView {
                slots: kept_slots(self.slots, self.highest_slot),
                phase: Phase::Idle,
                ..self
            }
        } else {
            let tracker = self.pending_slot(position).tracker;
            let fec_set_index = self.pending[position].1;
            if closes_run(tracker, fec_set_index) {
                let (start, end) = choose|start: usize, end: usize|
                    is_closed_run(tracker, fec_set_index, start, end);
                ReconstructionView {
                    phase: Phase::Deshredding { position: position as usize, start, end },
                    ..self
                }
            } else {
                self.resume_deshredding(position + 1)
            }
        }
    }

    /// The state is consistent, and what it waits for is among its pending work. Once that work is
    /// done, slots of it may have been given up, and the state is consistent for the next batch.
    pub open spec fn well_formed(self) -> bool {
        match self.phase {
            Phase::Idle => self.at_batch().consistent(),
            Phase::Recovering { position } => {
                &&& self.consistent()
                &&& position < self.pending.len()
            },
            Phase::Deshredding { position, start, end } => {
                &&& self.consistent()
                &&& position < self.pending.len()
                &&& is_closed_run(
                    self.pending_slot(position as int).tracker,
                    self.pending[position as int].1,
                    start,
                    end,
                )
            },
        }
    }
}

/// A slot that is given up although FEC sets of it are not recovered.
#[derive(Debug)]
pub struct IncompleteSlot {
    pub slot: u64,
    /// The index of each such set, the number of data shreds that it was expected to have, and
    /// the number of its shreds that arrived.
    pub fec_sets: Vec<(u32, u16, usize)>,
}

/// What is to be done next.
#[derive(Debug)]
pub enum Action {
    /// Recover the missing shreds of a FEC set from those that arrived.
    Recover { slot: u64, fec_set_index: u32, shreds: Vec<Shred> },
    /// Put the payloads of a run of data shreds together.
    Deshred { slot: u64, start: usize, end: usize, payloads: Vec<Vec<u8>> },
    /// Wait for the next batch: so many shreds were recovered, and these slots given up.
    Done { recovered: usize, incomplete: Vec<IncompleteSlot> },
}

/// The order of keys: by the first number, then by the second.
pub open spec fn key_at_most(left: (u8, u32), right: (u8, u32)) -> bool {
    left.0 < right.0 || (left.0 == right.0 && left.1 <= right.1)
}

/// Whether the positions go through all keys in order, those of equal keys in order of position.
pub open spec fn is_sorted_order(keys: Seq<(u8, u32)>, positions: Seq<usize>) -> bool {
    &&& positions.len() == keys.len()
    &&& forall|i: int| 0 <= i < positions.len() ==> (#[trigger] positions[i]) < keys.len()
    &&& forall|i: int, j: int|
        0 <= i < j < positions.len() ==> {
            let left = #[trigger] positions[i];
            let right = #[trigger] positions[j];
            &&& key_at_most(keys[left as int], keys[right as int])
            &&& keys[left as int] == keys[right as int] ==> left < right
        }
}

/// The keys by which the shreds of a FEC set are ordered.
pub open spec fn sort_keys(set: Seq<ShredView>) -> Seq<(u8, u32)> {
    set.map_values(|s: ShredView| s.sort_key())
}

/// Whether a list holds the shreds of a FEC set by shred type and index, those that agree in both
/// in the order of their arrival.
pub open spec fn is_ordered(set: Seq<ShredView>, shreds: Seq<ShredView>) -> bool {
    exists|positions: Seq<usize>|
        {
            &&& #[trigger] is_sorted_order(sort_keys(set), positions)
            &&& shreds == positions.map_values(|p: usize| set[p as int])
        }
}

pub open spec fn plain_shred_views(shreds: Seq<Shred>) -> Seq<ShredView> {
    shreds.map_values(|s: Shred| s@)
}

/// What is known of a FEC set that is not recovered: its index, the number of data shreds that it
/// is expected to have, and the number of its shreds that arrived.
pub open spec fn is_incomplete_entry(state: SlotView, entry: (u32, u16, usize)) -> bool {
    let (fec_set_index, expected_data, received) = entry;
    &&& state.fec_sets.contains_key(fec_set_index)
    &&& !state.tracker.recovered[fec_set_index as int]
    &&& expected_data == fec_set_info(state.fec_sets[fec_set_index]).expected_data
    &&& received == state.fec_sets[fec_set_index].len()
}

/// The FEC sets of a slot that are not recovered, by index: what is known of each of them.
pub open spec fn is_incomplete_list(state: SlotView, list: Seq<(u32, u16, usize)>) -> bool {
    &&& forall|i: int, j: int| 0 <= i < j < list.len() ==> (#[trigger] list[i]).0 < (#[trigger] list[j]).0
    &&& forall|fec_set_index: u32| #[trigger]
        state.fec_sets.contains_key(fec_set_index) && !state.tracker.recovered[fec_set_index as int]
            ==> exists|i: int| 0 <= i < list.len() && (#[trigger] list[i]).0 == fec_set_index
    &&& forall|i: int| 0 <= i < list.len() ==> is_incomplete_entry(state, #[trigger] list[i])
}

/// Whether some FEC set of the slot is not recovered.
pub open spec fn is_incomplete(state: SlotView) -> bool {
    exists|fec_set_index: u32| #[trigger]
        state.fec_sets.contains_key(fec_set_index) && !state.tracker.recovered[fec_set_index as int]
}

/// Whether a slot is incomplete, and its FEC sets that are not recovered are listed.
pub open spec fn is_incomplete_slot(slots: Map<u64, SlotView>, incomplete: IncompleteSlot) -> bool {
    &&& slots.contains_key(incomplete.slot)
    &&& is_incomplete(slots[incomplete.slot])
    &&& is_incomplete_list(slots[incomplete.slot], incomplete.fec_sets@)
}

/// Whether the list names the incomplete ones among the slots that are not kept, by number.
pub open spec fn is_incomplete_report(
    slots: Map<u64, SlotView>,
    highest_slot: u64,
    incomplete: Seq<IncompleteSlot>,
) -> bool {
    &&& forall|i: int, j: int|
        0 <= i < j < incomplete.len() ==> (#[trigger] incomplete[i]).slot < (
        #[trigger] incomplete[j]).slot
    &&& forall|slot: u64| #[trigger]
        slots.contains_key(slot) && !kept_slots(slots, highest_slot).contains_key(slot)
            && is_incomplete(slots[slot]) ==> exists|i: int|
            0 <= i < incomplete.len() && (#[trigger] incomplete[i]).slot == slot
    &&& forall|i: int|
        0 <= i < incomplete.len() ==> is_incomplete_slot(slots, #[trigger] incomplete[i])
            && !kept_slots(slots, highest_slot).contains_key(incomplete[i].slot)
}

/// Whether the action is what the state waits for; `before` is the state as it was before it
/// went on to wait.
pub open spec fn action_fits(
    before: ReconstructionView,
    state: ReconstructionView,
    action: Action,
) -> bool {
    match (state.phase, action) {
        (Phase::Idle, Action::Done { recovered, incomplete }) => {
            &&& recovered == state.recovered
            &&& is_incomplete_report(before.slots, before.highest_slot, incomplete@)
        },
        (Phase::Recovering { position }, Action::Recover { slot, fec_set_index, shreds }) => {
            &&& (slot, fec_set_index) == state.pending[position as int]
            &&& is_ordered(state.pending_set(position as int), plain_shred_views(shreds@))
        },
        (
            Phase::Deshredding { position, start, end },
            Action::Deshred { slot, start: first, end: last, payloads },
        ) => {
            &&& slot == state.pending[position as int].0
            &&& start == first && end == last
            &&& payloads@.len() == end - start + 1
            &&& forall|i: int|
                0 <= i < payloads@.len() ==> (#[trigger] payloads@[i])@ == state.pending_slot(
                    position as int,
                ).tracker.shreds[start + i]->0.payload()
        },
        _ => false,
    }
}

pub open spec fn shred_option_views(shreds: Seq<Option<Shred>>) -> Seq<Option<ShredView>> {
    shreds.map_values(|s: Option<Shred>| shred_option_view(s))
}

/// What has come of the action that was asked for.
#[derive(Debug)]
pub enum Event {
    /// A batch of shreds has arrived.
    Batch(Vec<Shred>),
    /// Recovery has brought these shreds, those that could not be recovered being `None`; or it
    /// has failed.
    Recovered(Option<Vec<Option<Shred>>>),
    /// Deshredding has brought this payload; or it has failed.
    Deshredded(Option<Vec<u8>>),
}

/// An event whose payload, where it brought one, has been decoded.
#[derive(Debug)]
pub enum Progress {
    Batch(Vec<Shred>),
    Recovered(Option<Vec<Option<Shred>>>),
    /// The payload holds these entries; or there is none, or it holds no entries.
    Decoded(Option<Vec<Entry>>),
}

/// What an event holds.
pub ghost enum EventView {
    Batch(Seq<ShredView>),
    Recovered(Option<Seq<Option<ShredView>>>),
    Deshredded(Option<Seq<u8>>),
}

/// What a decoded event holds.
pub ghost enum ProgressView {
    Batch(Seq<ShredView>),
    Recovered(Option<Seq<Option<ShredView>>>),
    /// Each entry as the signatures of its transactions.
    Decoded(Option<Seq<Seq<Seq<Seq<u8>>>>>),
}

pub open spec fn recovered_view(outcome: Option<Vec<Option<Shred>>>) -> Option<
    Seq<Option<ShredView>>,
> {
    match outcome {
        Some(recovered) => Some(shred_option_views(recovered@)),
        None => None,
    }
}

impl View for Event {
    type V = EventView;

    open spec fn view(&self) -> EventView {
        match *self {
            Event::Batch(shreds) => EventView::Batch(plain_shred_views(shreds@)),
            Event::Recovered(outcome) => EventView::Recovered(recovered_view(outcome)),
            Event::Deshredded(payload) => EventView::Deshredded(
                match payload {
                    Some(payload) => Some(payload@),
                    None => None,
                },
            ),
        }
    }
}

impl View for Progress {
    type V = ProgressView;

    open spec fn view(&self) -> ProgressView {
        match *self {
            Progress::Batch(shreds) => ProgressView::Batch(plain_shred_views(shreds@)),
            Progress::Recovered(outcome) => ProgressView::Recovered(recovered_view(outcome)),
            Progress::Decoded(entries) => ProgressView::Decoded(
                match entries {
                    Some(entries) => Some(entry_views(entries@)),
                    None => None,
                },
            ),
        }
    }
}

impl EventView {
    /// The event with its payload decoded.
    pub open spec fn decoded(self) -> ProgressView {
        match self {
            EventView::Batch(shreds) => ProgressView::Batch(shreds),
            EventView::Recovered(outcome) => ProgressView::Recovered(outcome),
            EventView::Deshredded(payload) => ProgressView::Decoded(
                match payload {
                    Some(payload) => entries_in(payload),
                    None => None,
                },
            ),
        }
    }

    /// Whether the event brings a payload that holds no entries.
    pub open spec fn is_undecodable(self) -> bool {
        self matches EventView::Deshredded(Some(payload)) && entries_in(payload) is None
    }
}

impl ReconstructionView {
    /// The state in which nothing has been received.
    pub open spec fn empty() -> ReconstructionView {
        ReconstructionView {
            slots: Map::empty(),
            pending: Seq::empty(),
            highest_slot: 0,
            recovered: 0,
            phase: Phase::Idle,
        }
    }

    /// Whether a batch can be taken now: none is being worked on, and its shreds can be looked at.
    pub open spec fn expects_batch(self, shreds: Seq<ShredView>) -> bool {
        &&& self.phase is Idle
        &&& self.at_batch().can_look_at_all(shreds)
    }

    /// Whether the outcome of a recovery can be taken now: it was asked for, its shreds can be
    /// offered to the tracker, and there are not too many to be counted.
    pub open spec fn expects_recovered(self, outcome: Option<Seq<Option<ShredView>>>) -> bool {
        match self.phase {
            Phase::Recovering { position } => outcome is Some ==> {
                &&& self.recovered + outcome->0.len() <= usize::MAX
                &&& can_be_offered_all(self.pending_slot(position as int).tracker, outcome->0)
            },
            _ => false,
        }
    }

    /// Whether the event can be taken now.
    pub open spec fn expects(self, event: EventView) -> bool {
        match event {
            EventView::Batch(shreds) => self.expects_batch(shreds),
            EventView::Recovered(outcome) => self.expects_recovered(outcome),
            EventView::Deshredded(_) => self.phase is Deshredding,
        }
    }

    /// Whether the decoded event can be taken now.
    pub open spec fn expects_progress(self, progress: ProgressView) -> bool {
        match progress {
            ProgressView::Batch(shreds) => self.expects_batch(shreds),
            ProgressView::Recovered(outcome) => self.expects_recovered(outcome),
            ProgressView::Decoded(_) => self.phase is Deshredding,
        }
    }

    /// The state once note has been taken of the event, before it goes on to wait.
    pub open spec fn noted(self, progress: ProgressView) -> ReconstructionView {
        match (self.phase, progress) {
            (Phase::Idle, ProgressView::Batch(shreds)) => self.at_batch().with_shreds(shreds),
            (
                Phase::Recovering { position },
                ProgressView::Recovered(outcome),
            ) => self.after_recovery(position as int, outcome),
            (
                Phase::Deshredding { position, start, end },
                ProgressView::Decoded(Some(_)),
            ) => self.after_decoding(position as int, start as int, end as int),
            _ => self,
        }
    }

    /// The state that waits for what comes after the event.
    pub open spec fn after(self, progress: ProgressView) -> ReconstructionView {
        match self.phase {
            Phase::Idle => self.noted(progress).resume_recovery(0),
            Phase::Recovering { position } => self.noted(progress).resume_recovery(position + 1),
            Phase::Deshredding { position, .. } => self.noted(progress).resume_deshredding(
                position + 1,
            ),
        }
    }

    /// The transactions that the event shows.
    pub open spec fn shown(self, progress: ProgressView) -> Seq<Seq<char>> {
        match progress {
            ProgressView::Decoded(Some(entries)) => observed(entries),
            _ => Seq::empty(),
        }
    }

    /// The slot that the state works on.
    pub open spec fn current_slot(self) -> u64 {
        match self.phase {
            Phase::Idle => 0,
            Phase::Recovering { position } => self.pending[position as int].0,
            Phase::Deshredding { position, .. } => self.pending[position as int].0,
        }
    }
}

/// What an event has led to.
#[derive(Debug)]
pub struct Step {
    /// The subscribed transactions that it shows.
    pub found: Vec<Found>,
    /// Whether it brought a payload that holds no entries.
    pub undecodable: bool,
    /// What is to be done next.
    pub action: Action,
}

/// A list in ascending order stays so when an element is put in its place, and holds that one and
/// what it held before.
pub proof fn lemma_with_pair(pairs: Seq<(u64, u32)>, pair: (u64, u32))
    requires
        ascending(pairs),
    ensures
        ascending(with_pair(pairs, pair)),
        forall|other: (u64, u32)| #[trigger]
            with_pair(pairs, pair).contains(other) <==> pairs.contains(other) || other == pair,
    decreases pairs.len(),
{
    let result = with_pair(pairs, pair);
    if pairs.len() == 0 || precedes(pairs.last(), pair) {
        assert forall|other: (u64, u32)| #[trigger] result.contains(other) <==> pairs.contains(other)
            || other == pair by {
            if pairs.contains(other) {
                assert(result[pairs.index_of(other)] == other);
            }
            if other == pair {
                assert(result[pairs.len() as int] == other);
            }
            if result.contains(other) && other != pair {
                assert(pairs[result.index_of(other)] == other);
            }
        }
    } else if pairs.last() == pair {
        assert(pairs[pairs.len() - 1] == pair);
    } else {
        let shorter = pairs.drop_last();
        let inner = with_pair(shorter, pair);
        lemma_with_pair(shorter, pair);
        assert forall|i: int, j: int| 0 <= i < j < result.len() implies precedes(
            #[trigger] result[i],
            #[trigger] result[j],
        ) by {
            if j == inner.len() {
                assert(inner.contains(inner[i]));
                if inner[i] != pair {
                    let k = shorter.index_of(inner[i]);
                    assert(pairs[k] == inner[i]);
                }
            }
        }
        assert forall|other: (u64, u32)| #[trigger] result.contains(other) <==> pairs.contains(other)
            || other == pair by {
            if inner.contains(other) {
                assert(result[inner.index_of(other)] == other);
            }
            if shorter.contains(other) {
                assert(pairs[shorter.index_of(other)] == other);
            }
            if other == pairs.last() {
                assert(result[inner.len() as int] == other);
                assert(pairs[pairs.len() - 1] == other);
            }
            if pairs.contains(other) && other != pairs.last() {
                assert(shorter[pairs.index_of(other)] == other);
            }
            if result.contains(other) && other != pairs.last() {
                assert(inner[result.index_of(other)] == other);
            }
        }
    }
}

/// A slot stays well-formed when a shred of it joins.
pub proof fn lemma_with_shred_well_formed(slot: SlotView, shred: ShredView)
    requires
        slot.well_formed(shred.slot()),
        shred.well_formed(),
    ensures
        slot.with_shred(shred).well_formed(shred.slot()),
{
    let after = slot.with_shred(shred);
    assert forall|fec_set_index: u32| #[trigger]
        after.fec_sets.contains_key(fec_set_index) implies fec_set_index < MAX_DATA_SHREDS_PER_SLOT
        && distinct_shreds(after.fec_sets[fec_set_index]) && forall|i: int|
        0 <= i < after.fec_sets[fec_set_index].len() ==> {
            let s = #[trigger] after.fec_sets[fec_set_index][i];
            &&& s.well_formed()
            &&& s.slot() == shred.slot()
            &&& s.fec_set_index() == fec_set_index
        } by {
        if fec_set_index != shred.fec_set_index() {
            assert(slot.fec_sets.contains_key(fec_set_index));
        } else {
            if slot.fec_sets.contains_key(fec_set_index) {
                assert(slot.fec_set(fec_set_index) == slot.fec_sets[fec_set_index]);
            }
            shreds_stay_distinct(slot.fec_set(fec_set_index), shred);
        }
    }
}

/// A state stays consistent whatever shred is looked at, and its highest slot is then the higher
/// one of the two.
pub proof fn shreds_keep_the_state_consistent(state: ReconstructionView, shred: ShredView)
    requires
        state.consistent(),
        state.can_look_at(shred),
    ensures
        state.with_shred(shred).consistent(),
        state.with_shred(shred).highest_slot == if state.highest_slot < shred.slot() {
            shred.slot()
        } else {
            state.highest_slot
        },
{
    let slot = state.slot(shred.slot());
    let after = state.with_shred(shred);
    assert(slot.well_formed(shred.slot()));
    if oldest_slot(state.highest_slot) <= shred.slot() && !state.slots.contains_key(shred.slot()) {
        assert(slot.takes(shred));
    }
    if oldest_slot(state.highest_slot) <= shred.slot() && slot.takes(shred) {
        lemma_with_shred_well_formed(slot, shred);
    }
    lemma_with_pair(state.pending, (shred.slot(), shred.fec_set_index()));
    assert forall|i: int| 0 <= i < after.pending.len() implies {
        &&& after.slots.contains_key((#[trigger] after.pending[i]).0)
        &&& after.slots[after.pending[i].0].fec_sets.contains_key(after.pending[i].1)
    } by {
        assert(after.pending.contains(after.pending[i]));
        if state.pending.contains(after.pending[i]) {
            let k = state.pending.index_of(after.pending[i]);
            assert(state.pending[k] == after.pending[i]);
        }
    }
}

/// A tracker that has use for none of the recovered shreds stays as it is.
pub proof fn lemma_nothing_accepted(tracker: TrackerView, recovered: Seq<Option<ShredView>>)
    requires
        accepted(tracker, recovered) == 0,
    ensures
        offered(tracker, recovered) == tracker,
    decreases recovered.len(),
{
    if recovered.len() > 0 {
        lemma_nothing_accepted(tracker, recovered.drop_last());
    }
}

/// If the shreds of a batch can be looked at, so can the first of them.
pub proof fn lemma_can_look_at_first(state: ReconstructionView, shreds: Seq<ShredView>, count: int)
    requires
        state.can_look_at_all(shreds),
        0 <= count <= shreds.len(),
    ensures
        state.can_look_at_all(shreds.take(count)),
    decreases shreds.len(),
{
    if count == shreds.len() {
        assert(shreds.take(count) =~= shreds);
    } else {
        assert(shreds.drop_last().take(count) =~= shreds.take(count));
        lemma_can_look_at_first(state, shreds.drop_last(), count);
    }
}

} // verus!
