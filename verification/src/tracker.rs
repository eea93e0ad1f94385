//! What is known of the data shreds of one slot.
use crate::shred::{
    same_shred, ComparableShred, Shred, ShredData, ShredView, MAX_DATA_SHREDS_PER_SLOT,
};
use vstd::prelude::*;

verus! {

/// What is known of one data shred.
#[derive(Clone, Copy, Debug, PartialEq, Eq, Structural)]
pub enum ShredStatus {
    /// It has not been seen.
    Unknown,
    /// It has been seen and does not end a run of entries.
    NotDataComplete,
    /// It has been seen and ends a run of entries.
    DataComplete,
}

/// Tracks the data shreds of a slot, by their index in it.
#[derive(Debug)]
pub struct SlotStateTracker {
    /// Status of each data shred.
    data_status: Vec<ShredStatus>,
    /// The data shreds themselves.
    data_shreds: Vec<Option<Shred>>,
    /// FEC sets that need no more shreds, by FEC set index.
    already_recovered_fec_sets: Vec<bool>,
    /// Data shreds whose entries have been decoded.
    already_deshredded: Vec<bool>,
}

/// What a tracker knows.
#[verifier::ext_equal]
pub ghost struct TrackerView {
    pub status: Seq<ShredStatus>,
    pub shreds: Seq<Option<ShredView>>,
    pub recovered: Seq<bool>,
    pub deshredded: Seq<bool>,
}

pub open spec fn shred_option_view(shred: Option<Shred>) -> Option<ShredView> {
    match shred {
        Some(shred) => Some(shred@),
        None => None,
    }
}

impl View for SlotStateTracker {
    type V = TrackerView;

    closed spec fn view(&self) -> TrackerView {
        TrackerView {
            status: self.data_status@,
            shreds: self.data_shreds@.map_values(|s: Option<Shred>| shred_option_view(s)),
            recovered: self.already_recovered_fec_sets@,
            deshredded: self.already_deshredded@,
        }
    }
}

/// The status that a data shred gives its index.
pub open spec fn status_of(shred: ShredView) -> ShredStatus {
    if shred.ends_entries() {
        ShredStatus::DataComplete
    } else {
        ShredStatus::NotDataComplete
    }
}

impl TrackerView {
    /// The tracker of a slot of which nothing has been seen.
    pub open spec fn empty() -> TrackerView {
        TrackerView {
            status: Seq::new(MAX_DATA_SHREDS_PER_SLOT as nat, |i: int| ShredStatus::Unknown),
            shreds: Seq::new(MAX_DATA_SHREDS_PER_SLOT as nat, |i: int| None),
            recovered: Seq::new(MAX_DATA_SHREDS_PER_SLOT as nat, |i: int| false),
            deshredded: Seq::new(MAX_DATA_SHREDS_PER_SLOT as nat, |i: int| false),
        }
    }

    /// Every index of the slot is tracked, a shred is held exactly where the status is known, and
    /// it is a data shred of that index with that status.
    pub open spec fn well_formed(self) -> bool {
        &&& self.status.len() == MAX_DATA_SHREDS_PER_SLOT
        &&& self.shreds.len() == MAX_DATA_SHREDS_PER_SLOT
        &&& self.recovered.len() == MAX_DATA_SHREDS_PER_SLOT
        &&& self.deshredded.len() == MAX_DATA_SHREDS_PER_SLOT
        &&& forall|i: int|
            #![trigger self.shreds[i]]
            #![trigger self.status[i]]
            0 <= i < MAX_DATA_SHREDS_PER_SLOT ==> match self.shreds[i] {
                Some(shred) => {
                    &&& shred is Data
                    &&& shred.well_formed()
                    &&& shred.index() == i
                    &&& self.status[i] == status_of(shred)
                },
                None => self.status[i] == ShredStatus::Unknown,
            }
    }

    /// Whether a shred can be offered: its FEC set lies within the slot, and so does a data shred
    /// itself, unless its set is recovered anyway.
    pub open spec fn can_be_offered(self, shred: ShredView) -> bool {
        &&& shred.fec_set_index() < MAX_DATA_SHREDS_PER_SLOT
        &&& shred is Data && !self.recovered[shred.fec_set_index() as int] ==> shred.index()
            < MAX_DATA_SHREDS_PER_SLOT
    }

    /// Whether the tracker has use for a shred: its FEC set is not recovered, and a data shred is
    /// the first of its index.
    pub open spec fn accepts(self, shred: ShredView) -> bool {
        &&& !self.recovered[shred.fec_set_index() as int]
        &&& shred is Data ==> self.shreds[shred.index()] is None && self.status[shred.index()]
            == ShredStatus::Unknown
    }

    /// The tracker once a shred has been offered to it.
    pub open spec fn updated(self, shred: ShredView) -> TrackerView {
        if self.accepts(shred) && shred is Data {
            TrackerView {
                status: self.status.update(shred.index(), status_of(shred)),
                shreds: self.shreds.update(shred.index(), Some(shred)),
                ..self
            }
        } else {
            self
        }
    }

    /// The tracker with a FEC set marked as recovered.
    pub open spec fn with_recovered(self, fec_set_index: int) -> TrackerView {
        TrackerView { recovered: self.recovered.update(fec_set_index, true), ..self }
    }

    /// The tracker once the entries in the shreds from `start` up to `end` have been decoded:
    /// these shreds, and every FEC set that one of them belongs to, are done.
    pub open spec fn with_deshredded(self, start: int, end: int) -> TrackerView {
        TrackerView {
            recovered: Seq::new(
                self.recovered.len(),
                |f: int| self.recovered[f] || self.run_touches(start, end, f),
            ),
            deshredded: Seq::new(
                self.deshredded.len(),
                |i: int| self.deshredded[i] || start <= i <= end,
            ),
            ..self
        }
    }

    /// Whether one of the shreds from `start` up to `end` belongs to the FEC set.
    pub open spec fn run_touches(self, start: int, end: int, fec_set_index: int) -> bool {
        exists|i: int|
            start <= i <= end && (#[trigger] self.shreds[i]) is Some
                && self.shreds[i]->0.fec_set_index() == fec_set_index
    }

    /// Whether the shreds from `start` up to `end` are the run of entries around `index`: all of
    /// them are known and not yet decoded, and the last one and no other ends a run.
    ///
    /// The run starts at the slot's first shred or behind one that ends a run. Where the shred in
    /// front of it is unknown instead, the run may have started earlier: `unknown_start`.
    pub open spec fn is_run(self, index: int, start: int, end: int, unknown_start: bool) -> bool {
        &&& 0 <= start <= index <= end < self.status.len()
        &&& self.status[end] == ShredStatus::DataComplete
        &&& forall|i: int|
            start <= i < end ==> #[trigger] self.status[i] == ShredStatus::NotDataComplete
        &&& forall|i: int| start <= i <= end ==> !#[trigger] self.deshredded[i]
        &&& if start == 0 {
            !unknown_start
        } else {
            &&& self.status[start - 1] != ShredStatus::NotDataComplete
            &&& unknown_start == (self.status[start - 1] == ShredStatus::Unknown)
        }
    }
}

impl Default for SlotStateTracker {
    fn default() -> (tracker: SlotStateTracker)
        ensures
            tracker@ == TrackerView::empty(),
            tracker@.well_formed(),
    {
        let mut data_shreds: Vec<Option<Shred>> = Vec::new();
        let mut i: usize = 0;
        while i < MAX_DATA_SHREDS_PER_SLOT
            invariant
                i <= MAX_DATA_SHREDS_PER_SLOT,
                data_shreds@.len() == i,
                forall|j: int| 0 <= j < i ==> #[trigger] data_shreds@[j] is None,
            decreases MAX_DATA_SHREDS_PER_SLOT - i,
        {
            data_shreds.push(None);
            i += 1;
        }
        let tracker = SlotStateTracker {
            data_status: vec![ShredStatus::Unknown; MAX_DATA_SHREDS_PER_SLOT],
            data_shreds,
            already_recovered_fec_sets: vec![false; MAX_DATA_SHREDS_PER_SLOT],
            already_deshredded: vec![false; MAX_DATA_SHREDS_PER_SLOT],
        };
        assert(tracker@ =~= TrackerView::empty());
        tracker
    }
}

/// Offers a shred to the tracker. The answer is the shred's index where the tracker has use for
/// it, and a data shred is then kept.
pub fn update_state_tracker(shred: &Shred, state_tracker: &mut SlotStateTracker) -> (index: Option<
    usize,
>)
    requires
        old(state_tracker)@.well_formed(),
        old(state_tracker)@.can_be_offered(shred@),
    ensures
        final(state_tracker)@ == old(state_tracker)@.updated(shred@),
        final(state_tracker)@.well_formed(),
        index == if old(state_tracker)@.accepts(shred@) {
            Some(shred@.index() as usize)
        } else {
            None
        },
{
    let index = shred.common_header().index as usize;
    let fec_set_index = shred.common_header().fec_set_index as usize;
    if state_tracker.already_recovered_fec_sets[fec_set_index] {
        return None;
    }
    match shred {
        Shred::ShredCode(_) => {},
        Shred::ShredData(data) => {
            if state_tracker.data_shreds[index].is_some() || state_tracker.data_status[index]
                != ShredStatus::Unknown {
                return None;
            }
            let ghost before = state_tracker@;
            let copy = shred.clone();
            state_tracker.data_shreds.set(index, Some(copy));
            if data.data_complete || data.last_in_slot {
                state_tracker.data_status.set(index, ShredStatus::DataComplete);
            } else {
                state_tracker.data_status.set(index, ShredStatus::NotDataComplete);
            }
            assert(state_tracker@ =~= before.updated(shred@));
        },
    }
    Some(index)
}

/// Finds the run of entries around the data shred `index`: its first and last shred, and whether
/// its start is only a guess.
pub fn get_indexes(tracker: &SlotStateTracker, index: usize) -> (run: Option<(usize, usize, bool)>)
    requires
        tracker@.well_formed(),
    ensures
        match run {
            Some((start, end, unknown_start)) => tracker@.is_run(
                index as int,
                start as int,
                end as int,
                unknown_start,
            ),
            None => forall|start: int, end: int, unknown_start: bool|
                !tracker@.is_run(index as int, start, end, unknown_start),
        },
{
    let ghost view = tracker@;
    if index >= tracker.data_status.len() {
        return None;
    }
    // the right end: the first shred from `index` on that ends a run
    let mut end = index;
    while end < tracker.data_status.len() && tracker.data_status[end] != ShredStatus::DataComplete
        invariant
            view == tracker@,
            view.well_formed(),
            index <= end <= tracker.data_status@.len(),
            forall|i: int|
                index <= i < end ==> #[trigger] view.status[i] == ShredStatus::NotDataComplete,
            forall|i: int| index <= i < end ==> !#[trigger] view.deshredded[i],
        decreases tracker.data_status@.len() - end,
    {
        if tracker.already_deshredded[end] || tracker.data_status[end] == ShredStatus::Unknown {
            assert forall|s: int, e: int, u: bool| !view.is_run(index as int, s, e, u) by {
                if view.is_run(index as int, s, e, u) {
                    if e < end {
                        assert(view.status[e] == ShredStatus::NotDataComplete);
                    }
                    assert(!view.deshredded[end as int]);
                    assert(view.status[end as int] != ShredStatus::Unknown);
                }
            }
            return None;
        }
        end += 1;
    }
    if end == tracker.data_status.len() || tracker.already_deshredded[end] {
        assert forall|s: int, e: int, u: bool| !view.is_run(index as int, s, e, u) by {
            if view.is_run(index as int, s, e, u) {
                if e < end {
                    assert(view.status[e] == ShredStatus::NotDataComplete);
                }
                assert(end < view.status.len());
                assert(!view.deshredded[end as int]);
            }
        }
        return None;
    }
    // the left end: behind the closest shred that does not continue the run

    let mut start = index;
    while start > 0 && tracker.data_status[start - 1] == ShredStatus::NotDataComplete
        invariant
            view == tracker@,
            view.well_formed(),
            0 <= start <= index <= end < view.status.len(),
            end < tracker.data_status@.len(),
            view.status[end as int] == ShredStatus::DataComplete,
            forall|i: int|
                start <= i < end ==> #[trigger] view.status[i] == ShredStatus::NotDataComplete,
            forall|i: int| start <= i <= end ==> !#[trigger] view.deshredded[i],
        decreases start,
    {
        if tracker.already_deshredded[start - 1] {
            assert forall|s: int, e: int, u: bool| !view.is_run(index as int, s, e, u) by {
                if view.is_run(index as int, s, e, u) {
                    if s >= start {
                        assert(view.status[s - 1] == ShredStatus::NotDataComplete);
                    }
                    assert(!view.deshredded[start - 1]);
                }
            }
            return None;
        }
        start -= 1;
    }
    let unknown_start = start > 0 && tracker.data_status[start - 1] == ShredStatus::Unknown;
    Some((start, end, unknown_start))
}

impl SlotStateTracker {
    /// Whether the FEC set needs no more shreds.
    pub fn is_recovered(&self, fec_set_index: u32) -> (recovered: bool)
        requires
            self@.well_formed(),
            fec_set_index < MAX_DATA_SHREDS_PER_SLOT,
        ensures
            recovered == self@.recovered[fec_set_index as int],
    {
        self.already_recovered_fec_sets[fec_set_index as usize]
    }

    /// Whether the entries in the data shred have been decoded.
    pub fn is_deshredded(&self, index: u32) -> (deshredded: bool)
        requires
            self@.well_formed(),
            index < MAX_DATA_SHREDS_PER_SLOT,
        ensures
            deshredded == self@.deshredded[index as int],
    {
        self.already_deshredded[index as usize]
    }

    /// Marks a FEC set as recovered.
    pub fn mark_recovered(&mut self, fec_set_index: u32)
        requires
            old(self)@.well_formed(),
            fec_set_index < MAX_DATA_SHREDS_PER_SLOT,
        ensures
            final(self)@ == old(self)@.with_recovered(fec_set_index as int),
            final(self)@.well_formed(),
    {
        let ghost before = self@;
        self.already_recovered_fec_sets.set(fec_set_index as usize, true);
        assert(self@ =~= before.with_recovered(fec_set_index as int));
    }

    /// Marks the shreds from `start` up to `end` as decoded, and their FEC sets as recovered.
    pub fn mark_deshredded(&mut self, start: usize, end: usize)
        requires
            old(self)@.well_formed(),
            start <= end < MAX_DATA_SHREDS_PER_SLOT,
            forall|i: int| start <= i <= end ==> #[trigger] old(self)@.shreds[i] is Some,
        ensures
            final(self)@ == old(self)@.with_deshredded(start as int, end as int),
            final(self)@.well_formed(),
    {
        let ghost before = self@;
        let mut next = start;
        while next <= end
            invariant
                before.well_formed(),
                self@.status == before.status,
                self@.shreds == before.shreds,
                self@.recovered.len() == before.recovered.len(),
                self@.deshredded.len() == before.deshredded.len(),
                start <= next <= end + 1,
                end < MAX_DATA_SHREDS_PER_SLOT,
                forall|i: int| start <= i <= end ==> #[trigger] before.shreds[i] is Some,
                forall|i: int|
                    0 <= i < self@.deshredded.len() ==> #[trigger] self@.deshredded[i]
                        == (before.deshredded[i] || start <= i < next),
                forall|f: int|
                    0 <= f < self@.recovered.len() ==> #[trigger] self@.recovered[f] == (
                    before.recovered[f] || before.run_touches(start as int, next - 1, f)),
            decreases end + 1 - next,
        {
            let ghost current = self@;
            assert(self@.shreds[next as int] is Some);
            assert(self.data_shreds@[next as int] is Some);
            let fec_set_index: usize = match &self.data_shreds[next] {
                Some(shred) => shred.common_header().fec_set_index as usize,
                None => 0,
            };
            assert(before.shreds[next as int]->0.fec_set_index() == fec_set_index);
            self.already_recovered_fec_sets.set(fec_set_index, true);
            self.already_deshredded.set(next, true);
            proof {
                assert(self@.shreds =~= before.shreds);
                assert forall|f: int| 0 <= f < self@.recovered.len() implies #[trigger] self@.recovered[f]
                    == (before.recovered[f] || before.run_touches(start as int, next as int, f)) by {
                    assert(current.recovered[f] == (before.recovered[f] || before.run_touches(
                        start as int,
                        next - 1,
                        f,
                    )));
                    if before.run_touches(start as int, next - 1, f) {
                        let i = choose|i: int|
                            start <= i <= next - 1 && (#[trigger] before.shreds[i]) is Some
                                && before.shreds[i]->0.fec_set_index() == f;
                        assert(before.shreds[i] is Some);
                    }
                    if before.run_touches(start as int, next as int, f) && f != fec_set_index {
                        let i = choose|i: int|
                            start <= i <= next && (#[trigger] before.shreds[i]) is Some
                                && before.shreds[i]->0.fec_set_index() == f;
                        assert(before.shreds[i] is Some);
                        assert(i != next);
                    }
                }
                assert forall|i: int| 0 <= i < self@.deshredded.len() implies #[trigger] self@.deshredded[i]
                    == (before.deshredded[i] || start <= i < next + 1) by {
                    assert(current.deshredded[i] == (before.deshredded[i] || start <= i < next));
                }
            }
            next += 1;
        }
        assert(self@ =~= before.with_deshredded(start as int, end as int));
    }

    /// The payloads of the shreds from `start` up to `end`, in order.
    pub fn payloads(&self, start: usize, end: usize) -> (payloads: Vec<Vec<u8>>)
        requires
            self@.well_formed(),
            start <= end < MAX_DATA_SHREDS_PER_SLOT,
            forall|i: int| start <= i <= end ==> #[trigger] self@.shreds[i] is Some,
        ensures
            payloads@.len() == end - start + 1,
            forall|i: int|
                0 <= i < payloads@.len() ==> (#[trigger] payloads@[i])@
                    == self@.shreds[start + i]->0.payload(),
    {
        let mut payloads: Vec<Vec<u8>> = Vec::new();
        let mut next = start;
        while next <= end
            invariant
                self@.well_formed(),
                start <= next <= end + 1,
                end < MAX_DATA_SHREDS_PER_SLOT,
                forall|i: int| start <= i <= end ==> #[trigger] self@.shreds[i] is Some,
                payloads@.len() == next - start,
                forall|i: int|
                    0 <= i < payloads@.len() ==> (#[trigger] payloads@[i])@
                        == self@.shreds[start + i]->0.payload(),
            decreases end + 1 - next,
        {
            assert(self@.shreds[next as int] is Some);
            assert(self.data_shreds@[next as int] is Some);
            match &self.data_shreds[next] {
                Some(shred) => {
                    let payload = shred.payload().clone();
                    assert(payload@ =~= self@.shreds[next as int]->0.payload());
                    payloads.push(payload);
                },
                None => {},
            }
            next += 1;
        }
        payloads
    }
}

/// What a FEC set says of its size: the number of data shreds and of coding shreds that it is
/// expected to have, and the number of either that have arrived.
pub ghost struct FecSetInfo {
    pub expected_data: u16,
    pub expected_coding: u16,
    pub data: u16,
    pub coding: u16,
}

/// The count after `count` in a cycle of 2^16 counts.
pub open spec fn next_count(count: u16) -> u16 {
    if count == u16::MAX {
        0
    } else {
        (count + 1) as u16
    }
}

impl FecSetInfo {
    /// What is known once `shred` has been looked at, too: a coding shred announces the size of
    /// its set, and failing that the data shred that ends a run is taken for the last of the set.
    /// Numbers are those of 16 bits.
    pub open spec fn with(self, shred: ShredView) -> FecSetInfo {
        match shred {
            ShredView::Code { coding_header, .. } => FecSetInfo {
                expected_data: coding_header.num_data_shreds,
                expected_coding: coding_header.num_coding_shreds,
                data: self.data,
                coding: next_count(self.coding),
            },
            ShredView::Data { .. } => FecSetInfo {
                expected_data: if self.expected_data == 0 && shred.ends_entries() {
                    ((shred.index() - shred.fec_set_index() + 1) % 0x1_0000) as u16
                } else {
                    self.expected_data
                },
                expected_coding: self.expected_coding,
                data: next_count(self.data),
                coding: self.coding,
            },
        }
    }
}

/// What the shreds of a FEC set, in the order of their arrival, say of its size.
pub open spec fn fec_set_info(shreds: Seq<ShredView>) -> FecSetInfo
    decreases shreds.len(),
{
    if shreds.len() == 0 {
        FecSetInfo { expected_data: 0, expected_coding: 0, data: 0, coding: 0 }
    } else {
        fec_set_info(shreds.drop_last()).with(shreds.last())
    }
}

/// The shreds of a FEC set as they are.
pub open spec fn shred_views(shreds: Seq<ComparableShred>) -> Seq<ShredView> {
    shreds.map_values(|s: ComparableShred| s@)
}

/// Counts the shreds of a FEC set and works out how many it should have: expected data shreds,
/// expected coding shreds, data shreds, coding shreds.
pub fn get_data_shred_info(shreds: &Vec<ComparableShred>) -> (info: (u16, u16, u16, u16))
    ensures
        fec_set_info(shred_views(shreds@)) == (FecSetInfo {
            expected_data: info.0,
            expected_coding: info.1,
            data: info.2,
            coding: info.3,
        }),
{
    let mut num_expected_data_shreds: u16 = 0;
    let mut num_expected_coding_shreds: u16 = 0;
    let mut num_data_shreds: u16 = 0;
    let mut num_coding_shreds: u16 = 0;
    let ghost views = shred_views(shreds@);
    let mut i: usize = 0;
    while i < shreds.len()
        invariant
            i <= shreds@.len(),
            views == shred_views(shreds@),
            fec_set_info(views.take(i as int)) == (FecSetInfo {
                expected_data: num_expected_data_shreds,
                expected_coding: num_expected_coding_shreds,
                data: num_data_shreds,
                coding: num_coding_shreds,
            }),
        decreases shreds@.len() - i,
    {
        proof {
            assert(views.take(i + 1).drop_last() =~= views.take(i as int));
            assert(views.take(i + 1).last() == shreds@[i as int]@);
        }
        match &shreds[i].0 {
            Shred::ShredCode(s) => {
                num_coding_shreds = num_coding_shreds.wrapping_add(1);
                num_expected_data_shreds = s.coding_header.num_data_shreds;
                num_expected_coding_shreds = s.coding_header.num_coding_shreds;
            },
            Shred::ShredData(s) => {
                num_data_shreds = num_data_shreds.wrapping_add(1);
                if num_expected_data_shreds == 0 && (s.data_complete || s.last_in_slot) {
                    let before = s.common_header.index.wrapping_sub(s.common_header.fec_set_index);
                    num_expected_data_shreds = ((before % 0x1_0000) as u16).wrapping_add(1);
                }
            },
        }
        i += 1;
    }
    assert(views.take(shreds@.len() as int) =~= views);
    (
        num_expected_data_shreds,
        num_expected_coding_shreds,
        num_data_shreds,
        num_coding_shreds,
    )
}

/// The shreds of a FEC set once another has arrived: it joins them unless one of them is the
/// same.
pub open spec fn with_shred(shreds: Seq<ShredView>, shred: ShredView) -> Seq<ShredView> {
    if exists|i: int| 0 <= i < shreds.len() && same_shred(shred, #[trigger] shreds[i]) {
        shreds
    } else {
        shreds.push(shred)
    }
}

/// Whether no two shreds are the same.
pub open spec fn distinct_shreds(shreds: Seq<ShredView>) -> bool {
    forall|i: int, j: int|
        0 <= i < j < shreds.len() ==> !same_shred(
            #[trigger] shreds[j],
            #[trigger] shreds[i],
        )
}

/// Adds a shred to a FEC set unless the set holds the same one.
pub fn insert_shred(shreds: &mut Vec<ComparableShred>, shred: ComparableShred)
    ensures
        shred_views(final(shreds)@) == with_shred(shred_views(old(shreds)@), shred@),
{
    let ghost views = shred_views(shreds@);
    let mut i: usize = 0;
    while i < shreds.len()
        invariant
            i <= shreds@.len(),
            views == shred_views(shreds@),
            forall|j: int| 0 <= j < i ==> !same_shred(shred@, #[trigger] views[j]),
        decreases shreds@.len() - i,
    {
        if shred == shreds[i] {
            assert(same_shred(shred@, views[i as int]));
            return;
        }
        i += 1;
    }
    shreds.push(shred);
    assert(shred_views(shreds@) =~= views.push(shred@));
}

/// A FEC set holds no shred twice, however often it arrives.
pub proof fn shreds_stay_distinct(shreds: Seq<ShredView>, shred: ShredView)
    requires
        distinct_shreds(shreds),
    ensures
        distinct_shreds(with_shred(shreds, shred)),
{
}

/// There is at most one run of entries around an index.
pub proof fn run_is_unique(
    tracker: TrackerView,
    index: int,
    start: int,
    end: int,
    unknown: bool,
    other_start: int,
    other_end: int,
    other_unknown: bool,
)
    requires
        tracker.is_run(index, start, end, unknown),
        tracker.is_run(index, other_start, other_end, other_unknown),
    ensures
        start == other_start,
        end == other_end,
        unknown == other_unknown,
{
    if end < other_end {
        assert(tracker.status[end] == ShredStatus::NotDataComplete);
    }
    if other_end < end {
        assert(tracker.status[other_end] == ShredStatus::NotDataComplete);
    }
    if start < other_start {
        assert(tracker.status[other_start - 1] == ShredStatus::NotDataComplete);
    }
    if other_start < start {
        assert(tracker.status[start - 1] == ShredStatus::NotDataComplete);
    }
}

/// Every shred of a run of entries is held by the tracker.
pub proof fn run_is_held(tracker: TrackerView, index: int, start: int, end: int, unknown: bool)
    requires
        tracker.well_formed(),
        tracker.is_run(index, start, end, unknown),
    ensures
        forall|i: int| start <= i <= end ==> #[trigger] tracker.shreds[i] is Some,
{
    assert forall|i: int| start <= i <= end implies #[trigger] tracker.shreds[i] is Some by {
        if i < end {
            assert(tracker.status[i] == ShredStatus::NotDataComplete);
        }
    }
}

/// Once a run of entries has been decoded, no run around any index touches it again.
pub proof fn decoded_runs_stay_decoded(
    tracker: TrackerView,
    start: int,
    end: int,
    index: int,
    next_start: int,
    next_end: int,
    unknown: bool,
)
    requires
        tracker.well_formed(),
        0 <= start <= end < MAX_DATA_SHREDS_PER_SLOT,
        tracker.with_deshredded(start, end).is_run(index, next_start, next_end, unknown),
    ensures
        next_end < start || end < next_start,
{
    let after = tracker.with_deshredded(start, end);
    if start <= next_end && next_start <= end {
        let shared = if start <= next_start {
            next_start
        } else {
            start
        };
        assert(after.deshredded[shared]);
    }
}

/// Whatever is offered to a tracker or marked in it, it stays well-formed and forgets nothing: a
/// shred that it holds, a FEC set that is recovered and a shred that is decoded remain so.
pub open spec fn tracker_extends(before: TrackerView, after: TrackerView) -> bool {
    &&& after.well_formed()
    &&& forall|i: int|
        0 <= i < MAX_DATA_SHREDS_PER_SLOT && before.shreds[i] is Some
            ==> #[trigger] after.shreds[i] == before.shreds[i]
    &&& forall|f: int|
        0 <= f < MAX_DATA_SHREDS_PER_SLOT && before.recovered[f] ==> #[trigger] after.recovered[f]
    &&& forall|i: int|
        0 <= i < MAX_DATA_SHREDS_PER_SLOT && before.deshredded[i] ==> #[trigger] after.deshredded[i]
}

/// A tracker only ever learns: each of its operations extends it.
pub proof fn tracker_only_learns(
    tracker: TrackerView,
    shred: ShredView,
    fec_set_index: int,
    start: int,
    end: int,
)
    requires
        tracker.well_formed(),
        tracker.can_be_offered(shred),
        0 <= fec_set_index < MAX_DATA_SHREDS_PER_SLOT,
        0 <= start <= end < MAX_DATA_SHREDS_PER_SLOT,
    ensures
        tracker_extends(tracker, tracker.updated(shred)),
        tracker_extends(tracker, tracker.with_recovered(fec_set_index)),
        tracker_extends(tracker, tracker.with_deshredded(start, end)),
{
}

/// A tracker has no use for a data shred twice, nor for any shred of a FEC set that is recovered.
pub proof fn shreds_are_taken_once(tracker: TrackerView, shred: ShredView, other: ShredView)
    requires
        tracker.well_formed(),
        tracker.can_be_offered(shred),
        tracker.can_be_offered(other),
    ensures
        shred is Data && other is Data && shred.index() == other.index()
            ==> !tracker.updated(shred).accepts(other) || !tracker.accepts(shred),
        !tracker.with_recovered(shred.fec_set_index() as int).accepts(shred),
{
}

/// Where the coding shreds of a FEC set announce one size, with data shreds, that is the expected
/// number of data and of coding shreds as soon as one of them has arrived, whatever the order of
/// arrival.
pub proof fn announced_size_is_expected(shreds: Seq<ShredView>, size: u16, coding: u16)
    requires
        size > 0,
        exists|i: int| 0 <= i < shreds.len() && (#[trigger] shreds[i]) is Code,
        forall|i: int|
            0 <= i < shreds.len() && (#[trigger] shreds[i]) is Code
                ==> shreds[i]->coding_header.num_data_shreds == size
                && shreds[i]->coding_header.num_coding_shreds == coding,
    ensures
        fec_set_info(shreds).expected_data == size,
        fec_set_info(shreds).expected_coding == coding,
    decreases shreds.len(),
{
    if shreds.last() is Data {
        let i = choose|i: int| 0 <= i < shreds.len() && (#[trigger] shreds[i]) is Code;
        assert(shreds.drop_last()[i] == shreds[i]);
        assert forall|j: int|
            0 <= j < shreds.drop_last().len() && (#[trigger] shreds.drop_last()[j]) is Code implies shreds.drop_last()[j]->coding_header.num_data_shreds
            == size && shreds.drop_last()[j]->coding_header.num_coding_shreds == coding by {
            assert(shreds.drop_last()[j] == shreds[j]);
        }
        announced_size_is_expected(shreds.drop_last(), size, coding);
    } else {
        assert(shreds[shreds.len() - 1] is Code);
    }
}

/// Whether one of the two flags of a data shred says that a run of entries ends with it.
pub open spec fn is_flagged(shred: ShredView) -> bool {
    match shred {
        ShredView::Data { data_complete, last_in_slot, .. } => data_complete || last_in_slot,
        ShredView::Code { .. } => false,
    }
}

/// A tracker takes a data shred exactly where its FEC set is not recovered and no shred of its index
/// is held. The shred is then held, and its status says whether one of its flags ends a run; nothing
/// else changes.
pub proof fn data_shreds_are_kept_with_their_flags(tracker: TrackerView, shred: ShredView, i: int)
    requires
        tracker.well_formed(),
        shred is Data,
        shred.well_formed(),
        0 <= i < MAX_DATA_SHREDS_PER_SLOT,
    ensures
        ({
            let after = tracker.updated(shred);
            let index = shred->Data_common_header.index as int;
            let fec_set_index = shred->Data_common_header.fec_set_index as int;
            let taken = !tracker.recovered[fec_set_index] && tracker.shreds[index] is None;
            &&& tracker.accepts(shred) <==> taken
            &&& taken ==> after.shreds[index] == Some(shred)
            &&& taken ==> (after.status[index] == ShredStatus::DataComplete
                <==> shred->data_complete || shred->last_in_slot)
            &&& taken ==> after.status[index] != ShredStatus::Unknown
            &&& i != index || !taken ==> after.shreds[i] == tracker.shreds[i] && after.status[i]
                == tracker.status[i]
            &&& after.recovered == tracker.recovered
            &&& after.deshredded == tracker.deshredded
        }),
{
}

/// A tracker has use for a coding shred exactly where its FEC set is not recovered, and learns
/// nothing from it.
pub proof fn coding_shreds_are_not_kept(tracker: TrackerView, shred: ShredView)
    requires
        shred is Code,
    ensures
        tracker.accepts(shred)
            <==> !tracker.recovered[shred->Code_common_header.fec_set_index as int],
        tracker.updated(shred) == tracker,
{
}

/// The shreds that are held from an index on up to another are the run of entries around one of them
/// exactly where none of them is decoded, the last one is flagged and no other is, and the run starts
/// the slot or follows a flagged shred; its start is a guess exactly where the shred in front of it
/// is missing.
pub proof fn runs_reach_from_flag_to_flag(
    tracker: TrackerView,
    index: int,
    start: int,
    end: int,
    unknown_start: bool,
)
    requires
        tracker.well_formed(),
    ensures
        tracker.is_run(index, start, end, unknown_start) <==> {
            &&& 0 <= start <= index <= end < MAX_DATA_SHREDS_PER_SLOT
            &&& forall|i: int|
                start <= i <= end ==> (#[trigger] tracker.shreds[i]) is Some
                    && !tracker.deshredded[i] && (is_flagged(tracker.shreds[i]->0) <==> i == end)
            &&& if start == 0 {
                !unknown_start
            } else {
                match tracker.shreds[start - 1] {
                    Some(shred) => is_flagged(shred) && !unknown_start,
                    None => unknown_start,
                }
            }
        },
{
    if tracker.is_run(index, start, end, unknown_start) {
        assert forall|i: int| start <= i <= end implies (#[trigger] tracker.shreds[i]) is Some
            && !tracker.deshredded[i] && (is_flagged(tracker.shreds[i]->0) <==> i == end) by {
            assert(!tracker.deshredded[i]);
            assert(i < end ==> tracker.status[i] == ShredStatus::NotDataComplete);
        }
        assert(start > 0 ==> tracker.status[start - 1] != ShredStatus::NotDataComplete);
    }
    if 0 <= start <= index <= end < MAX_DATA_SHREDS_PER_SLOT && (forall|i: int|
        start <= i <= end ==> (#[trigger] tracker.shreds[i]) is Some && !tracker.deshredded[i] && (
        is_flagged(tracker.shreds[i]->0) <==> i == end)) {
        assert(tracker.shreds[end] is Some);
        assert forall|i: int| start <= i < end implies #[trigger] tracker.status[i]
            == ShredStatus::NotDataComplete by {
            assert(tracker.shreds[i] is Some);
        }
        assert forall|i: int| start <= i <= end implies !#[trigger] tracker.deshredded[i] by {
            assert(tracker.shreds[i] is Some);
        }
        if start > 0 {
            assert(tracker.shreds[start - 1] is Some || tracker.shreds[start - 1] is None);
        }
    }
}

/// A data shred that a tracker takes closes the run of the slot's first entries exactly where one of
/// its flags is set: given that all shreds in front of it are held, none of them flagged, and none
/// decoded.
pub proof fn flagged_shreds_close_runs(tracker: TrackerView, shred: ShredView, index: int)
    requires
        tracker.well_formed(),
        shred is Data,
        shred.well_formed(),
        !tracker.recovered[shred->Data_common_header.fec_set_index as int],
        tracker.shreds[shred->Data_common_header.index as int] is None,
        forall|i: int|
            0 <= i < shred->Data_common_header.index ==> (#[trigger] tracker.shreds[i]) is Some
                && !is_flagged(tracker.shreds[i]->0),
        forall|i: int|
            0 <= i <= shred->Data_common_header.index ==> !#[trigger] tracker.deshredded[i],
        0 <= index <= shred->Data_common_header.index,
    ensures
        tracker.updated(shred).is_run(
            index,
            0,
            shred->Data_common_header.index as int,
            false,
        ) <==> shred->data_complete || shred->last_in_slot,
{
    let last = shred->Data_common_header.index as int;
    let after = tracker.updated(shred);
    data_shreds_are_kept_with_their_flags(tracker, shred, last);
    runs_reach_from_flag_to_flag(after, index, 0, last, false);
    assert(after.shreds[last] == Some(shred));
    assert forall|i: int| 0 <= i <= last && is_flagged(shred) implies (
    #[trigger] after.shreds[i]) is Some && !after.deshredded[i] && (is_flagged(after.shreds[i]->0)
        <==> i == last) by {
        assert(!tracker.deshredded[i]);
        if i < last {
            assert(tracker.shreds[i] is Some);
        }
    }
}

/// To mark a run as decoded marks its shreds and the FEC sets that they belong to, and nothing else;
/// to mark a FEC set as recovered marks that one alone.
pub proof fn marks_reach_what_they_name(
    tracker: TrackerView,
    start: int,
    end: int,
    fec_set_index: int,
    i: int,
)
    requires
        tracker.well_formed(),
        0 <= i < MAX_DATA_SHREDS_PER_SLOT,
        0 <= fec_set_index < MAX_DATA_SHREDS_PER_SLOT,
    ensures
        ({
            let after = tracker.with_deshredded(start, end);
            &&& after.deshredded[i] <==> tracker.deshredded[i] || start <= i <= end
            &&& after.recovered[i] <==> tracker.recovered[i] || exists|k: int|
                start <= k <= end && (#[trigger] tracker.shreds[k]) is Some
                    && tracker.shreds[k]->0.common_header().fec_set_index == i
            &&& after.shreds == tracker.shreds
            &&& after.status == tracker.status
        }),
        ({
            let after = tracker.with_recovered(fec_set_index);
            &&& after.recovered[i] <==> tracker.recovered[i] || i == fec_set_index
            &&& after.deshredded == tracker.deshredded
            &&& after.shreds == tracker.shreds
            &&& after.status == tracker.status
        }),
{
}

/// How many of some shreds are data shreds.
pub open spec fn data_count(shreds: Seq<ShredView>) -> nat
    decreases shreds.len(),
{
    if shreds.len() == 0 {
        0
    } else {
        data_count(shreds.drop_last()) + if shreds.last() is Data {
            1nat
        } else {
            0
        }
    }
}

/// The shreds of a FEC set are counted, data shreds and coding shreds apart, up to the 16 bits that
/// the counts have.
pub proof fn shreds_are_counted_by_type(shreds: Seq<ShredView>)
    ensures
        data_count(shreds) <= shreds.len(),
        fec_set_info(shreds).data == data_count(shreds) % 0x1_0000,
        fec_set_info(shreds).coding == (shreds.len() - data_count(shreds)) % 0x1_0000,
    decreases shreds.len(),
{
    if shreds.len() > 0 {
        shreds_are_counted_by_type(shreds.drop_last());
    }
}

/// The size that the latest coding shred of a FEC set announces, with data shreds, is the expected
/// one, whatever data shreds and other coding shreds the set holds.
pub proof fn the_latest_announcement_counts(shreds: Seq<ShredView>, latest: int)
    requires
        0 <= latest < shreds.len(),
        shreds[latest] is Code,
        shreds[latest]->coding_header.num_data_shreds > 0,
        forall|i: int| latest < i < shreds.len() ==> (#[trigger] shreds[i]) is Data,
    ensures
        fec_set_info(shreds).expected_data == shreds[latest]->coding_header.num_data_shreds,
        fec_set_info(shreds).expected_coding == shreds[latest]->coding_header.num_coding_shreds,
    decreases shreds.len(),
{
    if latest < shreds.len() - 1 {
        let shorter = shreds.drop_last();
        assert(shreds[shreds.len() - 1] is Data);
        assert forall|i: int| latest < i < shorter.len() implies (#[trigger] shorter[i]) is Data by {
            assert(shorter[i] == shreds[i]);
        }
        assert(shorter[latest] == shreds[latest]);
        the_latest_announcement_counts(shorter, latest);
    }
}

/// Without coding shreds, a FEC set is expected to end with the first of its data shreds, in the
/// order of arrival, that is flagged; without a flagged one its size is not known.
pub proof fn the_first_flag_tells_the_size(shreds: Seq<ShredView>, first: int)
    requires
        forall|i: int| 0 <= i < shreds.len() ==> (#[trigger] shreds[i]) is Data,
        0 <= first <= shreds.len(),
        forall|i: int| 0 <= i < first ==> !is_flagged(#[trigger] shreds[i]),
        first < shreds.len() ==> is_flagged(shreds[first]) && (shreds[first].index()
            - shreds[first].fec_set_index() + 1) % 0x1_0000 != 0,
    ensures
        fec_set_info(shreds).expected_coding == 0,
        fec_set_info(shreds).expected_data == if first < shreds.len() {
            (shreds[first]->Data_common_header.index
                - shreds[first]->Data_common_header.fec_set_index + 1) % 0x1_0000
        } else {
            0
        },
    decreases shreds.len(),
{
    if shreds.len() > 0 {
        let shorter = shreds.drop_last();
        assert forall|i: int| 0 <= i < shorter.len() implies (#[trigger] shorter[i]) is Data && (i
            < first ==> !is_flagged(shorter[i])) by {
            assert(shorter[i] == shreds[i]);
        }
        assert(shreds[shreds.len() - 1] is Data);
        if first < shreds.len() {
            if first < shorter.len() {
                assert(shorter[first] == shreds[first]);
            }
            the_first_flag_tells_the_size(shorter, first);
        } else {
            assert(!is_flagged(shreds[shreds.len() - 1]));
            the_first_flag_tells_the_size(shorter, shorter.len() as int);
        }
    }
}

/// Where the latest coding shred of a FEC set announces no data shreds, the first data shred behind it
/// that is flagged tells the size; without one the size is not known.
pub proof fn a_flag_tells_what_is_not_announced(shreds: Seq<ShredView>, latest: int, first: int)
    requires
        0 <= latest < first <= shreds.len(),
        shreds[latest] is Code,
        shreds[latest]->coding_header.num_data_shreds == 0,
        forall|i: int| latest < i < shreds.len() ==> (#[trigger] shreds[i]) is Data,
        forall|i: int| latest < i < first ==> !is_flagged(#[trigger] shreds[i]),
        first < shreds.len() ==> is_flagged(shreds[first]) && (shreds[first].index()
            - shreds[first].fec_set_index() + 1) % 0x1_0000 != 0,
    ensures
        fec_set_info(shreds).expected_coding == shreds[latest]->coding_header.num_coding_shreds,
        fec_set_info(shreds).expected_data == if first < shreds.len() {
            (shreds[first]->Data_common_header.index
                - shreds[first]->Data_common_header.fec_set_index + 1) % 0x1_0000
        } else {
            0
        },
    decreases shreds.len(),
{
    if latest < shreds.len() - 1 {
        let shorter = shreds.drop_last();
        assert forall|i: int| latest < i < shorter.len() implies (#[trigger] shorter[i]) is Data && (
        i < first ==> !is_flagged(shorter[i])) by {
            assert(shorter[i] == shreds[i]);
        }
        assert(shorter[latest] == shreds[latest]);
        assert(shreds[shreds.len() - 1] is Data);
        if first < shreds.len() {
            if first < shorter.len() {
                assert(shorter[first] == shreds[first]);
            }
            a_flag_tells_what_is_not_announced(shorter, latest, first);
        } else {
            assert(!is_flagged(shreds[shreds.len() - 1]));
            a_flag_tells_what_is_not_announced(shorter, latest, shorter.len() as int);
        }
    }
}

/// A shred joins a FEC set, behind those that arrived before it, exactly where none of them is the
/// same; these stay as they are.
pub proof fn shreds_join_once(shreds: Seq<ShredView>, shred: ShredView)
    ensures
        forall|i: int|
            0 <= i < shreds.len() ==> #[trigger] with_shred(shreds, shred)[i] == shreds[i],
        (exists|k: int| 0 <= k < shreds.len() && same_shred(shred, #[trigger] shreds[k]))
            ==> with_shred(shreds, shred) == shreds,
        (forall|k: int| 0 <= k < shreds.len() ==> !same_shred(shred, #[trigger] shreds[k]))
            ==> with_shred(shreds, shred) == shreds + seq![shred],
{
    assert(shreds + seq![shred] =~= shreds.push(shred));
}

/// A data shred that is offered to a tracker is taken, and its index the answer, exactly where its FEC
/// set is not recovered and no shred of its index is held. It is then held, and known to end a run of
/// entries exactly where one of its two flags is set.
pub proof fn offered_data_shreds_are_known_by_their_flags(
    data: ShredData,
    state_tracker: &mut SlotStateTracker,
    index: Option<usize>,
)
    requires
        call_ensures(update_state_tracker, (&Shred::ShredData(data), state_tracker), index),
        old(state_tracker)@.well_formed(),
        data.common_header.index < MAX_DATA_SHREDS_PER_SLOT,
        data.common_header.fec_set_index < MAX_DATA_SHREDS_PER_SLOT,
    ensures
        ({
            let before = old(state_tracker)@;
            let after = final(state_tracker)@;
            let i = data.common_header.index as int;
            let taken = !before.recovered[data.common_header.fec_set_index as int]
                && before.shreds[i] is None;
            &&& index == if taken {
                Some(data.common_header.index as usize)
            } else {
                None
            }
            &&& taken ==> after.shreds[i] == Some(Shred::ShredData(data)@)
            &&& taken && (data.data_complete || data.last_in_slot) ==> after.status[i]
                == ShredStatus::DataComplete
            &&& taken && !data.data_complete && !data.last_in_slot ==> after.status[i]
                == ShredStatus::NotDataComplete
            &&& !taken ==> after == before
        }),
{
    data_shreds_are_kept_with_their_flags(
        old(state_tracker)@,
        Shred::ShredData(data)@,
        data.common_header.index as int,
    );
}

/// A new tracker knows nothing of any index of its slot.
pub proof fn new_trackers_know_nothing(i: int)
    requires
        0 <= i < 32_768,
    ensures
        TrackerView::empty().well_formed(),
        TrackerView::empty().status[i] == ShredStatus::Unknown,
        TrackerView::empty().shreds[i] is None,
        !TrackerView::empty().recovered[i],
        !TrackerView::empty().deshredded[i],
        MAX_DATA_SHREDS_PER_SLOT == 32_768,
{
}

} // verus!
