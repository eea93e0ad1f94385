//! The parts of a shred that reconstruction looks at, and the comparison of two shreds.
use crate::text::{bytes_match, prefixes_agree_byte_by_byte, same_bytes};
use std::ops::Deref;
use vstd::prelude::*;

verus! {

broadcast use vstd::array::group_array_axioms;

/// Number of data shreds, and of FEC set indexes, that a slot can hold.
pub const MAX_DATA_SHREDS_PER_SLOT: usize = 32_768;

/// Length of the payload of a coding shred in bytes.
pub const SIZE_OF_CODE_PAYLOAD: usize = 1_228;

/// Length of one entry of a Merkle proof in bytes.
pub const SIZE_OF_MERKLE_PROOF_ENTRY: usize = 20;

/// Length of a signature in bytes.
pub const SIZE_OF_SIGNATURE: usize = 64;

/// How a shred is laid out and authenticated.
#[derive(Clone, Copy, Debug, PartialEq, Eq, Structural)]
pub enum ShredVariant {
    LegacyCode,
    LegacyData,
    MerkleCode { proof_size: u8, chained: bool, resigned: bool },
    MerkleData { proof_size: u8, chained: bool, resigned: bool },
}

/// The header that data and coding shreds share.
#[derive(Clone, Copy, Debug)]
pub struct CommonHeader {
    pub signature: [u8; 64],
    pub shred_variant: ShredVariant,
    pub slot: u64,
    pub index: u32,
    pub version: u16,
    pub fec_set_index: u32,
}

/// The header of a coding shred.
#[derive(Clone, Copy, Debug, PartialEq, Eq, Structural)]
pub struct CodingHeader {
    pub num_data_shreds: u16,
    pub num_coding_shreds: u16,
    pub position: u16,
}

/// The header of a data shred.
#[derive(Clone, Copy, Debug, PartialEq, Eq, Structural)]
pub struct DataHeader {
    pub parent_offset: u16,
    pub flags: u8,
    pub size: u16,
}

/// A coding shred.
#[derive(Debug)]
pub struct ShredCode {
    pub common_header: CommonHeader,
    pub coding_header: CodingHeader,
    pub payload: Vec<u8>,
}

/// A data shred.
#[derive(Debug)]
pub struct ShredData {
    pub common_header: CommonHeader,
    pub data_header: DataHeader,
    /// Whether the flags mark the end of a run of entries.
    pub data_complete: bool,
    /// Whether the flags mark the end of the slot.
    pub last_in_slot: bool,
    /// The bytes of the payload that carry ledger data, unless its layout is broken.
    pub data: Option<Vec<u8>>,
    pub payload: Vec<u8>,
}

/// A shred of either type.
#[derive(Debug)]
pub enum Shred {
    ShredCode(ShredCode),
    ShredData(ShredData),
}

/// What a shred holds.
pub ghost enum ShredView {
    Code { common_header: CommonHeader, coding_header: CodingHeader, payload: Seq<u8> },
    Data {
        common_header: CommonHeader,
        data_header: DataHeader,
        data_complete: bool,
        last_in_slot: bool,
        data: Option<Seq<u8>>,
        payload: Seq<u8>,
    },
}

impl ShredView {
    pub open spec fn common_header(self) -> CommonHeader {
        match self {
            ShredView::Code { common_header, .. } => common_header,
            ShredView::Data { common_header, .. } => common_header,
        }
    }

    pub open spec fn payload(self) -> Seq<u8> {
        match self {
            ShredView::Code { payload, .. } => payload,
            ShredView::Data { payload, .. } => payload,
        }
    }

    pub open spec fn slot(self) -> u64 {
        self.common_header().slot
    }

    pub open spec fn index(self) -> int {
        self.common_header().index as int
    }

    pub open spec fn fec_set_index(self) -> u32 {
        self.common_header().fec_set_index
    }

    /// Whether the shred ends a run of entries.
    pub open spec fn ends_entries(self) -> bool {
        match self {
            ShredView::Code { .. } => false,
            ShredView::Data { data_complete, last_in_slot, .. } => data_complete || last_in_slot,
        }
    }

    /// The indexes lie within a slot.
    pub open spec fn well_formed(self) -> bool {
        &&& self.index() < MAX_DATA_SHREDS_PER_SLOT
        &&& self.fec_set_index() < MAX_DATA_SHREDS_PER_SLOT
    }

    /// The pair of numbers by which the shreds of a FEC set are ordered: data shreds come before
    /// coding shreds, and those of one type by index.
    pub open spec fn sort_key(self) -> (u8, u32) {
        (
            if self is Data {
                0
            } else {
                1
            },
            self.common_header().index,
        )
    }
}

impl View for Shred {
    type V = ShredView;

    open spec fn view(&self) -> ShredView {
        match *self {
            Shred::ShredCode(s) => ShredView::Code {
                common_header: s.common_header,
                coding_header: s.coding_header,
                payload: s.payload@,
            },
            Shred::ShredData(s) => ShredView::Data {
                common_header: s.common_header,
                data_header: s.data_header,
                data_complete: s.data_complete,
                last_in_slot: s.last_in_slot,
                data: match s.data {
                    Some(data) => Some(data@),
                    None => None,
                },
                payload: s.payload@,
            },
        }
    }
}

impl CommonHeader {
    /// Whether two headers agree in every field.
    pub fn same(&self, other: &CommonHeader) -> (same: bool)
        ensures
            same == (*self == *other),
    {
        let same_signature = same_bytes(self.signature.as_slice(), other.signature.as_slice());
        assert(same_signature == (self.signature == other.signature)) by {
            if self.signature@ == other.signature@ {
                assert(self.signature =~= other.signature);
            }
        }
        same_signature && self.shred_variant == other.shred_variant && self.slot == other.slot
            && self.index == other.index
            && self.version == other.version && self.fec_set_index == other.fec_set_index
    }
}

fn copy_bytes(bytes: &Vec<u8>) -> (copy: Vec<u8>)
    ensures
        copy@ == bytes@,
{
    let copy = bytes.clone();
    assert(copy@ =~= bytes@);
    copy
}

impl Clone for Shred {
    fn clone(&self) -> (copy: Shred)
        ensures
            copy@ == self@,
    {
        match self {
            Shred::ShredCode(s) => Shred::ShredCode(
                ShredCode {
                    common_header: s.common_header,
                    coding_header: s.coding_header,
                    payload: copy_bytes(&s.payload),
                },
            ),
            Shred::ShredData(s) => Shred::ShredData(
                ShredData {
                    common_header: s.common_header,
                    data_header: s.data_header,
                    data_complete: s.data_complete,
                    last_in_slot: s.last_in_slot,
                    data: match &s.data {
                        Some(data) => Some(copy_bytes(data)),
                        None => None,
                    },
                    payload: copy_bytes(&s.payload),
                },
            ),
        }
    }
}

impl Shred {
    /// The header that data and coding shreds share.
    pub fn common_header(&self) -> (header: &CommonHeader)
        ensures
            *header == self@.common_header(),
    {
        match self {
            Shred::ShredCode(s) => &s.common_header,
            Shred::ShredData(s) => &s.common_header,
        }
    }

    /// The shred as it was received.
    pub fn payload(&self) -> (payload: &Vec<u8>)
        ensures
            payload@ == self@.payload(),
    {
        match self {
            Shred::ShredCode(s) => &s.payload,
            Shred::ShredData(s) => &s.payload,
        }
    }
}

/// A shred under the comparison that ignores the parts of the payload which differ between two
/// transmissions of it: the Merkle proof and the retransmitter's signature.
#[derive(Debug)]
pub struct ComparableShred(pub Shred);

/// Number of leading payload bytes in which two coding shreds of this variant must agree.
pub open spec fn comparison_len(proof_size: u8, resigned: bool) -> nat {
    let ignored = proof_size * SIZE_OF_MERKLE_PROOF_ENTRY + if resigned {
        SIZE_OF_SIGNATURE as int
    } else {
        0
    };
    if ignored <= SIZE_OF_CODE_PAYLOAD {
        (SIZE_OF_CODE_PAYLOAD - ignored) as nat
    } else {
        0
    }
}

/// Whether two shreds count as the same one.
///
/// Coding shreds with a Merkle proof agree in their headers and in the payload up to the proof;
/// data shreds agree in their headers and in the ledger data. Nothing else is the same, not even
/// as itself: a coding shred without a Merkle proof, or a data shred with a broken layout.
pub open spec fn same_shred(left: ShredView, right: ShredView) -> bool {
    match (left, right) {
        (
            ShredView::Code { common_header: h1, coding_header: c1, payload: p1 },
            ShredView::Code { common_header: h2, coding_header: c2, payload: p2 },
        ) => match h1.shred_variant {
            ShredVariant::MerkleCode { proof_size, resigned, .. } => {
                &&& c1 == c2
                &&& h1 == h2
                &&& crate::text::same_prefix(p1, p2, comparison_len(proof_size, resigned))
            },
            _ => false,
        },
        (
            ShredView::Data { common_header: h1, data_header: d1, data: Some(b1), .. },
            ShredView::Data { common_header: h2, data_header: d2, data: Some(b2), .. },
        ) => d1 == d2 && h1 == h2 && b1 == b2,
        _ => false,
    }
}

impl View for ComparableShred {
    type V = ShredView;

    open spec fn view(&self) -> ShredView {
        self.0@
    }
}

impl Deref for ComparableShred {
    type Target = Shred;

    fn deref(&self) -> (shred: &Shred)
        ensures
            *shred == self.0,
    {
        &self.0
    }
}

impl Clone for ComparableShred {
    fn clone(&self) -> (copy: ComparableShred)
        ensures
            copy@ == self@,
    {
        ComparableShred(self.0.clone())
    }
}

impl vstd::std_specs::cmp::PartialEqSpecImpl for ComparableShred {
    open spec fn obeys_eq_spec() -> bool {
        true
    }

    open spec fn eq_spec(&self, other: &ComparableShred) -> bool {
        same_shred(self@, other@)
    }
}

impl PartialEq for ComparableShred {
    fn eq(&self, other: &ComparableShred) -> (same: bool) {
        match &self.0 {
            Shred::ShredCode(s1) => match &other.0 {
                Shred::ShredCode(s2) => match s1.common_header.shred_variant {
                    ShredVariant::MerkleCode { proof_size, chained: _, resigned } => {
                        let signature_size: usize = if resigned {
                            SIZE_OF_SIGNATURE
                        } else {
                            0
                        };
                        let ignored: usize = (proof_size as usize) * SIZE_OF_MERKLE_PROOF_ENTRY
                            + signature_size;
                        let len: usize = SIZE_OF_CODE_PAYLOAD.saturating_sub(ignored);
                        s1.coding_header == s2.coding_header && s1.common_header.same(
                            &s2.common_header,
                        ) && bytes_match(s1.payload.as_slice(), s2.payload.as_slice(), len)
                    },
                    _ => false,
                },
                Shred::ShredData(_) => false,
            },
            Shred::ShredData(s1) => match &other.0 {
                Shred::ShredCode(_) => false,
                Shred::ShredData(s2) => match (&s1.data, &s2.data) {
                    (Some(d1), Some(d2)) => {
                        s1.data_header == s2.data_header && s1.common_header.same(
                            &s2.common_header,
                        ) && same_bytes(d1.as_slice(), d2.as_slice())
                    },
                    _ => false,
                },
            },
        }
    }
}

impl Eq for ComparableShred {

}

/// Being the same shred is symmetric and transitive.
pub proof fn same_shred_is_a_partial_equivalence(a: ShredView, b: ShredView, c: ShredView)
    ensures
        same_shred(a, b) ==> same_shred(b, a),
        same_shred(a, b) && same_shred(b, c) ==> same_shred(a, c),
{
}

/// A coding shred with a Merkle proof and a full payload, and a data shred with an intact layout,
/// are the same as themselves.
pub proof fn same_shred_is_reflexive(shred: ShredView)
    requires
        match shred {
            ShredView::Code { common_header, payload, .. } => common_header.shred_variant is MerkleCode
                && payload.len() == SIZE_OF_CODE_PAYLOAD,
            ShredView::Data { data, .. } => data is Some,
        },
    ensures
        same_shred(shred, shred),
{
}

/// Two shreds that count as the same agree in their headers, so they belong to one slot and one
/// FEC set, have one index there, and are of one type.
pub proof fn same_shred_agrees_in_headers(a: ShredView, b: ShredView)
    requires
        same_shred(a, b),
    ensures
        a.common_header() == b.common_header(),
        match (a, b) {
            (ShredView::Code { coding_header: c1, .. }, ShredView::Code { coding_header: c2, .. }) => c1
                == c2,
            (ShredView::Data { data_header: d1, .. }, ShredView::Data { data_header: d2, .. }) => d1
                == d2,
            _ => false,
        },
{
}

/// A shred lies where its header says, and a data shred ends a run of entries exactly where one of
/// its two flags says so: that the run is complete, or the slot.
pub proof fn headers_and_flags_tell_what_a_shred_is(shred: ShredView)
    ensures
        match shred {
            ShredView::Code { common_header, payload, .. } => {
                &&& shred.slot() == common_header.slot
                &&& shred.index() == common_header.index
                &&& shred.fec_set_index() == common_header.fec_set_index
                &&& shred.payload() == payload
                &&& !shred.ends_entries()
            },
            ShredView::Data { common_header, payload, data_complete, last_in_slot, .. } => {
                &&& shred.slot() == common_header.slot
                &&& shred.index() == common_header.index
                &&& shred.fec_set_index() == common_header.fec_set_index
                &&& shred.payload() == payload
                &&& shred.ends_entries() <==> data_complete || last_in_slot
            },
        },
{
}

/// Two coding shreds are the same exactly where they carry a Merkle proof and agree in both headers
/// and in every byte of the payload in front of the proof and of the retransmitter's signature,
/// where that follows it.
pub proof fn coding_shreds_are_compared_up_to_the_proof(left: ShredView, right: ShredView)
    requires
        left is Code,
        right is Code,
    ensures
        same_shred(left, right) <==> {
            &&& left->Code_common_header == right->Code_common_header
            &&& left->coding_header == right->coding_header
            &&& left->Code_common_header.shred_variant matches ShredVariant::MerkleCode {
                proof_size,
                resigned,
                ..
            } && {
                let compared = 1_228 - 20 * proof_size - if resigned {
                    64int
                } else {
                    0
                };
                &&& left->Code_payload.len() >= compared
                &&& right->Code_payload.len() >= compared
                &&& forall|i: int|
                    0 <= i < compared ==> #[trigger] left->Code_payload[i]
                        == right->Code_payload[i]
            }
        },
{
    if let ShredVariant::MerkleCode { proof_size, resigned, .. } =
        left->Code_common_header.shred_variant {
        prefixes_agree_byte_by_byte(
            left->Code_payload,
            right->Code_payload,
            comparison_len(proof_size, resigned),
        );
    }
}

/// Two data shreds are the same exactly where they agree in both headers and in the ledger data,
/// which both have; a data shred and a coding shred never are.
pub proof fn data_shreds_are_compared_by_their_data(left: ShredView, right: ShredView)
    requires
        left is Data,
    ensures
        right is Data ==> (same_shred(left, right) <==> {
            &&& left->Data_common_header == right->Data_common_header
            &&& left->data_header == right->data_header
            &&& left->data is Some
            &&& left->data == right->data
        }),
        right is Code ==> !same_shred(left, right) && !same_shred(right, left),
{
}

/// Reconstruction goes by what a shred holds: its headers, its flags, its ledger data and its payload
/// as they are.
pub proof fn shreds_are_seen_as_they_are(code: ShredCode, data: ShredData)
    ensures
        ({
            let seen = Shred::ShredCode(code)@;
            &&& seen is Code
            &&& seen->Code_common_header == code.common_header
            &&& seen->coding_header == code.coding_header
            &&& seen->Code_payload == code.payload@
        }),
        ({
            let seen = Shred::ShredData(data)@;
            &&& seen is Data
            &&& seen->Data_common_header == data.common_header
            &&& seen->data_header == data.data_header
            &&& seen->data_complete == data.data_complete
            &&& seen->last_in_slot == data.last_in_slot
            &&& seen->Data_payload == data.payload@
            &&& seen->data is Some <==> data.data is Some
            &&& data.data is Some ==> seen->data->0 == data.data->0@
        }),
        ComparableShred(Shred::ShredCode(code))@ == Shred::ShredCode(code)@,
        ComparableShred(Shred::ShredData(data))@ == Shred::ShredData(data)@,
{
}

} // verus!
