//! The update envelope a peer sends, its generalised form with optional
//! fields, the chain configuration and the light client's trusted store.
use vstd::prelude::*;
use crate::containers::Bytes32;
use crate::records::{copy_all, Header, SyncAggregate, SyncCommittee};

verus! {

/// The chain a light client follows.
#[derive(Clone, Debug, PartialEq, Eq)]
pub struct ChainConfig {
    pub chain_id: u64,
    /// Unix seconds.
    pub genesis_time: u64,
    pub genesis_root: Vec<u8>,
}

/// One step of the sync protocol: a committee change with its finality proof.
#[derive(Debug)]
pub struct Update {
    pub attested_header: Header,
    pub next_sync_committee: SyncCommittee,
    pub next_sync_committee_branch: Vec<Bytes32>,
    pub finalized_header: Header,
    pub finality_branch: Vec<Bytes32>,
    pub sync_aggregate: SyncAggregate,
    pub signature_slot: crate::containers::U64,
}

/// An update whose committee and finality fields may be absent, so that full,
/// finality and optimistic updates share one form.
#[derive(Debug)]
pub struct GenericUpdate {
    pub attested_header: Header,
    pub sync_aggregate: SyncAggregate,
    pub signature_slot: u64,
    pub next_sync_committee: Option<SyncCommittee>,
    pub next_sync_committee_branch: Option<Vec<Bytes32>>,
    pub finalized_header: Option<Header>,
    pub finality_branch: Option<Vec<Bytes32>>,
}

/// `c` holds the same keys, in the same order, and the same aggregate as `d`.
pub open spec fn same_committee(c: SyncCommittee, d: SyncCommittee) -> bool {
    c.keys() == d.keys() && c.aggregate() == d.aggregate()
}

impl GenericUpdate {
    /// The generalised form of `update`, with every optional field present and
    /// equal to the field of `update`.
    pub fn from(update: &Update) -> (r: GenericUpdate)
        ensures
            r.attested_header == update.attested_header,
            r.sync_aggregate == update.sync_aggregate,
            r.signature_slot == update.signature_slot@,
            r.next_sync_committee matches Some(c) && same_committee(c, update.next_sync_committee),
            r.next_sync_committee_branch matches Some(b) && b@ == update.next_sync_committee_branch@,
            r.finalized_header == Some(update.finalized_header),
            r.finality_branch matches Some(b) && b@ == update.finality_branch@,
    {
        GenericUpdate {
            attested_header: update.attested_header,
            sync_aggregate: update.sync_aggregate,
            signature_slot: update.signature_slot.as_u64(),
            next_sync_committee: Some(update.next_sync_committee.duplicate()),
            next_sync_committee_branch: Some(copy_all(&update.next_sync_committee_branch)),
            finalized_header: Some(update.finalized_header),
            finality_branch: Some(copy_all(&update.finality_branch)),
        }
    }
}

/// The trusted state that the sync protocol keeps between updates.
#[derive(Debug)]
pub struct LightClientStore {
    pub finalized_header: Header,
    pub current_sync_committee: SyncCommittee,
    pub next_sync_committee: Option<SyncCommittee>,
    pub optimistic_header: Header,
    pub previous_max_active_participants: u64,
    pub current_max_active_participants: u64,
}

impl LightClientStore {
    /// The all-zero store: zero headers, the all-zero committee, no next
    /// committee and no participants.
    pub fn zero() -> (r: Self)
        ensures
            r.finalized_header == Header::zero_spec(),
            r.optimistic_header == Header::zero_spec(),
            r.current_sync_committee.keys().len() == 512,
            r.next_sync_committee is None,
            r.previous_max_active_participants == 0,
            r.current_max_active_participants == 0,
    {
        LightClientStore {
            finalized_header: Header::zero(),
            current_sync_committee: SyncCommittee::zero(),
            next_sync_committee: None,
            optimistic_header: Header::zero(),
            previous_max_active_participants: 0,
            current_max_active_participants: 0,
        }
    }
}

} // verus!
