//! The record the registry keeps for one peer.

use vstd::prelude::*;

verus! {

/// What the registry knows about one peer.
///
/// `last_state_change` is the time, in seconds on the monitor's clock, of the
/// latest transition: a successful contact or the marking as stale. It is not
/// the time of insertion.
#[derive(Debug, PartialEq, Eq)]
pub struct PeerRecord {
    pub onion_address: String,
    pub last_state_change: u64,
    pub stale: bool,
}

/// The mathematical value of a [`PeerRecord`].
pub struct PeerRecordView {
    pub onion_address: Seq<char>,
    pub last_state_change: u64,
    pub stale: bool,
}

impl View for PeerRecord {
    type V = PeerRecordView;

    open spec fn view(&self) -> PeerRecordView {
        PeerRecordView {
            onion_address: self.onion_address@,
            last_state_change: self.last_state_change,
            stale: self.stale,
        }
    }
}

impl DeepView for PeerRecord {
    type V = PeerRecordView;

    open spec fn deep_view(&self) -> PeerRecordView {
        self@
    }
}

impl Clone for PeerRecord {
    fn clone(&self) -> (copy: Self)
        ensures
            copy == *self,
    {
        PeerRecord {
            onion_address: self.onion_address.clone(),
            last_state_change: self.last_state_change,
            stale: self.stale,
        }
    }
}

impl PeerRecord {
    /// The record of a peer that answered at `now` and declared `address`.
    pub fn reachable(address: String, now: u64) -> (record: Self)
        ensures
            record@ == (PeerRecordView {
                onion_address: address@,
                last_state_change: now,
                stale: false,
            }),
    {
        PeerRecord { onion_address: address, last_state_change: now, stale: false }
    }

    /// This record, marked stale at `now`. The declared address is kept.
    pub fn marked_stale(&self, now: u64) -> (record: Self)
        ensures
            record@ == (PeerRecordView { last_state_change: now, stale: true, ..self@ }),
    {
        PeerRecord {
            onion_address: self.onion_address.clone(),
            last_state_change: now,
            stale: true,
        }
    }
}

} // verus!
