//! Replicas outside the quorum: they follow its decisions without voting.
use vstd::prelude::*;

use crate::message::{ConsensusKind, ConsensusMessage};

verus! {

#[derive(Clone, Copy, Debug, PartialEq, Eq, Structural)]
pub enum FollowerPhase {
    /// Up to date, listening for newly decided batches.
    NormalPhase,
    /// Fetching the quorum's current state.
    RetrievingStatePhase,
    /// Taking part in a view change.
    SyncPhase,
}

/// Whether a peer's connection came up or went down.
pub enum ConnState<T> {
    Connected(T),
    Disconnected(T),
}

/// The view change side of a follower.
pub struct FollowerSynchronizer {
    pub watched: usize,
}

impl FollowerSynchronizer {
    pub fn new() -> (r: FollowerSynchronizer)
        ensures
            r.watched == 0,
    {
        FollowerSynchronizer { watched: 0 }
    }

    /// The requests of a PRE-PREPARE seen from the leader, in batch order.
    /// They were proposed already, so none of them is timed.
    pub fn watch_request_batch(&self, pre_prepare: &ConsensusMessage) -> (r: Vec<u64>)
        requires
            pre_prepare@.kind is PrePrepare,
        ensures
            r@ == pre_prepare@.kind->PrePrepare_1,
    {
        match &pre_prepare.kind {
            ConsensusKind::PrePrepare(_, batch) => crate::message::copy_requests(batch),
            _ => Vec::new(),
        }
    }
}

} // verus!
