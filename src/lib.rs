//! Byzantine fault tolerant state machine replication in the PBFT family:
//! the pipelined three-phase consensus, the view change, and collaborative
//! state transfer, with the data they work on.
use vstd::prelude::*;

pub mod ordering;
pub mod view;
pub mod message;
pub mod decision;
pub mod consensus;
pub mod sync;
pub mod synchronizer;
pub mod cst;
pub mod header;
pub mod codec;
pub mod persistentdb;
pub mod benchmarks;
pub mod follower;

verus! {

} // verus!
