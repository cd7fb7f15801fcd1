//! Consensus messages and digests.
use vstd::prelude::*;

use crate::ordering::{NodeId, SeqNo};

verus! {

/// A 256-bit digest, as four big-endian 64-bit words.
#[derive(Clone, Copy, Debug, PartialEq, Eq, Structural, Hash)]
pub struct Digest {
    pub w0: u64,
    pub w1: u64,
    pub w2: u64,
    pub w3: u64,
}

/// The three consensus message kinds; a PRE-PREPARE carries the digest of
/// its batch and the identifiers of the client requests in it.
pub enum ConsensusKind {
    PrePrepare(Digest, Vec<u64>),
    Prepare(Digest),
    Commit(Digest),
}

/// A consensus message with the sender taken from its header.
pub struct ConsensusMessage {
    pub seq: SeqNo,
    pub view: SeqNo,
    pub from: NodeId,
    pub kind: ConsensusKind,
}

pub enum KindModel {
    PrePrepare(Digest, Seq<u64>),
    Prepare(Digest),
    Commit(Digest),
}

pub struct MsgModel {
    pub seq: u32,
    pub view: u32,
    pub from: NodeId,
    pub kind: KindModel,
}

impl View for ConsensusMessage {
    type V = MsgModel;

    open spec fn view(&self) -> MsgModel {
        MsgModel {
            seq: self.seq.value,
            view: self.view.value,
            from: self.from,
            kind: match self.kind {
                ConsensusKind::PrePrepare(d, b) => KindModel::PrePrepare(d, b@),
                ConsensusKind::Prepare(d) => KindModel::Prepare(d),
                ConsensusKind::Commit(d) => KindModel::Commit(d),
            },
        }
    }
}

/// The views of a list of messages.
pub open spec fn msgs_view(v: Seq<ConsensusMessage>) -> Seq<MsgModel> {
    Seq::new(v.len(), |i: int| v[i]@)
}

impl ConsensusMessage {
    /// The digest a PRE-PREPARE, PREPARE or COMMIT refers to.
    pub fn digest(&self) -> (r: Digest)
        ensures
            r == kind_digest(self@.kind),
    {
        match &self.kind {
            ConsensusKind::PrePrepare(d, _) => *d,
            ConsensusKind::Prepare(d) => *d,
            ConsensusKind::Commit(d) => *d,
        }
    }

    /// Whether this message names `d` as the proposed digest.
    pub fn has_proposed_digest(&self, d: Digest) -> (r: bool)
        ensures
            r == (kind_digest(self@.kind) == d),
    {
        self.digest() == d
    }
}

pub open spec fn kind_digest(k: KindModel) -> Digest {
    match k {
        KindModel::PrePrepare(d, _) => d,
        KindModel::Prepare(d) => d,
        KindModel::Commit(d) => d,
    }
}

/// A copy of a list of request identifiers.
pub fn copy_requests(v: &Vec<u64>) -> (r: Vec<u64>)
    ensures
        r@ == v@,
{
    let mut r: Vec<u64> = Vec::new();
    let mut i: usize = 0;
    while i < v.len()
        invariant
            i <= v@.len(),
            r@ == v@.subrange(0, i as int),
        decreases v.len() - i,
    {
        r.push(v[i]);
        i += 1;
    }
    assert(r@ =~= v@);
    r
}

} // verus!
