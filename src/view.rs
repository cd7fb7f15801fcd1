//! The installed view: its sequence number, its members and the derived
//! fault threshold, quorum size and leader.
use vstd::prelude::*;

use crate::ordering::{NodeId, SeqNo, SEQ_MAX};

verus! {

/// A view of the replica group. Never mutated once built.
pub struct ViewInfo {
    pub seq: SeqNo,
    pub members: Vec<NodeId>,
    pub f: usize,
}

/// Mathematical model of a view.
pub struct ViewModel {
    pub seq: u32,
    pub members: Seq<NodeId>,
    pub f: nat,
}

/// Faults tolerated by `n` replicas.
pub open spec fn faults_of(n: nat) -> nat {
    if n == 0 { 0 } else { ((n - 1) / 3) as nat }
}

/// Size of a quorum among `n` replicas tolerating `f` faults.
pub open spec fn quorum_of(n: nat, f: nat) -> nat {
    (n + f) / 2 + 1
}

impl ViewModel {
    pub open spec fn n(self) -> nat {
        self.members.len()
    }

    pub open spec fn quorum(self) -> nat {
        quorum_of(self.n(), self.f)
    }

    pub open spec fn leader(self) -> NodeId
        recommends
            self.n() > 0,
    {
        self.members[(self.seq as int) % (self.n() as int)]
    }

    pub open spec fn is_member(self, id: NodeId) -> bool {
        self.members.contains(id)
    }

    /// Members are distinct, at least one, and at least `3f + 1`.
    pub open spec fn wf(self) -> bool {
        &&& self.n() >= 1
        &&& self.n() >= 3 * self.f + 1
        &&& self.members.no_duplicates()
    }
}

impl View for ViewInfo {
    type V = ViewModel;

    open spec fn view(&self) -> ViewModel {
        ViewModel { seq: self.seq.value, members: self.members@, f: self.f as nat }
    }
}

/// Whether `ids` holds `id`.
pub fn contains_node(ids: &Vec<NodeId>, id: NodeId) -> (r: bool)
    ensures
        r == ids@.contains(id),
{
    let mut i: usize = 0;
    while i < ids.len()
        invariant
            i <= ids@.len(),
            forall|j: int| 0 <= j < i ==> ids@[j] != id,
        decreases ids.len() - i,
    {
        if ids[i] == id {
            return true;
        }
        i += 1;
    }
    false
}

/// A copy of `ids`.
pub fn copy_nodes(ids: &Vec<NodeId>) -> (r: Vec<NodeId>)
    ensures
        r@ == ids@,
{
    let mut r: Vec<NodeId> = Vec::new();
    let mut i: usize = 0;
    while i < ids.len()
        invariant
            i <= ids@.len(),
            r@ == ids@.subrange(0, i as int),
        decreases ids.len() - i,
    {
        r.push(ids[i]);
        i += 1;
    }
    assert(r@ =~= ids@);
    r
}

impl ViewInfo {
    pub open spec fn wf(&self) -> bool {
        self@.wf()
    }

    /// A view with the given members, tolerating as many faults as they allow.
    /// Fails on an empty or repeating member list.
    pub fn new(seq: SeqNo, members: Vec<NodeId>) -> (r: Option<ViewInfo>)
        ensures
            r.is_some() == (members@.len() >= 1 && members@.no_duplicates()),
            r matches Some(v) ==> v@ == (ViewModel {
                seq: seq.value,
                members: members@,
                f: faults_of(members@.len()),
            }) && v.wf(),
    {
        if members.len() == 0 {
            return None;
        }
        let mut i: usize = 0;
        while i < members.len()
            invariant
                i <= members@.len(),
                forall|a: int, b: int| 0 <= a < b < i ==> members@[a] != members@[b],
            decreases members.len() - i,
        {
            let mut j: usize = 0;
            while j < i
                invariant
                    j <= i < members@.len(),
                    forall|a: int| 0 <= a < j ==> members@[a] != members@[i as int],
                decreases i - j,
            {
                if members[j] == members[i] {
                    assert(!members@.no_duplicates());
                    return None;
                }
                j += 1;
            }
            i += 1;
        }
        let f = (members.len() - 1) / 3;
        Some(ViewInfo { seq, members, f })
    }

    pub fn sequence_number(&self) -> (r: SeqNo)
        ensures
            r == self.seq,
    {
        self.seq
    }

    pub fn n(&self) -> (r: usize)
        ensures
            r == self@.n(),
    {
        self.members.len()
    }

    pub fn f(&self) -> (r: usize)
        ensures
            r == self@.f,
    {
        self.f
    }

    pub fn quorum(&self) -> (r: usize)
        requires
            self.wf(),
        ensures
            r == self@.quorum(),
    {
        self.f + (self.members.len() - self.f) / 2 + 1
    }

    pub fn leader(&self) -> (r: NodeId)
        requires
            self.wf(),
        ensures
            r == self@.leader(),
    {
        self.members[(self.seq.value as usize) % self.members.len()]
    }

    pub fn is_member(&self, id: NodeId) -> (r: bool)
        ensures
            r == self@.is_member(id),
    {
        contains_node(&self.members, id)
    }

    pub fn members(&self) -> (r: &Vec<NodeId>)
        ensures
            r@ == self@.members,
    {
        &self.members
    }

    pub fn duplicate(&self) -> (r: ViewInfo)
        ensures
            r@ == self@,
    {
        ViewInfo { seq: self.seq, members: copy_nodes(&self.members), f: self.f }
    }

    /// The view that follows this one, with the same members.
    pub fn next_view(&self) -> (r: ViewInfo)
        requires
            self.wf(),
            self.seq.value < SEQ_MAX,
        ensures
            r@ == (ViewModel { seq: (self.seq.value + 1) as u32, ..self@ }),
            r.wf(),
    {
        ViewInfo { seq: self.seq.next(), members: copy_nodes(&self.members), f: self.f }
    }

    /// The view that follows this one, with `id` joining its members; the
    /// fault threshold is recomputed for the larger group. `None` when `id`
    /// is already a member.
    pub fn next_view_with_new_node(&self, id: NodeId) -> (r: Option<ViewInfo>)
        requires
            self.wf(),
            self.seq.value < SEQ_MAX,
            self.members@.len() < usize::MAX,
        ensures
            r.is_some() == !self@.is_member(id),
            r matches Some(v) ==> v@ == (ViewModel {
                seq: (self.seq.value + 1) as u32,
                members: self@.members.push(id),
                f: faults_of(self@.n() + 1),
            }) && v.wf(),
    {
        if self.is_member(id) {
            return None;
        }
        let mut members = copy_nodes(&self.members);
        members.push(id);
        let f = (members.len() - 1) / 3;
        let r = ViewInfo { seq: self.seq.next(), members, f };
        proof {
            assert forall|a: int, b: int|
                0 <= a < r.members@.len() && 0 <= b < r.members@.len() && a != b implies
                r.members@[a] != r.members@[b] by {
                if a == self.members@.len() as int {
                    assert(self.members@[b] == r.members@[b]);
                } else if b == self.members@.len() as int {
                    assert(self.members@[a] == r.members@[a]);
                }
            }
        }
        Some(r)
    }
}

/// A view change moves the sequence forward and keeps `n >= 3f + 1`,
/// whether or not a node joins.
pub proof fn lemma_view_change_advances(old: ViewModel, id: NodeId)
    requires
        old.wf(),
        old.seq < SEQ_MAX,
        !old.is_member(id),
    ensures
        ({
            let plain = ViewModel { seq: (old.seq + 1) as u32, ..old };
            let joined = ViewModel {
                seq: (old.seq + 1) as u32,
                members: old.members.push(id),
                f: faults_of(old.n() + 1),
            };
            &&& plain.seq > old.seq && plain.wf()
            &&& joined.seq > old.seq && joined.n() >= 3 * joined.f + 1
            &&& joined.quorum() >= old.quorum()
        }),
{
}

/// With `n >= 3f + 1`, the replicas left when `f` of them fail still form
/// a quorum, and any two quorums share more than `f` replicas.
pub proof fn lemma_quorum_sizes(w: ViewModel)
    requires
        w.wf(),
    ensures
        w.n() - w.f >= w.quorum(),
        2 * w.quorum() >= w.n() + w.f + 1,
        w.quorum() <= w.n(),
{
    let n = w.n() as int;
    let f = w.f as int;
    let h = (n + f) / 2;
    assert(2 * h <= n + f && n + f <= 2 * h + 1);
}

} // verus!
