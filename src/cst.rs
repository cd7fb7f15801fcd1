//! Collaborative state transfer: a lagging replica learns the latest
//! decided sequence number from a quorum, then fetches a checkpoint that
//! more than `f` replicas agree on.
use vstd::prelude::*;

use crate::message::Digest;
use crate::ordering::{NodeId, SeqNo, next_value};
use crate::view::ViewInfo;

verus! {

/// A snapshot of the application state at a sequence number.
pub struct Checkpoint {
    pub seq: SeqNo,
    pub digest: Digest,
    pub state: Vec<u8>,
}

#[derive(Clone, Copy, Debug, PartialEq, Eq, Structural)]
pub enum CstPhase {
    Init,
    WaitingCheckpoint,
    ReceivingCid(usize),
    ReceivingState(usize),
}

/// Replies seen for one digest in the sequence number round: the highest
/// number reported with it and how many replies reported that number.
#[derive(Clone, Copy, Debug, PartialEq, Eq, Structural)]
pub struct CidEntry {
    pub digest: Digest,
    pub cid: SeqNo,
    pub count: usize,
}

/// Replies seen for one checkpoint digest in the state round.
pub struct StateEntry {
    pub checkpoint: Checkpoint,
    pub count: usize,
}

/// What handling a reply or a timeout asks for next.
pub enum CstStatus {
    Nil,
    Running,
    /// The latest decided sequence number agreed by a quorum.
    SeqNo(SeqNo),
    RequestStateCid,
    RequestState,
    /// The checkpoint to install.
    State(Checkpoint),
}

/// The local checkpoint, as it is being produced by the application.
pub enum CheckpointState {
    /// No checkpoint taken yet.
    Empty,
    /// Waiting for the application state at this number.
    Partial(SeqNo),
    /// As above, keeping the earlier complete checkpoint meanwhile.
    PartialWithEarlier(SeqNo, Checkpoint),
    Complete(Checkpoint),
}

/// A peer's request for our state, numbered by that peer.
#[derive(Clone, Copy, Debug, PartialEq, Eq, Structural)]
pub struct StateRequest {
    pub from: NodeId,
    pub cst_seq: SeqNo,
}

/// Our answer to a peer's state request.
pub struct StateReply {
    pub to: NodeId,
    pub cst_seq: SeqNo,
    pub checkpoint: Checkpoint,
}

/// Why a checkpoint could not be finalized.
#[derive(Clone, Copy, Debug, PartialEq, Eq, Structural)]
pub enum CheckpointError {
    NotStarted,
    AlreadyFinalized,
}

pub struct CollabStateTransfer {
    pub checkpoint_state: CheckpointState,
    /// State requests waiting for our checkpoint to complete.
    pub waiting: Vec<StateRequest>,
    pub phase: CstPhase,
    pub curr_seq: SeqNo,
    pub base_timeout: u64,
    pub curr_timeout: u64,
    pub cids: Vec<CidEntry>,
    pub states: Vec<StateEntry>,
}

pub open spec fn inc(x: usize) -> usize {
    if x < usize::MAX { (x + 1) as usize } else { x }
}

pub open spec fn doubled(t: u64) -> u64 {
    if t <= u64::MAX / 2 { (2 * t) as u64 } else { u64::MAX }
}

/// The first entry for digest `d`, if any.
pub open spec fn first_pos(es: Seq<CidEntry>, d: Digest) -> Option<int> {
    if exists|i: int| 0 <= i < es.len() && es[i].digest == d {
        Some(choose|i: int| 0 <= i < es.len() && es[i].digest == d && forall|j: int| 0 <= j < i ==> es[j].digest != d)
    } else {
        None
    }
}

/// The tally after a reply that reports number `cid` with digest `d`.
pub open spec fn tally_cid(es: Seq<CidEntry>, cid: u32, d: Digest) -> Seq<CidEntry> {
    match first_pos(es, d) {
        None => es.push(CidEntry { digest: d, cid: SeqNo { value: cid }, count: 1 }),
        Some(i) => if cid > es[i].cid.value {
            es.update(i, CidEntry { digest: d, cid: SeqNo { value: cid }, count: 1 })
        } else if cid == es[i].cid.value {
            es.update(i, CidEntry { count: inc(es[i].count), ..es[i] })
        } else {
            es
        },
    }
}

/// `k` is the first entry with the largest count.
pub open spec fn is_first_max(es: Seq<CidEntry>, k: int) -> bool {
    &&& 0 <= k < es.len()
    &&& forall|j: int| 0 <= j < es.len() ==> es[j].count <= es[k].count
    &&& forall|j: int| 0 <= j < k ==> es[j].count < es[k].count
}

/// The first entry with the largest count.
pub open spec fn first_max_index(es: Seq<CidEntry>) -> int {
    choose|k: int| is_first_max(es, k)
}

proof fn lemma_first_max_unique(es: Seq<CidEntry>, k: int)
    requires
        is_first_max(es, k),
    ensures
        first_max_index(es) == k,
{
    let c = first_max_index(es);
    assert(is_first_max(es, c));
    if c < k {
        assert(es[c].count < es[k].count);
        assert(es[k].count <= es[c].count);
    } else if c > k {
        assert(es[k].count < es[c].count);
        assert(es[c].count <= es[k].count);
    }
}


/// The first entry for checkpoint digest `d`, if any.
pub open spec fn state_pos(es: Seq<StateEntry>, d: Digest) -> Option<int> {
    if exists|i: int| 0 <= i < es.len() && es[i].checkpoint.digest == d {
        Some(choose|i: int| 0 <= i < es.len() && es[i].checkpoint.digest == d && forall|j: int| 0 <= j < i ==> es[j].checkpoint.digest != d)
    } else {
        None
    }
}

/// The tally after a reply carrying checkpoint `c`: a later checkpoint
/// with the same digest replaces the one held, and the count grows.
pub open spec fn tally_state(es: Seq<StateEntry>, c: Checkpoint) -> Seq<StateEntry> {
    match state_pos(es, c.digest) {
        None => es.push(StateEntry { checkpoint: c, count: 1 }),
        Some(i) => if c.seq.value > es[i].checkpoint.seq.value {
            es.update(i, StateEntry { checkpoint: c, count: inc(es[i].count) })
        } else {
            es.update(i, StateEntry { count: inc(es[i].count), ..es[i] })
        },
    }
}

pub open spec fn is_first_max_state(es: Seq<StateEntry>, k: int) -> bool {
    &&& 0 <= k < es.len()
    &&& forall|j: int| 0 <= j < es.len() ==> es[j].count <= es[k].count
    &&& forall|j: int| 0 <= j < k ==> es[j].count < es[k].count
}

pub open spec fn first_max_state(es: Seq<StateEntry>) -> int {
    choose|k: int| is_first_max_state(es, k)
}

proof fn lemma_first_max_state_unique(es: Seq<StateEntry>, k: int)
    requires
        is_first_max_state(es, k),
    ensures
        first_max_state(es) == k,
{
    let c = first_max_state(es);
    assert(is_first_max_state(es, c));
    if c < k {
        assert(es[c].count < es[k].count);
    } else if c > k {
        assert(es[k].count < es[c].count);
    }
}

proof fn lemma_state_pos(es: Seq<StateEntry>, d: Digest, i: int)
    requires
        0 <= i < es.len(),
        es[i].checkpoint.digest == d,
        forall|j: int| 0 <= j < i ==> es[j].checkpoint.digest != d,
    ensures
        state_pos(es, d) == Some(i),
{
    let k = choose|k: int| 0 <= k < es.len() && es[k].checkpoint.digest == d && forall|j: int| 0 <= j < k ==> es[j].checkpoint.digest != d;
    if k < i {
        assert(es[k].checkpoint.digest != d);
    } else if k > i {
        assert(es[i].checkpoint.digest != d);
    }
}

proof fn lemma_first_pos(es: Seq<CidEntry>, d: Digest, i: int)
    requires
        0 <= i < es.len(),
        es[i].digest == d,
        forall|j: int| 0 <= j < i ==> es[j].digest != d,
    ensures
        first_pos(es, d) == Some(i),
{
    let k = choose|k: int| 0 <= k < es.len() && es[k].digest == d && forall|j: int| 0 <= j < k ==> es[j].digest != d;
    if k < i {
        assert(es[k].digest != d);
    } else if k > i {
        assert(es[i].digest != d);
    }
}

fn first_max(es: &Vec<CidEntry>) -> (r: Option<usize>)
    ensures
        r is None <==> es@.len() == 0,
        r matches Some(k) ==> is_first_max(es@, k as int),
{
    if es.len() == 0 {
        return None;
    }
    let mut k: usize = 0;
    let mut i: usize = 1;
    while i < es.len()
        invariant
            1 <= i <= es@.len(),
            k < i,
            forall|j: int| 0 <= j < i ==> es@[j].count <= es@[k as int].count,
            forall|j: int| 0 <= j < k ==> es@[j].count < es@[k as int].count,
        decreases es.len() - i,
    {
        if es[i].count > es[k].count {
            k = i;
        }
        i += 1;
    }
    Some(k)
}

/// The checkpoint we can serve to peers, if any.
pub open spec fn servable(c: CheckpointState) -> Option<Checkpoint> {
    match c {
        CheckpointState::PartialWithEarlier(_, e) => Some(e),
        CheckpointState::Complete(e) => Some(e),
        _ => None,
    }
}

/// Number of the checkpoint we hold; zero while none is complete.
pub open spec fn checkpoint_seq(c: CheckpointState) -> u32 {
    match servable(c) {
        Some(e) => e.seq.value,
        None => 0,
    }
}

/// Whether `reqs[i]` is the latest request of its sender (the first of
/// several with the same number).
#[verifier::opaque]
pub open spec fn latest_of_sender(reqs: Seq<StateRequest>, i: int) -> bool {
    &&& forall|j: int| 0 <= j < reqs.len() && reqs[j].from == reqs[i].from ==> reqs[j].cst_seq.value <= reqs[i].cst_seq.value
    &&& forall|j: int| 0 <= j < i && reqs[j].from == reqs[i].from ==> reqs[j].cst_seq.value < reqs[i].cst_seq.value
}

/// A copy of a checkpoint.
pub fn copy_checkpoint(c: &Checkpoint) -> (r: Checkpoint)
    ensures
        r.seq == c.seq,
        r.digest == c.digest,
        r.state@ == c.state@,
{
    Checkpoint { seq: c.seq, digest: c.digest, state: crate::persistentdb::copy_bytes(&c.state) }
}

impl CheckpointState {
    pub fn sequence_number(&self) -> (r: SeqNo)
        ensures
            r.value == checkpoint_seq(*self),
    {
        match self {
            CheckpointState::PartialWithEarlier(_, e) => e.seq,
            CheckpointState::Complete(e) => e.seq,
            _ => SeqNo::zero(),
        }
    }
}

/// Whether `reqs[i]` is the latest request of its sender.
fn is_latest(reqs: &Vec<StateRequest>, i: usize) -> (r: bool)
    requires
        i < reqs@.len(),
    ensures
        r == latest_of_sender(reqs@, i as int),
{
    let me = reqs[i];
    let mut j: usize = 0;
    while j < reqs.len()
        invariant
            j <= reqs@.len(),
            i < reqs@.len(),
            me == reqs@[i as int],
            forall|x: int| 0 <= x < j && reqs@[x].from == me.from ==> reqs@[x].cst_seq.value <= me.cst_seq.value,
            forall|x: int| 0 <= x < j && x < i && reqs@[x].from == me.from ==> reqs@[x].cst_seq.value < me.cst_seq.value,
        decreases reqs.len() - j,
    {
        if reqs[j].from == me.from {
            if j < i && reqs[j].cst_seq.value >= me.cst_seq.value {
                proof { reveal(latest_of_sender); }
                return false;
            }
            if reqs[j].cst_seq.value > me.cst_seq.value {
                proof { reveal(latest_of_sender); }
                return false;
            }
        }
        j += 1;
    }
    proof { reveal(latest_of_sender); }
    true
}

/// The requests among the first `n` of `reqs` that are the latest of
/// their sender, in order.
pub open spec fn latest_prefix(reqs: Seq<StateRequest>, n: nat) -> Seq<StateRequest>
    decreases n,
{
    if n == 0 {
        Seq::empty()
    } else {
        let p = latest_prefix(reqs, (n - 1) as nat);
        if latest_of_sender(reqs, n - 1) { p.push(reqs[n - 1]) } else { p }
    }
}

/// Whether `out` answers `reqs`, one reply each, in order, carrying a
/// checkpoint numbered `seq`.
pub open spec fn answers(out: Seq<StateReply>, reqs: Seq<StateRequest>, seq: SeqNo) -> bool {
    &&& out.len() == reqs.len()
    &&& forall|k: int| #![trigger out[k]] 0 <= k < out.len() ==> out[k].to == reqs[k].from
        && out[k].cst_seq == reqs[k].cst_seq && out[k].checkpoint.seq == seq
}

/// Replies carrying `c` to the latest request of each sender in `reqs`.
fn replies_for(reqs: &Vec<StateRequest>, c: &Checkpoint) -> (out: Vec<StateReply>)
    ensures
        answers(out@, latest_prefix(reqs@, reqs@.len()), c.seq),
{
    let mut out: Vec<StateReply> = Vec::new();
    let mut i: usize = 0;
    while i < reqs.len()
        invariant
            i <= reqs@.len(),
            answers(out@, latest_prefix(reqs@, i as nat), c.seq),
        decreases reqs.len() - i,
    {
        let r = reqs[i];
        let ghost before = out@;
        if is_latest(reqs, i) {
            out.push(StateReply { to: r.from, cst_seq: r.cst_seq, checkpoint: copy_checkpoint(c) });
            proof {
                let p = latest_prefix(reqs@, i as nat);
                assert(latest_prefix(reqs@, (i + 1) as nat) == p.push(reqs@[i as int]));
                assert forall|k: int| #![trigger out@[k]] 0 <= k < out@.len() implies out@[k].to == p.push(reqs@[i as int])[k].from
                    && out@[k].cst_seq == p.push(reqs@[i as int])[k].cst_seq && out@[k].checkpoint.seq == c.seq by {
                    if k < before.len() {
                        assert(out@[k] == before[k]);
                    }
                }
            }
        }
        i += 1;
    }
    out
}

impl Checkpoint {
    pub fn sequence_number(&self) -> (r: SeqNo)
        ensures
            r == self.seq,
    {
        self.seq
    }
}

impl CollabStateTransfer {
    pub fn new(base_timeout: u64) -> (r: CollabStateTransfer)
        ensures
            r.phase == CstPhase::Init,
            r.curr_seq.value == 0,
            r.base_timeout == base_timeout,
            r.curr_timeout == base_timeout,
            r.cids@.len() == 0,
            r.states@.len() == 0,
            r.checkpoint_state is Empty,
            r.waiting@.len() == 0,
    {
        CollabStateTransfer {
            checkpoint_state: CheckpointState::Empty,
            waiting: Vec::new(),
            phase: CstPhase::Init,
            curr_seq: SeqNo::zero(),
            base_timeout,
            curr_timeout: base_timeout,
            cids: Vec::new(),
            states: Vec::new(),
        }
    }

    /// Starts the sequence number round: forgets earlier replies, moves to
    /// the next request number and returns it, to be sent to the others.
    pub fn request_latest_consensus_seq_no(&mut self) -> (r: SeqNo)
        ensures
            r.value == next_value(old(self).curr_seq.value),
            final(self).curr_seq == r,
            final(self).phase == CstPhase::ReceivingCid(0),
            final(self).cids@.len() == 0,
            final(self).states@ == old(self).states@,
            final(self).curr_timeout == old(self).curr_timeout,
            final(self).base_timeout == old(self).base_timeout,
    {
        self.cids = Vec::new();
        self.curr_seq = self.curr_seq.next();
        self.phase = CstPhase::ReceivingCid(0);
        self.curr_seq
    }

    /// Starts the state round, as above.
    pub fn request_latest_state(&mut self) -> (r: SeqNo)
        ensures
            r.value == next_value(old(self).curr_seq.value),
            final(self).curr_seq == r,
            final(self).phase == CstPhase::ReceivingState(0),
            final(self).states@.len() == 0,
            final(self).cids@ == old(self).cids@,
            final(self).curr_timeout == old(self).curr_timeout,
            final(self).base_timeout == old(self).base_timeout,
    {
        self.states = Vec::new();
        self.curr_seq = self.curr_seq.next();
        self.phase = CstPhase::ReceivingState(0);
        self.curr_seq
    }

    fn find_cid(&self, d: Digest) -> (r: Option<usize>)
        ensures
            r matches Some(i) ==> first_pos(self.cids@, d) == Some(i as int) && i < self.cids@.len(),
            r is None ==> first_pos(self.cids@, d) is None,
    {
        let mut i: usize = 0;
        while i < self.cids.len()
            invariant
                i <= self.cids@.len(),
                forall|j: int| 0 <= j < i ==> self.cids@[j].digest != d,
            decreases self.cids.len() - i,
        {
            if self.cids[i].digest == d {
                proof { lemma_first_pos(self.cids@, d, i as int); }
                return Some(i);
            }
            i += 1;
        }
        None
    }

    /// Handles a reply to our sequence number request numbered `cst_seq`;
    /// `reply` is the number and digest the peer reports, if any. Once a
    /// quorum has replied: the number of the most reported digest when a
    /// quorum reported it, zero when nobody holds any state, else the
    /// request is to be sent again.
    pub fn receive_cid_reply(&mut self, view: &ViewInfo, cst_seq: SeqNo, reply: Option<(SeqNo, Digest)>) -> (r: CstStatus)
        requires
            view.wf(),
        ensures
            !(old(self).phase is ReceivingCid) ==> r is Nil && *final(self) == *old(self),
            old(self).phase is ReceivingCid && cst_seq != old(self).curr_seq ==> r is Running
                && *final(self) == *old(self),
            old(self).phase is ReceivingCid && cst_seq == old(self).curr_seq ==> {
                let i = inc(old(self).phase->ReceivingCid_0);
                let es = match reply {
                    Some((s, d)) => tally_cid(old(self).cids@, s.value, d),
                    None => old(self).cids@,
                };
                &&& final(self).cids@ == es
                &&& final(self).curr_seq == old(self).curr_seq
                &&& final(self).states@ == old(self).states@
                &&& final(self).base_timeout == old(self).base_timeout
                &&& i < view@.quorum() ==> r is Running && final(self).phase == CstPhase::ReceivingCid(i)
                    && final(self).curr_timeout == old(self).curr_timeout
                &&& i >= view@.quorum() ==> {
                    &&& final(self).curr_timeout == old(self).base_timeout
                    &&& es.len() == 0 ==> r == CstStatus::SeqNo(SeqNo { value: 0 }) && final(self).phase == CstPhase::Init
                    &&& final(self).phase == CstPhase::Init
                    &&& es.len() > 0 && es[first_max_index(es)].count >= view@.quorum() ==> r
                        == CstStatus::SeqNo(es[first_max_index(es)].cid)
                    &&& es.len() > 0 && es[first_max_index(es)].count < view@.quorum() ==> r is RequestStateCid
                }
            },
    {
        let i = match self.phase {
            CstPhase::ReceivingCid(i) => i,
            _ => return CstStatus::Nil,
        };
        if cst_seq != self.curr_seq {
            return CstStatus::Running;
        }
        match reply {
            Some((s, d)) => {
                let ghost es = self.cids@;
                match self.find_cid(d) {
                    None => {
                        self.cids.push(CidEntry { digest: d, cid: s, count: 1 });
                        proof { assert(self.cids@ =~= tally_cid(es, s.value, d)); }
                    },
                    Some(k) => {
                        let e = self.cids[k];
                        if s.value > e.cid.value {
                            self.cids.set(k, CidEntry { digest: d, cid: s, count: 1 });
                        } else if s.value == e.cid.value {
                            let c = if e.count < usize::MAX { e.count + 1 } else { e.count };
                            self.cids.set(k, CidEntry { count: c, ..e });
                        }
                        proof { assert(self.cids@ =~= tally_cid(es, s.value, d)); }
                    },
                }
            },
            None => {},
        }
        let i = if i < usize::MAX { i + 1 } else { i };
        if i < view.quorum() {
            self.phase = CstPhase::ReceivingCid(i);
            return CstStatus::Running;
        }
        self.phase = CstPhase::Init;
        self.curr_timeout = self.base_timeout;
        match first_max(&self.cids) {
            None => CstStatus::SeqNo(SeqNo::zero()),
            Some(k) => {
                proof { lemma_first_max_unique(self.cids@, k as int); }
                if self.cids[k].count >= view.quorum() {
                    CstStatus::SeqNo(self.cids[k].cid)
                } else {
                    CstStatus::RequestStateCid
                }
            },
        }
    }

    fn find_state(&self, d: Digest) -> (r: Option<usize>)
        ensures
            r matches Some(i) ==> state_pos(self.states@, d) == Some(i as int) && i < self.states@.len(),
            r is None ==> state_pos(self.states@, d) is None,
    {
        let mut i: usize = 0;
        while i < self.states.len()
            invariant
                i <= self.states@.len(),
                forall|j: int| 0 <= j < i ==> self.states@[j].checkpoint.digest != d,
            decreases self.states.len() - i,
        {
            if self.states[i].checkpoint.digest == d {
                proof { lemma_state_pos(self.states@, d, i as int); }
                return Some(i);
            }
            i += 1;
        }
        None
    }

    fn max_state(&self) -> (r: Option<usize>)
        ensures
            r is None <==> self.states@.len() == 0,
            r matches Some(k) ==> is_first_max_state(self.states@, k as int),
    {
        if self.states.len() == 0 {
            return None;
        }
        let mut k: usize = 0;
        let mut i: usize = 1;
        while i < self.states.len()
            invariant
                1 <= i <= self.states@.len(),
                k < i,
                forall|j: int| 0 <= j < i ==> self.states@[j].count <= self.states@[k as int].count,
                forall|j: int| 0 <= j < k ==> self.states@[j].count < self.states@[k as int].count,
            decreases self.states.len() - i,
        {
            if self.states[i].count > self.states[k].count {
                k = i;
            }
            i += 1;
        }
        Some(k)
    }

    /// Handles a checkpoint sent in reply to our state request numbered
    /// `cst_seq`. Once more than `f` replies are in: the checkpoint of the
    /// most reported digest is to be installed when more than `f` replicas
    /// sent it, else the request is to be sent again. The tally is then
    /// emptied.
    pub fn receive_state_reply(&mut self, view: &ViewInfo, cst_seq: SeqNo, c: Checkpoint) -> (r: CstStatus)
        requires
            view.wf(),
        ensures
            !(old(self).phase is ReceivingState) ==> r is Nil && *final(self) == *old(self),
            old(self).phase is ReceivingState && cst_seq != old(self).curr_seq ==> r is Running
                && *final(self) == *old(self),
            old(self).phase is ReceivingState && cst_seq == old(self).curr_seq ==> {
                let i = inc(old(self).phase->ReceivingState_0);
                let es = tally_state(old(self).states@, c);
                let k = first_max_state(es);
                &&& final(self).curr_seq == old(self).curr_seq
                &&& final(self).cids@ == old(self).cids@
                &&& final(self).base_timeout == old(self).base_timeout
                &&& i <= view@.f ==> r is Running && final(self).phase == CstPhase::ReceivingState(i)
                    && final(self).states@ == es && final(self).curr_timeout == old(self).curr_timeout
                &&& i > view@.f ==> {
                    &&& final(self).states@.len() == 0
                    &&& final(self).curr_timeout == old(self).base_timeout
                    &&& es[k].count > view@.f ==> r == CstStatus::State(es[k].checkpoint)
                        && final(self).phase == CstPhase::Init
                    &&& es[k].count <= view@.f ==> r is RequestState
                        && final(self).phase == CstPhase::ReceivingState(i)
                }
            },
    {
        let i = match self.phase {
            CstPhase::ReceivingState(i) => i,
            _ => return CstStatus::Nil,
        };
        if cst_seq != self.curr_seq {
            return CstStatus::Running;
        }
        let ghost es0 = self.states@;
        let ghost cv = c;
        match self.find_state(c.digest) {
            None => {
                self.states.push(StateEntry { checkpoint: c, count: 1 });
            },
            Some(k) => {
                let mut e = StateEntry { checkpoint: Checkpoint { seq: SeqNo::zero(), digest: c.digest, state: Vec::new() }, count: 0 };
                self.states.set_and_swap(k, &mut e);
                let n = if e.count < usize::MAX { e.count + 1 } else { e.count };
                if c.seq.value > e.checkpoint.seq.value {
                    self.states.set(k, StateEntry { checkpoint: c, count: n });
                } else {
                    self.states.set(k, StateEntry { checkpoint: e.checkpoint, count: n });
                }
            },
        }
        proof { assert(self.states@ =~= tally_state(es0, cv)); }
        let i = if i < usize::MAX { i + 1 } else { i };
        if i <= view.f() {
            self.phase = CstPhase::ReceivingState(i);
            return CstStatus::Running;
        }
        self.curr_timeout = self.base_timeout;
        match self.max_state() {
            None => {
                self.phase = CstPhase::ReceivingState(i);
                CstStatus::RequestState
            },
            Some(k) => {
                proof { lemma_first_max_state_unique(self.states@, k as int); }
                let e = self.states.remove(k);
                self.states = Vec::new();
                if e.count > view.f() {
                    self.phase = CstPhase::Init;
                    CstStatus::State(e.checkpoint)
                } else {
                    self.phase = CstPhase::ReceivingState(i);
                    CstStatus::RequestState
                }
            },
        }
    }

    /// Whether requests are waiting for our checkpoint to complete.
    pub fn needs_checkpoint(&self) -> (r: bool)
        ensures
            r == (self.phase == CstPhase::WaitingCheckpoint),
    {
        self.phase == CstPhase::WaitingCheckpoint
    }

    /// The reply to a peer asking for our latest number: the number and
    /// digest of the checkpoint we hold, if any.
    pub fn process_request_seq(&self, from: NodeId, cst_seq: SeqNo) -> (r: (NodeId, SeqNo, Option<(SeqNo, Digest)>))
        ensures
            r.0 == from,
            r.1 == cst_seq,
            r.2 == (match servable(self.checkpoint_state) {
                Some(e) => Some((e.seq, e.digest)),
                None => None,
            }),
    {
        let reply = match &self.checkpoint_state {
            CheckpointState::PartialWithEarlier(_, e) => Some((e.seq, e.digest)),
            CheckpointState::Complete(e) => Some((e.seq, e.digest)),
            _ => None,
        };
        (from, cst_seq, reply)
    }

    /// A peer asks for our state: answered with our checkpoint when we have
    /// one and are not fetching state ourselves; kept until the checkpoint
    /// completes when we have none; dropped while we fetch state.
    pub fn process_request_state(&mut self, req: StateRequest) -> (r: Option<StateReply>)
        ensures
            final(self).checkpoint_state == old(self).checkpoint_state,
            final(self).curr_seq == old(self).curr_seq,
            (old(self).phase is ReceivingCid || old(self).phase is ReceivingState) ==> r is None
                && final(self).phase == old(self).phase && final(self).waiting@ == old(self).waiting@,
            old(self).phase == CstPhase::WaitingCheckpoint ==> r is None && final(self).phase
                == old(self).phase && final(self).waiting@ == old(self).waiting@.push(req),
            old(self).phase == CstPhase::Init && servable(old(self).checkpoint_state) is None ==> r is None
                && final(self).phase == CstPhase::WaitingCheckpoint && final(self).waiting@ == old(self).waiting@.push(req),
            old(self).phase == CstPhase::Init && servable(old(self).checkpoint_state) is Some ==> {
                let e = servable(old(self).checkpoint_state)->0;
                &&& r is Some
                &&& r->0.to == req.from && r->0.cst_seq == req.cst_seq
                &&& r->0.checkpoint.seq == e.seq && r->0.checkpoint.digest == e.digest
                &&& r->0.checkpoint.state@ == e.state@
                &&& final(self).phase == old(self).phase
                &&& final(self).waiting@ == old(self).waiting@
            },
    {
        match self.phase {
            CstPhase::Init => {},
            CstPhase::WaitingCheckpoint => {
                self.waiting.push(req);
                return None;
            },
            _ => return None,
        }
        let c = match &self.checkpoint_state {
            CheckpointState::PartialWithEarlier(_, e) => copy_checkpoint(e),
            CheckpointState::Complete(e) => copy_checkpoint(e),
            _ => {
                self.waiting.push(req);
                self.phase = CstPhase::WaitingCheckpoint;
                return None;
            },
        };
        Some(StateReply { to: req.from, cst_seq: req.cst_seq, checkpoint: c })
    }

    /// The application was asked for its state at `seq`: a checkpoint is
    /// begun, keeping a complete earlier one meanwhile. Returns false, with
    /// nothing changed, when one is already under way.
    pub fn handle_app_state_requested(&mut self, seq: SeqNo) -> (r: bool)
        ensures
            r == (old(self).checkpoint_state is Empty || old(self).checkpoint_state is Complete),
            old(self).checkpoint_state is Empty ==> final(self).checkpoint_state == CheckpointState::Partial(seq),
            old(self).checkpoint_state matches CheckpointState::Complete(e) ==> final(self).checkpoint_state
                == CheckpointState::PartialWithEarlier(seq, e),
            !r ==> final(self).checkpoint_state == old(self).checkpoint_state,
            final(self).phase == old(self).phase,
            final(self).waiting == old(self).waiting,
    {
        let mut earlier = CheckpointState::Empty;
        std::mem::swap(&mut earlier, &mut self.checkpoint_state);
        match earlier {
            CheckpointState::Empty => {
                self.checkpoint_state = CheckpointState::Partial(seq);
                true
            },
            CheckpointState::Complete(e) => {
                self.checkpoint_state = CheckpointState::PartialWithEarlier(seq, e);
                true
            },
            other => {
                self.checkpoint_state = other;
                false
            },
        }
    }

    /// The application state arrived: the checkpoint under way completes.
    /// Fails when none was begun, or when it completed already.
    pub fn finalize_checkpoint(&mut self, c: Checkpoint) -> (r: Result<(), CheckpointError>)
        ensures
            old(self).checkpoint_state is Empty ==> r == Err::<(), CheckpointError>(CheckpointError::NotStarted),
            old(self).checkpoint_state is Complete ==> r == Err::<(), CheckpointError>(CheckpointError::AlreadyFinalized),
            r is Err ==> final(self).checkpoint_state == old(self).checkpoint_state,
            (old(self).checkpoint_state is Partial || old(self).checkpoint_state is PartialWithEarlier)
                ==> r is Ok && final(self).checkpoint_state == CheckpointState::Complete(c),
            final(self).phase == old(self).phase,
            final(self).waiting == old(self).waiting,
    {
        match self.checkpoint_state {
            CheckpointState::Empty => Err(CheckpointError::NotStarted),
            CheckpointState::Complete(_) => Err(CheckpointError::AlreadyFinalized),
            _ => {
                self.checkpoint_state = CheckpointState::Complete(c);
                Ok(())
            },
        }
    }

    /// Answers the requests that waited for our checkpoint, only the latest
    /// of each sender, and returns to the initial phase. Nothing happens
    /// unless requests wait and a checkpoint can be served.
    pub fn process_pending_state_requests(&mut self) -> (r: Vec<StateReply>)
        ensures
            !(old(self).phase == CstPhase::WaitingCheckpoint && servable(old(self).checkpoint_state) is Some)
                ==> r@.len() == 0 && final(self).phase == old(self).phase && final(self).waiting@ == old(self).waiting@,
            old(self).phase == CstPhase::WaitingCheckpoint && servable(old(self).checkpoint_state) is Some ==> {
                &&& final(self).phase == CstPhase::Init
                &&& final(self).waiting@.len() == 0
                &&& answers(r@, latest_prefix(old(self).waiting@, old(self).waiting@.len()), servable(old(self).checkpoint_state)->0.seq)
            },
            final(self).checkpoint_state == old(self).checkpoint_state,
    {
        if self.phase != CstPhase::WaitingCheckpoint {
            return Vec::new();
        }
        let c = match &self.checkpoint_state {
            CheckpointState::PartialWithEarlier(_, e) => copy_checkpoint(e),
            CheckpointState::Complete(e) => copy_checkpoint(e),
            _ => return Vec::new(),
        };
        let out = replies_for(&self.waiting, &c);
        self.waiting = Vec::new();
        self.phase = CstPhase::Init;
        out
    }

    /// Handles a timeout of request `seq` and, when the round it belonged
    /// to is to be run again, starts it anew with the doubled timeout.
    /// Returns the number of the new request, to be sent to the others.
    pub fn cst_request_timed_out(&mut self, seq: SeqNo) -> (r: Option<SeqNo>)
        ensures
            seq != old(self).curr_seq ==> r is None && *final(self) == *old(self),
            seq == old(self).curr_seq && old(self).phase is ReceivingCid ==> {
                &&& r == Some(final(self).curr_seq)
                &&& final(self).curr_seq.value == next_value(next_value(old(self).curr_seq.value))
                &&& final(self).phase == CstPhase::ReceivingCid(0)
                &&& final(self).cids@.len() == 0
                &&& final(self).curr_timeout == doubled(old(self).curr_timeout)
            },
            seq == old(self).curr_seq && old(self).phase is ReceivingState ==> {
                &&& r == Some(final(self).curr_seq)
                &&& final(self).curr_seq.value == next_value(next_value(old(self).curr_seq.value))
                &&& final(self).phase == CstPhase::ReceivingState(0)
                &&& final(self).states@.len() == 0
                &&& final(self).curr_timeout == doubled(old(self).curr_timeout)
            },
            seq == old(self).curr_seq && !(old(self).phase is ReceivingCid || old(self).phase is ReceivingState)
                ==> r is None && final(self).phase == old(self).phase
                && final(self).curr_seq.value == next_value(old(self).curr_seq.value),
    {
        match self.timed_out(seq) {
            CstStatus::RequestStateCid => Some(self.request_latest_consensus_seq_no()),
            CstStatus::RequestState => Some(self.request_latest_state()),
            _ => None,
        }
    }

    /// Handles a timeout of request `seq`: a stale one is ignored; otherwise
    /// the request number advances and the current round is to be run again
    /// with the timeout doubled.
    pub fn timed_out(&mut self, seq: SeqNo) -> (r: CstStatus)
        ensures
            seq != old(self).curr_seq ==> r is Nil && *final(self) == *old(self),
            seq == old(self).curr_seq ==> {
                &&& final(self).curr_seq.value == next_value(old(self).curr_seq.value)
                &&& final(self).phase == old(self).phase
                &&& final(self).cids@ == old(self).cids@
                &&& final(self).states@ == old(self).states@
                &&& final(self).base_timeout == old(self).base_timeout
                &&& old(self).phase is ReceivingCid ==> r is RequestStateCid
                    && final(self).curr_timeout == doubled(old(self).curr_timeout)
                &&& old(self).phase is ReceivingState ==> r is RequestState
                    && final(self).curr_timeout == doubled(old(self).curr_timeout)
                &&& !(old(self).phase is ReceivingCid || old(self).phase is ReceivingState) ==> r is Nil
                    && final(self).curr_timeout == old(self).curr_timeout
            },
    {
        if seq != self.curr_seq {
            return CstStatus::Nil;
        }
        self.curr_seq = self.curr_seq.next();
        let t = if self.curr_timeout <= u64::MAX / 2 { 2 * self.curr_timeout } else { u64::MAX };
        match self.phase {
            CstPhase::ReceivingCid(_) => {
                self.curr_timeout = t;
                CstStatus::RequestStateCid
            },
            CstPhase::ReceivingState(_) => {
                self.curr_timeout = t;
                CstStatus::RequestState
            },
            _ => CstStatus::Nil,
        }
    }
}

/// After the sequence number round: a state fetch is needed only when the
/// agreed number is past our own checkpoint's.
pub fn needs_state(local_checkpoint: SeqNo, agreed: SeqNo) -> (r: bool)
    ensures
        r == (local_checkpoint.value < agreed.value),
{
    local_checkpoint.value < agreed.value
}

/// Each digest has at most one entry in the sequence number tally.
pub open spec fn cid_digests_distinct(es: Seq<CidEntry>) -> bool {
    forall|i: int, j: int| 0 <= i < j < es.len() ==> es[i].digest != es[j].digest
}

/// Each checkpoint digest has at most one entry in the state tally.
pub open spec fn state_digests_distinct(es: Seq<StateEntry>) -> bool {
    forall|i: int, j: int| 0 <= i < j < es.len() ==> es[i].checkpoint.digest != es[j].checkpoint.digest
}

/// A reply keeps the sequence number tally keyed by distinct digests.
pub proof fn lemma_tally_cid_distinct(es: Seq<CidEntry>, cid: u32, d: Digest)
    requires
        cid_digests_distinct(es),
    ensures
        cid_digests_distinct(tally_cid(es, cid, d)),
{
    let r = tally_cid(es, cid, d);
    match first_pos(es, d) {
        None => {
            assert forall|i: int, j: int| 0 <= i < j < r.len() implies r[i].digest != r[j].digest by {
                if j == es.len() {
                    assert(r[i] == es[i]);
                }
            }
        },
        Some(k) => {
            assert forall|i: int, j: int| 0 <= i < j < r.len() implies r[i].digest != r[j].digest by {
                assert(r[i].digest == es[i].digest);
                assert(r[j].digest == es[j].digest);
            }
        },
    }
}

/// A reply keeps the state tally keyed by distinct digests.
pub proof fn lemma_tally_state_distinct(es: Seq<StateEntry>, c: Checkpoint)
    requires
        state_digests_distinct(es),
    ensures
        state_digests_distinct(tally_state(es, c)),
{
    let r = tally_state(es, c);
    match state_pos(es, c.digest) {
        None => {
            assert forall|i: int, j: int| 0 <= i < j < r.len() implies r[i].checkpoint.digest != r[j].checkpoint.digest by {
                if j == es.len() {
                    assert(r[i] == es[i]);
                }
            }
        },
        Some(k) => {
            assert forall|i: int, j: int| 0 <= i < j < r.len() implies r[i].checkpoint.digest != r[j].checkpoint.digest by {
                assert(r[i].checkpoint.digest == es[i].checkpoint.digest);
                assert(r[j].checkpoint.digest == es[j].checkpoint.digest);
            }
        },
    }
}

} // verus!
