//! One consensus instance: the PRE-PREPARE / PREPARE / COMMIT state machine
//! for a single sequence number, with its queue of early messages.
use vstd::prelude::*;

use crate::message::{ConsensusKind, ConsensusMessage, Digest, KindModel, MsgModel, msgs_view};
use crate::ordering::{NodeId, SeqNo};
use crate::view::{ViewInfo, ViewModel, contains_node};

verus! {

#[derive(Clone, Copy, Debug, PartialEq, Eq, Structural)]
pub enum DecisionPhase {
    Init,
    Preparing,
    Committing,
    Decided,
}

/// Outcome of processing one message.
#[derive(Clone, Copy, Debug, PartialEq, Eq, Structural)]
pub enum DecisionStatus {
    Deciding,
    Decided,
    VotedTwice(NodeId),
}

/// What `poll` found.
pub enum DecisionPoll {
    Recv,
    NextMessage(ConsensusMessage),
    Decided,
}

pub enum PollModel {
    Recv,
    NextMessage(MsgModel),
    Decided,
}

/// Early messages of one instance, by kind, in arrival order.
pub struct MessageQueue {
    pub pre_prepares: Vec<ConsensusMessage>,
    pub prepares: Vec<ConsensusMessage>,
    pub commits: Vec<ConsensusMessage>,
}

pub struct Decision {
    pub seq: SeqNo,
    pub view: ViewInfo,
    pub me: NodeId,
    pub phase: DecisionPhase,
    pub digest: Option<Digest>,
    pub batch: Vec<u64>,
    pub prepare_voters: Vec<NodeId>,
    pub commit_voters: Vec<NodeId>,
    pub queue: MessageQueue,
    /// Messages for a later view of this instance, left to the view change.
    pub deferred: Vec<ConsensusMessage>,
    /// Every message this instance has processed.
    pub history: Ghost<Seq<MsgModel>>,
}

pub struct DecisionModel {
    pub seq: u32,
    pub view: ViewModel,
    pub me: NodeId,
    pub phase: DecisionPhase,
    pub digest: Option<Digest>,
    pub batch: Seq<u64>,
    pub prepare_voters: Seq<NodeId>,
    pub commit_voters: Seq<NodeId>,
    pub pre_prepares: Seq<MsgModel>,
    pub prepares: Seq<MsgModel>,
    pub commits: Seq<MsgModel>,
    pub deferred: Seq<MsgModel>,
    pub history: Seq<MsgModel>,
}

impl View for Decision {
    type V = DecisionModel;

    open spec fn view(&self) -> DecisionModel {
        DecisionModel {
            seq: self.seq.value,
            view: self.view@,
            me: self.me,
            phase: self.phase,
            digest: self.digest,
            batch: self.batch@,
            prepare_voters: self.prepare_voters@,
            commit_voters: self.commit_voters@,
            pre_prepares: msgs_view(self.queue.pre_prepares@),
            prepares: msgs_view(self.queue.prepares@),
            commits: msgs_view(self.queue.commits@),
            deferred: msgs_view(self.deferred@),
            history: self.history@,
        }
    }
}

/// A fresh instance for `seq` in `view`, holding the given early messages.
pub open spec fn initial(
    seq: u32,
    view: ViewModel,
    me: NodeId,
    pre_prepares: Seq<MsgModel>,
    prepares: Seq<MsgModel>,
    commits: Seq<MsgModel>,
) -> DecisionModel {
    DecisionModel {
        seq,
        view,
        me,
        phase: DecisionPhase::Init,
        digest: None,
        batch: Seq::empty(),
        prepare_voters: Seq::empty(),
        commit_voters: Seq::empty(),
        pre_prepares,
        prepares,
        commits,
        deferred: Seq::empty(),
        history: Seq::empty(),
    }
}

/// `d` with `m` kept for later, in the list of its kind.
pub open spec fn buffered(d: DecisionModel, m: MsgModel) -> DecisionModel {
    match m.kind {
        KindModel::PrePrepare(_, _) => DecisionModel { pre_prepares: d.pre_prepares.push(m), ..d },
        KindModel::Prepare(_) => DecisionModel { prepares: d.prepares.push(m), ..d },
        KindModel::Commit(_) => DecisionModel { commits: d.commits.push(m), ..d },
    }
}

pub open spec fn vote_msg(d: DecisionModel, kind: KindModel) -> MsgModel {
    MsgModel { seq: d.seq, view: d.view.seq, from: d.me, kind }
}

/// Our own COMMIT is counted and sent; with a quorum of one, that decides.
pub open spec fn enter_committing(d: DecisionModel, dg: Digest) -> (
    DecisionModel,
    DecisionStatus,
    Seq<MsgModel>,
) {
    let d1 = DecisionModel {
        phase: DecisionPhase::Committing,
        commit_voters: seq![d.me],
        ..d
    };
    let out = seq![vote_msg(d, KindModel::Commit(dg))];
    if 1 >= d.view.quorum() {
        (DecisionModel { phase: DecisionPhase::Decided, ..d1 }, DecisionStatus::Decided, out)
    } else {
        (d1, DecisionStatus::Deciding, out)
    }
}

/// The PRE-PREPARE is accepted: its digest and batch are recorded and our
/// own PREPARE is counted and sent.
pub open spec fn enter_preparing(d: DecisionModel, dg: Digest, batch: Seq<u64>) -> (
    DecisionModel,
    DecisionStatus,
    Seq<MsgModel>,
) {
    let d1 = DecisionModel {
        phase: DecisionPhase::Preparing,
        digest: Some(dg),
        batch,
        prepare_voters: seq![d.me],
        ..d
    };
    let out = seq![vote_msg(d, KindModel::Prepare(dg))];
    if 1 >= d.view.quorum() {
        let (d2, st, out2) = enter_committing(d1, dg);
        (d2, st, out + out2)
    } else {
        (d1, DecisionStatus::Deciding, out)
    }
}

/// Processing of one message by an instance: its new state, the status
/// reported and the messages to broadcast.
pub open spec fn step(d0: DecisionModel, m: MsgModel) -> (
    DecisionModel,
    DecisionStatus,
    Seq<MsgModel>,
) {
    let d = DecisionModel { history: d0.history.push(m), ..d0 };
    let none = Seq::<MsgModel>::empty();
    if m.seq != d.seq || m.view < d.view.seq {
        (d, DecisionStatus::Deciding, none)
    } else if m.view > d.view.seq {
        (DecisionModel { deferred: d.deferred.push(m), ..d }, DecisionStatus::Deciding, none)
    } else {
        match d.phase {
            DecisionPhase::Init => match m.kind {
                KindModel::PrePrepare(dg, batch) => if m.from == d.view.leader() {
                    enter_preparing(d, dg, batch)
                } else {
                    (d, DecisionStatus::Deciding, none)
                },
                _ => (buffered(d, m), DecisionStatus::Deciding, none),
            },
            DecisionPhase::Preparing => match m.kind {
                KindModel::Prepare(dg) => if !d.view.is_member(m.from) {
                    (d, DecisionStatus::Deciding, none)
                } else if d.prepare_voters.contains(m.from) {
                    (d, DecisionStatus::VotedTwice(m.from), none)
                } else if d.digest != Some(dg) {
                    (d, DecisionStatus::Deciding, none)
                } else {
                    let d1 = DecisionModel { prepare_voters: d.prepare_voters.push(m.from), ..d };
                    if d1.prepare_voters.len() >= d.view.quorum() {
                        enter_committing(d1, dg)
                    } else {
                        (d1, DecisionStatus::Deciding, none)
                    }
                },
                KindModel::Commit(_) => (buffered(d, m), DecisionStatus::Deciding, none),
                _ => (d, DecisionStatus::Deciding, none),
            },
            DecisionPhase::Committing => match m.kind {
                KindModel::Commit(dg) => if !d.view.is_member(m.from) {
                    (d, DecisionStatus::Deciding, none)
                } else if d.commit_voters.contains(m.from) {
                    (d, DecisionStatus::VotedTwice(m.from), none)
                } else if d.digest != Some(dg) {
                    (d, DecisionStatus::Deciding, none)
                } else {
                    let d1 = DecisionModel { commit_voters: d.commit_voters.push(m.from), ..d };
                    if d1.commit_voters.len() >= d.view.quorum() {
                        (
                            DecisionModel { phase: DecisionPhase::Decided, ..d1 },
                            DecisionStatus::Decided,
                            none,
                        )
                    } else {
                        (d1, DecisionStatus::Deciding, none)
                    }
                },
                _ => (d, DecisionStatus::Deciding, none),
            },
            DecisionPhase::Decided => (d, DecisionStatus::Decided, none),
        }
    }
}

/// What `poll` takes: the first early message of the kind the phase
/// waits for.
pub open spec fn poll_step(d: DecisionModel) -> (DecisionModel, PollModel) {
    match d.phase {
        DecisionPhase::Init => if d.pre_prepares.len() > 0 {
            (
                DecisionModel { pre_prepares: d.pre_prepares.drop_first(), ..d },
                PollModel::NextMessage(d.pre_prepares[0]),
            )
        } else {
            (d, PollModel::Recv)
        },
        DecisionPhase::Preparing => if d.prepares.len() > 0 {
            (
                DecisionModel { prepares: d.prepares.drop_first(), ..d },
                PollModel::NextMessage(d.prepares[0]),
            )
        } else {
            (d, PollModel::Recv)
        },
        DecisionPhase::Committing => if d.commits.len() > 0 {
            (
                DecisionModel { commits: d.commits.drop_first(), ..d },
                PollModel::NextMessage(d.commits[0]),
            )
        } else {
            (d, PollModel::Recv)
        },
        DecisionPhase::Decided => (d, PollModel::Decided),
    }
}

/// Whether `h` holds a vote of `kind` from `v` for instance `seq` in view `view`.
pub open spec fn voted_in(h: Seq<MsgModel>, v: NodeId, seq: u32, view: u32, kind: KindModel) -> bool {
    exists|i: int|
        0 <= i < h.len() && #[trigger] h[i] == (MsgModel { seq, view, from: v, kind })
}

/// Every counted voter is a distinct member that is ourselves or sent a
/// vote of the phase on the recorded digest.
pub open spec fn voters_ok(d: DecisionModel, voters: Seq<NodeId>, kind: KindModel) -> bool {
    &&& voters.no_duplicates()
    &&& forall|i: int| 0 <= i < voters.len() ==> d.view.is_member(#[trigger] voters[i])
    &&& forall|i: int|
        0 <= i < voters.len() ==> #[trigger] voters[i] == d.me || voted_in(
            d.history,
            voters[i],
            d.seq,
            d.view.seq,
            kind,
        )
}

impl DecisionModel {
    pub open spec fn wf(self) -> bool {
        &&& self.view.wf()
        &&& self.view.is_member(self.me)
        &&& (self.phase == DecisionPhase::Init) == (self.digest is None)
        &&& self.phase == DecisionPhase::Init ==> self.prepare_voters.len() == 0
        &&& (self.phase == DecisionPhase::Init || self.phase == DecisionPhase::Preparing)
            ==> self.commit_voters.len() == 0
        &&& self.phase == DecisionPhase::Preparing ==> self.prepare_voters.len()
            < self.view.quorum()
        &&& (self.phase == DecisionPhase::Committing || self.phase == DecisionPhase::Decided)
            ==> self.prepare_voters.len() >= self.view.quorum()
        &&& self.phase == DecisionPhase::Committing ==> self.commit_voters.len()
            < self.view.quorum()
        &&& self.phase == DecisionPhase::Decided ==> self.commit_voters.len()
            >= self.view.quorum()
        &&& self.digest matches Some(dg) ==> {
            &&& voters_ok(self, self.prepare_voters, KindModel::Prepare(dg))
            &&& voters_ok(self, self.commit_voters, KindModel::Commit(dg))
        }
    }
}

proof fn lemma_voted_in_push(h: Seq<MsgModel>, m: MsgModel, v: NodeId, seq: u32, view: u32, kind: KindModel)
    requires
        voted_in(h, v, seq, view, kind),
    ensures
        voted_in(h.push(m), v, seq, view, kind),
{
    let i = choose|i: int| 0 <= i < h.len() && #[trigger] h[i] == (MsgModel { seq, view, from: v, kind });
    assert(h.push(m)[i] == h[i]);
}

proof fn lemma_voters_ok_history(d: DecisionModel, m: MsgModel, voters: Seq<NodeId>, kind: KindModel)
    requires
        voters_ok(d, voters, kind),
    ensures
        voters_ok(DecisionModel { history: d.history.push(m), ..d }, voters, kind),
{
    let d2 = DecisionModel { history: d.history.push(m), ..d };
    assert forall|i: int| 0 <= i < voters.len() implies #[trigger] voters[i] == d2.me || voted_in(
        d2.history, voters[i], d2.seq, d2.view.seq, kind) by {
        if voters[i] != d.me {
            lemma_voted_in_push(d.history, m, voters[i], d.seq, d.view.seq, kind);
        }
    }
}

proof fn lemma_voters_ok_add(d: DecisionModel, voters: Seq<NodeId>, kind: KindModel, v: NodeId)
    requires
        voters_ok(d, voters, kind),
        !voters.contains(v),
        d.view.is_member(v),
        v == d.me || voted_in(d.history, v, d.seq, d.view.seq, kind),
    ensures
        voters_ok(d, voters.push(v), kind),
{
    let w = voters.push(v);
    assert forall|a: int, b: int| 0 <= a < w.len() && 0 <= b < w.len() && a != b implies w[a] != w[b] by {
        if a == voters.len() as int {
            assert(w[b] == voters[b]);
        } else if b == voters.len() as int {
            assert(w[a] == voters[a]);
        }
    }
    assert forall|i: int| 0 <= i < w.len() implies d.view.is_member(#[trigger] w[i]) by {
        if i < voters.len() { assert(w[i] == voters[i]); }
    }
    assert forall|i: int| 0 <= i < w.len() implies #[trigger] w[i] == d.me || voted_in(
        d.history, w[i], d.seq, d.view.seq, kind) by {
        if i < voters.len() { assert(w[i] == voters[i]); }
    }
}

proof fn lemma_single_voter(d: DecisionModel, kind: KindModel)
    requires
        d.view.is_member(d.me),
    ensures
        voters_ok(d, seq![d.me], kind),
{
    assert(seq![d.me][0] == d.me);
}

/// Processing any message keeps an instance well formed: each voter is
/// counted once, is a member, and is ourselves or sent the matching vote.
pub proof fn lemma_step_preserves_wf(d: DecisionModel, m: MsgModel)
    requires
        d.wf(),
    ensures
        step(d, m).0.wf(),
{
    let dh = DecisionModel { history: d.history.push(m), ..d };
    if let Some(dg) = d.digest {
        lemma_voters_ok_history(d, m, d.prepare_voters, KindModel::Prepare(dg));
        lemma_voters_ok_history(d, m, d.commit_voters, KindModel::Commit(dg));
    }
    assert(dh.wf());
    if m.seq == d.seq && m.view == d.view.seq {
        match d.phase {
            DecisionPhase::Init => {
                if let KindModel::PrePrepare(dg, batch) = m.kind {
                    if m.from == d.view.leader() {
                        let d1 = DecisionModel {
                            phase: DecisionPhase::Preparing,
                            digest: Some(dg),
                            batch,
                            prepare_voters: seq![d.me],
                            ..dh
                        };
                        lemma_single_voter(d1, KindModel::Prepare(dg));
                        lemma_single_voter(d1, KindModel::Commit(dg));
                        assert(voters_ok(d1, Seq::<NodeId>::empty(), KindModel::Commit(dg)));
                    }
                }
            },
            DecisionPhase::Preparing => {
                if let KindModel::Prepare(dg) = m.kind {
                    if dh.view.is_member(m.from) && !dh.prepare_voters.contains(m.from)
                        && dh.digest == Some(dg) {
                        let i = dh.history.len() - 1;
                        assert(dh.history[i] == m);
                        assert(voted_in(dh.history, m.from, dh.seq, dh.view.seq, KindModel::Prepare(dg)));
                        lemma_voters_ok_add(dh, dh.prepare_voters, KindModel::Prepare(dg), m.from);
                        let d1 = DecisionModel { prepare_voters: dh.prepare_voters.push(m.from), ..dh };
                        lemma_single_voter(d1, KindModel::Commit(dg));
                    }
                }
            },
            DecisionPhase::Committing => {
                if let KindModel::Commit(dg) = m.kind {
                    if dh.view.is_member(m.from) && !dh.commit_voters.contains(m.from)
                        && dh.digest == Some(dg) {
                        let i = dh.history.len() - 1;
                        assert(dh.history[i] == m);
                        assert(voted_in(dh.history, m.from, dh.seq, dh.view.seq, KindModel::Commit(dg)));
                        lemma_voters_ok_add(dh, dh.commit_voters, KindModel::Commit(dg), m.from);
                    }
                }
            },
            DecisionPhase::Decided => {},
        }
    }
}

/// No phase counts more voters than the view has members.
pub proof fn lemma_voters_bounded(d: DecisionModel)
    requires
        d.wf(),
    ensures
        d.prepare_voters.len() <= d.view.n(),
        d.commit_voters.len() <= d.view.n(),
{
    lemma_distinct_members_bound(d.prepare_voters, d.view.members);
    lemma_distinct_members_bound(d.commit_voters, d.view.members);
}

proof fn lemma_distinct_members_bound(voters: Seq<NodeId>, members: Seq<NodeId>)
    requires
        voters.no_duplicates(),
        forall|i: int| 0 <= i < voters.len() ==> members.contains(#[trigger] voters[i]),
    ensures
        voters.len() <= members.len(),
{
    voters.unique_seq_to_set();
    members.lemma_cardinality_of_set();
    assert forall|x: NodeId| voters.to_set().contains(x) implies members.to_set().contains(x) by {
        let i = choose|i: int| 0 <= i < voters.len() && voters[i] == x;
        assert(members.contains(voters[i]));
    }
    vstd::seq_lib::seq_to_set_is_finite(members);
    vstd::set_lib::lemma_len_subset(voters.to_set(), members.to_set());
}

impl DecisionPoll {
    pub open spec fn model(&self) -> PollModel {
        match self {
            DecisionPoll::Recv => PollModel::Recv,
            DecisionPoll::NextMessage(m) => PollModel::NextMessage(m@),
            DecisionPoll::Decided => PollModel::Decided,
        }
    }
}

/// A decided instance, handed out in sequence order: the batch, its digest
/// and the voters that certified it.
pub struct CompletedBatch {
    pub seq: SeqNo,
    pub digest: Digest,
    pub batch: Vec<u64>,
    pub prepare_voters: Vec<NodeId>,
    pub commit_voters: Vec<NodeId>,
}

proof fn lemma_msgs_push(v: Seq<ConsensusMessage>, m: ConsensusMessage)
    ensures
        msgs_view(v.push(m)) == msgs_view(v).push(m@),
{
    assert(msgs_view(v.push(m)) =~= msgs_view(v).push(m@));
}

proof fn lemma_msgs_drop_first(v: Seq<ConsensusMessage>)
    requires
        v.len() > 0,
    ensures
        msgs_view(v.subrange(1, v.len() as int)) == msgs_view(v).drop_first(),
        msgs_view(v)[0] == v[0]@,
{
    assert(msgs_view(v.subrange(1, v.len() as int)) =~= msgs_view(v).drop_first());
}

impl MessageQueue {
    pub fn new() -> (r: MessageQueue)
        ensures
            r.pre_prepares@.len() == 0,
            r.prepares@.len() == 0,
            r.commits@.len() == 0,
    {
        MessageQueue { pre_prepares: Vec::new(), prepares: Vec::new(), commits: Vec::new() }
    }

    /// Sorts the messages of one bucket into the three kinds, keeping order.
    pub fn from_messages(msgs: Vec<ConsensusMessage>) -> (r: MessageQueue)
        ensures
            msgs_view(r.pre_prepares@) == msgs_view(msgs@).filter(|m: MsgModel| m.kind is PrePrepare),
            msgs_view(r.prepares@) == msgs_view(msgs@).filter(|m: MsgModel| m.kind is Prepare),
            msgs_view(r.commits@) == msgs_view(msgs@).filter(|m: MsgModel| m.kind is Commit),
    {
        let mut r = MessageQueue::new();
        let mut msgs = msgs;
        let total = msgs.len();
        let ghost all = msgs_view(msgs@);
        let mut taken: usize = 0;
        let ghost mut rest = msgs@;
        proof {
            assert(msgs_view(r.pre_prepares@) =~= all.subrange(0, 0).filter(|m: MsgModel| m.kind is PrePrepare));
            assert(msgs_view(r.prepares@) =~= all.subrange(0, 0).filter(|m: MsgModel| m.kind is Prepare));
            assert(msgs_view(r.commits@) =~= all.subrange(0, 0).filter(|m: MsgModel| m.kind is Commit));
        }
        while msgs.len() > 0
            invariant
                taken + msgs@.len() == all.len(),
                all.len() == total,
                msgs_view(msgs@) == all.subrange(taken as int, all.len() as int),
                msgs_view(r.pre_prepares@) == all.subrange(0, taken as int).filter(|m: MsgModel| m.kind is PrePrepare),
                msgs_view(r.prepares@) == all.subrange(0, taken as int).filter(|m: MsgModel| m.kind is Prepare),
                msgs_view(r.commits@) == all.subrange(0, taken as int).filter(|m: MsgModel| m.kind is Commit),
            decreases msgs.len(),
        {
            let ghost before = msgs@;
            let m = msgs.remove(0);
            proof {
                lemma_msgs_drop_first(before);
                assert(before.subrange(1, before.len() as int) =~= msgs@);
                assert(all[taken as int] == m@);
                assert(all.subrange(0, taken + 1) =~= all.subrange(0, taken as int).push(m@));
                assert(msgs_view(msgs@) =~= all.subrange(taken + 1, all.len() as int));
                all.subrange(0, taken as int).lemma_filter_push(m@, |m: MsgModel| m.kind is PrePrepare);
                all.subrange(0, taken as int).lemma_filter_push(m@, |m: MsgModel| m.kind is Prepare);
                all.subrange(0, taken as int).lemma_filter_push(m@, |m: MsgModel| m.kind is Commit);
                lemma_msgs_push(r.pre_prepares@, m);
                lemma_msgs_push(r.prepares@, m);
                lemma_msgs_push(r.commits@, m);
            }
            match m.kind {
                ConsensusKind::PrePrepare(_, _) => r.pre_prepares.push(m),
                ConsensusKind::Prepare(_) => r.prepares.push(m),
                ConsensusKind::Commit(_) => r.commits.push(m),
            }
            taken = taken + 1;
        }
        proof {
            assert(all.subrange(0, taken as int) =~= all);
        }
        r
    }
}

impl Decision {
    pub open spec fn wf(&self) -> bool {
        self@.wf()
    }

    /// A fresh instance for `seq` in `view`, for replica `me` of it.
    pub fn new(seq: SeqNo, view: &ViewInfo, me: NodeId) -> (r: Decision)
        requires
            view.wf(),
            view@.is_member(me),
        ensures
            r@ == initial(seq.value, view@, me, Seq::empty(), Seq::empty(), Seq::empty()),
            r.wf(),
    {
        let q = MessageQueue::new();
        proof {
            assert(msgs_view(q.pre_prepares@) =~= Seq::<MsgModel>::empty());
            assert(msgs_view(q.prepares@) =~= Seq::<MsgModel>::empty());
            assert(msgs_view(q.commits@) =~= Seq::<MsgModel>::empty());
        }
        Decision::with_queue(seq, view, me, q)
    }

    /// A fresh instance that starts with the early messages of `queue`.
    pub fn with_queue(seq: SeqNo, view: &ViewInfo, me: NodeId, queue: MessageQueue) -> (r: Decision)
        requires
            view.wf(),
            view@.is_member(me),
        ensures
            r@ == initial(
                seq.value,
                view@,
                me,
                msgs_view(queue.pre_prepares@),
                msgs_view(queue.prepares@),
                msgs_view(queue.commits@),
            ),
            r.wf(),
    {
        let r = Decision {
            seq,
            view: view.duplicate(),
            me,
            phase: DecisionPhase::Init,
            digest: None,
            batch: Vec::new(),
            prepare_voters: Vec::new(),
            commit_voters: Vec::new(),
            queue,
            deferred: Vec::new(),
            history: Ghost(Seq::empty()),
        };
        proof {
            assert(r@.batch =~= Seq::<u64>::empty());
            assert(r@.prepare_voters =~= Seq::<NodeId>::empty());
            assert(r@.commit_voters =~= Seq::<NodeId>::empty());
            assert(r@.deferred =~= Seq::<MsgModel>::empty());
        }
        r
    }

    pub fn sequence_number(&self) -> (r: SeqNo)
        ensures
            r == self.seq,
    {
        self.seq
    }

    pub fn phase(&self) -> (r: DecisionPhase)
        ensures
            r == self.phase,
    {
        self.phase
    }

    /// True exactly when the instance has decided.
    pub fn is_finalizeable(&self) -> (r: bool)
        ensures
            r == (self.phase == DecisionPhase::Decided),
    {
        self.phase == DecisionPhase::Decided
    }

    /// Keeps `m` for later, in the list of its kind.
    pub fn queue(&mut self, m: ConsensusMessage)
        ensures
            final(self)@ == buffered(old(self)@, m@),
    {
        proof {
            lemma_msgs_push(self.queue.pre_prepares@, m);
            lemma_msgs_push(self.queue.prepares@, m);
            lemma_msgs_push(self.queue.commits@, m);
        }
        match m.kind {
            ConsensusKind::PrePrepare(_, _) => self.queue.pre_prepares.push(m),
            ConsensusKind::Prepare(_) => self.queue.prepares.push(m),
            ConsensusKind::Commit(_) => self.queue.commits.push(m),
        }
    }

    /// Takes the next early message that the current phase can use.
    pub fn poll(&mut self) -> (r: DecisionPoll)
        ensures
            final(self)@ == poll_step(old(self)@).0,
            r.model() == poll_step(old(self)@).1,
    {
        let ghost q = self.queue;
        match self.phase {
            DecisionPhase::Init => {
                if self.queue.pre_prepares.len() > 0 {
                    proof { lemma_msgs_drop_first(q.pre_prepares@); }
                    let m = self.queue.pre_prepares.remove(0);
                    DecisionPoll::NextMessage(m)
                } else {
                    DecisionPoll::Recv
                }
            },
            DecisionPhase::Preparing => {
                if self.queue.prepares.len() > 0 {
                    proof { lemma_msgs_drop_first(q.prepares@); }
                    let m = self.queue.prepares.remove(0);
                    DecisionPoll::NextMessage(m)
                } else {
                    DecisionPoll::Recv
                }
            },
            DecisionPhase::Committing => {
                if self.queue.commits.len() > 0 {
                    proof { lemma_msgs_drop_first(q.commits@); }
                    let m = self.queue.commits.remove(0);
                    DecisionPoll::NextMessage(m)
                } else {
                    DecisionPoll::Recv
                }
            },
            DecisionPhase::Decided => DecisionPoll::Decided,
        }
    }

    fn vote(&self, kind: ConsensusKind) -> (r: ConsensusMessage)
        ensures
            r@ == vote_msg(self@, r@.kind),
            r.kind == kind,
    {
        ConsensusMessage { seq: self.seq, view: self.view.seq, from: self.me, kind }
    }

    fn enter_committing(&mut self, dg: Digest) -> (r: (DecisionStatus, Vec<ConsensusMessage>))
        requires
            old(self).view.wf(),
        ensures
            final(self)@ == enter_committing(old(self)@, dg).0,
            r.0 == enter_committing(old(self)@, dg).1,
            msgs_view(r.1@) == enter_committing(old(self)@, dg).2,
    {
        let c = self.vote(ConsensusKind::Commit(dg));
        self.phase = DecisionPhase::Committing;
        self.commit_voters = vec![self.me];
        let mut out: Vec<ConsensusMessage> = Vec::new();
        out.push(c);
        proof {
            assert(self.commit_voters@ =~= seq![self.me]);
            assert(msgs_view(out@) =~= seq![vote_msg(old(self)@, KindModel::Commit(dg))]);
        }
        if 1 >= self.view.quorum() {
            self.phase = DecisionPhase::Decided;
            (DecisionStatus::Decided, out)
        } else {
            (DecisionStatus::Deciding, out)
        }
    }

    fn enter_preparing(&mut self, dg: Digest, batch: Vec<u64>) -> (r: (DecisionStatus, Vec<ConsensusMessage>))
        requires
            old(self).view.wf(),
        ensures
            final(self)@ == enter_preparing(old(self)@, dg, batch@).0,
            r.0 == enter_preparing(old(self)@, dg, batch@).1,
            msgs_view(r.1@) == enter_preparing(old(self)@, dg, batch@).2,
    {
        let p = self.vote(ConsensusKind::Prepare(dg));
        self.phase = DecisionPhase::Preparing;
        self.digest = Some(dg);
        self.batch = batch;
        self.prepare_voters = vec![self.me];
        let mut out: Vec<ConsensusMessage> = Vec::new();
        out.push(p);
        proof {
            assert(self.prepare_voters@ =~= seq![self.me]);
            assert(msgs_view(out@) =~= seq![vote_msg(old(self)@, KindModel::Prepare(dg))]);
        }
        if 1 >= self.view.quorum() {
            let ghost mid = self@;
            let ghost out1 = msgs_view(out@);
            let (st, mut more) = self.enter_committing(dg);
            let ghost out2 = msgs_view(more@);
            out.append(&mut more);
            proof {
                assert(msgs_view(out@) =~= out1 + out2);
            }
            (st, out)
        } else {
            (DecisionStatus::Deciding, out)
        }
    }

    /// Advances the state machine by one message; returns the status and the
    /// votes to broadcast.
    pub fn process_message(&mut self, m: ConsensusMessage) -> (r: (DecisionStatus, Vec<ConsensusMessage>))
        requires
            old(self).wf(),
        ensures
            final(self)@ == step(old(self)@, m@).0,
            r.0 == step(old(self)@, m@).1,
            msgs_view(r.1@) == step(old(self)@, m@).2,
            final(self).wf(),
    {
        proof { lemma_step_preserves_wf(self@, m@); }
        let ghost mv = m@;
        self.history = Ghost(self.history@.push(m@));
        let none: Vec<ConsensusMessage> = Vec::new();
        proof { assert(msgs_view(none@) =~= Seq::<MsgModel>::empty()); }
        if m.seq.value != self.seq.value || m.view.value < self.view.seq.value {
            return (DecisionStatus::Deciding, none);
        }
        if m.view.value > self.view.seq.value {
            proof { lemma_msgs_push(self.deferred@, m); }
            self.deferred.push(m);
            return (DecisionStatus::Deciding, none);
        }
        match self.phase {
            DecisionPhase::Init => {
                let is_pre_prepare = match &m.kind {
                    ConsensusKind::PrePrepare(_, _) => true,
                    _ => false,
                };
                if !is_pre_prepare {
                    self.queue(m);
                    return (DecisionStatus::Deciding, none);
                }
                if m.from != self.view.leader() {
                    return (DecisionStatus::Deciding, none);
                }
                match m.kind {
                    ConsensusKind::PrePrepare(dg, batch) => self.enter_preparing(dg, batch),
                    _ => (DecisionStatus::Deciding, none),
                }
            },
            DecisionPhase::Preparing => match m.kind {
                ConsensusKind::Prepare(dg) => {
                    if !self.view.is_member(m.from) {
                        (DecisionStatus::Deciding, none)
                    } else if contains_node(&self.prepare_voters, m.from) {
                        (DecisionStatus::VotedTwice(m.from), none)
                    } else if self.digest != Some(dg) {
                        (DecisionStatus::Deciding, none)
                    } else {
                        self.prepare_voters.push(m.from);
                        if self.prepare_voters.len() >= self.view.quorum() {
                            self.enter_committing(dg)
                        } else {
                            (DecisionStatus::Deciding, none)
                        }
                    }
                },
                ConsensusKind::Commit(_) => {
                    self.queue(m);
                    (DecisionStatus::Deciding, none)
                },
                _ => (DecisionStatus::Deciding, none),
            },
            DecisionPhase::Committing => match m.kind {
                ConsensusKind::Commit(dg) => {
                    if !self.view.is_member(m.from) {
                        (DecisionStatus::Deciding, none)
                    } else if contains_node(&self.commit_voters, m.from) {
                        (DecisionStatus::VotedTwice(m.from), none)
                    } else if self.digest != Some(dg) {
                        (DecisionStatus::Deciding, none)
                    } else {
                        self.commit_voters.push(m.from);
                        if self.commit_voters.len() >= self.view.quorum() {
                            self.phase = DecisionPhase::Decided;
                            (DecisionStatus::Decided, none)
                        } else {
                            (DecisionStatus::Deciding, none)
                        }
                    }
                },
                _ => (DecisionStatus::Deciding, none),
            },
            DecisionPhase::Decided => (DecisionStatus::Decided, none),
        }
    }

    /// The decided batch, with its digest and certifying voters.
    pub fn finalize(self) -> (r: CompletedBatch)
        requires
            self.wf(),
            self.phase == DecisionPhase::Decided,
        ensures
            r.seq == self.seq,
            Some(r.digest) == self.digest,
            r.batch@ == self.batch@,
            r.prepare_voters@ == self.prepare_voters@,
            r.commit_voters@ == self.commit_voters@,
            r.prepare_voters@.len() >= self.view@.quorum(),
            r.commit_voters@.len() >= self.view@.quorum(),
    {
        let digest = match self.digest {
            Some(d) => d,
            None => Digest { w0: 0, w1: 0, w2: 0, w3: 0 },
        };
        CompletedBatch {
            seq: self.seq,
            digest,
            batch: self.batch,
            prepare_voters: self.prepare_voters,
            commit_voters: self.commit_voters,
        }
    }
}

/// Taking an early message from the queue keeps an instance well formed.
pub proof fn lemma_poll_preserves_wf(d: DecisionModel)
    requires
        d.wf(),
    ensures
        poll_step(d).0.wf(),
{
}

/// An instance after processing `ms` in order.
pub open spec fn replay(d: DecisionModel, ms: Seq<MsgModel>) -> DecisionModel
    decreases ms.len(),
{
    if ms.len() == 0 {
        d
    } else {
        replay(step(d, ms[0]).0, ms.drop_first())
    }
}

/// Replaying the same messages through two equal instances (two fresh ones
/// for the same number, view and replica) ends in equal instances, hence in
/// the same decided batch, digest and voters; and the result stays well formed.
pub proof fn lemma_replay_deterministic(a: DecisionModel, b: DecisionModel, ms: Seq<MsgModel>)
    requires
        a == b,
        a.wf(),
    ensures
        replay(a, ms) == replay(b, ms),
        replay(a, ms).wf(),
    decreases ms.len(),
{
    if ms.len() > 0 {
        lemma_step_preserves_wf(a, ms[0]);
        lemma_replay_deterministic(step(a, ms[0]).0, step(b, ms[0]).0, ms.drop_first());
    }
}

} // verus!
