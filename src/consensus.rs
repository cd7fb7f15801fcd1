//! The windowed multiplexer: `W` consecutive instances, with messages for
//! later instances held in a bucketed queue.
use vstd::prelude::*;

use crate::decision::{
    CompletedBatch, Decision, DecisionModel, DecisionPhase, DecisionPoll, DecisionStatus,
    MessageQueue, PollModel, initial, poll_step, step,
};
use crate::message::{ConsensusMessage, msgs_view, MsgModel};
use crate::ordering::{NodeId, SeqIndex, SeqNo, TboQueue, SEQ_MAX, bucket_of};
use crate::view::ViewInfo;

verus! {

pub struct Consensus {
    pub me: NodeId,
    pub watermark: u32,
    pub seq_no: SeqNo,
    pub decisions: Vec<Decision>,
    pub tbo: TboQueue<ConsensusMessage>,
    /// The number the window started at, when built or last reset.
    pub first: Ghost<u32>,
    /// The numbers of the batches finalized since, in order.
    pub delivered: Ghost<Seq<u32>>,
}

/// What `poll` found.
pub enum ConsensusPoll {
    Recv,
    NextMessage(ConsensusMessage),
}

/// Whether an instance has an early message that its phase can use.
pub open spec fn ready(d: DecisionModel) -> bool {
    poll_step(d).1 is NextMessage
}

impl Consensus {
    /// The models of the instances, in window order.
    pub open spec fn models(&self) -> Seq<DecisionModel> {
        Seq::new(self.decisions@.len(), |i: int| self.decisions@[i]@)
    }

    /// Exactly `W` instances, for the consecutive numbers starting at `seq_no`,
    /// each well formed; later messages wait in the queue past the window.
    pub open spec fn wf(&self) -> bool {
        &&& self.watermark >= 1
        &&& self.decisions@.len() == self.watermark
        &&& self.seq_no.value + self.watermark <= SEQ_MAX
        &&& self.tbo.base.value == self.seq_no.value + self.watermark
        &&& self.first@ + self.delivered@.len() == self.seq_no.value
        &&& forall|i: int| 0 <= i < self.delivered@.len() ==> #[trigger] self.delivered@[i] == self.first@ + i
        &&& forall|i: int| 0 <= i < self.decisions@.len() ==> {
            &&& (#[trigger] self.decisions@[i]).wf()
            &&& self.decisions@[i].seq.value == self.seq_no.value + i
            &&& self.decisions@[i].me == self.me
        }
    }

    /// A window of `watermark` fresh instances starting at `seq_no`.
    pub fn new_replica(me: NodeId, view: &ViewInfo, seq_no: SeqNo, watermark: u32) -> (r: Consensus)
        requires
            view.wf(),
            view@.is_member(me),
            watermark >= 1,
            seq_no.value + watermark <= SEQ_MAX,
        ensures
            r.wf(),
            r.me == me,
            r.seq_no == seq_no,
            r.watermark == watermark,
            forall|i: int| 0 <= i < watermark ==> #[trigger] r.models()[i] == initial(
                (seq_no.value + i) as u32,
                view@,
                me,
                Seq::empty(),
                Seq::empty(),
                Seq::empty(),
            ),
            r.tbo.buckets_view().len() == 0,
            r.delivered@.len() == 0,
    {
        let mut decisions: Vec<Decision> = Vec::new();
        let mut i: u32 = 0;
        while i < watermark
            invariant
                i <= watermark,
                seq_no.value + watermark <= SEQ_MAX,
                view.wf(),
                view@.is_member(me),
                decisions@.len() == i,
                forall|j: int| 0 <= j < i ==> {
                    &&& (#[trigger] decisions@[j]).wf()
                    &&& decisions@[j].seq.value == seq_no.value + j
                    &&& decisions@[j].me == me
                    &&& decisions@[j]@ == initial(
                        (seq_no.value + j) as u32,
                        view@,
                        me,
                        Seq::empty(),
                        Seq::empty(),
                        Seq::empty(),
                    )
                },
            decreases watermark - i,
        {
            let d = Decision::new(SeqNo::from_u32(seq_no.value + i), view, me);
            decisions.push(d);
            i += 1;
        }
        let tbo = TboQueue::new(SeqNo::from_u32(seq_no.value + watermark));
        Consensus { me, watermark, seq_no, decisions, tbo, first: Ghost(seq_no.value), delivered: Ghost(Seq::empty()) }
    }

    pub fn sequence_number(&self) -> (r: SeqNo)
        ensures
            r == self.seq_no,
    {
        self.seq_no
    }

    /// Hands `m` to its instance, holds it past the window, or drops it when stale.
    pub fn queue(&mut self, m: ConsensusMessage)
        requires
            old(self).wf(),
        ensures
            final(self).delivered == old(self).delivered,
            final(self).first == old(self).first,
            final(self).wf(),
            final(self).me == old(self).me,
            final(self).watermark == old(self).watermark,
            final(self).seq_no == old(self).seq_no,
            m.seq.value < old(self).seq_no.value ==> final(self).models() == old(self).models()
                && final(self).tbo == old(self).tbo,
            old(self).seq_no.value <= m.seq.value < old(self).tbo.base.value
                ==> final(self).models() == old(self).models().update(
                m.seq.value - old(self).seq_no.value,
                crate::decision::buffered(
                    old(self).models()[m.seq.value - old(self).seq_no.value],
                    m@,
                ),
            ) && final(self).tbo == old(self).tbo,
            m.seq.value >= old(self).tbo.base.value ==> final(self).models() == old(self).models()
                && final(self).tbo.buckets_view() == crate::ordering::queued_buckets(
                old(self).tbo.buckets_view(),
                m.seq.value - old(self).tbo.base.value,
                m,
            ),
    {
        match m.seq.index(self.seq_no) {
            SeqIndex::Stale(_) => {},
            SeqIndex::Offset(i) => {
                if i >= self.decisions.len() {
                    let s = m.seq;
                    self.tbo.queue(s, m);
                } else {
                    let ghost old_models = self.models();
                    self.decisions[i].queue(m);
                    proof {
                        assert(self.models() =~= old_models.update(
                            i as int,
                            crate::decision::buffered(old_models[i as int], m@),
                        ));
                    }
                }
            },
        }
    }

    /// The first early message, in window order, that an instance can use now.
    pub fn poll(&mut self) -> (r: ConsensusPoll)
        requires
            old(self).wf(),
        ensures
            final(self).delivered == old(self).delivered,
            final(self).first == old(self).first,
            final(self).wf(),
            final(self).me == old(self).me,
            final(self).watermark == old(self).watermark,
            final(self).seq_no == old(self).seq_no,
            final(self).tbo == old(self).tbo,
            r is Recv ==> final(self).models() == old(self).models() && forall|i: int|
                0 <= i < old(self).models().len() ==> !ready(#[trigger] old(self).models()[i]),
            r matches ConsensusPoll::NextMessage(x) ==> exists|i: int|
                0 <= i < old(self).models().len() && ready(#[trigger] old(self).models()[i])
                    && (forall|j: int| 0 <= j < i ==> !ready(#[trigger] old(self).models()[j]))
                    && poll_step(old(self).models()[i]).1 == PollModel::NextMessage(x@)
                    && final(self).models() == old(self).models().update(
                    i,
                    poll_step(old(self).models()[i]).0,
                ),
    {
        let ghost old_models = self.models();
        let mut i: usize = 0;
        while i < self.decisions.len()
            invariant
                self.wf(),
                self.me == old(self).me,
                self.watermark == old(self).watermark,
                self.seq_no == old(self).seq_no,
                self.tbo == old(self).tbo,
                self.delivered == old(self).delivered,
                self.first == old(self).first,
                self.models() == old_models,
                old_models == old(self).models(),
                i <= self.decisions@.len(),
                forall|j: int| 0 <= j < i ==> !ready(#[trigger] old_models[j]),
            decreases self.decisions.len() - i,
        {
            let ghost before = self.decisions@[i as int]@;
            match self.decisions[i].poll() {
                DecisionPoll::NextMessage(m) => {
                    proof {
                        assert(self.models() =~= old_models.update(i as int, poll_step(before).0));
                        crate::decision::lemma_poll_preserves_wf(before);
                        assert(before == old_models[i as int]);
                        assert(poll_step(old_models[i as int]).1 == PollModel::NextMessage(m@));
                        assert(ready(old_models[i as int]));
                    }
                    return ConsensusPoll::NextMessage(m);
                },
                _ => {
                    proof {
                        assert(self.models() =~= old_models);
                    }
                },
            }
            i += 1;
        }
        ConsensusPoll::Recv
    }

    /// Routes `m` to its instance and processes it there; messages past the
    /// window are held, stale ones dropped. Returns the instance's status and
    /// the votes to broadcast.
    pub fn process_message(&mut self, m: ConsensusMessage) -> (r: (DecisionStatus, Vec<ConsensusMessage>))
        requires
            old(self).wf(),
        ensures
            final(self).delivered == old(self).delivered,
            final(self).first == old(self).first,
            final(self).wf(),
            final(self).me == old(self).me,
            final(self).watermark == old(self).watermark,
            final(self).seq_no == old(self).seq_no,
            !(old(self).seq_no.value <= m.seq.value < old(self).tbo.base.value) ==> r.0
                == DecisionStatus::Deciding && r.1@.len() == 0 && final(self).models() == old(
                self,
            ).models(),
            m.seq.value < old(self).seq_no.value ==> final(self).tbo == old(self).tbo,
            m.seq.value >= old(self).tbo.base.value ==> final(self).tbo.buckets_view()
                == crate::ordering::queued_buckets(
                old(self).tbo.buckets_view(),
                m.seq.value - old(self).tbo.base.value,
                m,
            ),
            old(self).seq_no.value <= m.seq.value < old(self).tbo.base.value ==> {
                let i = m.seq.value - old(self).seq_no.value;
                let s = step(old(self).models()[i], m@);
                &&& final(self).tbo == old(self).tbo
                &&& final(self).models() == old(self).models().update(i, s.0)
                &&& r.0 == s.1
                &&& msgs_view(r.1@) == s.2
            },
    {
        match m.seq.index(self.seq_no) {
            SeqIndex::Stale(_) => (DecisionStatus::Deciding, Vec::new()),
            SeqIndex::Offset(i) => {
                if i >= self.decisions.len() {
                    let s = m.seq;
                    self.tbo.queue(s, m);
                    (DecisionStatus::Deciding, Vec::new())
                } else {
                    let ghost old_models = self.models();
                    let ghost mv = m@;
                    let r = self.decisions[i].process_message(m);
                    proof {
                        assert(self.models() =~= old_models.update(i as int, step(old_models[i as int], mv).0));
                    }
                    r
                }
            },
        }
    }

    /// When the first instance has decided: removes it, opens the next
    /// instance at the end of the window in `view` (seeded with the messages
    /// held for it) and returns the decided batch. Otherwise nothing changes.
    pub fn finalize(&mut self, view: &ViewInfo) -> (r: Option<CompletedBatch>)
        requires
            old(self).wf(),
            view.wf(),
            view@.is_member(old(self).me),
            old(self).seq_no.value + old(self).watermark < SEQ_MAX,
        ensures
            final(self).first == old(self).first,
            r is None ==> final(self).delivered == old(self).delivered,
            r matches Some(b) ==> final(self).delivered@ == old(self).delivered@.push(b.seq.value),
            final(self).wf(),
            final(self).me == old(self).me,
            final(self).watermark == old(self).watermark,
            r.is_some() == (old(self).models()[0].phase == DecisionPhase::Decided),
            r is None ==> final(self).models() == old(self).models() && final(self).seq_no == old(
                self,
            ).seq_no && final(self).tbo == old(self).tbo,
            r matches Some(b) ==> {
                &&& b.seq == old(self).seq_no
                &&& Some(b.digest) == old(self).models()[0].digest
                &&& b.batch@ == old(self).models()[0].batch
                &&& b.prepare_voters@ == old(self).models()[0].prepare_voters
                &&& b.commit_voters@ == old(self).models()[0].commit_voters
                &&& final(self).seq_no.value == old(self).seq_no.value + 1
                &&& final(self).tbo.buckets_view() == crate::ordering::advanced_buckets(
                    old(self).tbo.buckets_view(),
                )
                &&& final(self).models().subrange(0, old(self).watermark - 1)
                    == old(self).models().drop_first()
                &&& final(self).models()[old(self).watermark - 1] == initial(
                    (old(self).seq_no.value + old(self).watermark) as u32,
                    view@,
                    old(self).me,
                    bucket_of(old(self).tbo.buckets_view(), 0).map_values(|m: ConsensusMessage| m@).filter(|m: MsgModel| m.kind is PrePrepare),
                    bucket_of(old(self).tbo.buckets_view(), 0).map_values(|m: ConsensusMessage| m@).filter(|m: MsgModel| m.kind is Prepare),
                    bucket_of(old(self).tbo.buckets_view(), 0).map_values(|m: ConsensusMessage| m@).filter(|m: MsgModel| m.kind is Commit),
                )
            },
    {
        if !self.decisions[0].is_finalizeable() {
            return None;
        }
        let ghost old_models = self.models();
        let ghost old_buckets = self.tbo.buckets_view();
        let d = self.decisions.remove(0);
        self.seq_no = self.seq_no.next();
        self.delivered = Ghost(self.delivered@.push(d.seq.value));
        let held = self.tbo.advance();
        proof {
            assert(msgs_view(held@) =~= held@.map_values(|m: ConsensusMessage| m@));
        }
        let queue = MessageQueue::from_messages(held);
        let tail_seq = SeqNo::from_u32(self.seq_no.value + self.watermark - 1);
        let tail = Decision::with_queue(tail_seq, view, self.me, queue);
        self.decisions.push(tail);
        proof {
            assert(self.models().subrange(0, self.watermark - 1) =~= old_models.drop_first());
        }
        Some(d.finalize())
    }

    /// Drops every instance and held message and opens a fresh window of
    /// `W` instances starting at `seq` in `view`.
    pub fn install_sequence_number(&mut self, seq: SeqNo, view: &ViewInfo)
        requires
            old(self).wf(),
            view.wf(),
            view@.is_member(old(self).me),
            seq.value + old(self).watermark <= SEQ_MAX,
        ensures
            final(self).delivered@.len() == 0,
            final(self).first@ == seq.value,
            final(self).wf(),
            final(self).me == old(self).me,
            final(self).watermark == old(self).watermark,
            final(self).seq_no == seq,
            final(self).watermark == old(self).watermark,
            final(self).me == old(self).me,
            forall|i: int| 0 <= i < old(self).watermark ==> #[trigger] final(self).models()[i]
                == initial((seq.value + i) as u32, view@, old(self).me, Seq::empty(), Seq::empty(), Seq::empty()),
            final(self).tbo.buckets_view().len() == 0,
    {
        *self = Consensus::new_replica(self.me, view, seq, self.watermark);
    }
}

/// Batches leave a window in gap-free increasing order: the numbers
/// finalized since it was built are consecutive, from its first number up
/// to the one before the current head.
pub proof fn lemma_delivery_in_order(c: Consensus)
    requires
        c.wf(),
    ensures
        forall|i: int| 0 <= i < c.delivered@.len() ==> #[trigger] c.delivered@[i] == c.first@ + i,
        forall|i: int| 0 < i < c.delivered@.len() ==> #[trigger] c.delivered@[i] == c.delivered@[i - 1] + 1,
        c.first@ + c.delivered@.len() == c.seq_no.value,
{
    assert forall|i: int| 0 < i < c.delivered@.len() implies #[trigger] c.delivered@[i] == c.delivered@[i - 1] + 1 by {
        assert(c.delivered@[i - 1] == c.first@ + (i - 1));
    }
}

} // verus!
