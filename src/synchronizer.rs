//! The view change state machine. It decides; the caller sends what it is
//! told to send and feeds back what arrives.
use vstd::prelude::*;

use crate::message::ConsensusMessage;
use crate::ordering::{NodeId, SeqNo, SEQ_MAX};
use crate::sync::{
    curr_cid, sound, CollectData, Sound, StopKind, StopOutcome, StopTracker,
    TrackerModel, stop_step,
};
use crate::view::{ViewInfo, ViewModel, contains_node};

verus! {

#[derive(Clone, Copy, Debug, PartialEq, Eq, Structural)]
pub enum ProtoPhase {
    Init,
    /// Counting STOPs; ours is not sent yet.
    Stopping,
    /// Counting STOPs; ours is sent.
    Stopping2,
    /// Counting STOP-QUORUM-JOINs; ours is not sent yet.
    ViewStopping,
    /// Counting STOP-QUORUM-JOINs; ours is sent.
    ViewStopping2,
    /// New leader: collecting STOP-DATA.
    StoppingData,
    /// Waiting for the new leader's SYNC.
    Syncing,
    /// Waiting for state transfer before the new view can start.
    SyncingState,
}

/// The new leader's SYNC: its forged PRE-PREPARE and the STOP-DATA it
/// collected, whose signatures the caller has checked.
pub struct LeaderCollects {
    pub proposed: ConsensusMessage,
    pub collects: Vec<CollectData>,
}

pub enum ViewChangeKind {
    Stop(Vec<u64>),
    StopQuorumJoin(NodeId),
    StopData(CollectData),
    Sync(LeaderCollects),
    /// A node outside the group asks to join it.
    NodeQuorumJoin(NodeId),
}

/// A view change message for view `view`, with the sender from its header.
pub struct ViewChangeMessage {
    pub view: SeqNo,
    pub from: NodeId,
    pub kind: ViewChangeKind,
}

/// The outcome of a view change; kept while the new view waits for state
/// transfer.
#[derive(Clone, Copy, Debug, PartialEq, Eq, Structural)]
pub struct FinalizeState {
    pub curr_cid: SeqNo,
    pub sound: Sound,
    /// Number of the highest valid proof among the collects.
    pub proof_seq: Option<SeqNo>,
    pub joined: Option<NodeId>,
}

/// What the caller has to do.
pub enum SynchronizerStatus {
    Nil,
    Running,
    /// Broadcast our STOP, carrying these requests, to the members.
    SendStop(Vec<u64>),
    /// Broadcast our STOP-QUORUM-JOIN for this node.
    SendStopQuorumJoin(NodeId),
    /// A quorum of STOPs is in: send our STOP-DATA to the next leader.
    SendStopData(NodeId),
    /// As new leader with a quorum of STOP-DATA: forge the PRE-PREPARE for
    /// `curr_cid` and broadcast it with the collects in a SYNC; the view
    /// change is then complete as in `NewView`.
    ForgeAndSync(FinalizeState, Option<SeqNo>),
    /// The new view is installed; resume consensus at `curr_cid`, first
    /// executing the decision of the proof numbered as given, if any.
    NewView(FinalizeState, Option<SeqNo>, Option<ConsensusMessage>),
    /// The collects are not sound and there is nothing to propose: nothing
    /// is installed, and the view change waits for the next timeout.
    NoValue(FinalizeState),
    /// Decisions are missing: run state transfer, then resume.
    RunCst,
}

/// The outcome of asking to start a join vote.
#[derive(Clone, Copy, Debug, PartialEq, Eq, Structural)]
pub enum SyncReconfigurationResult {
    /// No further view can follow: the sequence numbers are used up.
    Failed,
    OnGoingViewChange,
    OnGoingQuorumChange(NodeId),
    AlreadyPartOfQuorum,
    InProgress,
}

pub struct Synchronizer {
    pub me: NodeId,
    pub phase: ProtoPhase,
    pub view: ViewInfo,
    pub next_view: Option<ViewInfo>,
    pub stops: StopTracker,
    pub collect_senders: Vec<NodeId>,
    pub collects: Vec<CollectData>,
    /// Messages that arrived before their phase, in arrival order.
    pub pending: Vec<ViewChangeMessage>,
    pub finalize_state: Option<FinalizeState>,
    /// The view installed before the current one.
    pub previous_view: Option<ViewInfo>,
    /// Policy: abandon a view change whose collects are not sound, even
    /// with a value to propose.
    pub cancel_unsound: bool,
}

/// Whether a phase is past the STOP count, with the next view known.
pub open spec fn has_next(p: ProtoPhase) -> bool {
    p == ProtoPhase::StoppingData || p == ProtoPhase::Syncing || p == ProtoPhase::SyncingState
}

pub open spec fn last_of(l: Option<SeqNo>) -> int {
    match l {
        Some(s) => s.value as int,
        None => 0,
    }
}

pub open spec fn seq_or_zero(s: Option<SeqNo>) -> int {
    match s {
        Some(s) => s.value as int,
        None => 0,
    }
}

/// The outcome of a view change over `cs` in view `w`: the highest valid
/// proof (if any), the number one past it where the new view resumes, and
/// the soundness of the collects for that number.
pub open spec fn outcome_ok(st: FinalizeState, cs: Seq<CollectData>, w: ViewModel) -> bool {
    &&& st.proof_seq is None ==> st.curr_cid.value == 0 && forall|i: int|
        0 <= i < cs.len() ==> !crate::sync::has_valid_proof(#[trigger] cs[i], w.quorum())
    &&& st.proof_seq matches Some(p) ==> {
        &&& st.curr_cid.value == crate::ordering::next_value(p.value)
        &&& exists|k: int| 0 <= k < cs.len() && crate::sync::has_valid_proof(#[trigger] cs[k], w.quorum())
            && crate::sync::proof_seq(cs[k]) == p.value
        &&& forall|i: int| 0 <= i < cs.len() && crate::sync::has_valid_proof(#[trigger] cs[i], w.quorum())
            ==> crate::sync::proof_seq(cs[i]) <= p.value
    }
    &&& st.sound is Bound ==> exists|ts: u32| #[trigger] crate::sync::binds(w, cs, st.curr_cid.value, ts, st.sound->Bound_0)
    &&& st.sound matches Sound::Unbound(b) ==> b == crate::sync::unbound(w, cs, st.curr_cid.value)
        && forall|ts: u32, v: crate::message::Digest| !#[trigger] crate::sync::binds(w, cs, st.curr_cid.value, ts, v)
}

pub open spec fn is_counting(p: ProtoPhase) -> bool {
    p == ProtoPhase::Stopping || p == ProtoPhase::Stopping2 || p == ProtoPhase::ViewStopping
        || p == ProtoPhase::ViewStopping2
}

/// Whether `m` is a STOP-DATA (`data`) or a SYNC for view `seq`.
pub open spec fn held_kind(m: ViewChangeMessage, seq: u32, data: bool) -> bool {
    m.view.value == seq && match m.kind {
        ViewChangeKind::StopData(_) => data,
        ViewChangeKind::Sync(_) => !data,
        _ => false,
    }
}

pub open spec fn tracker_active(t: TrackerModel) -> bool {
    t.senders.len() > 0 || t.joining is Some || t.sent_own
}

/// The phase after counting a STOP below quorum.
pub open spec fn phase_after_count(t: TrackerModel) -> ProtoPhase {
    if tracker_active(t) { counting_phase(t) } else { ProtoPhase::Init }
}

/// Whether the soundness outcome lets the view change go on.
pub open spec fn sound_ok(s: Sound) -> bool {
    match s {
        Sound::Unbound(b) => b,
        Sound::Bound(_) => true,
    }
}

/// The node that a view change from `v` to `nv` adds, when a join was voted.
pub open spec fn joined_in(j: Option<NodeId>, v: ViewModel, nv: ViewModel) -> Option<NodeId> {
    match j {
        Some(c) => if nv.is_member(c) && !v.is_member(c) { Some(c) } else { None },
        None => None,
    }
}

/// Whether a PRE-PREPARE proposes no request.
pub open spec fn proposes_nothing(m: ConsensusMessage) -> bool {
    match m.kind {
        crate::message::ConsensusKind::PrePrepare(_, b) => b@.len() == 0,
        _ => true,
    }
}

/// The outcome `st` of completing a view change from `old` with collects
/// `cs`, given our last execution.
pub open spec fn settled(st: FinalizeState, old: Synchronizer, cs: Seq<CollectData>) -> bool {
    &&& outcome_ok(st, cs, old.next_view->0@)
    &&& st.joined == joined_in(old.stops@.joining, old.view@, old.next_view->0@)
}

/// Whether the new view must wait for state transfer: the best proof is
/// more than one past our last execution.
pub open spec fn waits_for_state(st: FinalizeState, last: Option<SeqNo>) -> bool {
    last_of(last) + 1 < seq_or_zero(st.proof_seq)
}

/// The proof to catch up to: exactly the next one to execute.
pub open spec fn catch_up_of(st: FinalizeState, last: Option<SeqNo>) -> Option<SeqNo> {
    if last_of(last) + 1 == seq_or_zero(st.proof_seq) { st.proof_seq } else { None }
}

/// What a finished view change leaves. State transfer comes first: when
/// the best proof is more than one past our last execution, the new view
/// waits for it. Otherwise, when a value is missing (`blocked`) and the
/// collects are not sound, nothing is installed; else the next view is
/// installed, the previous one kept, and the STOP tally cleared.
pub open spec fn finished(
    r: SynchronizerStatus,
    new: Synchronizer,
    old: Synchronizer,
    cs: Seq<CollectData>,
    last: Option<SeqNo>,
    blocked: bool,
) -> bool {
    match r {
        SynchronizerStatus::ForgeAndSync(st, cu) => settled(st, old, cs) && !waits_for_state(st, last)
            && !(blocked && !sound_ok(st.sound)) && cu == catch_up_of(st, last) && installed(new, old),
        SynchronizerStatus::NewView(st, cu, _) => settled(st, old, cs) && !waits_for_state(st, last)
            && !(blocked && !sound_ok(st.sound)) && cu == catch_up_of(st, last) && installed(new, old),
        SynchronizerStatus::RunCst => new.finalize_state is Some && settled(new.finalize_state->0, old, cs)
            && waits_for_state(new.finalize_state->0, last) && new.phase == ProtoPhase::SyncingState
            && new.view@ == old.view@ && new.next_view == old.next_view,
        SynchronizerStatus::NoValue(st) => settled(st, old, cs) && !waits_for_state(st, last) && blocked
            && !sound_ok(st.sound) && new.phase == old.phase && new.view@ == old.view@
            && new.next_view == old.next_view,
        _ => false,
    }
}

/// The next view is installed: the old one becomes the previous view, the
/// phase is back to `Init` and the STOP tally (with any join candidate) is
/// cleared.
pub open spec fn installed(new: Synchronizer, old: Synchronizer) -> bool {
    &&& new.view@ == old.next_view->0@
    &&& new.previous_view is Some && new.previous_view->0@ == old.view@
    &&& new.phase == ProtoPhase::Init
    &&& new.stops@ == crate::sync::empty_tracker()
}

/// `m` is kept for later and nothing else changes.
pub open spec fn held(r: SynchronizerStatus, new: Synchronizer, old: Synchronizer, m: ViewChangeMessage) -> bool {
    &&& r is Running
    &&& new.pending@ == old.pending@.push(m)
    &&& new.phase == old.phase && new.view == old.view && new.next_view == old.next_view
    &&& new.stops == old.stops && new.collects == old.collects
}

/// Counting a STOP (or a STOP-QUORUM-JOIN) from `from`: the tally is
/// updated; below quorum the phase follows the tally and the reply is
/// `Nil` until more than `f` STOPs are in (no view change under way yet,
/// unless the STOP takes over from a join vote),
/// our own STOP once `f + 1` are in; at quorum the next view is known and
/// our STOP-DATA goes to its leader, which collects them.
pub open spec fn stop_counted(
    r: SynchronizerStatus,
    new: Synchronizer,
    old: Synchronizer,
    from: NodeId,
    kind: StopKind,
    reqs: Seq<u64>,
) -> bool {
    let s = stop_step(old.stops@, old.view@, from, kind, reqs);
    let nv = crate::sync::view_after_stops(s.0, old.view@);
    let takes_over = kind == StopKind::Stop && old.stops@.joining is Some && old.view@.is_member(from);
    &&& new.view == old.view
    &&& new.pending == old.pending
    &&& new.previous_view == old.previous_view
    &&& s.1 == StopOutcome::Install ==> if old.view@.seq < SEQ_MAX && old.view@.members.len() < usize::MAX {
        &&& r == SynchronizerStatus::SendStopData(nv.leader())
        &&& new.stops@ == s.0
        &&& new.next_view is Some && new.next_view->0@ == nv
        &&& new.phase == (if nv.leader() == old.me { ProtoPhase::StoppingData } else { ProtoPhase::Syncing })
        &&& new.collects@.len() == 0
    } else {
        r is Nil && new.phase == ProtoPhase::Init
    }
    &&& s.1 != StopOutcome::Install ==> {
        &&& new.stops@ == s.0
        &&& new.phase == phase_after_count(s.0)
        &&& new.next_view == old.next_view
        &&& s.1 == StopOutcome::SendOwnStop ==> match kind {
            StopKind::Stop => r is SendStop && r->SendStop_0@ == s.0.requests,
            StopKind::QuorumJoin(c) => r == SynchronizerStatus::SendStopQuorumJoin(c),
        }
        &&& s.1 != StopOutcome::SendOwnStop ==> r == (if takes_over || s.0.senders.len() > old.view@.f {
            SynchronizerStatus::Running
        } else {
            SynchronizerStatus::Nil
        })
    }
}

/// Whether the phase `p` of a synchronizer at view `v` can use `m` now.
pub open spec fn usable(m: ViewChangeMessage, v: int, p: ProtoPhase) -> bool {
    &&& m.view.value as int == v + 1
    &&& match m.kind {
        ViewChangeKind::Stop(_) | ViewChangeKind::StopQuorumJoin(_) => p == ProtoPhase::Init || is_counting(p),
        ViewChangeKind::StopData(_) => p == ProtoPhase::StoppingData,
        ViewChangeKind::Sync(_) => p == ProtoPhase::Syncing,
        ViewChangeKind::NodeQuorumJoin(_) => p == ProtoPhase::Init,
    }
}

/// The counting phase that matches a STOP tally.
pub open spec fn counting_phase(t: TrackerModel) -> ProtoPhase {
    match (t.joining, t.sent_own) {
        (Some(_), false) => ProtoPhase::ViewStopping,
        (Some(_), true) => ProtoPhase::ViewStopping2,
        (None, false) => ProtoPhase::Stopping,
        (None, true) => ProtoPhase::Stopping2,
    }
}

impl Synchronizer {
    pub open spec fn wf(&self) -> bool {
        &&& self.view.wf()
        &&& has_next(self.phase) == (self.next_view is Some)
        &&& self.next_view matches Some(nv) ==> nv.wf() && nv@.seq == self.view@.seq + 1
        &&& (self.phase == ProtoPhase::SyncingState) == (self.finalize_state is Some)
        &&& is_counting(self.phase) ==> self.phase == counting_phase(self.stops@)
        &&& self.phase == ProtoPhase::StoppingData ==> self.next_view->0@.leader() == self.me
        &&& self.previous_view matches Some(pv) ==> pv.wf() && pv@.seq < self.view@.seq
    }

    pub fn new(me: NodeId, view: ViewInfo) -> (r: Synchronizer)
        requires
            view.wf(),
        ensures
            r.wf(),
            r.phase == ProtoPhase::Init,
            r.view@ == view@,
            r.stops@ == crate::sync::empty_tracker(),
            r.previous_view is None,
            !r.cancel_unsound,
    {
        Synchronizer {
            me,
            phase: ProtoPhase::Init,
            view,
            next_view: None,
            stops: StopTracker::new(),
            collect_senders: Vec::new(),
            collects: Vec::new(),
            pending: Vec::new(),
            finalize_state: None,
            previous_view: None,
            cancel_unsound: false,
        }
    }

    pub fn view(&self) -> (r: &ViewInfo)
        ensures
            r@ == self.view@,
    {
        &self.view
    }

    /// Messages kept for a later phase, to be fed again after a phase change.
    pub fn take_pending(&mut self) -> (r: Vec<ViewChangeMessage>)
        ensures
            r@ == old(self).pending@,
            final(self).pending@.len() == 0,
            final(self).phase == old(self).phase,
            final(self).view@ == old(self).view@,
            final(self).wf() == old(self).wf(),
    {
        let mut taken: Vec<ViewChangeMessage> = Vec::new();
        std::mem::swap(&mut self.pending, &mut taken);
        taken
    }

    fn reset_round(&mut self)
        ensures
            final(self).previous_view == old(self).previous_view,
            final(self).cancel_unsound == old(self).cancel_unsound,
            final(self).stops@ == crate::sync::empty_tracker(),
            final(self).collects@.len() == 0,
            final(self).collect_senders@.len() == 0,
            final(self).phase == old(self).phase,
            final(self).view == old(self).view,
            final(self).next_view == old(self).next_view,
            final(self).finalize_state == old(self).finalize_state,
            final(self).me == old(self).me,
            final(self).pending == old(self).pending,
    {
        self.stops = StopTracker::new();
        self.collects = Vec::new();
        self.collect_senders = Vec::new();
    }

    /// Starts a view change of our own, after client requests timed out
    /// (`timed_out`) or after `f + 1` STOPs. Returns the requests our STOP
    /// carries, or `None` when the view change is already past that point.
    /// Outside the STOP count (and while waiting for state transfer) it starts
    /// afresh; a plain view change also takes over from a join vote.
    pub fn begin_view_change(&mut self, timed_out: &Vec<u64>) -> (r: Option<Vec<u64>>)
        requires
            old(self).wf(),
        ensures
            final(self).wf(),
            final(self).view@ == old(self).view@,
            final(self).me == old(self).me,
            (old(self).phase == ProtoPhase::Stopping2 || old(self).phase == ProtoPhase::StoppingData
                || old(self).phase == ProtoPhase::Syncing) ==> r is None && *final(self) == *old(self),
            old(self).phase == ProtoPhase::Stopping ==> r is Some && final(self).stops@ == (TrackerModel {
                sent_own: true,
                ..old(self).stops@
            }) && r->0@ == crate::sync::merge_requests(old(self).stops@.requests, timed_out@),
            !(old(self).phase == ProtoPhase::Stopping2 || old(self).phase == ProtoPhase::StoppingData
                || old(self).phase == ProtoPhase::Syncing || old(self).phase == ProtoPhase::Stopping) ==> {
                &&& r is Some
                &&& final(self).stops@ == (TrackerModel { sent_own: true, ..crate::sync::empty_tracker() })
                &&& final(self).stops@.requests.len() == 0
                &&& final(self).collects@.len() == 0
                &&& final(self).next_view is None
                &&& r->0@ == crate::sync::merge_requests(Seq::empty(), timed_out@)
            },
            r is Some ==> final(self).phase == ProtoPhase::Stopping2,
    {
        match self.phase {
            ProtoPhase::Stopping2 | ProtoPhase::StoppingData | ProtoPhase::Syncing => {
                return None;
            },
            ProtoPhase::Stopping => {},
            _ => {
                // a fresh start, or a plain view change taking over from a join vote
                self.reset_round();
                self.next_view = None;
                self.finalize_state = None;
            },
        }
        self.stops.begin_view_change();
        self.phase = ProtoPhase::Stopping2;
        Some(crate::sync::merged_requests(self.stops.requests_copy(), timed_out))
    }

    /// Starts a vote for `joining` to enter the group; on `InProgress` the
    /// caller broadcasts a STOP-QUORUM-JOIN for it. A view change under way
    /// refuses it, naming the node whose join is being installed if any.
    pub fn start_join_quorum(&mut self, joining: NodeId) -> (r: SyncReconfigurationResult)
        requires
            old(self).wf(),
        ensures
            final(self).wf(),
            old(self).view@.is_member(joining) ==> r == SyncReconfigurationResult::AlreadyPartOfQuorum,
            !old(self).view@.is_member(joining) && old(self).phase == ProtoPhase::Init ==> {
                &&& r == SyncReconfigurationResult::InProgress
                &&& final(self).phase == ProtoPhase::ViewStopping2
                &&& final(self).stops@ == (TrackerModel {
                    joining: Some(joining),
                    sent_own: true,
                    ..crate::sync::empty_tracker()
                })
                &&& final(self).view@ == old(self).view@
            },
            !old(self).view@.is_member(joining) && has_next(old(self).phase) ==> r == (match old(self).stops@.joining {
                Some(c) => SyncReconfigurationResult::OnGoingQuorumChange(c),
                None => SyncReconfigurationResult::OnGoingViewChange,
            }),
            !old(self).view@.is_member(joining) && is_counting(old(self).phase) ==> r
                == SyncReconfigurationResult::OnGoingViewChange,
            r != SyncReconfigurationResult::InProgress ==> *final(self) == *old(self),
    {
        if self.view.is_member(joining) {
            return SyncReconfigurationResult::AlreadyPartOfQuorum;
        }
        match self.phase {
            ProtoPhase::Init => {},
            ProtoPhase::StoppingData | ProtoPhase::Syncing | ProtoPhase::SyncingState => {
                return match self.stops.joining {
                    Some(c) => SyncReconfigurationResult::OnGoingQuorumChange(c),
                    None => SyncReconfigurationResult::OnGoingViewChange,
                };
            },
            _ => {
                return SyncReconfigurationResult::OnGoingViewChange;
            },
        }
        self.reset_round();
        self.stops.joining = Some(joining);
        self.stops.sent_own = true;
        self.phase = ProtoPhase::ViewStopping2;
        SyncReconfigurationResult::InProgress
    }

    fn hold(&mut self, m: ViewChangeMessage) -> (r: SynchronizerStatus)
        ensures
            final(self).previous_view == old(self).previous_view,
            final(self).cancel_unsound == old(self).cancel_unsound,
            r is Running,
            final(self).pending@ == old(self).pending@.push(m),
            final(self).phase == old(self).phase,
            final(self).view == old(self).view,
            final(self).next_view == old(self).next_view,
            final(self).stops == old(self).stops,
            final(self).collects == old(self).collects,
            final(self).collect_senders == old(self).collect_senders,
            final(self).finalize_state == old(self).finalize_state,
            final(self).me == old(self).me,
    {
        self.pending.push(m);
        SynchronizerStatus::Running
    }

    /// Works out the outcome of the view change over the collects gathered:
    /// the highest valid proof, where the new view resumes, whether a value
    /// is bound, and the node that joins.
    fn outcome(&self) -> (st: FinalizeState)
        requires
            self.wf(),
            has_next(self.phase),
        ensures
            settled(st, *self, self.collects@),
    {
        let nv = match &self.next_view {
            Some(v) => v.duplicate(),
            None => self.view.duplicate(),
        };
        let (cid, best) = curr_cid(&nv, &self.collects);
        let s = sound(&nv, &self.collects, cid.value);
        let proof_seq: Option<SeqNo> = match best {
            Some(k) => match &self.collects[k].last_proof {
                Some(p) => Some(p.seq),
                None => None,
            },
            None => None,
        };
        let joined = match self.stops.joining {
            Some(c) => if nv.is_member(c) && !self.view.is_member(c) { Some(c) } else { None },
            None => None,
        };
        let state = FinalizeState { curr_cid: cid, sound: s, proof_seq, joined };
        proof {
            let cs = self.collects@;
            if let Some(k) = best {
                assert(proof_seq == Some(cs[k as int].last_proof->0.seq));
                assert(crate::sync::has_valid_proof(cs[k as int], nv@.quorum()));
                assert(crate::sync::proof_seq(cs[k as int]) == proof_seq->0.value);
            }
            match s {
                Sound::Bound(v) => {
                    let ts = choose|ts: u32| #[trigger] crate::sync::binds(nv@, cs, cid.value, ts, v);
                    assert(crate::sync::binds(nv@, cs, state.curr_cid.value, ts, state.sound->Bound_0));
                },
                Sound::Unbound(_) => {},
            }
            assert(outcome_ok(state, cs, nv@));
        }
        state
    }

    /// Ends the view change with outcome `st`: installs the next view, or
    /// waits for state transfer when the best proof is more than one past
    /// our last execution. Returns the proof to catch up to, and whether
    /// state transfer is needed.
    fn finish(&mut self, st: FinalizeState, last_execution: Option<SeqNo>) -> (r: (Option<SeqNo>, bool))
        requires
            old(self).wf(),
            old(self).phase == ProtoPhase::StoppingData || old(self).phase == ProtoPhase::Syncing,
        ensures
            final(self).wf(),
            final(self).me == old(self).me,
            r.1 == waits_for_state(st, last_execution),
            r.0 == (if r.1 { None } else { catch_up_of(st, last_execution) }),
            r.1 ==> final(self).phase == ProtoPhase::SyncingState && final(self).view@ == old(self).view@
                && final(self).next_view == old(self).next_view && final(self).finalize_state == Some(st),
            !r.1 ==> installed(*final(self), *old(self)),
            final(self).cancel_unsound == old(self).cancel_unsound,
    {
        let last: u64 = match last_execution {
            Some(l) => l.value as u64,
            None => 0,
        };
        let p: u64 = match st.proof_seq {
            Some(q) => q.value as u64,
            None => 0,
        };
        if last + 1 < p {
            self.phase = ProtoPhase::SyncingState;
            self.finalize_state = Some(st);
            return (None, true);
        }
        let catch_up = if last + 1 == p { st.proof_seq } else { None };
        let nv = match &self.next_view {
            Some(v) => v.duplicate(),
            None => self.view.duplicate(),
        };
        self.install(nv);
        (catch_up, false)
    }

    fn install(&mut self, nv: ViewInfo)
        requires
            old(self).wf(),
            has_next(old(self).phase),
            nv@ == old(self).next_view->0@,
        ensures
            final(self).wf(),
            final(self).phase == ProtoPhase::Init,
            final(self).view@ == nv@,
            final(self).me == old(self).me,
            final(self).pending@ == old(self).pending@.filter(|m: ViewChangeMessage| m.view.value > nv@.seq),
            installed(*final(self), *old(self)),
            final(self).cancel_unsound == old(self).cancel_unsound,
    {
        let mut v = nv;
        std::mem::swap(&mut self.view, &mut v);
        self.previous_view = Some(v);
        self.next_view = None;
        self.finalize_state = None;
        self.phase = ProtoPhase::Init;
        self.reset_round();
        self.drop_stale();
    }

    /// Drops the held messages for views up to the installed one.
    fn drop_stale(&mut self)
        ensures
            final(self).previous_view == old(self).previous_view,
            final(self).cancel_unsound == old(self).cancel_unsound,
            final(self).pending@ == old(self).pending@.filter(|m: ViewChangeMessage| m.view.value > old(self).view@.seq),
            final(self).phase == old(self).phase,
            final(self).view == old(self).view,
            final(self).next_view == old(self).next_view,
            final(self).stops == old(self).stops,
            final(self).collects == old(self).collects,
            final(self).collect_senders == old(self).collect_senders,
            final(self).finalize_state == old(self).finalize_state,
            final(self).me == old(self).me,
    {
        let mut taken: Vec<ViewChangeMessage> = Vec::new();
        std::mem::swap(&mut taken, &mut self.pending);
        let total = taken.len();
        let ghost all = taken@;
        let ghost seq = self.view@.seq;
        let mut k: usize = 0;
        proof {
            assert(all.subrange(0, 0).filter(|m: ViewChangeMessage| m.view.value > seq) =~= self.pending@);
            assert(all.subrange(0, all.len() as int) =~= all);
        }
        while taken.len() > 0
            invariant
                k + taken@.len() == all.len(),
                all.len() == total,
                taken@ == all.subrange(k as int, all.len() as int),
                self.pending@ == all.subrange(0, k as int).filter(|m: ViewChangeMessage| m.view.value > seq),
                seq == self.view@.seq,
                self.view == old(self).view,
                self.phase == old(self).phase,
                self.next_view == old(self).next_view,
                self.stops == old(self).stops,
                self.collects == old(self).collects,
                self.collect_senders == old(self).collect_senders,
                self.finalize_state == old(self).finalize_state,
                self.me == old(self).me,
                self.previous_view == old(self).previous_view,
                self.cancel_unsound == old(self).cancel_unsound,
            decreases taken.len(),
        {
            let ghost before = taken@;
            let m = taken.remove(0);
            proof {
                assert(all[k as int] == m);
                assert(all.subrange(0, k + 1) =~= all.subrange(0, k as int).push(m));
                all.subrange(0, k as int).lemma_filter_push(m, |m: ViewChangeMessage| m.view.value > seq);
                assert(taken@ =~= all.subrange(k + 1, all.len() as int));
            }
            if m.view.value > self.view.seq.value {
                self.pending.push(m);
            }
            k = k + 1;
        }
        proof {
            assert(all.subrange(0, k as int) =~= all);
        }
    }

    /// Counts a STOP or STOP-QUORUM-JOIN for the next view.
    fn count_stop(&mut self, from: NodeId, kind: StopKind, reqs: &Vec<u64>) -> (r: SynchronizerStatus)
        requires
            old(self).wf(),
            old(self).phase == ProtoPhase::Init || is_counting(old(self).phase),
        ensures
            final(self).wf(),
            final(self).me == old(self).me,
            final(self).pending == old(self).pending,
            stop_counted(r, *final(self), *old(self), from, kind, reqs@),
    {
        let takes_over = kind == StopKind::Stop && self.stops.joining.is_some() && self.view.is_member(from);
        let out = self.stops.receive(&self.view, from, kind, reqs);
        match out {
            StopOutcome::Install => {
                if self.view.seq.value == SEQ_MAX || self.view.members.len() == usize::MAX {
                    // the sequence numbers are used up: no further view can follow
                    self.stops = StopTracker::new();
                    self.phase = ProtoPhase::Init;
                    return SynchronizerStatus::Nil;
                }
                let nv = self.stops.next_view(&self.view);
                let leader = nv.leader();
                self.next_view = Some(nv);
                self.collects = Vec::new();
                self.collect_senders = Vec::new();
                if leader == self.me {
                    self.phase = ProtoPhase::StoppingData;
                } else {
                    self.phase = ProtoPhase::Syncing;
                }
                SynchronizerStatus::SendStopData(leader)
            },
            _ => {
                if self.stops.senders.len() > 0 || self.stops.joining.is_some() || self.stops.sent_own {
                    self.phase = match (self.stops.joining, self.stops.sent_own) {
                        (Some(_), false) => ProtoPhase::ViewStopping,
                        (Some(_), true) => ProtoPhase::ViewStopping2,
                        (None, false) => ProtoPhase::Stopping,
                        (None, true) => ProtoPhase::Stopping2,
                    };
                } else {
                    self.phase = ProtoPhase::Init;
                }
                match out {
                    StopOutcome::SendOwnStop => match self.stops.joining {
                        Some(c) => SynchronizerStatus::SendStopQuorumJoin(c),
                        None => SynchronizerStatus::SendStop(self.stops.requests_copy()),
                    },
                    _ => {
                        // no view change is under way until more than f STOPs are in,
                        // unless this STOP takes over from a join vote
                        if takes_over || self.stops.senders.len() > self.view.f() {
                            SynchronizerStatus::Running
                        } else {
                            SynchronizerStatus::Nil
                        }
                    },
                }
            },
        }
    }

    /// Processes one view change message. `last_execution` is the number of
    /// the last decision executed, from the log; `have_requests` tells
    /// whether client requests wait to be proposed, should we lead the new
    /// view. Messages for a later view, or for a later phase, are kept;
    /// those for an earlier view dropped.
    pub fn process_message(
        &mut self,
        m: ViewChangeMessage,
        last_execution: Option<SeqNo>,
        have_requests: bool,
    ) -> (r: SynchronizerStatus)
        requires
            old(self).wf(),
        ensures
            final(self).wf(),
            final(self).me == old(self).me,
            // a view change moves the view one number forward, and only on completion
            final(self).view@ == old(self).view@ || (final(self).view@.seq == old(self).view@.seq + 1
                && (r is NewView || r is ForgeAndSync) && final(self).phase == ProtoPhase::Init),
            (m.view.value as int) < old(self).view@.seq + 1 ==> r is Nil && *final(self) == *old(self),
            (m.view.value as int) > old(self).view@.seq + 1 ==> held(r, *final(self), *old(self), m),
            (m.view.value as int) == old(self).view@.seq + 1 ==> match m.kind {
                ViewChangeKind::Stop(reqs) => if old(self).phase == ProtoPhase::Init || is_counting(old(self).phase) {
                    stop_counted(r, *final(self), *old(self), m.from, StopKind::Stop, reqs@)
                } else {
                    held(r, *final(self), *old(self), m)
                },
                ViewChangeKind::StopQuorumJoin(c) => if old(self).phase == ProtoPhase::Init || is_counting(old(self).phase) {
                    stop_counted(r, *final(self), *old(self), m.from, StopKind::QuorumJoin(c), Seq::empty())
                } else {
                    held(r, *final(self), *old(self), m)
                },
                ViewChangeKind::StopData(c) => if old(self).phase == ProtoPhase::StoppingData {
                    if old(self).collect_senders@.contains(m.from) {
                        r is Running && *final(self) == *old(self)
                    } else {
                        let cs = old(self).collects@.push(c);
                        if cs.len() < old(self).next_view->0@.quorum() {
                            &&& r is Running
                            &&& final(self).collects@ == cs
                            &&& final(self).collect_senders@ == old(self).collect_senders@.push(m.from)
                            &&& final(self).phase == old(self).phase
                            &&& final(self).view == old(self).view
                            &&& final(self).next_view == old(self).next_view
                        } else {
                            &&& r is ForgeAndSync || r is RunCst || r is NoValue
                            &&& finished(r, *final(self), *old(self), cs, last_execution,
                                !have_requests || old(self).cancel_unsound)
                        }
                    }
                } else {
                    held(r, *final(self), *old(self), m)
                },
                ViewChangeKind::Sync(lc) => if old(self).phase == ProtoPhase::Syncing {
                    if m.from != old(self).next_view->0@.leader() {
                        r is Running && *final(self) == *old(self)
                    } else {
                        &&& r is NewView || r is RunCst || r is NoValue
                        &&& finished(r, *final(self), *old(self), lc.collects@, last_execution,
                            proposes_nothing(lc.proposed) || old(self).cancel_unsound)
                        &&& r is NewView ==> r->NewView_2 == Some(lc.proposed)
                    }
                } else {
                    held(r, *final(self), *old(self), m)
                },
                ViewChangeKind::NodeQuorumJoin(c) => if old(self).phase == ProtoPhase::Init && m.from == c
                    && !old(self).view@.is_member(c) {
                    &&& r == SynchronizerStatus::SendStopQuorumJoin(c)
                    &&& final(self).phase == ProtoPhase::ViewStopping2
                    &&& final(self).stops@ == (TrackerModel {
                        joining: Some(c),
                        sent_own: true,
                        ..crate::sync::empty_tracker()
                    })
                    &&& final(self).view == old(self).view
                    &&& final(self).pending == old(self).pending
                } else {
                    r is Nil && *final(self) == *old(self)
                },
            },
    {
        let target: u64 = self.view.seq.value as u64 + 1;
        if (m.view.value as u64) < target {
            return SynchronizerStatus::Nil;
        }
        if (m.view.value as u64) > target {
            return self.hold(m);
        }
        if let ViewChangeKind::NodeQuorumJoin(c) = m.kind {
            if self.phase == ProtoPhase::Init && m.from == c && !self.view.is_member(c) {
                self.reset_round();
                self.stops.joining = Some(c);
                self.stops.sent_own = true;
                self.phase = ProtoPhase::ViewStopping2;
                return SynchronizerStatus::SendStopQuorumJoin(c);
            }
            return SynchronizerStatus::Nil;
        }
        match self.phase {
            ProtoPhase::Init | ProtoPhase::Stopping | ProtoPhase::Stopping2 | ProtoPhase::ViewStopping
            | ProtoPhase::ViewStopping2 => match m.kind {
                ViewChangeKind::Stop(reqs) => self.count_stop(m.from, StopKind::Stop, &reqs),
                ViewChangeKind::StopQuorumJoin(c) => self.count_stop(m.from, StopKind::QuorumJoin(c), &Vec::new()),
                _ => self.hold(m),
            },
            ProtoPhase::StoppingData => match m.kind {
                ViewChangeKind::StopData(c) => {
                    if contains_node(&self.collect_senders, m.from) {
                        return SynchronizerStatus::Running;
                    }
                    self.collect_senders.push(m.from);
                    self.collects.push(c);
                    let q = match &self.next_view {
                        Some(nv) => nv.quorum(),
                        None => 1,
                    };
                    if self.collects.len() < q {
                        return SynchronizerStatus::Running;
                    }
                    let st = self.outcome();
                    if !self.waits_for_state(&st, last_execution) && (!have_requests || self.cancel_unsound)
                        && !st.sound.test() {
                        return SynchronizerStatus::NoValue(st);
                    }
                    let (catch_up, run_cst) = self.finish(st, last_execution);
                    if run_cst {
                        SynchronizerStatus::RunCst
                    } else {
                        SynchronizerStatus::ForgeAndSync(st, catch_up)
                    }
                },
                _ => self.hold(m),
            },
            ProtoPhase::Syncing => {
                let leader = match &self.next_view {
                    Some(nv) => nv.leader(),
                    None => self.me,
                };
                match m.kind {
                    ViewChangeKind::Sync(lc) => {
                        if m.from != leader {
                            return SynchronizerStatus::Running;
                        }
                        self.collects = lc.collects;
                        self.collect_senders = Vec::new();
                        let st = self.outcome();
                        let empty = match &lc.proposed.kind {
                            crate::message::ConsensusKind::PrePrepare(_, b) => b.len() == 0,
                            _ => true,
                        };
                        if !self.waits_for_state(&st, last_execution) && (empty || self.cancel_unsound)
                            && !st.sound.test() {
                            return SynchronizerStatus::NoValue(st);
                        }
                        let (catch_up, run_cst) = self.finish(st, last_execution);
                        if run_cst {
                            SynchronizerStatus::RunCst
                        } else {
                            SynchronizerStatus::NewView(st, catch_up, Some(lc.proposed))
                        }
                    },
                    _ => self.hold(m),
                }
            },
            ProtoPhase::SyncingState => self.hold(m),
        }
    }

    fn waits_for_state(&self, st: &FinalizeState, last_execution: Option<SeqNo>) -> (r: bool)
        ensures
            r == waits_for_state(*st, last_execution),
    {
        let last: u64 = match last_execution {
            Some(l) => l.value as u64,
            None => 0,
        };
        let p: u64 = match st.proof_seq {
            Some(q) => q.value as u64,
            None => 0,
        };
        last + 1 < p
    }

    /// Sets the policy on unsound collects: when on, a view change whose
    /// collects are not sound is abandoned even with a value to propose.
    pub fn set_cancel_unsound(&mut self, on: bool)
        requires
            old(self).wf(),
        ensures
            final(self).wf(),
            *final(self) == (Synchronizer { cancel_unsound: on, ..*old(self) }),
    {
        self.cancel_unsound = on;
    }

    /// Our own entry into the group: the next view is the current one with
    /// us added, and we wait for its STOP-DATA (as its leader) or its SYNC.
    pub fn attempt_join_quorum(&mut self) -> (r: SyncReconfigurationResult)
        requires
            old(self).wf(),
        ensures
            final(self).wf(),
            final(self).view@ == old(self).view@,
            (old(self).view@.is_member(old(self).me) || (old(self).next_view is Some
                && old(self).next_view->0@.is_member(old(self).me))) ==> r
                == SyncReconfigurationResult::AlreadyPartOfQuorum && *final(self) == *old(self),
            r == SyncReconfigurationResult::Failed ==> *final(self) == *old(self)
                && (old(self).view@.seq == SEQ_MAX || old(self).view@.members.len() == usize::MAX),
            !(old(self).view@.is_member(old(self).me) || (old(self).next_view is Some
                && old(self).next_view->0@.is_member(old(self).me))) && old(self).view@.seq < SEQ_MAX
                && old(self).view@.members.len() < usize::MAX ==> {
                let nv = crate::sync::view_after_stops(
                    TrackerModel { joining: Some(old(self).me), ..crate::sync::empty_tracker() },
                    old(self).view@,
                );
                &&& r == SyncReconfigurationResult::InProgress
                &&& final(self).next_view is Some && final(self).next_view->0@ == nv
                &&& nv.members == old(self).view@.members.push(old(self).me)
                &&& final(self).stops@.joining == Some(old(self).me)
                &&& final(self).phase == (if nv.leader() == old(self).me {
                    ProtoPhase::StoppingData
                } else {
                    ProtoPhase::Syncing
                })
            },
    {
        let me = self.me;
        if self.view.is_member(me) {
            return SyncReconfigurationResult::AlreadyPartOfQuorum;
        }
        match &self.next_view {
            Some(nv) => {
                if nv.is_member(me) {
                    return SyncReconfigurationResult::AlreadyPartOfQuorum;
                }
            },
            None => {},
        }
        if self.view.seq.value == SEQ_MAX || self.view.members.len() == usize::MAX {
            return SyncReconfigurationResult::Failed;
        }
        self.reset_round();
        self.stops.joining = Some(me);
        let nv = self.stops.next_view(&self.view);
        let leader = nv.leader();
        self.next_view = Some(nv);
        self.finalize_state = None;
        self.phase = if leader == me { ProtoPhase::StoppingData } else { ProtoPhase::Syncing };
        SyncReconfigurationResult::InProgress
    }

    /// Once state transfer has run: installs the view that was waiting for it.
    pub fn resume_view_change(&mut self) -> (r: Option<FinalizeState>)
        requires
            old(self).wf(),
        ensures
            final(self).wf(),
            r is Some == (old(self).phase == ProtoPhase::SyncingState),
            r is Some ==> r == old(self).finalize_state && final(self).phase == ProtoPhase::Init
                && final(self).view@ == old(self).next_view->0@,
            r is None ==> final(self).view@ == old(self).view@ && final(self).phase == old(self).phase,
    {
        match self.phase {
            ProtoPhase::SyncingState => {},
            _ => return None,
        }
        let st = self.finalize_state;
        let nv = match &self.next_view {
            Some(v) => v.duplicate(),
            None => self.view.duplicate(),
        };
        self.install(nv);
        st
    }

    /// Whether a STOP-DATA (`data`) or a SYNC for view `seq` is held.
    fn holds(&self, seq: u32, data: bool) -> (r: bool)
        ensures
            r == exists|i: int| 0 <= i < self.pending@.len() && #[trigger] held_kind(self.pending@[i], seq, data),
    {
        let mut i: usize = 0;
        while i < self.pending.len()
            invariant
                i <= self.pending@.len(),
                forall|j: int| 0 <= j < i ==> !#[trigger] held_kind(self.pending@[j], seq, data),
            decreases self.pending.len() - i,
        {
            let m = &self.pending[i];
            let hit = m.view.value == seq && match m.kind {
                ViewChangeKind::StopData(_) => data,
                ViewChangeKind::Sync(_) => !data,
                _ => false,
            };
            if hit {
                proof { assert(held_kind(self.pending@[i as int], seq, data)); }
                return true;
            }
            i += 1;
        }
        false
    }

    /// A view learned through state transfer. When it is the next view and
    /// the messages that complete its view change are already held (STOP-DATA
    /// for us as its leader, or its SYNC), the view change resumes at that
    /// point and true is returned: the caller then processes the held
    /// messages. Otherwise a later view is installed at once.
    pub fn received_view_from_state_transfer(&mut self, view: ViewInfo) -> (r: bool)
        requires
            old(self).wf(),
            view.wf(),
        ensures
            final(self).wf(),
            view@.seq <= old(self).view@.seq ==> !r && final(self).view@ == old(self).view@
                && final(self).phase == old(self).phase,
            r == (view@.seq == old(self).view@.seq + 1 && ((view@.leader() == old(self).me && exists|i: int|
                0 <= i < old(self).pending@.len() && #[trigger] held_kind(old(self).pending@[i], view@.seq, true))
                || exists|i: int| 0 <= i < old(self).pending@.len() && #[trigger] held_kind(old(self).pending@[i], view@.seq, false))),
            r ==> final(self).view@ == old(self).view@ && final(self).next_view is Some
                && final(self).next_view->0@ == view@
                && (final(self).phase == ProtoPhase::StoppingData || final(self).phase == ProtoPhase::Syncing),
            !r && view@.seq > old(self).view@.seq ==> final(self).view@ == view@ && final(self).phase == ProtoPhase::Init
                && final(self).pending@ == old(self).pending@.filter(|m: ViewChangeMessage| m.view.value > view@.seq),
            !(!r && view@.seq > old(self).view@.seq) ==> final(self).pending@ == old(self).pending@,
    {
        if view.seq.value <= self.view.seq.value {
            return false;
        }
        if view.seq.value as u64 == self.view.seq.value as u64 + 1 {
            let lead = view.leader() == self.me && self.holds(view.seq.value, true);
            let sync = !lead && self.holds(view.seq.value, false);
            if lead || sync {
                self.reset_round();
                self.finalize_state = None;
                self.phase = if lead { ProtoPhase::StoppingData } else { ProtoPhase::Syncing };
                self.next_view = Some(view);
                return true;
            }
        }
        let mut v = view;
        std::mem::swap(&mut self.view, &mut v);
        self.previous_view = Some(v);
        self.next_view = None;
        self.finalize_state = None;
        self.phase = ProtoPhase::Init;
        self.reset_round();
        self.drop_stale();
        false
    }

    fn can_use(&self, m: &ViewChangeMessage) -> (r: bool)
        ensures
            r == usable(*m, self.view@.seq as int, self.phase),
    {
        if m.view.value as u64 != self.view.seq.value as u64 + 1 {
            return false;
        }
        match m.kind {
            ViewChangeKind::Stop(_) | ViewChangeKind::StopQuorumJoin(_) => match self.phase {
                ProtoPhase::Init | ProtoPhase::Stopping | ProtoPhase::Stopping2 | ProtoPhase::ViewStopping
                | ProtoPhase::ViewStopping2 => true,
                _ => false,
            },
            ViewChangeKind::StopData(_) => self.phase == ProtoPhase::StoppingData,
            ViewChangeKind::Sync(_) => self.phase == ProtoPhase::Syncing,
            ViewChangeKind::NodeQuorumJoin(_) => self.phase == ProtoPhase::Init,
        }
    }

    /// Takes the first held message that the current phase can use, to be
    /// processed next.
    pub fn poll(&mut self) -> (r: Option<ViewChangeMessage>)
        requires
            old(self).wf(),
        ensures
            final(self).wf(),
            final(self).view@ == old(self).view@,
            final(self).phase == old(self).phase,
            r is None ==> final(self).pending@ == old(self).pending@ && forall|j: int|
                0 <= j < old(self).pending@.len() ==> !usable(#[trigger] old(self).pending@[j], old(self).view@.seq as int, old(self).phase),
            r is Some ==> exists|i: int| #![trigger old(self).pending@[i]] 0 <= i < old(self).pending@.len()
                && old(self).pending@[i] == r->0
                && usable(r->0, old(self).view@.seq as int, old(self).phase)
                && final(self).pending@ == old(self).pending@.remove(i)
                && forall|j: int| 0 <= j < i ==> !usable(#[trigger] old(self).pending@[j], old(self).view@.seq as int, old(self).phase),
    {
        let mut i: usize = 0;
        while i < self.pending.len()
            invariant
                i <= self.pending@.len(),
                *self == *old(self),
                self.wf(),
                forall|j: int| 0 <= j < i ==> !usable(#[trigger] self.pending@[j], self.view@.seq as int, self.phase),
            decreases self.pending.len() - i,
        {
            if self.can_use(&self.pending[i]) {
                let m = self.pending.remove(i);
                proof {
                    assert(old(self).pending@[i as int] == m);
                }
                return Some(m);
            }
            i += 1;
        }
        None
    }

}

} // verus!
