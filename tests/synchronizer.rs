use febft::message::{ConsensusKind, ConsensusMessage, Digest};
use febft::ordering::{NodeId, SeqNo};
use febft::sync::{CollectData, IncompleteProof, Proof, ProofVote, Sound};
use febft::synchronizer::{
    LeaderCollects, ProtoPhase, SyncReconfigurationResult, Synchronizer, SynchronizerStatus,
    ViewChangeKind, ViewChangeMessage,
};
use febft::view::ViewInfo;

fn view(ids: &[u32]) -> ViewInfo {
    ViewInfo::new(SeqNo::zero(), ids.iter().map(|i| NodeId::new(*i)).collect()).unwrap()
}

fn digest(x: u64) -> Digest {
    Digest { w0: x, w1: 0, w2: 0, w3: 0 }
}

fn vc(view: u32, from: u32, kind: ViewChangeKind) -> ViewChangeMessage {
    ViewChangeMessage { view: SeqNo::from_u32(view), from: NodeId::new(from), kind }
}

fn blank_collect(in_exec: u32) -> CollectData {
    CollectData {
        incomplete_proof: IncompleteProof { in_exec: SeqNo::from_u32(in_exec), quorum_prepares: None, write_set: vec![] },
        last_proof: None,
    }
}

fn proven_collect(seq: u32) -> CollectData {
    let d = digest(0xD1);
    let votes: Vec<ProofVote> = (0..4).map(|i| ProofVote { from: NodeId::new(i), digest: d, signed: true }).collect();
    CollectData {
        incomplete_proof: IncompleteProof { in_exec: SeqNo::from_u32(seq + 1), quorum_prepares: None, write_set: vec![] },
        last_proof: Some(Proof { seq: SeqNo::from_u32(seq), digest: d, prepares: votes.clone(), commits: votes }),
    }
}

fn forged(requests: Vec<u64>) -> ConsensusMessage {
    ConsensusMessage {
        seq: SeqNo::zero(),
        view: SeqNo::from_u32(1),
        from: NodeId::new(1),
        kind: ConsensusKind::PrePrepare(digest(0xF), requests),
    }
}

#[test]
fn leader_crash_follower_side() {
    let r: u64 = 42;
    let mut s = Synchronizer::new(NodeId::new(2), view(&[0, 1, 2, 3]));
    assert_eq!(s.begin_view_change(&vec![r]), Some(vec![r]));
    assert_eq!(s.phase, ProtoPhase::Stopping2);
    assert_eq!(s.begin_view_change(&vec![r]), None);
    // no view change is under way until more than f STOPs are in
    assert!(matches!(s.process_message(vc(1, 1, ViewChangeKind::Stop(vec![r])), None, true), SynchronizerStatus::Nil));
    assert!(matches!(s.process_message(vc(1, 1, ViewChangeKind::Stop(vec![r])), None, true), SynchronizerStatus::Nil));
    assert!(matches!(s.process_message(vc(1, 2, ViewChangeKind::Stop(vec![r])), None, true), SynchronizerStatus::Running));
    match s.process_message(vc(1, 3, ViewChangeKind::Stop(vec![r])), None, true) {
        SynchronizerStatus::SendStopData(l) => assert_eq!(l, NodeId::new(1)),
        _ => panic!("expected the STOP quorum"),
    }
    assert_eq!(s.phase, ProtoPhase::Syncing);
    // a SYNC from anyone but the new leader is ignored
    let lc = || LeaderCollects { proposed: forged(vec![r]), collects: vec![blank_collect(0), blank_collect(0), blank_collect(0)] };
    assert!(matches!(s.process_message(vc(1, 3, ViewChangeKind::Sync(lc())), None, true), SynchronizerStatus::Running));
    match s.process_message(vc(1, 1, ViewChangeKind::Sync(lc())), None, true) {
        SynchronizerStatus::NewView(st, catch_up, Some(p)) => {
            assert_eq!(st.curr_cid.value(), 0);
            assert_eq!(st.proof_seq, None);
            assert_eq!(st.sound, Sound::Unbound(true));
            assert_eq!(catch_up, None);
            assert!(matches!(p.kind, ConsensusKind::PrePrepare(_, ref rq) if rq.contains(&r)));
        }
        _ => panic!("expected the new view"),
    }
    assert_eq!(s.view().sequence_number().value(), 1);
    assert_eq!(s.view().leader(), NodeId::new(1));
    assert_eq!(s.phase, ProtoPhase::Init);
}

#[test]
fn leader_crash_new_leader_side() {
    let mut s = Synchronizer::new(NodeId::new(1), view(&[0, 1, 2, 3]));
    for from in [1, 2] {
        s.process_message(vc(1, from, ViewChangeKind::Stop(vec![42])), None, true);
    }
    assert!(matches!(s.process_message(vc(1, 3, ViewChangeKind::Stop(vec![42])), None, true), SynchronizerStatus::SendStopData(_)));
    assert_eq!(s.phase, ProtoPhase::StoppingData);
    for from in [1, 2] {
        assert!(matches!(s.process_message(vc(1, from, ViewChangeKind::StopData(blank_collect(0))), None, true), SynchronizerStatus::Running));
    }
    // a repeated sender does not count
    assert!(matches!(s.process_message(vc(1, 2, ViewChangeKind::StopData(blank_collect(0))), None, true), SynchronizerStatus::Running));
    match s.process_message(vc(1, 3, ViewChangeKind::StopData(blank_collect(0))), None, true) {
        SynchronizerStatus::ForgeAndSync(st, None) => assert_eq!(st.curr_cid.value(), 0),
        _ => panic!("expected to forge the proposal"),
    }
    assert_eq!(s.view().sequence_number().value(), 1);
}

fn reach_syncing(me: u32) -> Synchronizer {
    let mut s = Synchronizer::new(NodeId::new(me), view(&[0, 1, 2, 3]));
    for from in [0, 2, 3] {
        s.process_message(vc(1, from, ViewChangeKind::Stop(vec![])), None, true);
    }
    s
}

#[test]
fn missing_decisions_run_state_transfer() {
    let mut s = reach_syncing(2);
    let lc = LeaderCollects { proposed: forged(vec![]), collects: vec![proven_collect(7), proven_collect(7), blank_collect(8)] };
    assert!(matches!(s.process_message(vc(1, 1, ViewChangeKind::Sync(lc)), Some(SeqNo::from_u32(2)), true), SynchronizerStatus::RunCst));
    assert_eq!(s.phase, ProtoPhase::SyncingState);
    assert_eq!(s.view().sequence_number().value(), 0);
    let st = s.resume_view_change().unwrap();
    assert_eq!(st.curr_cid.value(), 8);
    assert_eq!(st.proof_seq, Some(SeqNo::from_u32(7)));
    assert_eq!(s.view().sequence_number().value(), 1);
    assert!(s.resume_view_change().is_none());
}

#[test]
fn next_decision_is_caught_up() {
    let mut s = reach_syncing(2);
    let lc = LeaderCollects { proposed: forged(vec![]), collects: vec![proven_collect(7), blank_collect(8), blank_collect(8)] };
    match s.process_message(vc(1, 1, ViewChangeKind::Sync(lc)), Some(SeqNo::from_u32(6)), true) {
        SynchronizerStatus::NewView(st, catch_up, _) => {
            assert_eq!(catch_up, Some(SeqNo::from_u32(7)));
            assert_eq!(st.curr_cid.value(), 8);
        }
        _ => panic!("expected the new view"),
    }
}

#[test]
fn later_view_messages_are_held() {
    let mut s = Synchronizer::new(NodeId::new(2), view(&[0, 1, 2, 3]));
    assert!(matches!(s.process_message(vc(5, 0, ViewChangeKind::Stop(vec![])), None, true), SynchronizerStatus::Running));
    assert!(matches!(s.process_message(vc(0, 0, ViewChangeKind::Stop(vec![])), None, true), SynchronizerStatus::Nil));
    assert_eq!(s.phase, ProtoPhase::Init);
    let held = s.take_pending();
    assert_eq!(held.len(), 1);
    assert_eq!(held[0].view.value(), 5);
    assert!(s.take_pending().is_empty());
}

#[test]
fn quorum_join_through_synchronizer() {
    let mut s = Synchronizer::new(NodeId::new(2), view(&[0, 1, 2, 3]));
    assert_eq!(s.start_join_quorum(NodeId::new(3)), SyncReconfigurationResult::AlreadyPartOfQuorum);
    assert_eq!(s.start_join_quorum(NodeId::new(4)), SyncReconfigurationResult::InProgress);
    assert_eq!(s.phase, ProtoPhase::ViewStopping2);
    for from in [0, 1] {
        s.process_message(vc(1, from, ViewChangeKind::StopQuorumJoin(NodeId::new(4))), None, true);
    }
    match s.process_message(vc(1, 2, ViewChangeKind::StopQuorumJoin(NodeId::new(4))), None, true) {
        SynchronizerStatus::SendStopData(l) => assert_eq!(l, NodeId::new(1)),
        _ => panic!("expected the join quorum"),
    }
    let lc = LeaderCollects {
        proposed: forged(vec![]),
        collects: vec![blank_collect(0), blank_collect(0), blank_collect(0), blank_collect(0)],
    };
    match s.process_message(vc(1, 1, ViewChangeKind::Sync(lc)), None, true) {
        SynchronizerStatus::NewView(st, _, _) => assert_eq!(st.joined, Some(NodeId::new(4))),
        _ => panic!("expected the new view"),
    }
    assert_eq!(s.view().n(), 5);
    assert_eq!(s.view().quorum(), 4);
}

#[test]
fn stop_takes_over_from_join_vote() {
    let mut s = Synchronizer::new(NodeId::new(2), view(&[0, 1, 2, 3]));
    s.process_message(vc(1, 0, ViewChangeKind::StopQuorumJoin(NodeId::new(4))), None, true);
    assert_eq!(s.phase, ProtoPhase::ViewStopping);
    s.process_message(vc(1, 1, ViewChangeKind::Stop(vec![])), None, true);
    assert_eq!(s.phase, ProtoPhase::Stopping);
    assert_eq!(s.stops.joining, None);
}

#[test]
fn early_stop_data_is_polled_once_usable() {
    let mut s = Synchronizer::new(NodeId::new(1), view(&[0, 1, 2, 3]));
    assert!(matches!(s.process_message(vc(1, 2, ViewChangeKind::StopData(blank_collect(0))), None, true), SynchronizerStatus::Running));
    assert!(s.poll().is_none());
    for from in [1, 2, 3] {
        s.process_message(vc(1, from, ViewChangeKind::Stop(vec![])), None, true);
    }
    assert_eq!(s.phase, ProtoPhase::StoppingData);
    let m = s.poll().unwrap();
    assert_eq!(m.from, NodeId::new(2));
    assert!(s.poll().is_none());
    assert!(matches!(s.process_message(m, None, true), SynchronizerStatus::Running));
}

#[test]
fn view_from_state_transfer_installs_later_view() {
    let mut s = Synchronizer::new(NodeId::new(2), view(&[0, 1, 2, 3]));
    let later = ViewInfo::new(SeqNo::from_u32(3), (0..4).map(NodeId::new).collect()).unwrap();
    assert!(!s.received_view_from_state_transfer(later));
    assert_eq!(s.view().sequence_number().value(), 3);
    assert_eq!(s.phase, ProtoPhase::Init);
    let older = ViewInfo::new(SeqNo::from_u32(1), (0..4).map(NodeId::new).collect()).unwrap();
    assert!(!s.received_view_from_state_transfer(older));
    assert_eq!(s.view().sequence_number().value(), 3);
}

#[test]
fn view_from_state_transfer_resumes_with_held_sync() {
    let mut s = Synchronizer::new(NodeId::new(2), view(&[0, 1, 2, 3]));
    let lc = LeaderCollects { proposed: forged(vec![5]), collects: Vec::new() };
    s.process_message(vc(1, 1, ViewChangeKind::Sync(lc)), None, true);
    let next = ViewInfo::new(SeqNo::from_u32(1), (0..4).map(NodeId::new).collect()).unwrap();
    assert!(s.received_view_from_state_transfer(next));
    assert_eq!(s.phase, ProtoPhase::Syncing);
    let m = s.poll().unwrap();
    assert!(matches!(s.process_message(m, None, true), SynchronizerStatus::NewView(..)));
    assert_eq!(s.view().sequence_number().value(), 1);
}

#[test]
fn unsound_sync_without_proposal_waits() {
    let mut s = reach_syncing(2);
    let lc = LeaderCollects { proposed: forged(vec![]), collects: vec![blank_collect(0)] };
    match s.process_message(vc(1, 1, ViewChangeKind::Sync(lc)), None, true) {
        SynchronizerStatus::NoValue(st) => assert_eq!(st.sound, Sound::Unbound(false)),
        _ => panic!("expected no value"),
    }
    assert_eq!(s.phase, ProtoPhase::Syncing);
    assert_eq!(s.view().sequence_number().value(), 0);
}

#[test]
fn leader_without_requests_waits_on_unsound_collects() {
    let mut s = Synchronizer::new(NodeId::new(1), view(&[0, 1, 2, 3]));
    for from in [0, 2, 3] {
        s.process_message(vc(1, from, ViewChangeKind::Stop(vec![])), None, false);
    }
    assert_eq!(s.phase, ProtoPhase::StoppingData);
    let written = |v: u64| CollectData {
        incomplete_proof: IncompleteProof {
            in_exec: SeqNo::zero(),
            quorum_prepares: Some(febft::sync::ViewDecisionPair { ts: SeqNo::from_u32(1), value: digest(v) }),
            write_set: vec![],
        },
        last_proof: None,
    };
    for (from, v) in [(0, 1), (2, 2)] {
        s.process_message(vc(1, from, ViewChangeKind::StopData(written(v))), None, false);
    }
    assert!(matches!(s.process_message(vc(1, 3, ViewChangeKind::StopData(written(3))), None, false), SynchronizerStatus::NoValue(_)));
    assert_eq!(s.view().sequence_number().value(), 0);
}

#[test]
fn view_change_restarts_while_waiting_for_state() {
    let mut s = reach_syncing(2);
    let lc = LeaderCollects { proposed: forged(vec![]), collects: vec![proven_collect(7), proven_collect(7), blank_collect(8)] };
    assert!(matches!(s.process_message(vc(1, 1, ViewChangeKind::Sync(lc)), Some(SeqNo::from_u32(2)), true), SynchronizerStatus::RunCst));
    assert_eq!(s.begin_view_change(&vec![3, 3, 4]), Some(vec![3, 4]));
    assert_eq!(s.phase, ProtoPhase::Stopping2);
    assert!(s.resume_view_change().is_none());
}

#[test]
fn join_refused_during_view_change() {
    let mut s = Synchronizer::new(NodeId::new(2), view(&[0, 1, 2, 3]));
    s.start_join_quorum(NodeId::new(4));
    assert_eq!(s.start_join_quorum(NodeId::new(5)), SyncReconfigurationResult::OnGoingViewChange);
}

fn unsound_collect(v: u64) -> CollectData {
    CollectData {
        incomplete_proof: IncompleteProof {
            in_exec: SeqNo::from_u32(8),
            quorum_prepares: Some(febft::sync::ViewDecisionPair { ts: SeqNo::from_u32(1), value: digest(v) }),
            write_set: vec![],
        },
        last_proof: None,
    }
}

#[test]
fn state_transfer_comes_before_no_value() {
    // new leader, nothing to propose, unsound collects, proof far ahead
    let mut s = Synchronizer::new(NodeId::new(1), view(&[0, 1, 2, 3]));
    for from in [0, 2, 3] {
        s.process_message(vc(1, from, ViewChangeKind::Stop(vec![])), None, false);
    }
    let mut with_proof = proven_collect(7);
    with_proof.incomplete_proof.quorum_prepares = Some(febft::sync::ViewDecisionPair { ts: SeqNo::from_u32(1), value: digest(9) });
    s.process_message(vc(1, 0, ViewChangeKind::StopData(with_proof)), Some(SeqNo::from_u32(2)), false);
    s.process_message(vc(1, 2, ViewChangeKind::StopData(unsound_collect(2))), Some(SeqNo::from_u32(2)), false);
    assert!(matches!(
        s.process_message(vc(1, 3, ViewChangeKind::StopData(unsound_collect(3))), Some(SeqNo::from_u32(2)), false),
        SynchronizerStatus::RunCst
    ));
    assert_eq!(s.phase, ProtoPhase::SyncingState);
}

#[test]
fn stop_ending_join_vote_is_running() {
    let mut s = Synchronizer::new(NodeId::new(2), view(&[0, 1, 2, 3]));
    s.process_message(vc(1, 0, ViewChangeKind::StopQuorumJoin(NodeId::new(4))), None, true);
    assert!(matches!(s.process_message(vc(1, 1, ViewChangeKind::Stop(vec![])), None, true), SynchronizerStatus::Running));
    assert_eq!(s.phase, ProtoPhase::Stopping);
}

#[test]
fn completed_view_change_keeps_previous_and_clears_tally() {
    let mut s = reach_syncing(2);
    let lc = LeaderCollects { proposed: forged(vec![1]), collects: vec![blank_collect(0), blank_collect(0), blank_collect(0)] };
    assert!(matches!(s.process_message(vc(1, 1, ViewChangeKind::Sync(lc)), None, true), SynchronizerStatus::NewView(..)));
    assert_eq!(s.previous_view.as_ref().unwrap().sequence_number().value(), 0);
    assert!(s.stops.senders.is_empty());
    assert_eq!(s.stops.joining, None);
}

#[test]
fn cancel_unsound_policy_abandons_proposal() {
    let mut s = reach_syncing(2);
    s.set_cancel_unsound(true);
    let lc = LeaderCollects { proposed: forged(vec![1]), collects: vec![blank_collect(0)] };
    assert!(matches!(s.process_message(vc(1, 1, ViewChangeKind::Sync(lc)), None, true), SynchronizerStatus::NoValue(_)));
    let mut t = reach_syncing(2);
    let lc = LeaderCollects { proposed: forged(vec![1]), collects: vec![blank_collect(0)] };
    assert!(matches!(t.process_message(vc(1, 1, ViewChangeKind::Sync(lc)), None, true), SynchronizerStatus::NewView(..)));
}

#[test]
fn node_quorum_join_starts_vote() {
    let mut s = Synchronizer::new(NodeId::new(2), view(&[0, 1, 2, 3]));
    assert!(matches!(s.process_message(vc(1, 3, ViewChangeKind::NodeQuorumJoin(NodeId::new(4))), None, true), SynchronizerStatus::Nil));
    match s.process_message(vc(1, 4, ViewChangeKind::NodeQuorumJoin(NodeId::new(4))), None, true) {
        SynchronizerStatus::SendStopQuorumJoin(c) => assert_eq!(c, NodeId::new(4)),
        _ => panic!("expected a join vote"),
    }
    assert_eq!(s.phase, ProtoPhase::ViewStopping2);
}

#[test]
fn joining_node_enters_next_view() {
    let mut s = Synchronizer::new(NodeId::new(4), view(&[0, 1, 2, 3]));
    assert_eq!(s.attempt_join_quorum(), SyncReconfigurationResult::InProgress);
    assert_eq!(s.phase, ProtoPhase::Syncing);
    assert_eq!(s.next_view.as_ref().unwrap().n(), 5);
    assert_eq!(s.attempt_join_quorum(), SyncReconfigurationResult::AlreadyPartOfQuorum);
    let lc = LeaderCollects {
        proposed: forged(vec![1]),
        collects: vec![blank_collect(0), blank_collect(0), blank_collect(0), blank_collect(0)],
    };
    match s.process_message(vc(1, 1, ViewChangeKind::Sync(lc)), None, true) {
        SynchronizerStatus::NewView(st, _, _) => assert_eq!(st.joined, Some(NodeId::new(4))),
        _ => panic!("expected the new view"),
    }
    assert!(s.view().is_member(NodeId::new(4)));
}
