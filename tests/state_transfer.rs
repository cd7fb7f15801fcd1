use febft::cst::{
    needs_state, CheckpointError, CheckpointState, Checkpoint, CollabStateTransfer, CstPhase, CstStatus, StateRequest,
};
use febft::message::Digest;
use febft::ordering::{NodeId, SeqNo};
use febft::view::ViewInfo;

fn view(ids: &[u32]) -> ViewInfo {
    ViewInfo::new(SeqNo::zero(), ids.iter().map(|i| NodeId::new(*i)).collect()).unwrap()
}

fn digest(x: u64) -> Digest {
    Digest { w0: x, w1: 0, w2: 0, w3: 0 }
}

fn checkpoint(seq: u32, d: u64) -> Checkpoint {
    Checkpoint { seq: SeqNo::from_u32(seq), digest: digest(d), state: vec![1, 2, 3] }
}

#[test]
fn cst_happy_path() {
    let v = view(&[0, 1, 2, 3]);
    let mut cst = CollabStateTransfer::new(1000);
    let q = cst.request_latest_consensus_seq_no();
    assert_eq!(q.value(), 1);
    let a = digest(0xA);
    assert!(matches!(cst.receive_cid_reply(&v, q, Some((SeqNo::from_u32(10), a))), CstStatus::Running));
    assert!(matches!(cst.receive_cid_reply(&v, q, Some((SeqNo::from_u32(10), a))), CstStatus::Running));
    let found = match cst.receive_cid_reply(&v, q, Some((SeqNo::from_u32(10), a))) {
        CstStatus::SeqNo(s) => s,
        _ => panic!("expected a sequence number"),
    };
    assert_eq!(found.value(), 10);
    assert_eq!(cst.phase, CstPhase::Init);
    // replica 3 is on 5, behind the quorum
    assert!(needs_state(SeqNo::from_u32(5), found));
    let q = cst.request_latest_state();
    assert_eq!(q.value(), 2);
    assert!(matches!(cst.receive_state_reply(&v, q, checkpoint(10, 0xA)), CstStatus::Running));
    match cst.receive_state_reply(&v, q, checkpoint(10, 0xA)) {
        CstStatus::State(c) => assert_eq!(c.sequence_number().value(), 10),
        _ => panic!("expected the state to install"),
    }
    assert_eq!(cst.phase, CstPhase::Init);
    assert!(matches!(cst.receive_state_reply(&v, q, checkpoint(10, 0xA)), CstStatus::Nil));
}

#[test]
fn blank_replicas_give_sequence_zero() {
    let v = view(&[0, 1, 2, 3]);
    let mut cst = CollabStateTransfer::new(1000);
    let q = cst.request_latest_consensus_seq_no();
    for _ in 0..2 {
        assert!(matches!(cst.receive_cid_reply(&v, q, None), CstStatus::Running));
    }
    assert!(matches!(cst.receive_cid_reply(&v, q, None), CstStatus::SeqNo(s) if s.value() == 0));
}

#[test]
fn split_cid_replies_ask_again() {
    let v = view(&[0, 1, 2, 3]);
    let mut cst = CollabStateTransfer::new(1000);
    let q = cst.request_latest_consensus_seq_no();
    cst.receive_cid_reply(&v, q, Some((SeqNo::from_u32(4), digest(1))));
    cst.receive_cid_reply(&v, q, Some((SeqNo::from_u32(4), digest(2))));
    assert!(matches!(cst.receive_cid_reply(&v, q, Some((SeqNo::from_u32(4), digest(1)))), CstStatus::RequestStateCid));
}

#[test]
fn stale_replies_are_dropped() {
    let v = view(&[0, 1, 2, 3]);
    let mut cst = CollabStateTransfer::new(1000);
    let q = cst.request_latest_consensus_seq_no();
    assert!(matches!(cst.receive_cid_reply(&v, q.next(), None), CstStatus::Running));
    assert_eq!(cst.phase, CstPhase::ReceivingCid(0));
    let mut idle = CollabStateTransfer::new(1000);
    assert!(matches!(idle.receive_cid_reply(&v, SeqNo::zero(), None), CstStatus::Nil));
}

#[test]
fn later_checkpoint_with_same_digest_replaces_earlier() {
    let v = view(&[0, 1, 2, 3]);
    let mut cst = CollabStateTransfer::new(1000);
    let q = cst.request_latest_state();
    cst.receive_state_reply(&v, q, checkpoint(8, 0xA));
    match cst.receive_state_reply(&v, q, checkpoint(9, 0xA)) {
        CstStatus::State(c) => assert_eq!(c.seq.value(), 9),
        _ => panic!("expected the state to install"),
    }
}

#[test]
fn disagreeing_states_ask_again() {
    let v = view(&[0, 1, 2, 3]);
    let mut cst = CollabStateTransfer::new(1000);
    let q = cst.request_latest_state();
    cst.receive_state_reply(&v, q, checkpoint(8, 0xA));
    assert!(matches!(cst.receive_state_reply(&v, q, checkpoint(8, 0xB)), CstStatus::RequestState));
    assert!(cst.states.is_empty());
}

#[test]
fn timeout_doubles_and_retries() {
    let mut cst = CollabStateTransfer::new(1000);
    let q = cst.request_latest_consensus_seq_no();
    assert!(matches!(cst.timed_out(q.next()), CstStatus::Nil));
    assert!(matches!(cst.timed_out(q), CstStatus::RequestStateCid));
    assert_eq!(cst.curr_timeout, 2000);
    assert_eq!(cst.curr_seq.value(), 2);
    let q = cst.request_latest_state();
    assert!(matches!(cst.timed_out(q), CstStatus::RequestState));
    assert_eq!(cst.curr_timeout, 4000);
}

#[test]
fn state_needed_only_when_behind() {
    assert!(!needs_state(SeqNo::from_u32(10), SeqNo::from_u32(10)));
    assert!(!needs_state(SeqNo::from_u32(12), SeqNo::from_u32(10)));
    assert!(needs_state(SeqNo::from_u32(5), SeqNo::from_u32(10)));
}

#[test]
fn checkpoint_lifecycle() {
    let mut cst = CollabStateTransfer::new(1000);
    assert_eq!(cst.finalize_checkpoint(checkpoint(4, 1)), Err(CheckpointError::NotStarted));
    assert!(cst.handle_app_state_requested(SeqNo::from_u32(4)));
    assert!(!cst.handle_app_state_requested(SeqNo::from_u32(5)));
    assert_eq!(cst.checkpoint_state.sequence_number().value(), 0);
    assert_eq!(cst.finalize_checkpoint(checkpoint(4, 1)), Ok(()));
    assert_eq!(cst.checkpoint_state.sequence_number().value(), 4);
    assert_eq!(cst.finalize_checkpoint(checkpoint(4, 1)), Err(CheckpointError::AlreadyFinalized));
    // the complete checkpoint is kept while the next one is produced
    assert!(cst.handle_app_state_requested(SeqNo::from_u32(9)));
    assert!(matches!(cst.checkpoint_state, CheckpointState::PartialWithEarlier(s, _) if s.value() == 9));
    assert_eq!(cst.checkpoint_state.sequence_number().value(), 4);
}

#[test]
fn serving_sequence_number_requests() {
    let mut cst = CollabStateTransfer::new(1000);
    assert_eq!(cst.process_request_seq(NodeId::new(3), SeqNo::from_u32(2)), (NodeId::new(3), SeqNo::from_u32(2), None));
    cst.handle_app_state_requested(SeqNo::from_u32(10));
    cst.finalize_checkpoint(checkpoint(10, 0xA)).unwrap();
    assert_eq!(
        cst.process_request_seq(NodeId::new(3), SeqNo::from_u32(2)),
        (NodeId::new(3), SeqNo::from_u32(2), Some((SeqNo::from_u32(10), digest(0xA))))
    );
}

#[test]
fn state_requests_wait_for_checkpoint() {
    let mut cst = CollabStateTransfer::new(1000);
    let req = |from: u32, seq: u32| StateRequest { from: NodeId::new(from), cst_seq: SeqNo::from_u32(seq) };
    assert!(cst.process_request_state(req(3, 1)).is_none());
    assert!(cst.needs_checkpoint());
    assert!(cst.process_request_state(req(3, 2)).is_none());
    assert!(cst.process_request_state(req(2, 1)).is_none());
    // nothing to serve yet
    assert!(cst.process_pending_state_requests().is_empty());
    cst.handle_app_state_requested(SeqNo::from_u32(6));
    cst.finalize_checkpoint(checkpoint(6, 0xC)).unwrap();
    let replies = cst.process_pending_state_requests();
    assert_eq!(replies.len(), 2);
    assert_eq!((replies[0].to, replies[0].cst_seq.value()), (NodeId::new(3), 2));
    assert_eq!((replies[1].to, replies[1].cst_seq.value()), (NodeId::new(2), 1));
    assert_eq!(replies[0].checkpoint.seq.value(), 6);
    assert_eq!(cst.phase, CstPhase::Init);
    let direct = cst.process_request_state(req(1, 7)).unwrap();
    assert_eq!(direct.checkpoint.state, vec![1, 2, 3]);
}

#[test]
fn state_requests_dropped_while_fetching() {
    let mut cst = CollabStateTransfer::new(1000);
    cst.request_latest_state();
    assert!(cst.process_request_state(StateRequest { from: NodeId::new(1), cst_seq: SeqNo::zero() }).is_none());
    assert!(cst.waiting.is_empty());
}
