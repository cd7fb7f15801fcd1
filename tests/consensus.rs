use febft::consensus::{Consensus, ConsensusPoll};
use febft::decision::{Decision, DecisionPhase, DecisionPoll, DecisionStatus};
use febft::message::{ConsensusKind, ConsensusMessage, Digest};
use febft::ordering::{NodeId, SeqIndex, SeqNo, TboQueue};
use febft::view::ViewInfo;

fn nodes(ids: &[u32]) -> Vec<NodeId> {
    ids.iter().map(|i| NodeId::new(*i)).collect()
}

fn view(seq: u32, ids: &[u32]) -> ViewInfo {
    ViewInfo::new(SeqNo::from_u32(seq), nodes(ids)).unwrap()
}

fn digest(x: u64) -> Digest {
    Digest { w0: x, w1: 0, w2: 0, w3: 0 }
}

fn msg(seq: u32, view: u32, from: u32, kind: ConsensusKind) -> ConsensusMessage {
    ConsensusMessage { seq: SeqNo::from_u32(seq), view: SeqNo::from_u32(view), from: NodeId::new(from), kind }
}

#[test]
fn it_works() {
    assert_eq!(2 + 2, 4);
}

#[test]
fn seq_index_and_next() {
    let base = SeqNo::from_u32(10);
    assert_eq!(SeqNo::from_u32(7).index(base), SeqIndex::Stale(3));
    assert_eq!(SeqNo::from_u32(12).index(base), SeqIndex::Offset(2));
    assert_eq!(base.next().value(), 11);
    assert_eq!(SeqNo::from_u32(u32::MAX).next().value(), 0);
}

#[test]
fn smallest_live_configuration() {
    let v = view(0, &[0, 1, 2, 3]);
    assert_eq!(v.f(), 1);
    assert_eq!(v.quorum(), 3);
    assert_eq!(v.leader(), NodeId::new(0));
    let next = v.next_view();
    assert_eq!(next.sequence_number().value(), 1);
    assert_eq!(next.leader(), NodeId::new(1));
}

#[test]
fn view_rejects_repeated_members() {
    assert!(ViewInfo::new(SeqNo::zero(), nodes(&[0, 1, 1, 2])).is_none());
    assert!(ViewInfo::new(SeqNo::zero(), Vec::new()).is_none());
}

#[test]
fn view_with_new_node() {
    let v = view(0, &[0, 1, 2, 3]);
    let joined = v.next_view_with_new_node(NodeId::new(4)).unwrap();
    assert_eq!(joined.n(), 5);
    assert_eq!(joined.f(), 1);
    assert_eq!(joined.quorum(), 4);
    assert_eq!(joined.sequence_number().value(), 1);
    assert!(v.next_view_with_new_node(NodeId::new(2)).is_none());
}

/// Node 1's instance for sequence 0 on the happy path: a decided batch [R].
#[test]
fn happy_path_four_nodes() {
    let v = view(0, &[0, 1, 2, 3]);
    let mut d = Decision::new(SeqNo::zero(), &v, NodeId::new(1));
    let r: u64 = 77;
    let dg = digest(0xD);
    let (st, out) = d.process_message(msg(0, 0, 0, ConsensusKind::PrePrepare(dg, vec![r])));
    assert_eq!(st, DecisionStatus::Deciding);
    assert_eq!(out.len(), 1);
    assert!(matches!(out[0].kind, ConsensusKind::Prepare(x) if x == dg));
    assert_eq!(out[0].from, NodeId::new(1));
    assert_eq!(d.phase(), DecisionPhase::Preparing);
    let (st, _) = d.process_message(msg(0, 0, 2, ConsensusKind::Prepare(dg)));
    assert_eq!(st, DecisionStatus::Deciding);
    let (st, out) = d.process_message(msg(0, 0, 3, ConsensusKind::Prepare(dg)));
    assert_eq!(st, DecisionStatus::Deciding);
    assert_eq!(out.len(), 1);
    assert!(matches!(out[0].kind, ConsensusKind::Commit(x) if x == dg));
    assert_eq!(d.phase(), DecisionPhase::Committing);
    let (st, _) = d.process_message(msg(0, 0, 0, ConsensusKind::Commit(dg)));
    assert_eq!(st, DecisionStatus::Deciding);
    let (st, _) = d.process_message(msg(0, 0, 2, ConsensusKind::Commit(dg)));
    assert_eq!(st, DecisionStatus::Decided);
    assert!(d.is_finalizeable());
    let b = d.finalize();
    assert_eq!(b.seq.value(), 0);
    assert_eq!(b.batch, vec![r]);
    assert_eq!(b.digest, dg);
}

#[test]
fn duplicate_prepare_reports_voted_twice() {
    let v = view(0, &[0, 1, 2, 3]);
    let mut d = Decision::new(SeqNo::zero(), &v, NodeId::new(1));
    let dg = digest(5);
    d.process_message(msg(0, 0, 0, ConsensusKind::PrePrepare(dg, vec![1])));
    let (st, _) = d.process_message(msg(0, 0, 2, ConsensusKind::Prepare(dg)));
    assert_eq!(st, DecisionStatus::Deciding);
    assert_eq!(d.prepare_voters.len(), 2);
    let (st, _) = d.process_message(msg(0, 0, 2, ConsensusKind::Prepare(dg)));
    assert_eq!(st, DecisionStatus::VotedTwice(NodeId::new(2)));
    assert_eq!(d.prepare_voters.len(), 2);
}

#[test]
fn mismatched_digest_and_non_members_are_ignored() {
    let v = view(0, &[0, 1, 2, 3]);
    let mut d = Decision::new(SeqNo::zero(), &v, NodeId::new(1));
    d.process_message(msg(0, 0, 0, ConsensusKind::PrePrepare(digest(5), vec![1])));
    d.process_message(msg(0, 0, 2, ConsensusKind::Prepare(digest(6))));
    d.process_message(msg(0, 0, 9, ConsensusKind::Prepare(digest(5))));
    assert_eq!(d.prepare_voters.len(), 1);
}

#[test]
fn pre_prepare_from_non_leader_is_ignored() {
    let v = view(0, &[0, 1, 2, 3]);
    let mut d = Decision::new(SeqNo::zero(), &v, NodeId::new(1));
    let (st, out) = d.process_message(msg(0, 0, 2, ConsensusKind::PrePrepare(digest(5), vec![1])));
    assert_eq!(st, DecisionStatus::Deciding);
    assert!(out.is_empty());
    assert_eq!(d.phase(), DecisionPhase::Init);
}

#[test]
fn early_votes_are_buffered_and_polled_in_phase_order() {
    let v = view(0, &[0, 1, 2, 3]);
    let mut d = Decision::new(SeqNo::zero(), &v, NodeId::new(1));
    let dg = digest(5);
    d.process_message(msg(0, 0, 2, ConsensusKind::Commit(dg)));
    d.process_message(msg(0, 0, 2, ConsensusKind::Prepare(dg)));
    assert!(matches!(d.poll(), DecisionPoll::Recv));
    d.process_message(msg(0, 0, 0, ConsensusKind::PrePrepare(dg, vec![1])));
    match d.poll() {
        DecisionPoll::NextMessage(m) => {
            assert!(matches!(m.kind, ConsensusKind::Prepare(_)));
            d.process_message(m);
        }
        _ => panic!("expected the buffered PREPARE"),
    }
    assert!(matches!(d.poll(), DecisionPoll::Recv));
    d.process_message(msg(0, 0, 3, ConsensusKind::Prepare(dg)));
    assert_eq!(d.phase(), DecisionPhase::Committing);
    assert!(matches!(d.poll(), DecisionPoll::NextMessage(_)));
}

#[test]
fn replay_gives_identical_batches() {
    let v = view(0, &[0, 1, 2, 3]);
    let dg = digest(9);
    let script = || {
        vec![
            msg(0, 0, 0, ConsensusKind::PrePrepare(dg, vec![4, 5])),
            msg(0, 0, 2, ConsensusKind::Prepare(dg)),
            msg(0, 0, 3, ConsensusKind::Prepare(dg)),
            msg(0, 0, 2, ConsensusKind::Commit(dg)),
            msg(0, 0, 3, ConsensusKind::Commit(dg)),
        ]
    };
    let run = || {
        let mut d = Decision::new(SeqNo::zero(), &v, NodeId::new(1));
        for m in script() {
            d.process_message(m);
        }
        d.finalize()
    };
    let a = run();
    let b = run();
    assert_eq!(a.batch, b.batch);
    assert_eq!(a.digest, b.digest);
    assert_eq!(a.prepare_voters, b.prepare_voters);
    assert_eq!(a.commit_voters, b.commit_voters);
}

fn decide(c: &mut Consensus, seq: u32, dg: Digest) {
    c.process_message(msg(seq, 0, 0, ConsensusKind::PrePrepare(dg, vec![seq as u64])));
    for from in [2, 3] {
        c.process_message(msg(seq, 0, from, ConsensusKind::Prepare(dg)));
    }
    for from in [2, 3] {
        c.process_message(msg(seq, 0, from, ConsensusKind::Commit(dg)));
    }
}

#[test]
fn window_holds_w_consecutive_instances() {
    let v = view(0, &[0, 1, 2, 3]);
    let c = Consensus::new_replica(NodeId::new(1), &v, SeqNo::from_u32(5), 3);
    assert_eq!(c.decisions.len(), 3);
    for (i, d) in c.decisions.iter().enumerate() {
        assert_eq!(d.sequence_number().value(), 5 + i as u32);
    }
    assert_eq!(c.tbo.base.value(), 8);
}

#[test]
fn finalize_is_in_order() {
    let v = view(0, &[0, 1, 2, 3]);
    let mut c = Consensus::new_replica(NodeId::new(1), &v, SeqNo::zero(), 2);
    decide(&mut c, 1, digest(1));
    assert!(c.finalize(&v).is_none());
    decide(&mut c, 0, digest(0));
    let b0 = c.finalize(&v).unwrap();
    assert_eq!(b0.seq.value(), 0);
    let b1 = c.finalize(&v).unwrap();
    assert_eq!(b1.seq.value(), 1);
    assert_eq!(c.sequence_number().value(), 2);
    assert_eq!(c.decisions.len(), 2);
    assert!(c.finalize(&v).is_none());
}

#[test]
fn serial_window_of_one() {
    let v = view(0, &[0, 1, 2, 3]);
    let mut c = Consensus::new_replica(NodeId::new(1), &v, SeqNo::zero(), 1);
    let dg = digest(3);
    // a message for the next instance waits in the queue
    c.queue(msg(1, 0, 0, ConsensusKind::PrePrepare(dg, vec![8])));
    assert!(matches!(c.poll(), ConsensusPoll::Recv));
    assert!(c.finalize(&v).is_none());
    decide(&mut c, 0, digest(0));
    let b = c.finalize(&v).unwrap();
    assert_eq!(b.seq.value(), 0);
    // the held PRE-PREPARE was handed to the new instance
    match c.poll() {
        ConsensusPoll::NextMessage(m) => assert_eq!(m.seq.value(), 1),
        ConsensusPoll::Recv => panic!("held message lost"),
    }
}

#[test]
fn stale_messages_are_dropped() {
    let v = view(0, &[0, 1, 2, 3]);
    let mut c = Consensus::new_replica(NodeId::new(1), &v, SeqNo::from_u32(4), 2);
    let (st, out) = c.process_message(msg(2, 0, 0, ConsensusKind::PrePrepare(digest(1), vec![1])));
    assert_eq!(st, DecisionStatus::Deciding);
    assert!(out.is_empty());
    assert!(c.tbo.buckets.is_empty());
    assert!(matches!(c.poll(), ConsensusPoll::Recv));
}

#[test]
fn install_sequence_number_resets_window() {
    let v = view(0, &[0, 1, 2, 3]);
    let mut c = Consensus::new_replica(NodeId::new(1), &v, SeqNo::zero(), 2);
    c.queue(msg(7, 0, 0, ConsensusKind::Prepare(digest(1))));
    c.install_sequence_number(SeqNo::from_u32(10), &v);
    assert_eq!(c.sequence_number().value(), 10);
    assert_eq!(c.decisions[0].sequence_number().value(), 10);
    assert_eq!(c.decisions[1].sequence_number().value(), 11);
    assert!(c.tbo.buckets.is_empty());
}

#[test]
fn tbo_queue_keeps_fifo_per_sequence() {
    let mut q: TboQueue<u32> = TboQueue::new(SeqNo::from_u32(3));
    assert!(!q.queue(SeqNo::from_u32(2), 99));
    assert!(q.queue(SeqNo::from_u32(4), 1));
    assert!(q.queue(SeqNo::from_u32(3), 2));
    assert!(q.queue(SeqNo::from_u32(4), 3));
    assert!(q.has_ready());
    assert_eq!(q.advance(), vec![2]);
    assert_eq!(q.base.value(), 4);
    assert_eq!(q.pop(), Some(1));
    assert_eq!(q.pop(), Some(3));
    assert_eq!(q.pop(), None);
    assert_eq!(q.advance(), Vec::<u32>::new());
}

#[test]
fn single_fault_still_decides() {
    // node 3 is silent; the three others still reach the quorum of 3
    let v = view(0, &[0, 1, 2, 3]);
    let dg = digest(0xE);
    let mut d = Decision::new(SeqNo::zero(), &v, NodeId::new(2));
    d.process_message(msg(0, 0, 0, ConsensusKind::PrePrepare(dg, vec![1])));
    d.process_message(msg(0, 0, 0, ConsensusKind::Prepare(dg)));
    let (_, out) = d.process_message(msg(0, 0, 1, ConsensusKind::Prepare(dg)));
    assert!(matches!(out[0].kind, ConsensusKind::Commit(_)));
    d.process_message(msg(0, 0, 0, ConsensusKind::Commit(dg)));
    let (st, _) = d.process_message(msg(0, 0, 1, ConsensusKind::Commit(dg)));
    assert_eq!(st, DecisionStatus::Decided);
}

#[test]
fn later_view_votes_are_deferred() {
    let v = view(0, &[0, 1, 2, 3]);
    let mut d = Decision::new(SeqNo::zero(), &v, NodeId::new(1));
    let (st, _) = d.process_message(msg(0, 1, 1, ConsensusKind::PrePrepare(digest(1), vec![])));
    assert_eq!(st, DecisionStatus::Deciding);
    assert_eq!(d.deferred.len(), 1);
    assert_eq!(d.phase(), DecisionPhase::Init);
}

#[test]
fn single_replica_decides_alone() {
    let v = view(0, &[7]);
    assert_eq!(v.quorum(), 1);
    let mut d = Decision::new(SeqNo::zero(), &v, NodeId::new(7));
    let (st, out) = d.process_message(msg(0, 0, 7, ConsensusKind::PrePrepare(digest(2), vec![3])));
    assert_eq!(st, DecisionStatus::Decided);
    assert_eq!(out.len(), 2);
}
