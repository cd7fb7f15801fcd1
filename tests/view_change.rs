use febft::message::Digest;
use febft::ordering::{NodeId, SeqNo};
use febft::sync::{
    client_requests_timed_out, curr_cid, highest_proof, sound, ClientRqTimeout, CollectData,
    IncompleteProof, Proof, ProofVote, Sound, StopKind, StopOutcome, StopTracker, ViewDecisionPair,
};
use febft::view::ViewInfo;

fn view(seq: u32, ids: &[u32]) -> ViewInfo {
    ViewInfo::new(SeqNo::from_u32(seq), ids.iter().map(|i| NodeId::new(*i)).collect()).unwrap()
}

fn digest(x: u64) -> Digest {
    Digest { w0: x, w1: 0, w2: 0, w3: 0 }
}

fn pair(ts: u32, v: u64) -> ViewDecisionPair {
    ViewDecisionPair { ts: SeqNo::from_u32(ts), value: digest(v) }
}

fn collect(in_exec: u32, qp: Option<ViewDecisionPair>, ws: Vec<ViewDecisionPair>, proof: Option<Proof>) -> CollectData {
    CollectData {
        incomplete_proof: IncompleteProof { in_exec: SeqNo::from_u32(in_exec), quorum_prepares: qp, write_set: ws },
        last_proof: proof,
    }
}

fn votes(d: Digest, signed: &[bool]) -> Vec<ProofVote> {
    signed
        .iter()
        .enumerate()
        .map(|(i, s)| ProofVote { from: NodeId::new(i as u32), digest: d, signed: *s })
        .collect()
}

fn make_proof(seq: u32, d: u64, signed: &[bool]) -> Proof {
    Proof { seq: SeqNo::from_u32(seq), digest: digest(d), prepares: votes(digest(d), signed), commits: votes(digest(d), signed) }
}

#[test]
fn stop_quorum_installs_next_view() {
    let v = view(0, &[0, 1, 2, 3]);
    let r: u64 = 42;
    let mut t = StopTracker::new();
    assert_eq!(t.receive(&v, NodeId::new(2), StopKind::Stop, &vec![r]), StopOutcome::Counted);
    assert_eq!(t.receive(&v, NodeId::new(3), StopKind::Stop, &vec![r]), StopOutcome::SendOwnStop);
    assert!(!t.begin_view_change());
    assert_eq!(t.receive(&v, NodeId::new(3), StopKind::Stop, &vec![r]), StopOutcome::Ignored);
    assert_eq!(t.receive(&v, NodeId::new(1), StopKind::Stop, &vec![]), StopOutcome::Install);
    let next = t.next_view(&v);
    assert_eq!(next.sequence_number().value(), 1);
    assert_eq!(next.leader(), NodeId::new(1));
    assert_eq!(t.stopped_requests(), &vec![r]);
}

#[test]
fn stop_from_non_member_is_ignored() {
    let v = view(0, &[0, 1, 2, 3]);
    let mut t = StopTracker::new();
    assert_eq!(t.receive(&v, NodeId::new(9), StopKind::Stop, &vec![]), StopOutcome::Ignored);
    assert!(t.senders.is_empty());
}

#[test]
fn leader_crash_after_pre_prepare() {
    // nodes 2 and 3 never saw R ordered: first it is forwarded, then stopped
    let first = client_requests_timed_out(&vec![ClientRqTimeout { request: 42, phase: 0 }], &vec![]);
    assert_eq!(first, (vec![42], vec![]));
    let second = client_requests_timed_out(&vec![ClientRqTimeout { request: 42, phase: 1 }], &vec![]);
    assert_eq!(second, (vec![], vec![42]));
    let v = view(0, &[0, 1, 2, 3]);
    let mut t = StopTracker::new();
    for from in [1, 2, 3] {
        t.receive(&v, NodeId::new(from), StopKind::Stop, &second.1);
    }
    let next = t.next_view(&v);
    assert_eq!(next.sequence_number().value(), 1);
    assert_eq!(next.leader(), NodeId::new(1));
    // no replica holds a proof: the new view resumes at 0, proposing R
    let cs = vec![collect(0, None, vec![], None), collect(0, None, vec![], None), collect(0, None, vec![], None)];
    let (cid, best) = curr_cid(&next, &cs);
    assert_eq!(cid.value(), 0);
    assert_eq!(best, None);
    assert!(t.stopped_requests().contains(&42));
}

#[test]
fn timeouts_split_by_phase() {
    let ts = vec![
        ClientRqTimeout { request: 1, phase: 0 },
        ClientRqTimeout { request: 2, phase: 1 },
        ClientRqTimeout { request: 3, phase: 0 },
    ];
    assert_eq!(client_requests_timed_out(&ts, &vec![]), (vec![1, 3], vec![2]));
    // stopped requests join those of the STOPs received, each once
    let again = vec![
        ClientRqTimeout { request: 2, phase: 1 },
        ClientRqTimeout { request: 2, phase: 2 },
        ClientRqTimeout { request: 5, phase: 1 },
    ];
    assert_eq!(client_requests_timed_out(&again, &vec![7, 5, 8]), (vec![], vec![2, 5, 7, 8]));
}

#[test]
fn split_brain_proof_picks_valid_one() {
    let v = view(1, &[0, 1, 2, 3]);
    let full = [true, true, true, true];
    let weak = [true, false, false, true];
    let cs = vec![
        collect(8, None, vec![], Some(make_proof(7, 0xD1, &full))),
        collect(8, None, vec![], Some(make_proof(7, 0xD2, &weak))),
        collect(8, None, vec![], Some(make_proof(7, 0xD1, &full))),
        collect(8, None, vec![], None),
    ];
    assert_eq!(highest_proof(&v, &cs), Some(0));
    let (cid, best) = curr_cid(&v, &cs);
    assert_eq!(cid.value(), 8);
    assert_eq!(cs[best.unwrap()].last_proof.as_ref().unwrap().digest, digest(0xD1));
}

#[test]
fn highest_proof_prefers_later_sequence() {
    let v = view(1, &[0, 1, 2, 3]);
    let full = [true, true, true];
    let cs = vec![
        collect(0, None, vec![], Some(make_proof(3, 1, &full))),
        collect(0, None, vec![], Some(make_proof(9, 2, &full))),
        collect(0, None, vec![], Some(make_proof(11, 3, &[true, true]))),
    ];
    assert_eq!(highest_proof(&v, &cs), Some(1));
    assert!(!make_proof(11, 3, &[true, true]).is_valid(3));
}

#[test]
fn sound_binds_value_certified_by_quorum() {
    let v = view(1, &[0, 1, 2, 3]);
    let cs = vec![
        collect(5, Some(pair(1, 7)), vec![pair(1, 7)], None),
        collect(5, Some(pair(1, 7)), vec![pair(1, 7)], None),
        collect(5, Some(pair(0, 6)), vec![], None),
    ];
    assert_eq!(sound(&v, &cs, 5), Sound::Bound(digest(7)));
}

#[test]
fn sound_unbound_when_nothing_written() {
    let v = view(1, &[0, 1, 2, 3]);
    let cs = vec![
        collect(5, None, vec![], None),
        collect(4, Some(pair(1, 7)), vec![pair(1, 7)], None),
        collect(5, Some(pair(0, 6)), vec![], None),
    ];
    let s = sound(&v, &cs, 5);
    assert_eq!(s, Sound::Unbound(true));
    assert!(s.test());
    assert_eq!(s.value(), None);
    let few = vec![collect(5, None, vec![], None)];
    assert_eq!(sound(&v, &few, 5), Sound::Unbound(false));
}

#[test]
fn sound_needs_more_than_f_certificates() {
    let v = view(1, &[0, 1, 2, 3]);
    let cs = vec![
        collect(5, Some(pair(1, 7)), vec![pair(1, 7)], None),
        collect(5, Some(pair(1, 7)), vec![], None),
        collect(5, Some(pair(1, 7)), vec![], None),
    ];
    assert_eq!(sound(&v, &cs, 5), Sound::Unbound(false));
}

#[test]
fn quorum_join_adds_member() {
    let v = view(0, &[0, 1, 2, 3]);
    let mut t = StopTracker::new();
    let join = StopKind::QuorumJoin(NodeId::new(4));
    assert_eq!(t.receive(&v, NodeId::new(0), join, &vec![]), StopOutcome::Counted);
    assert_eq!(t.receive(&v, NodeId::new(1), join, &vec![]), StopOutcome::SendOwnStop);
    assert_eq!(t.receive(&v, NodeId::new(2), join, &vec![]), StopOutcome::Install);
    let next = t.next_view(&v);
    assert_eq!(next.n(), 5);
    assert_eq!(next.quorum(), 4);
    assert!(next.is_member(NodeId::new(4)));
}

#[test]
fn second_candidate_sees_ongoing_change() {
    let v = view(0, &[0, 1, 2, 3]);
    let mut t = StopTracker::new();
    t.receive(&v, NodeId::new(0), StopKind::QuorumJoin(NodeId::new(4)), &vec![]);
    assert_eq!(
        t.receive(&v, NodeId::new(1), StopKind::QuorumJoin(NodeId::new(5)), &vec![]),
        StopOutcome::OnGoingQuorumChange(NodeId::new(4))
    );
}

#[test]
fn stop_preempts_quorum_join() {
    let v = view(0, &[0, 1, 2, 3]);
    let mut t = StopTracker::new();
    t.receive(&v, NodeId::new(0), StopKind::QuorumJoin(NodeId::new(4)), &vec![]);
    assert_eq!(t.receive(&v, NodeId::new(1), StopKind::Stop, &vec![]), StopOutcome::Counted);
    assert_eq!(t.joining, None);
    assert_eq!(t.senders, vec![NodeId::new(1)]);
    assert_eq!(
        t.receive(&v, NodeId::new(2), StopKind::QuorumJoin(NodeId::new(4)), &vec![]),
        StopOutcome::Ignored
    );
    t.receive(&v, NodeId::new(2), StopKind::Stop, &vec![]);
    assert_eq!(t.receive(&v, NodeId::new(3), StopKind::Stop, &vec![]), StopOutcome::Install);
    assert_eq!(t.next_view(&v).n(), 4);
}
