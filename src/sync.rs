//! View change: evidence collected from STOP-DATA messages, the soundness
//! predicate over it, the highest valid proof, and the STOP count.
use vstd::prelude::*;

use crate::message::Digest;
use crate::ordering::{NodeId, SeqNo, SEQ_MAX};
use crate::view::{ViewInfo, ViewModel, contains_node};

verus! {

/// A (view, digest) pair: a value and the view it was accepted in.
#[derive(Clone, Copy, Debug, PartialEq, Eq, Structural)]
pub struct ViewDecisionPair {
    pub ts: SeqNo,
    pub value: Digest,
}

/// What a replica knows of the instance it is executing.
pub struct IncompleteProof {
    pub in_exec: SeqNo,
    pub quorum_prepares: Option<ViewDecisionPair>,
    pub write_set: Vec<ViewDecisionPair>,
}

/// A vote carried inside a proof; `signed` records whether its signature
/// checked out against the sender's public key.
#[derive(Clone, Copy, Debug, PartialEq, Eq, Structural)]
pub struct ProofVote {
    pub from: NodeId,
    pub digest: Digest,
    pub signed: bool,
}

/// Evidence that a batch was decided.
pub struct Proof {
    pub seq: SeqNo,
    pub digest: Digest,
    pub prepares: Vec<ProofVote>,
    pub commits: Vec<ProofVote>,
}

/// The payload of a STOP-DATA message.
pub struct CollectData {
    pub incomplete_proof: IncompleteProof,
    pub last_proof: Option<Proof>,
}

#[derive(Clone, Copy, Debug, PartialEq, Eq, Structural)]
pub enum Sound {
    Unbound(bool),
    Bound(Digest),
}

impl Sound {
    pub fn value(&self) -> (r: Option<Digest>)
        ensures
            r == (match self {
                Sound::Bound(d) => Some(*d),
                _ => None,
            }),
    {
        match self {
            Sound::Bound(d) => Some(*d),
            _ => None,
        }
    }

    pub fn test(&self) -> (r: bool)
        ensures
            r == (match self {
                Sound::Unbound(ok) => *ok,
                _ => true,
            }),
    {
        match self {
            Sound::Unbound(ok) => *ok,
            _ => true,
        }
    }
}

/// Whether a collect counts for the instance in execution `e`; the others
/// are treated as absent.
pub open spec fn normal(c: CollectData, e: u32) -> bool {
    c.incomplete_proof.in_exec.value == e
}

pub open spec fn qh_vote(c: CollectData, e: u32, ts: u32, v: Digest) -> bool {
    &&& normal(c, e)
    &&& c.incomplete_proof.quorum_prepares matches Some(p)
    &&& (p.ts.value < ts || (p.ts.value == ts && p.value == v))
}

/// Collects whose quorum write is older than `ts`, or is `(ts, v)`.
pub open spec fn count_qh(cs: Seq<CollectData>, e: u32, ts: u32, v: Digest) -> nat
    decreases cs.len(),
{
    if cs.len() == 0 {
        0
    } else {
        count_qh(cs.drop_last(), e, ts, v) + if qh_vote(cs.last(), e, ts, v) { 1nat } else { 0 }
    }
}

/// Some counted collect has `(ts, v)` as its quorum write.
pub open spec fn appears(cs: Seq<CollectData>, e: u32, ts: u32, v: Digest) -> bool {
    exists|i: int|
        0 <= i < cs.len() && normal(#[trigger] cs[i], e) && cs[i].incomplete_proof.quorum_prepares
            == Some(ViewDecisionPair { ts: SeqNo { value: ts }, value: v })
}

pub open spec fn quorum_highest(cs: Seq<CollectData>, e: u32, ts: u32, v: Digest, q: nat) -> bool {
    appears(cs, e, ts, v) && count_qh(cs, e, ts, v) >= q
}

pub open spec fn ws_hit(p: ViewDecisionPair, ts: u32, v: Digest) -> bool {
    p.ts.value >= ts && p.value == v
}

/// Entries of a write set at or after `ts` with value `v`.
pub open spec fn ws_count(ws: Seq<ViewDecisionPair>, ts: u32, v: Digest) -> nat
    decreases ws.len(),
{
    if ws.len() == 0 {
        0
    } else {
        ws_count(ws.drop_last(), ts, v) + if ws_hit(ws.last(), ts, v) { 1nat } else { 0 }
    }
}

/// Such entries summed over the counted collects.
pub open spec fn cert_count(cs: Seq<CollectData>, e: u32, ts: u32, v: Digest) -> nat
    decreases cs.len(),
{
    if cs.len() == 0 {
        0
    } else {
        cert_count(cs.drop_last(), e, ts, v) + if normal(cs.last(), e) {
            ws_count(cs.last().incomplete_proof.write_set@, ts, v)
        } else {
            0
        }
    }
}

pub open spec fn certified_value(cs: Seq<CollectData>, e: u32, ts: u32, v: Digest, f: nat) -> bool {
    cert_count(cs, e, ts, v) > f
}

/// `(ts, v)` is bound by the collects of view `w`.
pub open spec fn binds(w: ViewModel, cs: Seq<CollectData>, e: u32, ts: u32, v: Digest) -> bool {
    &&& cs.len() >= w.quorum()
    &&& quorum_highest(cs, e, ts, v, w.quorum())
    &&& certified_value(cs, e, ts, v, w.f)
}

pub open spec fn unbound_vote(c: CollectData, e: u32) -> bool {
    !normal(c, e) || match c.incomplete_proof.quorum_prepares {
        None => true,
        Some(p) => p.ts.value == 0,
    }
}

pub open spec fn count_unbound(cs: Seq<CollectData>, e: u32) -> nat
    decreases cs.len(),
{
    if cs.len() == 0 {
        0
    } else {
        count_unbound(cs.drop_last(), e) + if unbound_vote(cs.last(), e) { 1nat } else { 0 }
    }
}

/// A quorum of collects shows no quorum write past view zero.
pub open spec fn unbound(w: ViewModel, cs: Seq<CollectData>, e: u32) -> bool {
    cs.len() >= w.quorum() && count_unbound(cs, e) >= w.quorum()
}

proof fn lemma_cert_mono(cs: Seq<CollectData>, e: u32, ts: u32, v: Digest, i: int, k: int)
    requires
        0 <= i <= k <= cs.len(),
    ensures
        cert_count(cs.subrange(0, i), e, ts, v) <= cert_count(cs.subrange(0, k), e, ts, v),
    decreases k - i,
{
    if i < k {
        assert(cs.subrange(0, k).drop_last() =~= cs.subrange(0, k - 1));
        lemma_cert_mono(cs, e, ts, v, i, k - 1);
    }
}

/// Counts the collects that vote for `(ts, v)` as highest; also tells
/// whether `(ts, v)` appears as some collect's quorum write.
fn count_quorum_highest(cs: &Vec<CollectData>, e: u32, ts: u32, v: Digest) -> (r: (usize, bool))
    ensures
        r.0 == count_qh(cs@, e, ts, v),
        r.1 == appears(cs@, e, ts, v),
{
    let mut count: usize = 0;
    let mut seen = false;
    let mut i: usize = 0;
    while i < cs.len()
        invariant
            i <= cs@.len(),
            count <= i,
            count == count_qh(cs@.subrange(0, i as int), e, ts, v),
            seen == exists|j: int|
                0 <= j < i && normal(#[trigger] cs@[j], e)
                    && cs@[j].incomplete_proof.quorum_prepares == Some(
                    ViewDecisionPair { ts: SeqNo { value: ts }, value: v },
                ),
        decreases cs.len() - i,
    {
        proof {
            assert(cs@.subrange(0, i + 1).drop_last() =~= cs@.subrange(0, i as int));
        }
        let c = &cs[i];
        if c.incomplete_proof.in_exec.value == e {
            match c.incomplete_proof.quorum_prepares {
                Some(p) => {
                    if p.ts.value < ts || (p.ts.value == ts && p.value == v) {
                        count += 1;
                    }
                    if p.ts.value == ts && p.value == v {
                        seen = true;
                    }
                },
                None => {},
            }
        }
        i += 1;
    }
    proof {
        assert(cs@.subrange(0, i as int) =~= cs@);
    }
    (count, seen)
}

/// Whether more than `f` write-set entries of the counted collects are at
/// or after `ts` with value `v`.
fn certified(cs: &Vec<CollectData>, e: u32, ts: u32, v: Digest, f: usize) -> (r: bool)
    requires
        f < usize::MAX,
    ensures
        r == certified_value(cs@, e, ts, v, f as nat),
{
    let mut count: usize = 0;
    let mut i: usize = 0;
    while i < cs.len()
        invariant
            i <= cs@.len(),
            f < usize::MAX,
            count <= f,
            count == cert_count(cs@.subrange(0, i as int), e, ts, v),
        decreases cs.len() - i,
    {
        proof {
            assert(cs@.subrange(0, i + 1).drop_last() =~= cs@.subrange(0, i as int));
        }
        let c = &cs[i];
        if c.incomplete_proof.in_exec.value == e {
            let ws = &c.incomplete_proof.write_set;
            let mut j: usize = 0;
            let ghost base = count;
            while j < ws.len()
                invariant
                    j <= ws@.len(),
                    count <= f,
                    count == base + ws_count(ws@.subrange(0, j as int), ts, v),
                    f < usize::MAX,
                    i < cs@.len(),
                    normal(cs@[i as int], e),
                    ws@ == cs@[i as int].incomplete_proof.write_set@,
                    base == cert_count(cs@.subrange(0, i as int), e, ts, v),
                    cs@.subrange(0, i + 1).drop_last() == cs@.subrange(0, i as int),
                decreases ws.len() - j,
            {
                proof {
                    assert(ws@.subrange(0, j + 1).drop_last() =~= ws@.subrange(0, j as int));
                }
                if ws[j].ts.value >= ts && ws[j].value == v {
                    count += 1;
                    if count > f {
                        proof {
                            lemma_ws_mono(ws@, ts, v, j + 1, ws@.len() as int);
                            assert(ws@.subrange(0, ws@.len() as int) =~= ws@);
                            assert(cs@.subrange(0, i + 1).last() == cs@[i as int]);
                            assert(cert_count(cs@.subrange(0, i + 1), e, ts, v) == base + ws_count(ws@, ts, v));
                            lemma_cert_mono(cs@, e, ts, v, i + 1, cs@.len() as int);
                            assert(cs@.subrange(0, cs@.len() as int) =~= cs@);
                        }
                        return true;
                    }
                }
                j += 1;
            }
            proof {
                assert(ws@.subrange(0, j as int) =~= ws@);
                assert(cs@.subrange(0, i + 1).last() == cs@[i as int]);
            }
        }
        i += 1;
    }
    proof {
        assert(cs@.subrange(0, i as int) =~= cs@);
    }
    false
}

proof fn lemma_ws_mono(ws: Seq<ViewDecisionPair>, ts: u32, v: Digest, i: int, k: int)
    requires
        0 <= i <= k <= ws.len(),
    ensures
        ws_count(ws.subrange(0, i), ts, v) <= ws_count(ws.subrange(0, k), ts, v),
    decreases k - i,
{
    if i < k {
        assert(ws.subrange(0, k).drop_last() =~= ws.subrange(0, k - 1));
        lemma_ws_mono(ws, ts, v, i, k - 1);
    }
}

/// Whether `(ts, v)` is bound by the collects in view `view`.
pub fn binds_value(view: &ViewInfo, cs: &Vec<CollectData>, e: u32, ts: u32, v: Digest) -> (r: bool)
    requires
        view.wf(),
    ensures
        r == binds(view@, cs@, e, ts, v),
{
    let q = view.quorum();
    if cs.len() < q {
        return false;
    }
    let (count, seen) = count_quorum_highest(cs, e, ts, v);
    let qh = seen && count >= q;
    qh && certified(cs, e, ts, v, view.f())
}

/// Whether a quorum of collects is unbound.
pub fn unbound_collects(view: &ViewInfo, cs: &Vec<CollectData>, e: u32) -> (r: bool)
    requires
        view.wf(),
    ensures
        r == unbound(view@, cs@, e),
{
    let q = view.quorum();
    if cs.len() < q {
        return false;
    }
    let mut count: usize = 0;
    let mut i: usize = 0;
    while i < cs.len()
        invariant
            i <= cs@.len(),
            count <= i,
            count == count_unbound(cs@.subrange(0, i as int), e),
        decreases cs.len() - i,
    {
        proof {
            assert(cs@.subrange(0, i + 1).drop_last() =~= cs@.subrange(0, i as int));
        }
        let c = &cs[i];
        let vote = if c.incomplete_proof.in_exec.value != e {
            true
        } else {
            match c.incomplete_proof.quorum_prepares {
                None => true,
                Some(p) => p.ts.value == 0,
            }
        };
        if vote {
            count += 1;
        }
        i += 1;
    }
    proof {
        assert(cs@.subrange(0, i as int) =~= cs@);
    }
    count >= q
}

/// The soundness predicate: `Bound(v)` when some `(ts, v)` is bound by the
/// collects, else `Unbound` with whether a quorum of them is unbound.
pub fn sound(view: &ViewInfo, cs: &Vec<CollectData>, e: u32) -> (r: Sound)
    requires
        view.wf(),
    ensures
        r is Bound ==> exists|ts: u32| #[trigger] binds(view@, cs@, e, ts, r->Bound_0),
        r matches Sound::Unbound(b) ==> b == unbound(view@, cs@, e) && forall|ts: u32, v: Digest|
            !#[trigger] binds(view@, cs@, e, ts, v),
{
    let mut i: usize = 0;
    while i < cs.len()
        invariant
            view.wf(),
            i <= cs@.len(),
            forall|j: int|
                0 <= j < i && normal(#[trigger] cs@[j], e)
                    && cs@[j].incomplete_proof.quorum_prepares is Some ==> !binds(
                    view@,
                    cs@,
                    e,
                    cs@[j].incomplete_proof.quorum_prepares->0.ts.value,
                    cs@[j].incomplete_proof.quorum_prepares->0.value,
                ),
        decreases cs.len() - i,
    {
        let c = &cs[i];
        if c.incomplete_proof.in_exec.value == e {
            match c.incomplete_proof.quorum_prepares {
                Some(p) => {
                    if binds_value(view, cs, e, p.ts.value, p.value) {
                        proof {
                            assert(binds(view@, cs@, e, p.ts.value, p.value));
                        }
                        let r = Sound::Bound(p.value);
                        proof {
                            assert(r->Bound_0 == p.value);
                            assert(binds(view@, cs@, e, p.ts.value, r->Bound_0));
                        }
                        return r;
                    }
                },
                None => {},
            }
        }
        i += 1;
    }
    proof {
        assert forall|ts: u32, v: Digest| !binds(view@, cs@, e, ts, v) by {
            if binds(view@, cs@, e, ts, v) {
                let j = choose|j: int|
                    0 <= j < cs@.len() && normal(#[trigger] cs@[j], e)
                        && cs@[j].incomplete_proof.quorum_prepares == Some(
                        ViewDecisionPair { ts: SeqNo { value: ts }, value: v },
                    );
                assert(cs@[j].incomplete_proof.quorum_prepares is Some);
            }
        }
    }
    Sound::Unbound(unbound_collects(view, cs, e))
}

pub open spec fn vote_ok(x: ProofVote, d: Digest) -> bool {
    x.signed && x.digest == d
}

/// Signed votes on digest `d`.
pub open spec fn count_votes(vs: Seq<ProofVote>, d: Digest) -> nat
    decreases vs.len(),
{
    if vs.len() == 0 {
        0
    } else {
        count_votes(vs.drop_last(), d) + if vote_ok(vs.last(), d) { 1nat } else { 0 }
    }
}

/// A proof holds a quorum of signed PREPAREs and of signed COMMITs on its digest.
pub open spec fn valid_proof(p: Proof, q: nat) -> bool {
    count_votes(p.prepares@, p.digest) >= q && count_votes(p.commits@, p.digest) >= q
}

pub open spec fn has_valid_proof(c: CollectData, q: nat) -> bool {
    c.last_proof matches Some(p) && valid_proof(p, q)
}

pub open spec fn proof_seq(c: CollectData) -> u32 {
    c.last_proof->0.seq.value
}

/// The number at which the new view resumes: one past the highest valid
/// proof, or zero when there is none.
pub open spec fn curr_cid_of(cs: Seq<CollectData>, best: Option<usize>) -> u32 {
    match best {
        Some(k) => crate::ordering::next_value(proof_seq(cs[k as int])),
        None => 0,
    }
}

fn count_signed(vs: &Vec<ProofVote>, d: Digest) -> (r: usize)
    ensures
        r == count_votes(vs@, d),
{
    let mut count: usize = 0;
    let mut i: usize = 0;
    while i < vs.len()
        invariant
            i <= vs@.len(),
            count <= i,
            count == count_votes(vs@.subrange(0, i as int), d),
        decreases vs.len() - i,
    {
        proof {
            assert(vs@.subrange(0, i + 1).drop_last() =~= vs@.subrange(0, i as int));
        }
        if vs[i].signed && vs[i].digest == d {
            count += 1;
        }
        i += 1;
    }
    proof {
        assert(vs@.subrange(0, i as int) =~= vs@);
    }
    count
}

impl Proof {
    /// Whether the proof holds `q` signed PREPAREs and `q` signed COMMITs on its digest.
    pub fn is_valid(&self, q: usize) -> (r: bool)
        ensures
            r == valid_proof(*self, q as nat),
    {
        count_signed(&self.prepares, self.digest) >= q && count_signed(&self.commits, self.digest) >= q
    }
}

/// The collect carrying the valid proof with the highest sequence number;
/// of several, the first. `None` when no collect carries a valid proof.
pub fn highest_proof(view: &ViewInfo, cs: &Vec<CollectData>) -> (r: Option<usize>)
    requires
        view.wf(),
    ensures
        r is None ==> forall|i: int| 0 <= i < cs@.len() ==> !has_valid_proof(#[trigger] cs@[i], view@.quorum()),
        r matches Some(k) ==> {
            &&& k < cs@.len()
            &&& has_valid_proof(cs@[k as int], view@.quorum())
            &&& forall|i: int| 0 <= i < cs@.len() && has_valid_proof(#[trigger] cs@[i], view@.quorum())
                ==> proof_seq(cs@[i]) <= proof_seq(cs@[k as int])
            &&& forall|i: int| 0 <= i < k && has_valid_proof(#[trigger] cs@[i], view@.quorum())
                ==> proof_seq(cs@[i]) < proof_seq(cs@[k as int])
        },
{
    let q = view.quorum();
    let mut best: Option<usize> = None;
    let mut best_seq: u32 = 0;
    let mut i: usize = 0;
    while i < cs.len()
        invariant
            view.wf(),
            q == view@.quorum(),
            i <= cs@.len(),
            best is None ==> forall|j: int| 0 <= j < i ==> !has_valid_proof(#[trigger] cs@[j], q as nat),
            best matches Some(k) ==> {
                &&& k < i
                &&& has_valid_proof(cs@[k as int], q as nat)
                &&& best_seq == proof_seq(cs@[k as int])
                &&& forall|j: int| 0 <= j < i && has_valid_proof(#[trigger] cs@[j], q as nat)
                    ==> proof_seq(cs@[j]) <= best_seq
                &&& forall|j: int| 0 <= j < k && has_valid_proof(#[trigger] cs@[j], q as nat)
                    ==> proof_seq(cs@[j]) < best_seq
            },
        decreases cs.len() - i,
    {
        match &cs[i].last_proof {
            Some(p) => {
                if p.is_valid(q) {
                    let better = match best {
                        None => true,
                        Some(_) => p.seq.value > best_seq,
                    };
                    if better {
                        best = Some(i);
                        best_seq = p.seq.value;
                    }
                }
            },
            None => {},
        }
        i += 1;
    }
    best
}

/// Where the new view resumes: one past the highest valid proof, or zero.
pub fn curr_cid(view: &ViewInfo, cs: &Vec<CollectData>) -> (r: (SeqNo, Option<usize>))
    requires
        view.wf(),
    ensures
        r.0.value == curr_cid_of(cs@, r.1),
        r.1 is None ==> forall|i: int| 0 <= i < cs@.len() ==> !has_valid_proof(#[trigger] cs@[i], view@.quorum()),
        r.1 matches Some(k) ==> {
            &&& k < cs@.len()
            &&& has_valid_proof(cs@[k as int], view@.quorum())
            &&& forall|i: int| 0 <= i < cs@.len() && has_valid_proof(#[trigger] cs@[i], view@.quorum())
                ==> proof_seq(cs@[i]) <= proof_seq(cs@[k as int])
        },
{
    let best = highest_proof(view, cs);
    match best {
        Some(k) => {
            let s = match &cs[k].last_proof {
                Some(p) => p.seq.next(),
                None => SeqNo::zero(),
            };
            (s, best)
        },
        None => (SeqNo::zero(), None),
    }
}

/// A client request whose timeout fired, in its first or a later phase.
#[derive(Clone, Copy, Debug, PartialEq, Eq, Structural)]
pub struct ClientRqTimeout {
    pub request: u64,
    pub phase: u8,
}

/// The requests of `ts` whose timeout fired in the first phase (`first`)
/// or a later one, in order.
pub open spec fn requests_in_phase(ts: Seq<ClientRqTimeout>, first: bool) -> Seq<u64>
    decreases ts.len(),
{
    if ts.len() == 0 {
        Seq::empty()
    } else {
        let rest = requests_in_phase(ts.drop_last(), first);
        if (ts.last().phase == 0) == first { rest.push(ts.last().request) } else { rest }
    }
}

/// Splits fired timeouts: a first-phase one is forwarded to the leader,
/// a later one is stopped and goes into the next STOP, together with the
/// requests that the STOPs received so far carry (`known_stopped`); the
/// stopped list holds each request once.
pub fn client_requests_timed_out(timeouts: &Vec<ClientRqTimeout>, known_stopped: &Vec<u64>) -> (r: (Vec<u64>, Vec<u64>))
    ensures
        r.0@ == requests_in_phase(timeouts@, true),
        r.1@ == merge_requests(merge_requests(Seq::empty(), requests_in_phase(timeouts@, false)), known_stopped@),
        r.1@.no_duplicates(),
{
    let mut forwarded: Vec<u64> = Vec::new();
    let mut stopped: Vec<u64> = Vec::new();
    let mut i: usize = 0;
    while i < timeouts.len()
        invariant
            i <= timeouts@.len(),
            forwarded@ == requests_in_phase(timeouts@.subrange(0, i as int), true),
            stopped@ == requests_in_phase(timeouts@.subrange(0, i as int), false),
        decreases timeouts.len() - i,
    {
        proof {
            assert(timeouts@.subrange(0, i + 1).drop_last() =~= timeouts@.subrange(0, i as int));
        }
        let t = timeouts[i];
        if t.phase == 0 {
            forwarded.push(t.request);
        } else {
            stopped.push(t.request);
        }
        i += 1;
    }
    proof {
        assert(timeouts@.subrange(0, i as int) =~= timeouts@);
        lemma_merge_no_duplicates(Seq::empty(), stopped@);
        lemma_merge_no_duplicates(merge_requests(Seq::empty(), stopped@), known_stopped@);
    }
    let once = merged_requests(Vec::new(), &stopped);
    (forwarded, merged_requests(once, known_stopped))
}

/// Merging into a list without repeats gives a list without repeats.
pub proof fn lemma_merge_no_duplicates(a: Seq<u64>, b: Seq<u64>)
    requires
        a.no_duplicates(),
    ensures
        merge_requests(a, b).no_duplicates(),
    decreases b.len(),
{
    if b.len() > 0 {
        lemma_merge_no_duplicates(a, b.drop_last());
        let m = merge_requests(a, b.drop_last());
        if !m.contains(b.last()) {
            assert forall|x: int, y: int| 0 <= x < y < m.push(b.last()).len() implies m.push(b.last())[x] != m.push(b.last())[y] by {
                if y == m.len() {
                    assert(m.push(b.last())[x] == m[x]);
                }
            }
        }
    }
}

/// A STOP for the next view, or a STOP-QUORUM-JOIN naming the node that
/// asks to join.
#[derive(Clone, Copy, Debug, PartialEq, Eq, Structural)]
pub enum StopKind {
    Stop,
    QuorumJoin(NodeId),
}

/// What receiving a STOP led to.
#[derive(Clone, Copy, Debug, PartialEq, Eq, Structural)]
pub enum StopOutcome {
    /// Not counted: a repeated sender, a non-member, or a join request
    /// while a plain view change is under way.
    Ignored,
    Counted,
    /// `f + 1` senders seen: broadcast our own STOP now.
    SendOwnStop,
    /// A quorum of senders: the next view can be installed.
    Install,
    /// Another node's join is already being voted on.
    OnGoingQuorumChange(NodeId),
}

/// The STOP messages counted for the view after the current one.
pub struct StopTracker {
    pub joining: Option<NodeId>,
    pub senders: Vec<NodeId>,
    pub requests: Vec<u64>,
    pub sent_own: bool,
}

pub struct TrackerModel {
    pub joining: Option<NodeId>,
    pub senders: Seq<NodeId>,
    pub requests: Seq<u64>,
    pub sent_own: bool,
}

impl View for StopTracker {
    type V = TrackerModel;

    open spec fn view(&self) -> TrackerModel {
        TrackerModel {
            joining: self.joining,
            senders: self.senders@,
            requests: self.requests@,
            sent_own: self.sent_own,
        }
    }
}

pub open spec fn empty_tracker() -> TrackerModel {
    TrackerModel { joining: None, senders: Seq::empty(), requests: Seq::empty(), sent_own: false }
}

/// `a` followed by the entries of `b` it lacks, each once.
pub open spec fn merge_requests(a: Seq<u64>, b: Seq<u64>) -> Seq<u64>
    decreases b.len(),
{
    if b.len() == 0 {
        a
    } else {
        let m = merge_requests(a, b.drop_last());
        if m.contains(b.last()) { m } else { m.push(b.last()) }
    }
}

/// The view that a quorum of the STOPs counted in `t` installs after `w`.
pub open spec fn view_after_stops(t: TrackerModel, w: ViewModel) -> ViewModel {
    match t.joining {
        Some(c) => if !w.is_member(c) {
            ViewModel {
                seq: (w.seq + 1) as u32,
                members: w.members.push(c),
                f: crate::view::faults_of(w.n() + 1),
            }
        } else {
            ViewModel { seq: (w.seq + 1) as u32, ..w }
        },
        None => ViewModel { seq: (w.seq + 1) as u32, ..w },
    }
}

/// Counting one STOP from `from`: its new state and the outcome.
pub open spec fn stop_step(
    t0: TrackerModel,
    w: ViewModel,
    from: NodeId,
    kind: StopKind,
    reqs: Seq<u64>,
) -> (TrackerModel, StopOutcome) {
    if !w.is_member(from) {
        (t0, StopOutcome::Ignored)
    } else {
        // a plain STOP takes over from a quorum-join vote
        let t = if kind == StopKind::Stop && t0.joining is Some { empty_tracker() } else { t0 };
        let blocked = match kind {
            StopKind::QuorumJoin(c) => match t.joining {
                Some(other) => if other != c { Some(StopOutcome::OnGoingQuorumChange(other)) } else { None },
                None => if t.senders.len() > 0 { Some(StopOutcome::Ignored) } else { None },
            },
            StopKind::Stop => None,
        };
        if blocked is Some {
            (t, blocked->0)
        } else if t.senders.contains(from) {
            (t, StopOutcome::Ignored)
        } else {
            let t1 = TrackerModel {
                joining: match kind {
                    StopKind::QuorumJoin(c) => Some(c),
                    StopKind::Stop => t.joining,
                },
                senders: t.senders.push(from),
                requests: merge_requests(t.requests, reqs),
                ..t
            };
            if t1.senders.len() >= w.quorum() {
                (t1, StopOutcome::Install)
            } else if t1.senders.len() >= w.f + 1 && !t1.sent_own {
                (TrackerModel { sent_own: true, ..t1 }, StopOutcome::SendOwnStop)
            } else {
                (t1, StopOutcome::Counted)
            }
        }
    }
}

/// `a` followed by the entries of `b` it lacks, each once.
pub fn merged_requests(a: Vec<u64>, b: &Vec<u64>) -> (r: Vec<u64>)
    ensures
        r@ == merge_requests(a@, b@),
{
    let mut out = a;
    let ghost a0 = out@;
    let mut i: usize = 0;
    while i < b.len()
        invariant
            i <= b@.len(),
            out@ == merge_requests(a0, b@.subrange(0, i as int)),
        decreases b.len() - i,
    {
        proof {
            assert(b@.subrange(0, i + 1).drop_last() =~= b@.subrange(0, i as int));
        }
        let x = b[i];
        let mut found = false;
        let mut j: usize = 0;
        while j < out.len()
            invariant
                j <= out@.len(),
                found == exists|k: int| 0 <= k < j && out@[k] == x,
            decreases out.len() - j,
        {
            if out[j] == x {
                found = true;
            }
            j += 1;
        }
        proof {
            if found {
                let k = choose|k: int| 0 <= k < j && out@[k] == x;
                assert(out@.contains(x));
            }
        }
        if !found {
            out.push(x);
        }
        i += 1;
    }
    proof {
        assert(b@.subrange(0, i as int) =~= b@);
    }
    out
}

impl StopTracker {
    pub fn new() -> (r: StopTracker)
        ensures
            r@ == empty_tracker(),
    {
        let r = StopTracker { joining: None, senders: Vec::new(), requests: Vec::new(), sent_own: false };
        proof {
            assert(r@.senders =~= Seq::<NodeId>::empty());
            assert(r@.requests =~= Seq::<u64>::empty());
        }
        r
    }

    /// Adds the requests of `reqs` not yet held.
    fn merge(&mut self, reqs: &Vec<u64>)
        ensures
            final(self)@ == (TrackerModel { requests: merge_requests(old(self)@.requests, reqs@), ..old(self)@ }),
    {
        let mut held: Vec<u64> = Vec::new();
        std::mem::swap(&mut held, &mut self.requests);
        self.requests = merged_requests(held, reqs);
    }

    /// Counts one STOP (or STOP-QUORUM-JOIN) from `from` carrying the
    /// requests it stopped.
    pub fn receive(&mut self, view: &ViewInfo, from: NodeId, kind: StopKind, reqs: &Vec<u64>) -> (r: StopOutcome)
        requires
            view.wf(),
        ensures
            final(self)@ == stop_step(old(self)@, view@, from, kind, reqs@).0,
            r == stop_step(old(self)@, view@, from, kind, reqs@).1,
    {
        if !view.is_member(from) {
            return StopOutcome::Ignored;
        }
        if kind == StopKind::Stop && self.joining.is_some() {
            *self = StopTracker::new();
        }
        match kind {
            StopKind::QuorumJoin(c) => match self.joining {
                Some(other) => {
                    if other != c {
                        return StopOutcome::OnGoingQuorumChange(other);
                    }
                },
                None => {
                    if self.senders.len() > 0 {
                        return StopOutcome::Ignored;
                    }
                },
            },
            StopKind::Stop => {},
        }
        if contains_node(&self.senders, from) {
            return StopOutcome::Ignored;
        }
        match kind {
            StopKind::QuorumJoin(c) => {
                self.joining = Some(c);
            },
            StopKind::Stop => {},
        }
        self.senders.push(from);
        self.merge(reqs);
        if self.senders.len() >= view.quorum() {
            StopOutcome::Install
        } else if self.senders.len() >= view.f() + 1 && !self.sent_own {
            self.sent_own = true;
            StopOutcome::SendOwnStop
        } else {
            StopOutcome::Counted
        }
    }

    /// Starts a view change of our own: returns whether our STOP is still
    /// to be broadcast (it is sent once), after which it counts as sent.
    pub fn begin_view_change(&mut self) -> (r: bool)
        ensures
            r == !old(self)@.sent_own,
            final(self)@ == (TrackerModel { sent_own: true, ..old(self)@ }),
    {
        let r = !self.sent_own;
        self.sent_own = true;
        r
    }

    /// The view to install once a quorum of STOPs is in: the next view,
    /// with the joining node added when the STOPs were a join vote for a
    /// node not yet a member.
    pub fn next_view(&self, view: &ViewInfo) -> (r: ViewInfo)
        requires
            view.wf(),
            view.seq.value < SEQ_MAX,
            view@.members.len() < usize::MAX,
        ensures
            r.wf(),
            r@ == view_after_stops(self@, view@),
    {
        match self.joining {
            Some(c) => match view.next_view_with_new_node(c) {
                Some(v) => v,
                None => view.next_view(),
            },
            None => view.next_view(),
        }
    }

    /// A copy of the requests stopped by the counted senders.
    pub fn requests_copy(&self) -> (r: Vec<u64>)
        ensures
            r@ == self@.requests,
    {
        crate::message::copy_requests(&self.requests)
    }

    /// The requests stopped by the counted senders, each once.
    pub fn stopped_requests(&self) -> (r: &Vec<u64>)
        ensures
            r@ == self@.requests,
    {
        &self.requests
    }
}

/// A plain STOP from a member ends a quorum-join vote under way: the count
/// starts over with that STOP alone.
pub proof fn lemma_stop_preempts_join(t: TrackerModel, w: ViewModel, from: NodeId, reqs: Seq<u64>)
    requires
        w.wf(),
        w.is_member(from),
        t.joining is Some,
    ensures
        stop_step(t, w, from, StopKind::Stop, reqs).0.joining is None,
        stop_step(t, w, from, StopKind::Stop, reqs).0.senders == seq![from],
{
    assert(Seq::<NodeId>::empty().push(from) =~= seq![from]);
}

/// While plain STOPs are being counted, a STOP-QUORUM-JOIN changes nothing.
pub proof fn lemma_join_waits_for_stops(t: TrackerModel, w: ViewModel, from: NodeId, c: NodeId, reqs: Seq<u64>)
    requires
        t.joining is None,
        t.senders.len() > 0,
    ensures
        stop_step(t, w, from, StopKind::QuorumJoin(c), reqs) == (t, StopOutcome::Ignored),
{
}

/// The tally never counts a sender twice: its senders stay distinct.
pub proof fn lemma_stop_senders_distinct(t: TrackerModel, w: ViewModel, from: NodeId, kind: StopKind, reqs: Seq<u64>)
    requires
        t.senders.no_duplicates(),
    ensures
        stop_step(t, w, from, kind, reqs).0.senders.no_duplicates(),
{
    let t1 = if kind == StopKind::Stop && t.joining is Some { empty_tracker() } else { t };
    let s = t1.senders;
    if !s.contains(from) {
        assert forall|x: int, y: int| 0 <= x < y < s.push(from).len() implies s.push(from)[x] != s.push(from)[y] by {
            if y == s.len() {
                assert(s.push(from)[x] == s[x]);
            }
        }
    }
}

} // verus!
