//! The byte encoding of consensus messages: a kind tag (0 PRE-PREPARE,
//! 1 PREPARE, 2 COMMIT), the sequence number, the view, the sender and the
//! digest, all big-endian; a PRE-PREPARE then carries the number of its
//! requests and each request identifier.
use vstd::prelude::*;

use crate::header::{
    be_u32, be_u64, digest_bytes, get_u32, get_u64, lemma_u32, lemma_u64, push_u32, push_u64,
    u32_be, u64_be,
};
use crate::message::{ConsensusKind, ConsensusMessage, Digest, KindModel, MsgModel};
use crate::ordering::{NodeId, SeqNo};

verus! {

/// Bytes before the variable part.
pub const FIXED_LENGTH: usize = 45;

/// Why bytes could not be read as a consensus message.
#[derive(Clone, Copy, Debug, PartialEq, Eq, Structural)]
pub enum DecodeError {
    Malformed,
}

/// The bytes of a list of request identifiers.
pub open spec fn requests_bytes(r: Seq<u64>) -> Seq<u8>
    decreases r.len(),
{
    if r.len() == 0 {
        Seq::empty()
    } else {
        requests_bytes(r.drop_last()) + u64_be(r.last())
    }
}

pub open spec fn kind_tag(k: KindModel) -> u8 {
    match k {
        KindModel::PrePrepare(_, _) => 0,
        KindModel::Prepare(_) => 1,
        KindModel::Commit(_) => 2,
    }
}

/// The bytes of a consensus message.
pub open spec fn encode_msg(m: MsgModel) -> Seq<u8> {
    let head = seq![kind_tag(m.kind)] + u32_be(m.seq) + u32_be(m.view) + u32_be(m.from.id) + digest_bytes(
        crate::message::kind_digest(m.kind),
    );
    match m.kind {
        KindModel::PrePrepare(_, b) => head + u64_be(b.len() as u64) + requests_bytes(b),
        _ => head,
    }
}

pub open spec fn digest_at(b: Seq<u8>, at: int) -> Digest {
    Digest {
        w0: be_u64(b.subrange(at, at + 8)),
        w1: be_u64(b.subrange(at + 8, at + 16)),
        w2: be_u64(b.subrange(at + 16, at + 24)),
        w3: be_u64(b.subrange(at + 24, at + 32)),
    }
}

/// The message that `b` holds, if it holds one.
pub open spec fn decode_msg(b: Seq<u8>) -> Option<MsgModel> {
    if b.len() < FIXED_LENGTH {
        None
    } else {
        let seq = be_u32(b.subrange(1, 5));
        let view = be_u32(b.subrange(5, 9));
        let from = NodeId { id: be_u32(b.subrange(9, 13)) };
        let d = digest_at(b, 13);
        if b[0] == 1 && b.len() == FIXED_LENGTH {
            Some(MsgModel { seq, view, from, kind: KindModel::Prepare(d) })
        } else if b[0] == 2 && b.len() == FIXED_LENGTH {
            Some(MsgModel { seq, view, from, kind: KindModel::Commit(d) })
        } else if b[0] == 0 && b.len() >= FIXED_LENGTH + 8 {
            let n = be_u64(b.subrange(45, 53)) as int;
            if b.len() == 53 + 8 * n {
                Some(MsgModel {
                    seq,
                    view,
                    from,
                    kind: KindModel::PrePrepare(d, Seq::new(n as nat, |i: int| be_u64(b.subrange(53 + 8 * i, 61 + 8 * i)))),
                })
            } else {
                None
            }
        } else {
            None
        }
    }
}

proof fn lemma_requests_bytes(r: Seq<u64>)
    ensures
        requests_bytes(r).len() == 8 * r.len(),
        forall|i: int| 0 <= i < r.len() ==> #[trigger] requests_bytes(r).subrange(8 * i, 8 * i + 8) == u64_be(r[i]),
    decreases r.len(),
{
    if r.len() > 0 {
        let p = r.drop_last();
        lemma_requests_bytes(p);
        let b = requests_bytes(r);
        assert forall|i: int| 0 <= i < r.len() implies #[trigger] requests_bytes(r).subrange(8 * i, 8 * i + 8) == u64_be(r[i]) by {
            if i < p.len() {
                assert(b.subrange(8 * i, 8 * i + 8) =~= requests_bytes(p).subrange(8 * i, 8 * i + 8));
                assert(p[i] == r[i]);
            } else {
                assert(b.subrange(8 * i, 8 * i + 8) =~= u64_be(r.last()));
            }
        }
    }
}

proof fn lemma_digest_round_trip(d: Digest, pre: Seq<u8>, post: Seq<u8>)
    requires
        pre.len() == 13,
    ensures
        digest_at(pre + digest_bytes(d) + post, 13) == d,
{
    let b = pre + digest_bytes(d) + post;
    assert(b.subrange(13, 21) =~= u64_be(d.w0));
    assert(b.subrange(21, 29) =~= u64_be(d.w1));
    assert(b.subrange(29, 37) =~= u64_be(d.w2));
    assert(b.subrange(37, 45) =~= u64_be(d.w3));
    lemma_u64(d.w0);
    lemma_u64(d.w1);
    lemma_u64(d.w2);
    lemma_u64(d.w3);
}

/// Reading back the bytes of a consensus message gives the same message.
pub proof fn lemma_message_round_trip(m: MsgModel)
    requires
        m.kind matches KindModel::PrePrepare(_, b) ==> 53 + 8 * b.len() <= usize::MAX,
    ensures
        decode_msg(encode_msg(m)) == Some(m),
{
    let e = encode_msg(m);
    let pre = seq![kind_tag(m.kind)] + u32_be(m.seq) + u32_be(m.view) + u32_be(m.from.id);
    let d = crate::message::kind_digest(m.kind);
    let head = pre + digest_bytes(d);
    assert(e.subrange(1, 5) =~= u32_be(m.seq));
    assert(e.subrange(5, 9) =~= u32_be(m.view));
    assert(e.subrange(9, 13) =~= u32_be(m.from.id));
    lemma_u32(m.seq);
    lemma_u32(m.view);
    lemma_u32(m.from.id);
    match m.kind {
        KindModel::PrePrepare(_, b) => {
            let post = u64_be(b.len() as u64) + requests_bytes(b);
            assert(e =~= pre + digest_bytes(d) + post);
            lemma_digest_round_trip(d, pre, post);
            lemma_requests_bytes(b);
            assert(e.subrange(45, 53) =~= u64_be(b.len() as u64));
            lemma_u64(b.len() as u64);
            let got = Seq::new(b.len(), |i: int| be_u64(e.subrange(53 + 8 * i, 61 + 8 * i)));
            assert forall|i: int| 0 <= i < b.len() implies got[i] == b[i] by {
                assert(e.subrange(53 + 8 * i, 61 + 8 * i) =~= requests_bytes(b).subrange(8 * i, 8 * i + 8));
                lemma_u64(b[i]);
            }
            assert(got =~= b);
        },
        _ => {
            assert(e =~= pre + digest_bytes(d) + Seq::<u8>::empty());
            lemma_digest_round_trip(d, pre, Seq::empty());
        },
    }
}

impl ConsensusMessage {
    /// The bytes of this message.
    pub fn serialize(&self) -> (r: Vec<u8>)
        ensures
            r@ == encode_msg(self@),
    {
        let mut out: Vec<u8> = Vec::new();
        let tag: u8 = match &self.kind {
            ConsensusKind::PrePrepare(_, _) => 0,
            ConsensusKind::Prepare(_) => 1,
            ConsensusKind::Commit(_) => 2,
        };
        out.push(tag);
        push_u32(&mut out, self.seq.value);
        push_u32(&mut out, self.view.value);
        push_u32(&mut out, self.from.id);
        let d = self.digest();
        push_u64(&mut out, d.w0);
        push_u64(&mut out, d.w1);
        push_u64(&mut out, d.w2);
        push_u64(&mut out, d.w3);
        proof {
            assert(out@ =~= seq![tag] + u32_be(self.seq.value) + u32_be(self.view.value) + u32_be(self.from.id)
                + digest_bytes(d));
        }
        match &self.kind {
            ConsensusKind::PrePrepare(_, b) => {
                let ghost head = out@;
                push_u64(&mut out, b.len() as u64);
                let mut i: usize = 0;
                proof {
                    assert(b@.subrange(0, 0) =~= Seq::<u64>::empty());
                    assert(out@ =~= head + u64_be(b@.len() as u64) + requests_bytes(b@.subrange(0, 0)));
                }
                while i < b.len()
                    invariant
                        i <= b@.len(),
                        out@ == head + u64_be(b@.len() as u64) + requests_bytes(b@.subrange(0, i as int)),
                    decreases b.len() - i,
                {
                    proof {
                        assert(b@.subrange(0, i + 1).drop_last() =~= b@.subrange(0, i as int));
                    }
                    push_u64(&mut out, b[i]);
                    proof {
                        assert(out@ =~= head + u64_be(b@.len() as u64) + requests_bytes(b@.subrange(0, i + 1)));
                    }
                    i += 1;
                }
                proof {
                    assert(b@.subrange(0, i as int) =~= b@);
                }
            },
            _ => {},
        }
        out
    }

    /// Reads a consensus message from `b`, which must hold exactly one.
    pub fn deserialize(b: &Vec<u8>) -> (r: Result<ConsensusMessage, DecodeError>)
        ensures
            r is Ok == decode_msg(b@) is Some,
            r matches Ok(m) ==> decode_msg(b@) == Some(m@),
    {
        let len = b.len();
        if len < FIXED_LENGTH {
            return Err(DecodeError::Malformed);
        }
        let seq = SeqNo { value: get_u32(b, 1) };
        let view = SeqNo { value: get_u32(b, 5) };
        let from = NodeId { id: get_u32(b, 9) };
        let d = Digest { w0: get_u64(b, 13), w1: get_u64(b, 21), w2: get_u64(b, 29), w3: get_u64(b, 37) };
        if b[0] == 1 && len == FIXED_LENGTH {
            return Ok(ConsensusMessage { seq, view, from, kind: ConsensusKind::Prepare(d) });
        }
        if b[0] == 2 && len == FIXED_LENGTH {
            return Ok(ConsensusMessage { seq, view, from, kind: ConsensusKind::Commit(d) });
        }
        if b[0] != 0 || len < FIXED_LENGTH + 8 {
            return Err(DecodeError::Malformed);
        }
        let n = get_u64(b, 45);
        if n > ((len - 53) / 8) as u64 || (len - 53) % 8 != 0 || (n as usize) != (len - 53) / 8 {
            return Err(DecodeError::Malformed);
        }
        let n = n as usize;
        let mut reqs: Vec<u64> = Vec::new();
        let mut i: usize = 0;
        while i < n
            invariant
                i <= n,
                len == b@.len(),
                len == 53 + 8 * n,
                reqs@ == Seq::new(i as nat, |k: int| be_u64(b@.subrange(53 + 8 * k, 61 + 8 * k))),
            decreases n - i,
        {
            reqs.push(get_u64(b, 53 + 8 * i));
            proof {
                assert(reqs@ =~= Seq::new((i + 1) as nat, |k: int| be_u64(b@.subrange(53 + 8 * k, 61 + 8 * k))));
            }
            i += 1;
        }
        Ok(ConsensusMessage { seq, view, from, kind: ConsensusKind::PrePrepare(d, reqs) })
    }
}

} // verus!
