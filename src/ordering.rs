//! Sequence numbers, node identifiers and the bucketed out-of-order queue.
use vstd::prelude::*;

verus! {

/// Largest value a sequence number can hold.
pub const SEQ_MAX: u32 = 0xffff_ffff;

/// A 32-bit sequence number, used both for consensus instances and for views.
#[derive(Clone, Copy, Debug, PartialEq, Eq, Structural, Hash, PartialOrd, Ord)]
pub struct SeqNo {
    pub value: u32,
}

/// Where a sequence number lies relative to a base one.
#[derive(Clone, Copy, Debug, PartialEq, Eq, Structural)]
pub enum SeqIndex {
    /// Behind the base by the given (positive) distance: a stale number.
    Stale(u32),
    /// At or past the base, at the given offset.
    Offset(usize),
}

/// Identifier of a replica or a client.
#[derive(Clone, Copy, Debug, PartialEq, Eq, Structural, Hash, PartialOrd, Ord)]
pub struct NodeId {
    pub id: u32,
}

/// The value `next()` gives, wrapping at the top of the range.
pub open spec fn next_value(v: u32) -> u32 {
    if v == SEQ_MAX { 0 } else { (v + 1) as u32 }
}

/// The position of `s` relative to `base`.
pub open spec fn index_spec(s: SeqNo, base: SeqNo) -> SeqIndex {
    if s.value < base.value {
        SeqIndex::Stale((base.value - s.value) as u32)
    } else {
        SeqIndex::Offset((s.value - base.value) as usize)
    }
}

impl SeqNo {
    pub fn zero() -> (r: SeqNo)
        ensures
            r.value == 0,
    {
        SeqNo { value: 0 }
    }

    pub fn from_u32(v: u32) -> (r: SeqNo)
        ensures
            r.value == v,
    {
        SeqNo { value: v }
    }

    pub fn value(&self) -> (r: u32)
        ensures
            r == self.value,
    {
        self.value
    }

    /// The following sequence number; the largest one wraps to zero.
    pub fn next(&self) -> (r: SeqNo)
        ensures
            r.value == next_value(self.value),
    {
        if self.value == SEQ_MAX {
            SeqNo { value: 0 }
        } else {
            SeqNo { value: self.value + 1 }
        }
    }

    /// Position of this number relative to `base`: stale when behind it,
    /// else its offset from it.
    pub fn index(&self, base: SeqNo) -> (r: SeqIndex)
        ensures
            r == index_spec(*self, base),
    {
        if self.value < base.value {
            SeqIndex::Stale(base.value - self.value)
        } else {
            SeqIndex::Offset((self.value - base.value) as usize)
        }
    }
}

impl NodeId {
    pub fn new(id: u32) -> (r: NodeId)
        ensures
            r.id == id,
    {
        NodeId { id }
    }

    /// Whether this identifier belongs to a replica, given the first client id.
    pub fn is_replica(&self, first_cli: NodeId) -> (r: bool)
        ensures
            r == (self.id < first_cli.id),
    {
        self.id < first_cli.id
    }
}

/// Queue of messages bucketed by their offset from a base sequence number.
/// Bucket `i` holds, in arrival order, the messages for `base + i`.
pub struct TboQueue<T> {
    pub base: SeqNo,
    pub buckets: Vec<Vec<T>>,
}

/// The contents of bucket `i` of a bucket list, empty past its end.
pub open spec fn bucket_of<T>(buckets: Seq<Seq<T>>, i: int) -> Seq<T> {
    if 0 <= i < buckets.len() { buckets[i] } else { Seq::empty() }
}

/// Buckets after queueing `m` at offset `off`.
pub open spec fn queued_buckets<T>(buckets: Seq<Seq<T>>, off: int, m: T) -> Seq<Seq<T>> {
    Seq::new(
        if off < buckets.len() { buckets.len() } else { (off + 1) as nat },
        |i: int| if i == off { bucket_of(buckets, i).push(m) } else { bucket_of(buckets, i) },
    )
}

/// Buckets after dropping the head bucket.
pub open spec fn advanced_buckets<T>(buckets: Seq<Seq<T>>) -> Seq<Seq<T>> {
    if buckets.len() == 0 { buckets } else { buckets.drop_first() }
}

/// Buckets after `k` advances.
pub open spec fn advanced_n<T>(buckets: Seq<Seq<T>>, k: nat) -> Seq<Seq<T>>
    decreases k,
{
    if k == 0 { buckets } else { advanced_n(advanced_buckets(buckets), (k - 1) as nat) }
}

proof fn lemma_advance_shifts<T>(buckets: Seq<Seq<T>>, k: nat)
    ensures
        bucket_of(advanced_n(buckets, k), 0) == bucket_of(buckets, k as int),
    decreases k,
{
    if k > 0 {
        lemma_advance_shifts(advanced_buckets(buckets), (k - 1) as nat);
        if buckets.len() > 0 {
            assert(bucket_of(advanced_buckets(buckets), k - 1) == bucket_of(buckets, k as int));
        }
    }
}

/// A message queued `k` numbers past the base comes out of the advance
/// that reaches its number, after the messages queued before it for that
/// number, in the order they were queued; other numbers keep their messages.
pub proof fn lemma_queue_then_advance<T>(buckets: Seq<Seq<T>>, k: nat, m: T)
    ensures
        bucket_of(advanced_n(queued_buckets(buckets, k as int, m), k), 0) == bucket_of(buckets, k as int).push(m),
        forall|j: int| 0 <= j && j != k ==> bucket_of(queued_buckets(buckets, k as int, m), j) == bucket_of(buckets, j),
{
    lemma_advance_shifts(queued_buckets(buckets, k as int, m), k);
}

impl<T> TboQueue<T> {
    pub open spec fn buckets_view(&self) -> Seq<Seq<T>> {
        Seq::new(self.buckets@.len(), |i: int| self.buckets@[i]@)
    }

    pub fn new(base: SeqNo) -> (r: TboQueue<T>)
        ensures
            r.base == base,
            r.buckets_view() == Seq::<Seq<T>>::empty(),
    {
        let r = TboQueue { base, buckets: Vec::new() };
        assert(r.buckets_view() =~= Seq::<Seq<T>>::empty());
        r
    }

    /// Queues `m` for sequence number `seq`; a stale message is dropped.
    pub fn queue(&mut self, seq: SeqNo, m: T) -> (queued: bool)
        ensures
            queued == (seq.value >= old(self).base.value),
            final(self).base == old(self).base,
            queued ==> final(self).buckets_view() == queued_buckets(
                old(self).buckets_view(),
                seq.value - old(self).base.value,
                m,
            ),
            !queued ==> final(self).buckets_view() == old(self).buckets_view(),
    {
        match seq.index(self.base) {
            SeqIndex::Stale(_) => false,
            SeqIndex::Offset(off) => {
                let ghost old_view = self.buckets_view();
                while self.buckets.len() <= off
                    invariant
                        self.base == old(self).base,
                        self.buckets@.len() >= old_view.len(),
                        self.buckets@.len() == old_view.len() || self.buckets@.len() <= off + 1,
                        forall|i: int|
                            0 <= i < self.buckets@.len() ==> #[trigger] self.buckets@[i]@
                                == bucket_of(old_view, i),
                    decreases off + 1 - self.buckets.len(),
                {
                    self.buckets.push(Vec::new());
                }
                let mut bucket: Vec<T> = Vec::new();
                self.buckets.set_and_swap(off, &mut bucket);
                bucket.push(m);
                self.buckets.set(off, bucket);
                assert(self.buckets_view() =~= queued_buckets(old_view, off as int, m));
                true
            },
        }
    }

    /// Removes and returns the bucket for the base sequence number, then
    /// moves the base one number forward.
    pub fn advance(&mut self) -> (r: Vec<T>)
        ensures
            r@ == bucket_of(old(self).buckets_view(), 0),
            final(self).base.value == next_value(old(self).base.value),
            final(self).buckets_view() == advanced_buckets(old(self).buckets_view()),
    {
        let ghost old_view = self.buckets_view();
        self.base = self.base.next();
        if self.buckets.len() == 0 {
            Vec::new()
        } else {
            let r = self.buckets.remove(0);
            assert(self.buckets_view() =~= old_view.drop_first());
            r
        }
    }

    /// Takes one message from the head bucket, if it holds any.
    pub fn pop(&mut self) -> (r: Option<T>)
        ensures
            final(self).base == old(self).base,
            bucket_of(old(self).buckets_view(), 0).len() == 0 ==> r.is_none()
                && final(self).buckets_view() == old(self).buckets_view(),
            bucket_of(old(self).buckets_view(), 0).len() > 0 ==> r == Some(
                bucket_of(old(self).buckets_view(), 0)[0],
            ) && final(self).buckets_view() == old(self).buckets_view().update(
                0,
                bucket_of(old(self).buckets_view(), 0).drop_first(),
            ),
    {
        let ghost old_view = self.buckets_view();
        if self.buckets.len() == 0 || self.buckets[0].len() == 0 {
            None
        } else {
            let mut head: Vec<T> = Vec::new();
            self.buckets.set_and_swap(0, &mut head);
            let m = head.remove(0);
            self.buckets.set(0, head);
            assert(self.buckets_view() =~= old_view.update(0, old_view[0].drop_first()));
            Some(m)
        }
    }

    /// Whether the head bucket holds a message.
    pub fn has_ready(&self) -> (r: bool)
        ensures
            r == (bucket_of(self.buckets_view(), 0).len() > 0),
    {
        self.buckets.len() > 0 && self.buckets[0].len() > 0
    }
}

} // verus!
