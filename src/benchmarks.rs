//! Timing samples collected while the protocol runs.
use vstd::prelude::*;

verus! {

/// Largest value a sample can hold.
pub const SAMPLE_MAX: u64 = 0x7fff_ffff_ffff_ffff;

/// Timestamps, in nanoseconds, of the stages one batch went through.
#[derive(Clone, Copy, Debug)]
pub struct BatchMeta {
    pub consensus_start_time: u128,
    pub consensus_decision_time: u128,
    pub prepare_sent_time: u128,
    pub commit_sent_time: u128,
    pub reception_time: u128,
    pub execution_time: u128,
}

impl BatchMeta {
    /// Every stage stamped with `now`.
    pub fn new(now: u128) -> (r: BatchMeta)
        ensures
            r.consensus_start_time == now,
            r.consensus_decision_time == now,
            r.prepare_sent_time == now,
            r.commit_sent_time == now,
            r.reception_time == now,
            r.execution_time == now,
    {
        BatchMeta {
            consensus_start_time: now,
            consensus_decision_time: now,
            prepare_sent_time: now,
            commit_sent_time: now,
            reception_time: now,
            execution_time: now,
        }
    }
}

/// A list of samples.
pub struct BenchmarkHelper {
    pub values: Vec<i64>,
}

/// A measurement that can be recorded as a sample.
pub trait BenchmarkHelperStore: Sized {
    spec fn sample(self) -> i64;

    fn store(self, bench: &mut BenchmarkHelper)
        ensures
            final(bench).values@ == old(bench).values@.push(self.sample()),
    ;
}

/// A count, kept to its low 63 bits.
impl BenchmarkHelperStore for usize {
    open spec fn sample(self) -> i64 {
        (self as u64 & SAMPLE_MAX) as i64
    }

    fn store(self, bench: &mut BenchmarkHelper) {
        bench.values.push((self as u64 & SAMPLE_MAX) as i64);
    }
}

/// A duration in nanoseconds, kept to its low 63 bits.
impl BenchmarkHelperStore for u128 {
    open spec fn sample(self) -> i64 {
        (self as u64 & SAMPLE_MAX) as i64
    }

    fn store(self, bench: &mut BenchmarkHelper) {
        bench.values.push((self as u64 & SAMPLE_MAX) as i64);
    }
}

/// Ascending order.
pub open spec fn ascending(v: Seq<i64>) -> bool {
    forall|i: int, j: int| 0 <= i < j < v.len() ==> v[i] <= v[j]
}

/// The samples of `v` in ascending order.
pub fn sorted_samples(v: &Vec<i64>) -> (r: Vec<i64>)
    ensures
        ascending(r@),
        r@.to_multiset() == v@.to_multiset(),
{
    let mut r: Vec<i64> = Vec::new();
    let mut i: usize = 0;
    proof {
        assert(v@.subrange(0, 0) =~= Seq::<i64>::empty());
    }
    while i < v.len()
        invariant
            i <= v@.len(),
            ascending(r@),
            r@.to_multiset() == v@.subrange(0, i as int).to_multiset(),
        decreases v.len() - i,
    {
        let x = v[i];
        let mut p: usize = 0;
        while p < r.len() && r[p] <= x
            invariant
                p <= r@.len(),
                forall|k: int| 0 <= k < p ==> r@[k] <= x,
            decreases r.len() - p,
        {
            p += 1;
        }
        let ghost old_r = r@;
        r.insert(p, x);
        proof {
            assert forall|a: int, b: int| 0 <= a < b < r@.len() implies r@[a] <= r@[b] by {
                if b < p {
                    assert(r@[a] == old_r[a] && r@[b] == old_r[b]);
                } else if b == p {
                    assert(r@[a] == old_r[a]);
                } else if a < p {
                    assert(r@[a] == old_r[a] && r@[b] == old_r[b - 1]);
                    assert(old_r[p as int] > x);
                } else if a == p {
                    assert(r@[b] == old_r[b - 1]);
                    assert(old_r[p as int] > x);
                } else {
                    assert(r@[a] == old_r[a - 1] && r@[b] == old_r[b - 1]);
                }
            }
            vstd::seq_lib::to_multiset_insert(old_r, p as int, x);
            assert(v@.subrange(0, i + 1) =~= v@.subrange(0, i as int).push(x));
            vstd::seq_lib::to_multiset_build(v@.subrange(0, i as int), x);
        }
        i += 1;
    }
    proof {
        assert(v@.subrange(0, i as int) =~= v@);
    }
    r
}

impl BenchmarkHelper {
    pub fn new(capacity: usize) -> (r: BenchmarkHelper)
        ensures
            r.values@.len() == 0,
    {
        BenchmarkHelper { values: Vec::with_capacity(capacity) }
    }

    /// Forgets every sample.
    pub fn reset(&mut self)
        ensures
            final(self).values@.len() == 0,
    {
        self.values.clear();
    }

    /// The samples in ascending order; with `percent`, without the lowest
    /// and the highest tenth of them.
    pub fn trimmed(&self, percent: bool) -> (r: Vec<i64>)
        ensures
            ({
                let limit = if percent { self.values@.len() / 10 } else { 0 };
                exists|all: Seq<i64>| ascending(all) && all.to_multiset() == self.values@.to_multiset()
                    && r@ == all.subrange(limit as int, all.len() - limit)
            }),
    {
        let all = sorted_samples(&self.values);
        let n = all.len();
        let limit = if percent { n / 10 } else { 0 };
        let mut r: Vec<i64> = Vec::new();
        let mut i: usize = limit;
        while i < n - limit
            invariant
                limit <= i <= n - limit,
                n == all@.len(),
                r@ == all@.subrange(limit as int, i as int),
            decreases n - limit - i,
        {
            r.push(all[i]);
            proof {
                assert(all@.subrange(limit as int, i + 1) =~= all@.subrange(limit as int, i as int).push(all@[i as int]));
            }
            i += 1;
        }
        proof {
            vstd::seq_lib::to_multiset_len(all@);
            vstd::seq_lib::to_multiset_len(self.values@);
            assert(all@.len() == self.values@.len());
            let lim = if percent { self.values@.len() / 10 } else { 0 };
            assert(lim == limit);
            assert(ascending(all@) && all@.to_multiset() == self.values@.to_multiset()
                && r@ == all@.subrange(lim as int, all@.len() - lim));
        }
        r
    }

    pub fn values(&self) -> (r: &Vec<i64>)
        ensures
            r@ == self.values@,
    {
        &self.values
    }
}

} // verus!
