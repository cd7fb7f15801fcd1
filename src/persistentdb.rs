//! A key-value store over byte strings, seen as a map from keys to values.
//! Entries are kept in memory, in ascending key order.
use vstd::prelude::*;

verus! {

pub type Entry = (Vec<u8>, Vec<u8>);

pub open spec fn entry_view(e: Entry) -> (Seq<u8>, Seq<u8>) {
    (e.0@, e.1@)
}

/// The map that a list of entries describes; a later entry for a key
/// overrides an earlier one.
pub open spec fn to_map(es: Seq<(Seq<u8>, Seq<u8>)>) -> Map<Seq<u8>, Seq<u8>>
    decreases es.len(),
{
    if es.len() == 0 {
        Map::empty()
    } else {
        to_map(es.drop_last()).insert(es.last().0, es.last().1)
    }
}

pub open spec fn entries_view(es: Seq<Entry>) -> Seq<(Seq<u8>, Seq<u8>)> {
    Seq::new(es.len(), |i: int| entry_view(es[i]))
}

/// Lexicographic order on byte strings.
pub open spec fn lex_lt(a: Seq<u8>, b: Seq<u8>) -> bool
    decreases a.len(),
{
    if a.len() == 0 {
        b.len() > 0
    } else if b.len() == 0 {
        false
    } else if a[0] != b[0] {
        a[0] < b[0]
    } else {
        lex_lt(a.drop_first(), b.drop_first())
    }
}

/// Which keys an operation selects.
pub enum KeyFilter {
    Equal(Vec<u8>),
    /// From `start` (included) to `end` (excluded); an absent bound is open.
    Range(Option<Vec<u8>>, Option<Vec<u8>>),
    Prefix(Vec<u8>),
}

pub open spec fn selects(f: KeyFilter, k: Seq<u8>) -> bool {
    match f {
        KeyFilter::Equal(x) => k == x@,
        KeyFilter::Range(s, e) => (match s {
            Some(s) => !lex_lt(k, s@),
            None => true,
        }) && (match e {
            Some(e) => lex_lt(k, e@),
            None => true,
        }),
        KeyFilter::Prefix(p) => p@.len() <= k.len() && k.subrange(0, p@.len() as int) == p@,
    }
}

/// The entries of `es` whose key is selected by `f` exactly when `keep` is.
pub open spec fn filtered(es: Seq<(Seq<u8>, Seq<u8>)>, f: KeyFilter, keep: bool) -> Seq<(Seq<u8>, Seq<u8>)>
    decreases es.len(),
{
    if es.len() == 0 {
        es
    } else {
        let r = filtered(es.drop_last(), f, keep);
        if selects(f, es.last().0) == keep { r.push(es.last()) } else { r }
    }
}

pub open spec fn kept_keys(f: KeyFilter, keep: bool) -> Set<Seq<u8>> {
    Set::new(|k: Seq<u8>| selects(f, k) == keep)
}

proof fn lemma_filtered_map(es: Seq<(Seq<u8>, Seq<u8>)>, f: KeyFilter, keep: bool)
    ensures
        to_map(filtered(es, f, keep)) == to_map(es).restrict(kept_keys(f, keep)),
    decreases es.len(),
{
    if es.len() > 0 {
        lemma_filtered_map(es.drop_last(), f, keep);
        let r = filtered(es.drop_last(), f, keep);
        if selects(f, es.last().0) == keep {
            assert(r.push(es.last()).drop_last() =~= r);
        }
        assert(to_map(filtered(es, f, keep)) =~= to_map(es).restrict(kept_keys(f, keep)));
    }
}

/// Keys strictly ascending: each key once, in order.
pub open spec fn sorted_keys(es: Seq<(Seq<u8>, Seq<u8>)>) -> bool {
    forall|i: int, j: int| 0 <= i < j < es.len() ==> lex_lt(es[i].0, es[j].0)
}

proof fn lemma_lex_irreflexive(a: Seq<u8>)
    ensures
        !lex_lt(a, a),
    decreases a.len(),
{
    if a.len() > 0 {
        lemma_lex_irreflexive(a.drop_first());
    }
}

proof fn lemma_lex_transitive(a: Seq<u8>, b: Seq<u8>, c: Seq<u8>)
    requires
        lex_lt(a, b),
        lex_lt(b, c),
    ensures
        lex_lt(a, c),
    decreases a.len(),
{
    if a.len() > 0 && b.len() > 0 && c.len() > 0 && a[0] == b[0] && b[0] == c[0] {
        lemma_lex_transitive(a.drop_first(), b.drop_first(), c.drop_first());
    }
}

proof fn lemma_lex_total(a: Seq<u8>, b: Seq<u8>)
    requires
        a != b,
    ensures
        lex_lt(a, b) || lex_lt(b, a),
    decreases a.len(),
{
    if a.len() == 0 {
        if b.len() == 0 {
            assert(a =~= b);
        }
    } else if b.len() > 0 && a[0] == b[0] {
        if a.drop_first() == b.drop_first() {
            assert(a.drop_first().len() == b.drop_first().len());
            assert(a.len() == b.len());
            assert forall|i: int| 0 <= i < a.len() implies a[i] == b[i] by {
                if i > 0 {
                    assert(a[i] == a.drop_first()[i - 1]);
                    assert(b[i] == b.drop_first()[i - 1]);
                }
            }
            assert(a =~= b);
        }
        lemma_lex_total(a.drop_first(), b.drop_first());
    }
}

proof fn lemma_filtered_sorted(es: Seq<(Seq<u8>, Seq<u8>)>, f: KeyFilter, keep: bool)
    requires
        sorted_keys(es),
    ensures
        sorted_keys(filtered(es, f, keep)),
        forall|i: int| #![trigger filtered(es, f, keep)[i]] 0 <= i < filtered(es, f, keep).len() ==> exists|j: int|
            0 <= j < es.len() && #[trigger] es[j] == filtered(es, f, keep)[i],
    decreases es.len(),
{
    if es.len() > 0 {
        let e0 = es.drop_last();
        assert(sorted_keys(e0)) by {
            assert forall|i: int, j: int| 0 <= i < j < e0.len() implies lex_lt(e0[i].0, e0[j].0) by {
                assert(e0[i] == es[i] && e0[j] == es[j]);
            }
        }
        lemma_filtered_sorted(e0, f, keep);
        let r = filtered(e0, f, keep);
        let n = es.len() - 1;
        assert forall|i: int| #![trigger r[i]] 0 <= i < r.len() implies exists|j: int| 0 <= j < n && #[trigger] es[j] == r[i] by {
            let k = choose|k: int| 0 <= k < e0.len() && #[trigger] e0[k] == r[i];
            assert(es[k] == e0[k]);
        }
        if selects(f, es.last().0) == keep {
            let r2 = r.push(es.last());
            assert forall|i: int, j: int| 0 <= i < j < r2.len() implies lex_lt(r2[i].0, r2[j].0) by {
                if j == r.len() {
                    let k = choose|k: int| 0 <= k < n && #[trigger] es[k] == r[i];
                    assert(r2[i] == r[i]);
                    assert(lex_lt(es[k].0, es[n].0));
                } else {
                    assert(r2[i] == r[i] && r2[j] == r[j]);
                }
            }
            assert forall|i: int| #![trigger r2[i]] 0 <= i < r2.len() implies exists|j: int| 0 <= j < es.len() && #[trigger] es[j] == r2[i] by {
                if i == r.len() {
                    assert(es[n] == r2[i]);
                } else {
                    let k = choose|k: int| 0 <= k < n && #[trigger] es[k] == r[i];
                    assert(es[k] == r2[i]);
                }
            }
        }
    }
}

proof fn lemma_key_in_map(es: Seq<(Seq<u8>, Seq<u8>)>, i: int)
    requires
        0 <= i < es.len(),
    ensures
        to_map(es).contains_key(es[i].0),
    decreases es.len(),
{
    if i < es.len() - 1 {
        lemma_key_in_map(es.drop_last(), i);
        assert(es.drop_last()[i] == es[i]);
    }
}

proof fn lemma_to_map_insert(s: Seq<(Seq<u8>, Seq<u8>)>, p: int, e: (Seq<u8>, Seq<u8>))
    requires
        0 <= p <= s.len(),
        forall|i: int| 0 <= i < s.len() ==> s[i].0 != e.0,
    ensures
        to_map(s.insert(p, e)) == to_map(s).insert(e.0, e.1),
    decreases s.len(),
{
    let t = s.insert(p, e);
    if p == s.len() {
        assert(t.drop_last() =~= s);
    } else {
        assert(t.drop_last() =~= s.drop_last().insert(p, e));
        assert(t.last() == s.last());
        lemma_to_map_insert(s.drop_last(), p, e);
        assert(to_map(t) =~= to_map(s).insert(e.0, e.1));
    }
}

proof fn lemma_lex_step(a: Seq<u8>, b: Seq<u8>, i: int)
    requires
        0 <= i < a.len(),
        i < b.len(),
        a[i] == b[i],
    ensures
        lex_lt(a.subrange(i, a.len() as int), b.subrange(i, b.len() as int)) == lex_lt(
            a.subrange(i + 1, a.len() as int),
            b.subrange(i + 1, b.len() as int),
        ),
{
    assert(a.subrange(i, a.len() as int).drop_first() =~= a.subrange(i + 1, a.len() as int));
    assert(b.subrange(i, b.len() as int).drop_first() =~= b.subrange(i + 1, b.len() as int));
}

/// Whether `a` sorts before `b`.
pub fn less_than(a: &Vec<u8>, b: &Vec<u8>) -> (r: bool)
    ensures
        r == lex_lt(a@, b@),
{
    let mut i: usize = 0;
    proof {
        assert(a@.subrange(0, a@.len() as int) =~= a@);
        assert(b@.subrange(0, b@.len() as int) =~= b@);
    }
    while i < a.len() && i < b.len() && a[i] == b[i]
        invariant
            i <= a@.len(),
            i <= b@.len(),
            lex_lt(a@, b@) == lex_lt(a@.subrange(i as int, a@.len() as int), b@.subrange(i as int, b@.len() as int)),
        decreases a.len() - i,
    {
        proof { lemma_lex_step(a@, b@, i as int); }
        i += 1;
    }
    if i == a.len() {
        i < b.len()
    } else if i == b.len() {
        false
    } else {
        a[i] < b[i]
    }
}

/// Whether `f` selects key `k`.
pub fn key_selected(f: &KeyFilter, k: &Vec<u8>) -> (r: bool)
    ensures
        r == selects(*f, k@),
{
    match f {
        KeyFilter::Equal(x) => bytes_equal(k, x),
        KeyFilter::Range(s, e) => {
            let lo = match s {
                Some(s) => !less_than(k, s),
                None => true,
            };
            let hi = match e {
                Some(e) => less_than(k, e),
                None => true,
            };
            lo && hi
        },
        KeyFilter::Prefix(p) => {
            if p.len() > k.len() {
                return false;
            }
            let mut i: usize = 0;
            while i < p.len()
                invariant
                    i <= p@.len() <= k@.len(),
                    forall|j: int| 0 <= j < i ==> k@[j] == p@[j],
                    selects(*f, k@) == (k@.subrange(0, p@.len() as int) == p@),
                decreases p.len() - i,
            {
                if k[i] != p[i] {
                    proof {
                        assert(k@.subrange(0, p@.len() as int)[i as int] == k@[i as int]);
                        assert(k@.subrange(0, p@.len() as int) != p@);
                    }
                    return false;
                }
                i += 1;
            }
            proof { assert(k@.subrange(0, p@.len() as int) =~= p@); }
            true
        },
    }
}

/// Whether two byte strings are equal.
pub fn bytes_equal(a: &Vec<u8>, b: &Vec<u8>) -> (r: bool)
    ensures
        r == (a@ == b@),
{
    if a.len() != b.len() {
        return false;
    }
    let mut i: usize = 0;
    while i < a.len()
        invariant
            i <= a@.len() == b@.len(),
            forall|j: int| 0 <= j < i ==> a@[j] == b@[j],
        decreases a.len() - i,
    {
        if a[i] != b[i] {
            return false;
        }
        i += 1;
    }
    proof { assert(a@ =~= b@); }
    true
}

/// A copy of a byte string.
pub fn copy_bytes(v: &Vec<u8>) -> (r: Vec<u8>)
    ensures
        r@ == v@,
{
    let mut r: Vec<u8> = Vec::new();
    let mut i: usize = 0;
    while i < v.len()
        invariant
            i <= v@.len(),
            r@ == v@.subrange(0, i as int),
        decreases v.len() - i,
    {
        r.push(v[i]);
        i += 1;
    }
    proof { assert(r@ =~= v@); }
    r
}

/// Copies of the entries of `es` whose key `f` selects exactly when `keep` is.
pub fn filter_entries(es: &Vec<Entry>, f: &KeyFilter, keep: bool) -> (r: Vec<Entry>)
    ensures
        entries_view(r@) == filtered(entries_view(es@), *f, keep),
        to_map(entries_view(r@)) == to_map(entries_view(es@)).restrict(kept_keys(*f, keep)),
        sorted_keys(entries_view(es@)) ==> sorted_keys(entries_view(r@)),
{
    let mut r: Vec<Entry> = Vec::new();
    let mut i: usize = 0;
    while i < es.len()
        invariant
            i <= es@.len(),
            entries_view(r@) == filtered(entries_view(es@).subrange(0, i as int), *f, keep),
        decreases es.len() - i,
    {
        proof {
            assert(entries_view(es@).subrange(0, i + 1).drop_last() =~= entries_view(es@).subrange(0, i as int));
        }
        if key_selected(f, &es[i].0) == keep {
            let e = (copy_bytes(&es[i].0), copy_bytes(&es[i].1));
            r.push(e);
            proof { assert(entries_view(r@) =~= filtered(entries_view(es@).subrange(0, i as int), *f, keep).push(entry_view(es@[i as int]))); }
        }
        i += 1;
    }
    proof {
        assert(entries_view(es@).subrange(0, i as int) =~= entries_view(es@));
        lemma_filtered_map(entries_view(es@), *f, keep);
        if sorted_keys(entries_view(es@)) {
            lemma_filtered_sorted(entries_view(es@), *f, keep);
        }
    }
    r
}

/// The store behind `KVDB`, modelled in memory: a map kept as a sorted
/// list of entries. Writing it to disk is left to the caller.
pub struct RocksKVDB {
    pub entries: Vec<Entry>,
}

impl RocksKVDB {
    pub open spec fn map(&self) -> Map<Seq<u8>, Seq<u8>> {
        to_map(entries_view(self.entries@))
    }

    /// Entries are kept in ascending key order, each key once.
    pub open spec fn wf(&self) -> bool {
        sorted_keys(entries_view(self.entries@))
    }

    pub fn new() -> (r: RocksKVDB)
        ensures
            r.map() == Map::<Seq<u8>, Seq<u8>>::empty(),
            r.wf(),
    {
        let r = RocksKVDB { entries: Vec::new() };
        proof { assert(entries_view(r.entries@) =~= Seq::<(Seq<u8>, Seq<u8>)>::empty()); }
        r
    }

    /// Removes the entries whose key `f` selects.
    fn remove_where(&mut self, f: &KeyFilter)
        requires
            old(self).wf(),
        ensures
            final(self).map() == old(self).map().restrict(kept_keys(*f, false)),
            final(self).wf(),
    {
        self.entries = filter_entries(&self.entries, f, false);
    }

    pub fn get(&self, key: &Vec<u8>) -> (r: Option<Vec<u8>>)
        ensures
            r is Some == self.map().contains_key(key@),
            r matches Some(v) ==> v@ == self.map()[key@],
    {
        let f = KeyFilter::Equal(copy_bytes(key));
        let found = filter_entries(&self.entries, &f, true);
        let n = found.len();
        proof {
            assert(to_map(entries_view(found@)).dom() =~= self.map().dom().intersect(kept_keys(f, true)));
        }
        if n == 0 {
            proof {
                assert(entries_view(found@) =~= Seq::<(Seq<u8>, Seq<u8>)>::empty());
                assert(!to_map(entries_view(found@)).contains_key(key@));
            }
            None
        } else {
            proof {
                lemma_filtered_selected(entries_view(self.entries@), f, true);
                assert(entries_view(found@).last() == entries_view(found@)[n - 1]);
                lemma_last_entry_selected(entries_view(found@), key@);
                assert(entries_view(found@).drop_last() == entries_view(found@.drop_last()));
            }
            Some(copy_bytes(&found[n - 1].1))
        }
    }

    pub fn set(&mut self, key: Vec<u8>, data: Vec<u8>)
        requires
            old(self).wf(),
        ensures
            final(self).map() == old(self).map().insert(key@, data@),
            final(self).wf(),
    {
        let f = KeyFilter::Equal(copy_bytes(&key));
        self.remove_where(&f);
        let ghost es = entries_view(self.entries@);
        proof {
            assert forall|i: int| 0 <= i < es.len() implies es[i].0 != key@ by {
                lemma_key_in_map(es, i);
            }
        }
        // the first entry whose key sorts after ours
        let mut p: usize = 0;
        while p < self.entries.len() && !less_than(&key, &self.entries[p].0)
            invariant
                p <= self.entries@.len(),
                es == entries_view(self.entries@),
                forall|i: int| 0 <= i < p ==> !lex_lt(key@, #[trigger] es[i].0),
            decreases self.entries.len() - p,
        {
            p += 1;
        }
        let ghost e = (key@, data@);
        proof {
            assert forall|i: int| 0 <= i < p implies lex_lt(#[trigger] es[i].0, key@) by {
                lemma_lex_total(es[i].0, key@);
            }
            assert forall|i: int| p <= i < es.len() implies lex_lt(key@, #[trigger] es[i].0) by {
                if i > p {
                    lemma_lex_transitive(key@, es[p as int].0, es[i].0);
                }
            }
            lemma_to_map_insert(es, p as int, e);
        }
        self.entries.insert(p, (key, data));
        proof {
            let t = entries_view(self.entries@);
            assert(t =~= es.insert(p as int, e));
            assert forall|i: int, j: int| 0 <= i < j < t.len() implies lex_lt(t[i].0, t[j].0) by {
                if j < p {
                } else if j == p {
                } else if i < p {
                    lemma_lex_transitive(es[i].0, key@, es[j - 1].0);
                } else if i == p {
                } else {
                }
            }
        }
    }

    pub fn delete(&mut self, key: &Vec<u8>)
        requires
            old(self).wf(),
        ensures
            final(self).map() == old(self).map().remove(key@),
            final(self).wf(),
    {
        let f = KeyFilter::Equal(copy_bytes(key));
        self.remove_where(&f);
        proof { assert(self.map() =~= old(self).map().remove(key@)); }
    }

    pub fn delete_keys(&mut self, keys: &Vec<Vec<u8>>)
        requires
            old(self).wf(),
        ensures
            final(self).wf(),
            final(self).map() == old(self).map().remove_keys(Set::new(|k: Seq<u8>| exists|i: int| 0 <= i < keys@.len() && keys@[i]@ == k)),
    {
        let mut i: usize = 0;
        while i < keys.len()
            invariant
                i <= keys@.len(),
                self.wf(),
                self.map() == old(self).map().remove_keys(Set::new(|k: Seq<u8>| exists|j: int| 0 <= j < i && keys@[j]@ == k)),
            decreases keys.len() - i,
        {
            let ghost m = self.map();
            self.delete(&keys[i]);
            proof {
                assert(self.map() =~= old(self).map().remove_keys(Set::new(|k: Seq<u8>| exists|j: int| 0 <= j < i + 1 && keys@[j]@ == k)));
            }
            i += 1;
        }
    }

    /// Removes the keys from `start` (included) to `end` (excluded).
    pub fn erase_range(&mut self, start: &Vec<u8>, end: &Vec<u8>)
        requires
            old(self).wf(),
        ensures
            final(self).wf(),
            final(self).map() == old(self).map().restrict(Set::new(|k: Seq<u8>| lex_lt(k, start@) || !lex_lt(k, end@))),
    {
        let f = KeyFilter::Range(Some(copy_bytes(start)), Some(copy_bytes(end)));
        self.remove_where(&f);
        proof {
            assert(kept_keys(f, false) =~= Set::new(|k: Seq<u8>| lex_lt(k, start@) || !lex_lt(k, end@)));
        }
    }

    /// Compaction only reorganises storage; in memory there is nothing to
    /// reorganise, and the contents stay the same.
    pub fn compact_prefix(&self, prefix: &Vec<u8>) {
    }

    /// As `compact_prefix`, for the keys from `start` to `end`.
    pub fn compact_range(&self, start: &Vec<u8>, end: &Vec<u8>) {
    }

    /// Copies of the entries whose key `f` selects, in ascending key order.
    pub fn select(&self, f: &KeyFilter) -> (r: Vec<Entry>)
        requires
            self.wf(),
        ensures
            to_map(entries_view(r@)) == self.map().restrict(kept_keys(*f, true)),
            sorted_keys(entries_view(r@)),
    {
        filter_entries(&self.entries, f, true)
    }
}

proof fn lemma_filtered_selected(es: Seq<(Seq<u8>, Seq<u8>)>, f: KeyFilter, keep: bool)
    ensures
        forall|i: int| 0 <= i < filtered(es, f, keep).len() ==> selects(f, #[trigger] filtered(es, f, keep)[i].0) == keep,
    decreases es.len(),
{
    if es.len() > 0 {
        lemma_filtered_selected(es.drop_last(), f, keep);
        let r = filtered(es.drop_last(), f, keep);
        if selects(f, es.last().0) == keep {
            assert forall|i: int| 0 <= i < r.push(es.last()).len() implies selects(f, #[trigger] r.push(es.last())[i].0) == keep by {
                if i < r.len() { assert(r.push(es.last())[i] == r[i]); }
            }
        }
    }
}

proof fn lemma_last_entry_selected(es: Seq<(Seq<u8>, Seq<u8>)>, k: Seq<u8>)
    requires
        es.len() > 0,
        es.last().0 == k,
    ensures
        to_map(es).contains_key(k),
        to_map(es)[k] == es.last().1,
{
}

/// Errors of the store; the in-memory store itself never fails.
#[derive(Clone, Copy, Debug, PartialEq, Eq, Structural)]
pub enum DbError {
    Unavailable,
}

/// A named key-value store, held in memory (see `RocksKVDB`).
pub struct KVDB {
    pub path: String,
    pub inner: RocksKVDB,
}

impl KVDB {
    pub open spec fn map(&self) -> Map<Seq<u8>, Seq<u8>> {
        self.inner.map()
    }

    pub open spec fn wf(&self) -> bool {
        self.inner.wf()
    }

    /// An empty store named `db_path`; nothing is read from disk.
    pub fn new(db_path: String) -> (r: Result<KVDB, DbError>)
        ensures
            r matches Ok(db) ==> db.map() == Map::<Seq<u8>, Seq<u8>>::empty() && db.path@ == db_path@ && db.wf(),
            r is Ok,
    {
        Ok(KVDB { path: db_path, inner: RocksKVDB::new() })
    }

    pub fn get(&self, key: &Vec<u8>) -> (r: Result<Option<Vec<u8>>, DbError>)
        ensures
            r matches Ok(v) ==> (v is Some == self.map().contains_key(key@)) && (v matches Some(x)
                ==> x@ == self.map()[key@]),
            r is Ok,
    {
        Ok(self.inner.get(key))
    }

    pub fn set(&mut self, key: &Vec<u8>, data: &Vec<u8>) -> (r: Result<(), DbError>)
        requires
            old(self).wf(),
        ensures
            final(self).wf(),
            r is Ok,
            final(self).map() == old(self).map().insert(key@, data@),
            final(self).path == old(self).path,
    {
        self.inner.set(copy_bytes(key), copy_bytes(data));
        Ok(())
    }

    /// Writes every pair of `values`, in order.
    pub fn set_all(&mut self, values: &Vec<Entry>) -> (r: Result<(), DbError>)
        requires
            old(self).wf(),
        ensures
            final(self).wf(),
            r is Ok,
            final(self).map() == old(self).map().union_prefer_right(to_map(entries_view(values@))),
            final(self).path == old(self).path,
    {
        let mut i: usize = 0;
        proof {
            assert(entries_view(values@).subrange(0, 0) =~= Seq::<(Seq<u8>, Seq<u8>)>::empty());
            assert(old(self).map().union_prefer_right(Map::empty()) =~= old(self).map());
        }
        while i < values.len()
            invariant
                i <= values@.len(),
                self.wf(),
                self.path == old(self).path,
                self.map() == old(self).map().union_prefer_right(to_map(entries_view(values@).subrange(0, i as int))),
            decreases values.len() - i,
        {
            proof {
                assert(entries_view(values@).subrange(0, i + 1).drop_last() =~= entries_view(values@).subrange(0, i as int));
            }
            self.inner.set(copy_bytes(&values[i].0), copy_bytes(&values[i].1));
            proof {
                assert(self.map() =~= old(self).map().union_prefer_right(to_map(entries_view(values@).subrange(0, i + 1))));
            }
            i += 1;
        }
        proof { assert(entries_view(values@).subrange(0, i as int) =~= entries_view(values@)); }
        Ok(())
    }

    pub fn delete(&mut self, key: &Vec<u8>) -> (r: Result<(), DbError>)
        requires
            old(self).wf(),
        ensures
            final(self).wf(),
            r is Ok,
            final(self).map() == old(self).map().remove(key@),
            final(self).path == old(self).path,
    {
        self.inner.delete(key);
        Ok(())
    }

    /// Deletes every key of `keys`.
    pub fn erase_keys(&mut self, keys: &Vec<Vec<u8>>) -> (r: Result<(), DbError>)
        requires
            old(self).wf(),
        ensures
            final(self).wf(),
            r is Ok,
            final(self).map() == old(self).map().remove_keys(Set::new(|k: Seq<u8>| exists|i: int| 0 <= i < keys@.len() && keys@[i]@ == k)),
            final(self).path == old(self).path,
    {
        self.inner.delete_keys(keys);
        Ok(())
    }

    /// Deletes the keys from `start` (included) to `end` (excluded).
    pub fn erase_range(&mut self, start: &Vec<u8>, end: &Vec<u8>) -> (r: Result<(), DbError>)
        requires
            old(self).wf(),
        ensures
            final(self).wf(),
            r is Ok,
            final(self).map() == old(self).map().restrict(Set::new(|k: Seq<u8>| lex_lt(k, start@) || !lex_lt(k, end@))),
            final(self).path == old(self).path,
    {
        self.inner.erase_range(start, end);
        Ok(())
    }

    /// Compaction only reorganises storage: the contents stay the same.
    pub fn compact_range(&self, start: &Vec<u8>, end: &Vec<u8>) -> (r: Result<(), DbError>)
        ensures
            r is Ok,
    {
        self.inner.compact_range(start, end);
        Ok(())
    }

    /// Every entry, in ascending key order (so each key once).
    pub fn iter(&self) -> (r: Result<Vec<Entry>, DbError>)
        requires
            self.wf(),
        ensures
            r matches Ok(es) ==> to_map(entries_view(es@)) == self.map() && sorted_keys(entries_view(es@)),
            r is Ok,
    {
        let all = self.inner.select(&KeyFilter::Range(None, None));
        proof {
            assert(kept_keys(KeyFilter::Range(None, None), true) =~= Set::full());
            assert(self.map().restrict(Set::full()) =~= self.map());
        }
        Ok(all)
    }

    /// The entries with a key from `start` (included) to `end` (excluded),
    /// in ascending key order; an absent bound is open.
    pub fn iter_range(&self, start: Option<Vec<u8>>, end: Option<Vec<u8>>) -> (r: Result<Vec<Entry>, DbError>)
        requires
            self.wf(),
        ensures
            r matches Ok(es) ==> to_map(entries_view(es@)) == self.map().restrict(
                kept_keys(KeyFilter::Range(start, end), true),
            ) && sorted_keys(entries_view(es@)),
            r is Ok,
    {
        Ok(self.inner.select(&KeyFilter::Range(start, end)))
    }

    /// The entries whose key starts with `prefix`, in ascending key order.
    pub fn iter_prefix(&self, prefix: Vec<u8>) -> (r: Vec<Entry>)
        requires
            self.wf(),
        ensures
            to_map(entries_view(r@)) == self.map().restrict(kept_keys(KeyFilter::Prefix(prefix), true)),
            sorted_keys(entries_view(r@)),
    {
        self.inner.select(&KeyFilter::Prefix(prefix))
    }
}

} // verus!
