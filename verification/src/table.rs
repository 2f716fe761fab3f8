//! A small keyed table: the in-memory form of a contract's keyed storage.

use vstd::prelude::*;

verus! {

/// Keys of a [`Table`]: compared and copied by their view.
pub trait TableKey: View + Sized {
    fn key_eq(&self, other: &Self) -> (r: bool)
        ensures
            r == (self@ == other@),
    ;

    fn key_clone(&self) -> (r: Self)
        ensures
            r@ == self@,
    ;
}

impl TableKey for String {
    fn key_eq(&self, other: &Self) -> (r: bool) {
        *self == *other
    }

    fn key_clone(&self) -> (r: Self) {
        self.clone()
    }
}

impl TableKey for u64 {
    fn key_eq(&self, other: &Self) -> (r: bool) {
        *self == *other
    }

    fn key_clone(&self) -> (r: Self) {
        *self
    }
}

/// The sum of `f` over the items of `s`.
pub open spec fn seq_total<V>(s: Seq<V>, f: spec_fn(V) -> int) -> int
    decreases s.len(),
{
    if s.len() == 0 {
        0
    } else {
        seq_total(s.drop_last(), f) + f(s.last())
    }
}

pub proof fn lemma_seq_total_push<V>(s: Seq<V>, v: V, f: spec_fn(V) -> int)
    ensures
        seq_total(s.push(v), f) == seq_total(s, f) + f(v),
{
    assert(s.push(v).drop_last() =~= s);
}

proof fn lemma_seq_total_update<V>(s: Seq<V>, i: int, v: V, f: spec_fn(V) -> int)
    requires
        0 <= i < s.len(),
    ensures
        seq_total(s.update(i, v), f) == seq_total(s, f) - f(s[i]) + f(v),
    decreases s.len(),
{
    if i == s.len() - 1 {
        assert(s.update(i, v).drop_last() =~= s.drop_last());
    } else {
        lemma_seq_total_update(s.drop_last(), i, v, f);
        assert(s.update(i, v).drop_last() =~= s.drop_last().update(i, v));
    }
}

proof fn lemma_seq_total_remove<V>(s: Seq<V>, i: int, f: spec_fn(V) -> int)
    requires
        0 <= i < s.len(),
    ensures
        seq_total(s.remove(i), f) == seq_total(s, f) - f(s[i]),
    decreases s.len(),
{
    if i == s.len() - 1 {
        assert(s.remove(i) =~= s.drop_last());
    } else {
        lemma_seq_total_remove(s.drop_last(), i, f);
        assert(s.remove(i).drop_last() =~= s.drop_last().remove(i));
        assert(s.remove(i).last() == s.last());
    }
}

/// With every item counting non-negatively, a prefix totals no more than the whole.
pub proof fn lemma_seq_total_prefix<V>(s: Seq<V>, i: int, f: spec_fn(V) -> int)
    requires
        0 <= i <= s.len(),
        forall|j: int| 0 <= j < s.len() ==> f(#[trigger] s[j]) >= 0,
    ensures
        0 <= seq_total(s.take(i), f) <= seq_total(s, f),
    decreases s.len(),
{
    if i == s.len() {
        assert(s.take(i) =~= s);
        lemma_seq_total_nonneg(s, f);
    } else {
        lemma_seq_total_prefix(s.drop_last(), i, f);
        assert(s.drop_last().take(i) =~= s.take(i));
    }
}

proof fn lemma_seq_total_ge_item<V>(s: Seq<V>, i: int, f: spec_fn(V) -> int)
    requires
        0 <= i < s.len(),
        forall|j: int| 0 <= j < s.len() ==> f(#[trigger] s[j]) >= 0,
    ensures
        seq_total(s, f) >= f(s[i]),
    decreases s.len(),
{
    if i < s.len() - 1 {
        lemma_seq_total_ge_item(s.drop_last(), i, f);
    } else {
        lemma_seq_total_nonneg(s.drop_last(), f);
    }
}

proof fn lemma_seq_total_nonneg<V>(s: Seq<V>, f: spec_fn(V) -> int)
    requires
        forall|j: int| 0 <= j < s.len() ==> f(#[trigger] s[j]) >= 0,
    ensures
        seq_total(s, f) >= 0,
    decreases s.len(),
{
    if s.len() > 0 {
        lemma_seq_total_nonneg(s.drop_last(), f);
    }
}

/// The map that a list of key-value pairs describes; a later pair for a key overrides an earlier one.
pub open spec fn pairs_map<K: View, V>(pairs: Seq<(K, V)>) -> Map<K::V, V>
    decreases pairs.len(),
{
    if pairs.len() == 0 {
        Map::empty()
    } else {
        pairs_map(pairs.drop_last()).insert(pairs.last().0@, pairs.last().1)
    }
}

/// No key occurs twice in a list of pairs.
pub open spec fn keys_distinct<K: View, V>(pairs: Seq<(K, V)>) -> bool {
    forall|i: int, j: int| 0 <= i < j < pairs.len() ==> pairs[i].0@ != pairs[j].0@
}

/// The values of a list of pairs, in order.
pub open spec fn pair_values<K, V>(pairs: Seq<(K, V)>) -> Seq<V> {
    pairs.map_values(|p: (K, V)| p.1)
}

pub proof fn lemma_pairs_map_dom<K: View, V>(pairs: Seq<(K, V)>, k: K::V)
    ensures
        pairs_map(pairs).contains_key(k) <==> exists|j: int| 0 <= j < pairs.len() && #[trigger] pairs[j].0@ == k,
    decreases pairs.len(),
{
    if pairs.len() > 0 {
        lemma_pairs_map_dom(pairs.drop_last(), k);
        if pairs_map(pairs.drop_last()).contains_key(k) {
            let j = choose|j: int| 0 <= j < pairs.drop_last().len() && #[trigger] pairs.drop_last()[j].0@ == k;
            assert(pairs[j].0@ == k);
        }
        if exists|j: int| 0 <= j < pairs.len() && #[trigger] pairs[j].0@ == k {
            let j = choose|j: int| 0 <= j < pairs.len() && #[trigger] pairs[j].0@ == k;
            if j < pairs.len() - 1 {
                assert(pairs.drop_last()[j].0@ == k);
            }
        }
    }
}

pub proof fn lemma_pairs_map_lookup<K: View, V>(pairs: Seq<(K, V)>, j: int)
    requires
        keys_distinct(pairs),
        0 <= j < pairs.len(),
    ensures
        pairs_map(pairs).contains_key(pairs[j].0@),
        pairs_map(pairs)[pairs[j].0@] == pairs[j].1,
    decreases pairs.len(),
{
    if j < pairs.len() - 1 {
        lemma_pairs_map_lookup(pairs.drop_last(), j);
    }
}

/// A map from keys to values, held as two parallel vectors with distinct keys.
pub struct Table<K, V> {
    keys: Vec<K>,
    vals: Vec<V>,
}

impl<K: View, V> View for Table<K, V> {
    type V = Map<K::V, V>;

    closed spec fn view(&self) -> Map<K::V, V> {
        Map::new(
            |k: K::V| exists|i: int| 0 <= i < self.keys.len() && #[trigger] self.keys@[i]@ == k,
            |k: K::V| self.vals@[choose|i: int| 0 <= i < self.keys.len() && #[trigger] self.keys@[i]@ == k],
        )
    }
}

impl<K: TableKey, V> Table<K, V> {
    /// Well-formedness: one value per key and no key twice.
    pub closed spec fn wf(&self) -> bool {
        &&& self.keys.len() == self.vals.len()
        &&& forall|i: int, j: int|
            0 <= i < self.keys.len() && 0 <= j < self.keys.len() && i != j ==> self.keys@[i]@
                != self.keys@[j]@
    }

    /// The sum of `f` over the values of the table.
    pub closed spec fn total(&self, f: spec_fn(V) -> int) -> int {
        seq_total(self.vals@, f)
    }

    proof fn lemma_lookup(&self, i: int)
        requires
            self.wf(),
            0 <= i < self.keys.len(),
        ensures
            self@.contains_key(self.keys@[i]@),
            self@[self.keys@[i]@] == self.vals@[i],
    {
        let k = self.keys@[i]@;
        assert(self@.contains_key(k));
        let j = choose|j: int| 0 <= j < self.keys.len() && #[trigger] self.keys@[j]@ == k;
        assert(j == i);
    }

    /// If every value counts non-negatively, the total is at least the count of any one value.
    pub proof fn lemma_total_ge_value(&self, k: K::V, f: spec_fn(V) -> int)
        requires
            self.wf(),
            self@.contains_key(k),
            forall|k2: K::V| #[trigger] self@.contains_key(k2) ==> f(self@[k2]) >= 0,
        ensures
            self.total(f) >= f(self@[k]),
    {
        let i = choose|i: int| 0 <= i < self.keys.len() && #[trigger] self.keys@[i]@ == k;
        self.lemma_lookup(i);
        assert forall|j: int| 0 <= j < self.vals@.len() implies f(#[trigger] self.vals@[j]) >= 0 by {
            self.lemma_lookup(j);
        }
        lemma_seq_total_ge_item(self.vals@, i, f);
    }

    /// If every value counts non-negatively, so does the total.
    pub proof fn lemma_total_nonneg(&self, f: spec_fn(V) -> int)
        requires
            self.wf(),
            forall|k2: K::V| #[trigger] self@.contains_key(k2) ==> f(self@[k2]) >= 0,
        ensures
            self.total(f) >= 0,
    {
        assert forall|j: int| 0 <= j < self.vals@.len() implies f(#[trigger] self.vals@[j]) >= 0 by {
            self.lemma_lookup(j);
        }
        lemma_seq_total_nonneg(self.vals@, f);
    }

    /// An empty table totals zero.
    pub proof fn lemma_empty_total(&self, f: spec_fn(V) -> int)
        requires
            self.wf(),
            self@.dom().is_empty(),
        ensures
            self.total(f) == 0,
    {
        if self.keys.len() > 0 {
            self.lemma_lookup(0);
            assert(self@.dom().contains(self.keys@[0]@));
        }
    }

    pub fn new() -> (t: Self)
        ensures
            t.wf(),
            t@ == Map::<K::V, V>::empty(),
            forall|f: spec_fn(V) -> int| #[trigger] t.total(f) == 0,
    {
        let t = Table { keys: Vec::new(), vals: Vec::new() };
        assert(t@ =~= Map::<K::V, V>::empty());
        t
    }

    /// Builds a table from key-value pairs; there is none when a key occurs twice.
    pub fn from_pairs(pairs: Vec<(K, V)>) -> (r: Option<Self>)
        ensures
            r is Some <==> keys_distinct(pairs@),
            r matches Some(t) ==> {
                &&& t.wf()
                &&& t@ == pairs_map(pairs@)
                &&& forall|f: spec_fn(V) -> int| #[trigger]
                    t.total(f) == seq_total(pair_values(pairs@), f)
            },
    {
        let ghost all = pairs@;
        let mut rest = pairs;
        let mut t: Self = Table::new();
        let ghost mut i: int = 0;
        while rest.len() > 0
            invariant
                all == pairs@,
                t.wf(),
                0 <= i <= all.len(),
                rest@ == all.skip(i),
                t@ == pairs_map(all.take(i)),
                keys_distinct(all.take(i)),
                forall|f: spec_fn(V) -> int| #[trigger]
                    t.total(f) == seq_total(pair_values(all.take(i)), f),
            decreases rest.len(),
        {
            proof {
                assert(all.skip(i)[0] == all[i]);
            }
            let (k, v) = rest.remove(0);
            proof {
                assert(rest@ =~= all.skip(i + 1));
                assert(all.take(i + 1) =~= all.take(i).push((k, v)));
                assert(all.take(i + 1).drop_last() =~= all.take(i));
                lemma_pairs_map_dom(all.take(i), k@);
            }
            if t.contains_key(&k) {
                proof {
                    let j = choose|j: int| 0 <= j < all.take(i).len() && #[trigger] all.take(i)[j].0@ == k@;
                    assert(all[j].0@ == all[i].0@);
                }
                return None;
            }
            let ghost before = t;
            assert(!pairs_map(all.take(i)).contains_key(k@));
            t.insert(&k, v);
            proof {
                assert(pair_values(all.take(i + 1)) =~= pair_values(all.take(i)).push(v));
                assert forall|f: spec_fn(V) -> int| #[trigger]
                    t.total(f) == seq_total(pair_values(all.take(i + 1)), f) by {
                    lemma_seq_total_push(pair_values(all.take(i)), v, f);
                    assert(before.total(f) == seq_total(pair_values(all.take(i)), f));
                }
                let ghost prev = all.take(i);
                let ghost next = all.take(i + 1);
                assert forall|a: int, b: int| #![trigger next[a], next[b]]
                    0 <= a < b < next.len() implies next[a].0@ != next[b].0@ by {
                    assert(next[a] == prev[a]);
                    if b == i {
                        assert(next[b] == (k, v));
                        assert(prev[a].0@ != k@) by {
                            if prev[a].0@ == k@ {
                                assert(exists|j: int| 0 <= j < prev.len() && #[trigger] prev[j].0@ == k@);
                            }
                        }
                    } else {
                        assert(next[b] == prev[b]);
                    }
                }
                i = i + 1;
            }
        }
        proof {
            assert(all.take(i) =~= all);
        }
        Some(t)
    }

    /// The key-value pairs of the table, each key once.
    pub fn into_pairs(self) -> (r: Vec<(K, V)>)
        requires
            self.wf(),
        ensures
            keys_distinct(r@),
            pairs_map(r@) == self@,
            forall|f: spec_fn(V) -> int| #[trigger] seq_total(pair_values(r@), f) == self.total(f),
    {
        let ghost old_self = self;
        let Table { keys, vals } = self;
        let ghost ks = keys@;
        let ghost vs = vals@;
        let mut keys = keys;
        let mut vals = vals;
        let mut out: Vec<(K, V)> = Vec::new();
        let ghost mut i: int = 0;
        while keys.len() > 0
            invariant
                ks.len() == vs.len(),
                0 <= i <= ks.len(),
                keys@ == ks.skip(i),
                vals@ == vs.skip(i),
                out@.len() == i,
                forall|j: int| 0 <= j < i ==> #[trigger] out@[j] == (ks[j], vs[j]),
            decreases keys.len(),
        {
            proof {
                assert(ks.skip(i)[0] == ks[i]);
                assert(vs.skip(i)[0] == vs[i]);
            }
            let k = keys.remove(0);
            let v = vals.remove(0);
            proof {
                assert(keys@ =~= ks.skip(i + 1));
                assert(vals@ =~= vs.skip(i + 1));
            }
            out.push((k, v));
            proof {
                i = i + 1;
            }
        }
        proof {
            assert(pair_values(out@) =~= vs);
            assert forall|a: int, b: int| 0 <= a < b < out@.len() implies out@[a].0@ != out@[b].0@ by {
                assert(out@[a] == (ks[a], vs[a]));
                assert(out@[b] == (ks[b], vs[b]));
            }
            assert forall|k: K::V| #[trigger] pairs_map(out@).contains_key(k) <==> old_self@.contains_key(k) by {
                lemma_pairs_map_dom(out@, k);
                if old_self@.contains_key(k) {
                    let j = choose|j: int| 0 <= j < ks.len() && #[trigger] ks[j]@ == k;
                    assert(out@[j].0@ == k);
                }
                if pairs_map(out@).contains_key(k) {
                    let j = choose|j: int| 0 <= j < out@.len() && #[trigger] out@[j].0@ == k;
                    assert(ks[j]@ == k);
                }
            }
            assert forall|k: K::V| #[trigger] pairs_map(out@).contains_key(k) implies pairs_map(out@)[k]
                == old_self@[k] by {
                lemma_pairs_map_dom(out@, k);
                let j = choose|j: int| 0 <= j < out@.len() && #[trigger] out@[j].0@ == k;
                lemma_pairs_map_lookup(out@, j);
                old_self.lemma_lookup(j);
            }
            assert(pairs_map(out@) =~= old_self@);
        }
        out
    }

    fn find(&self, key: &K) -> (r: Option<usize>)
        requires
            self.wf(),
        ensures
            match r {
                Some(i) => i < self.keys.len() && self.keys@[i as int]@ == key@,
                None => !self@.contains_key(key@),
            },
    {
        let mut i: usize = 0;
        while i < self.keys.len()
            invariant
                self.wf(),
                i <= self.keys.len(),
                forall|j: int| 0 <= j < i ==> self.keys@[j]@ != key@,
            decreases self.keys.len() - i,
        {
            if self.keys[i].key_eq(key) {
                return Some(i);
            }
            i = i + 1;
        }
        None
    }

    pub fn contains_key(&self, key: &K) -> (r: bool)
        requires
            self.wf(),
        ensures
            r == self@.contains_key(key@),
    {
        match self.find(key) {
            Some(i) => {
                proof {
                    self.lemma_lookup(i as int);
                }
                true
            },
            None => false,
        }
    }

    pub fn get(&self, key: &K) -> (r: Option<&V>)
        requires
            self.wf(),
        ensures
            match r {
                Some(v) => self@.contains_key(key@) && *v == self@[key@],
                None => !self@.contains_key(key@),
            },
    {
        match self.find(key) {
            Some(i) => {
                proof {
                    self.lemma_lookup(i as int);
                }
                Some(&self.vals[i])
            },
            None => None,
        }
    }

    /// Sets the value of `key`, adding the key when it is new.
    pub fn insert(&mut self, key: &K, v: V)
        requires
            old(self).wf(),
        ensures
            final(self).wf(),
            final(self)@ == old(self)@.insert(key@, v),
            forall|f: spec_fn(V) -> int| #[trigger]
                final(self).total(f) == old(self).total(f) - (if old(self)@.contains_key(key@) {
                    f(old(self)@[key@])
                } else {
                    0
                }) + f(v),
    {
        let ghost old_self = *self;
        match self.find(key) {
            Some(i) => {
                proof {
                    old_self.lemma_lookup(i as int);
                }
                self.vals.set(i, v);
                proof {
                    assert forall|j: int| 0 <= j < self.keys.len() implies #[trigger] self@.contains_key(
                        self.keys@[j]@,
                    ) && self@[self.keys@[j]@] == (if j == i {
                        v
                    } else {
                        old_self@[self.keys@[j]@]
                    }) by {
                        self.lemma_lookup(j);
                        old_self.lemma_lookup(j);
                    }
                    assert forall|k: K::V| #[trigger] self@.contains_key(k) <==> old_self@.insert(
                        key@,
                        v,
                    ).contains_key(k) by {
                        if old_self@.contains_key(k) {
                            let j = choose|j: int|
                                0 <= j < old_self.keys.len() && #[trigger] old_self.keys@[j]@ == k;
                            assert(self.keys@[j]@ == k);
                        }
                        if self@.contains_key(k) {
                            let j = choose|j: int|
                                0 <= j < self.keys.len() && #[trigger] self.keys@[j]@ == k;
                            assert(old_self.keys@[j]@ == k);
                        }
                    }
                    assert forall|k: K::V| #[trigger] self@.contains_key(k) implies self@[k]
                        == old_self@.insert(key@, v)[k] by {
                        let j = choose|j: int| 0 <= j < self.keys.len() && #[trigger] self.keys@[j]@ == k;
                        self.lemma_lookup(j);
                        old_self.lemma_lookup(j);
                    }
                    assert(self@ =~= old_self@.insert(key@, v));
                    assert forall|f: spec_fn(V) -> int| #[trigger]
                        self.total(f) == old_self.total(f) - f(old_self@[key@]) + f(v) by {
                        lemma_seq_total_update(old_self.vals@, i as int, v, f);
                    }
                }
            },
            None => {
                let k = key.key_clone();
                self.keys.push(k);
                self.vals.push(v);
                proof {
                    let n = old_self.keys.len() as int;
                    assert forall|j: int| 0 <= j < n implies #[trigger] self.keys@[j]@
                        == old_self.keys@[j]@ && self.vals@[j] == old_self.vals@[j] by {}
                    assert forall|k2: K::V| #[trigger] self@.contains_key(k2) <==> old_self@.insert(
                        key@,
                        v,
                    ).contains_key(k2) by {
                        if old_self@.contains_key(k2) {
                            let j = choose|j: int|
                                0 <= j < old_self.keys.len() && #[trigger] old_self.keys@[j]@ == k2;
                            assert(self.keys@[j]@ == k2);
                        }
                        if k2 == key@ {
                            assert(self.keys@[n]@ == k2);
                        }
                    }
                    assert forall|k2: K::V| #[trigger] self@.contains_key(k2) implies self@[k2]
                        == old_self@.insert(key@, v)[k2] by {
                        let j = choose|j: int| 0 <= j < self.keys.len() && #[trigger] self.keys@[j]@ == k2;
                        self.lemma_lookup(j);
                        if j < n {
                            old_self.lemma_lookup(j);
                        }
                    }
                    assert(self@ =~= old_self@.insert(key@, v));
                    assert forall|f: spec_fn(V) -> int| #[trigger]
                        self.total(f) == old_self.total(f) + f(v) by {
                        lemma_seq_total_push(old_self.vals@, v, f);
                    }
                }
            },
        }
    }

    /// Removes `key` and hands back its value, if it was there.
    pub fn remove(&mut self, key: &K) -> (r: Option<V>)
        requires
            old(self).wf(),
        ensures
            final(self).wf(),
            final(self)@ == old(self)@.remove(key@),
            r == (if old(self)@.contains_key(key@) {
                Some(old(self)@[key@])
            } else {
                None::<V>
            }),
            forall|f: spec_fn(V) -> int| #[trigger]
                final(self).total(f) == old(self).total(f) - (if old(self)@.contains_key(key@) {
                    f(old(self)@[key@])
                } else {
                    0
                }),
    {
        let ghost old_self = *self;
        match self.find(key) {
            Some(i) => {
                proof {
                    old_self.lemma_lookup(i as int);
                }
                let _k = self.keys.remove(i);
                let v = self.vals.remove(i);
                proof {
                    let n = old_self.keys.len() as int;
                    assert forall|j: int| 0 <= j < self.keys.len() implies #[trigger] self.keys@[j]@
                        == old_self.keys@[if j < i {
                        j
                    } else {
                        j + 1
                    }]@ && self.vals@[j] == old_self.vals@[if j < i {
                        j
                    } else {
                        j + 1
                    }] by {}
                    assert forall|k2: K::V| #[trigger] self@.contains_key(k2) <==> old_self@.remove(
                        key@,
                    ).contains_key(k2) by {
                        if self@.contains_key(k2) {
                            let j = choose|j: int|
                                0 <= j < self.keys.len() && #[trigger] self.keys@[j]@ == k2;
                            let oj = if j < i {
                                j
                            } else {
                                j + 1
                            };
                            assert(old_self.keys@[oj]@ == k2);
                        }
                        if old_self@.remove(key@).contains_key(k2) {
                            let j = choose|j: int|
                                0 <= j < old_self.keys.len() && #[trigger] old_self.keys@[j]@ == k2;
                            assert(j != i);
                            let nj = if j < i {
                                j
                            } else {
                                j - 1
                            };
                            assert(self.keys@[nj]@ == k2);
                        }
                    }
                    assert forall|k2: K::V| #[trigger] self@.contains_key(k2) implies self@[k2]
                        == old_self@.remove(key@)[k2] by {
                        let j = choose|j: int| 0 <= j < self.keys.len() && #[trigger] self.keys@[j]@ == k2;
                        self.lemma_lookup(j);
                        let oj = if j < i {
                            j
                        } else {
                            j + 1
                        };
                        old_self.lemma_lookup(oj);
                    }
                    assert(self@ =~= old_self@.remove(key@));
                    assert forall|f: spec_fn(V) -> int| #[trigger]
                        self.total(f) == old_self.total(f) - f(old_self@[key@]) by {
                        lemma_seq_total_remove(old_self.vals@, i as int, f);
                    }
                }
                Some(v)
            },
            None => {
                proof {
                    assert(self@ =~= old_self@.remove(key@));
                }
                None
            },
        }
    }
}

} // verus!
