//! Tables keyed by integers, kept in increasing key order, and tables
//! keyed by names.

use std::collections::BTreeMap;
use vstd::prelude::*;

verus! {

/// Whether the keys of `s` strictly increase.
pub open spec fn keys_sorted<V>(s: Seq<(u64, V)>) -> bool {
    forall|i: int, j: int| 0 <= i < j < s.len() ==> #[trigger] s[i].0 < #[trigger] s[j].0
}

/// Whether some entry of `s` has the key `k`.
pub open spec fn has_key<K, V>(s: Seq<(K, V)>, k: K) -> bool {
    exists|i: int| 0 <= i < s.len() && #[trigger] s[i].0 == k
}

/// The position of an entry of `s` with the key `k`.
pub open spec fn key_index<K, V>(s: Seq<(K, V)>, k: K) -> int {
    choose|i: int| 0 <= i < s.len() && #[trigger] s[i].0 == k
}

/// The map that the entries `s` (with distinct keys) make up.
pub open spec fn entries_map<K, V>(s: Seq<(K, V)>) -> Map<K, V> {
    Map::new(|k: K| has_key(s, k), |k: K| s[key_index(s, k)].1)
}

/// Whether no two entries of `s` have the same key.
pub open spec fn keys_distinct<K, V>(s: Seq<(K, V)>) -> bool {
    forall|i: int, j: int| 0 <= i < s.len() && 0 <= j < s.len() && i != j ==> #[trigger] s[i].0
        != #[trigger] s[j].0
}

/// With distinct keys, the entry at `i` gives the value of its key.
pub proof fn lemma_entry_in_map<K, V>(s: Seq<(K, V)>, i: int)
    requires
        keys_distinct(s),
        0 <= i < s.len(),
    ensures
        entries_map(s).contains_key(s[i].0),
        entries_map(s)[s[i].0] == s[i].1,
{
    assert(has_key(s, s[i].0));
    let j = key_index(s, s[i].0);
    assert(s[j].0 == s[i].0);
}

/// Sorted keys are distinct.
pub proof fn lemma_sorted_distinct<V>(s: Seq<(u64, V)>)
    requires
        keys_sorted(s),
    ensures
        keys_distinct(s),
{
    assert forall|i: int, j: int|
        0 <= i < s.len() && 0 <= j < s.len() && i != j implies #[trigger] s[i].0 != #[trigger] s[
        j].0 by {
        if i < j {
            assert(s[i].0 < s[j].0);
        } else {
            assert(s[j].0 < s[i].0);
        }
    }
}

/// Entries `t` made from the entries `s` by applying `f` to each value
/// have the same keys, and each key's value is `f` of its old value.
pub proof fn lemma_entries_mapped<V, W>(s: Seq<(u64, V)>, t: Seq<(u64, W)>, f: spec_fn(V) -> W)
    requires
        keys_distinct(s),
        s.len() == t.len(),
        forall|i: int| 0 <= i < s.len() ==> #[trigger] t[i] == (s[i].0, f(s[i].1)),
    ensures
        keys_distinct(t),
        entries_map(t).dom() == entries_map(s).dom(),
        forall|k: u64| #[trigger]
            entries_map(t).contains_key(k) ==> entries_map(t)[k] == f(entries_map(s)[k]),
{
    assert(keys_distinct(t)) by {
        assert forall|i: int, j: int|
            0 <= i < t.len() && 0 <= j < t.len() && i != j implies #[trigger] t[i].0 != #[trigger] t[
            j].0 by {
            assert(t[i] == (s[i].0, f(s[i].1)));
            assert(t[j] == (s[j].0, f(s[j].1)));
        }
    }
    assert forall|k: u64| entries_map(t).contains_key(k) == entries_map(s).contains_key(k) by {
        if has_key(s, k) {
            let i = choose|i: int| 0 <= i < s.len() && s[i].0 == k;
            assert(t[i] == (s[i].0, f(s[i].1)));
            assert(t[i].0 == k);
        }
        if has_key(t, k) {
            let i = choose|i: int| 0 <= i < t.len() && t[i].0 == k;
            assert(t[i] == (s[i].0, f(s[i].1)));
            assert(s[i].0 == k);
        }
    }
    assert(entries_map(t).dom() =~= entries_map(s).dom());
    assert forall|k: u64| #[trigger]
        entries_map(t).contains_key(k) implies entries_map(t)[k] == f(entries_map(s)[k]) by {
        let i = choose|i: int| 0 <= i < t.len() && t[i].0 == k;
        assert(t[i] == (s[i].0, f(s[i].1)));
        lemma_entry_in_map(t, i);
        lemma_entry_in_map(s, i);
    }
}

/// A table from integer keys to values, in increasing key order: the
/// values are kept in a `BTreeMap`, and beside it the keys in increasing
/// order, so that the entries can also be read by their place in that
/// order.
#[derive(Debug)]
pub struct KeyTable<V> {
    keys: Vec<u64>,
    values: BTreeMap<u64, V>,
}

impl<V> KeyTable<V> {
    /// The entries in increasing key order.
    pub closed spec fn pairs(&self) -> Seq<(u64, V)> {
        Seq::new(self.keys@.len(), |i: int| (self.keys@[i], self.values@[self.keys@[i]]))
    }

    /// Whether the keys listed beside the map are exactly the map's keys.
    pub closed spec fn stored(&self) -> bool {
        forall|k: u64| #[trigger] self.values@.contains_key(k) <==> self.keys@.contains(k)
    }

    /// Whether the entries are in strictly increasing key order, each key
    /// listed once beside the map.
    pub open spec fn wf(&self) -> bool {
        keys_sorted(self.pairs()) && self.stored()
    }

    /// The values in increasing key order.
    pub open spec fn values(&self) -> Seq<V> {
        self.pairs().map_values(|p: (u64, V)| p.1)
    }
}

impl<V> View for KeyTable<V> {
    type V = Map<u64, V>;

    open spec fn view(&self) -> Map<u64, V> {
        entries_map(self.pairs())
    }
}

impl<V> KeyTable<V> {
    /// A well-formed table is its map.
    proof fn lemma_view_is_map(&self)
        requires
            self.wf(),
        ensures
            self@ == self.values@,
            forall|i: int| 0 <= i < self.keys@.len() ==> #[trigger] self.pairs()[i].0 == self.keys@[i],
    {
        let s = self.pairs();
        assert forall|i: int| 0 <= i < self.keys@.len() implies #[trigger] s[i].0 == self.keys@[i] by {}
        lemma_sorted_distinct(s);
        assert forall|k: u64| #[trigger] self@.contains_key(k) == self.values@.contains_key(k) by {
            if has_key(s, k) {
                let i = choose|i: int| 0 <= i < s.len() && s[i].0 == k;
                assert(self.keys@[i] == k);
                assert(self.keys@.contains(k));
            }
            if self.values@.contains_key(k) {
                assert(self.keys@.contains(k));
                let i = choose|i: int| 0 <= i < self.keys@.len() && self.keys@[i] == k;
                assert(s[i].0 == k);
            }
        }
        assert forall|k: u64| #[trigger] self@.contains_key(k) implies self@[k] == self.values@[k] by {
            let i = choose|i: int| 0 <= i < s.len() && s[i].0 == k;
            lemma_entry_in_map(s, i);
        }
        assert(self@ =~= self.values@);
    }

    /// An empty table.
    pub fn new() -> (res: KeyTable<V>)
        ensures
            res.wf(),
            res.pairs() == Seq::<(u64, V)>::empty(),
            res@ == Map::<u64, V>::empty(),
    {
        let res = KeyTable { keys: Vec::new(), values: BTreeMap::new() };
        assert(res.pairs() =~= Seq::<(u64, V)>::empty());
        assert(res@ =~= Map::<u64, V>::empty());
        res
    }

    /// The number of entries.
    pub fn len(&self) -> (res: usize)
        ensures
            res == self.pairs().len(),
    {
        self.keys.len()
    }

    /// The entry at position `i` in key order.
    pub fn entry(&self, i: usize) -> (res: (u64, &V))
        requires
            self.wf(),
            i < self.pairs().len(),
        ensures
            res.0 == self.pairs()[i as int].0,
            *res.1 == self.pairs()[i as int].1,
    {
        let k = self.keys[i];
        assert(self.keys@.contains(k));
        let v = self.values.get(&k).unwrap();
        (k, v)
    }

    /// Replaces the value at position `i` in key order, keeping its key.
    pub fn set_value(&mut self, i: usize, v: V)
        requires
            old(self).wf(),
            i < old(self).pairs().len(),
        ensures
            final(self).wf(),
            final(self).pairs() == old(self).pairs().update(i as int, (old(self).pairs()[i as int].0, v)),
    {
        let ghost s0 = self.pairs();
        proof {
            self.lemma_view_is_map();
            lemma_sorted_distinct(s0);
        }
        let k = self.keys[i];
        self.values.insert(k, v);
        assert(self.pairs() =~= s0.update(i as int, (s0[i as int].0, v))) by {
            assert forall|j: int| 0 <= j < s0.len() && j != i implies self.keys@[j] != k by {
                assert(s0[j].0 != s0[i as int].0);
            }
        }
    }

    /// The position of the first entry whose key is at least `k`.
    fn position(&self, k: u64) -> (res: usize)
        requires
            self.wf(),
        ensures
            res <= self.pairs().len(),
            forall|i: int| 0 <= i < res ==> self.pairs()[i].0 < k,
            res < self.pairs().len() ==> self.pairs()[res as int].0 >= k,
    {
        let n = self.keys.len();
        let mut i: usize = 0;
        while i < n && self.keys[i] < k
            invariant
                n == self.keys@.len(),
                i <= n,
                forall|j: int| 0 <= j < i ==> self.keys@[j] < k,
            decreases n - i,
        {
            i = i + 1;
        }
        i
    }

    /// The value of the key `k`, if present.
    pub fn get(&self, k: u64) -> (res: Option<&V>)
        requires
            self.wf(),
        ensures
            res is Some <==> self@.contains_key(k),
            res matches Some(v) ==> *v == self@[k],
    {
        proof {
            self.lemma_view_is_map();
        }
        self.values.get(&k)
    }

    /// Sets the key `k` to `v`, replacing an earlier value.
    pub fn insert(&mut self, k: u64, v: V)
        requires
            old(self).wf(),
        ensures
            final(self).wf(),
            final(self)@ == old(self)@.insert(k, v),
    {
        let ghost s0 = self.pairs();
        let ghost ks0 = self.keys@;
        proof {
            self.lemma_view_is_map();
        }
        let p = self.position(k);
        if p < self.keys.len() && self.keys[p] == k {
            self.values.insert(k, v);
            assert(self.keys@ == ks0);
        } else {
            self.keys.insert(p, k);
            self.values.insert(k, v);
            let ghost ks1 = self.keys@;
            assert(ks1 == ks0.insert(p as int, k));
            assert forall|x: u64| #[trigger] self.values@.contains_key(x) <==> ks1.contains(x) by {
                assert(ks1[p as int] == k);
                assert(old(self).values@.contains_key(x) <==> ks0.contains(x));
                if ks0.contains(x) {
                    let j = choose|j: int| 0 <= j < ks0.len() && ks0[j] == x;
                    if j < p {
                        assert(ks1[j] == x);
                    } else {
                        assert(ks1[j + 1] == x);
                    }
                }
                if ks1.contains(x) {
                    let j = choose|j: int| 0 <= j < ks1.len() && ks1[j] == x;
                    if j < p {
                        assert(ks0[j] == x);
                    } else if j > p {
                        assert(ks0[j - 1] == x);
                    }
                }
            }
        }
        let ghost ks1 = self.keys@;
        assert(keys_sorted(self.pairs())) by {
            assert forall|i: int, j: int| 0 <= i < j < ks1.len() implies #[trigger] self.pairs()[i].0
                < #[trigger] self.pairs()[j].0 by {
                assert(self.pairs()[i].0 == ks1[i]);
                assert(self.pairs()[j].0 == ks1[j]);
                if ks1.len() == ks0.len() {
                    assert(s0[i].0 < s0[j].0);
                } else if j < p {
                    assert(s0[i].0 < s0[j].0);
                } else if j == p {
                } else if i < p {
                    assert(s0[i].0 < k);
                    assert(s0[p as int].0 >= k);
                    if i < j - 1 {
                        assert(s0[i].0 < s0[j - 1].0);
                    }
                } else if i == p {
                    assert(s0[p as int].0 >= k);
                    assert(s0[p as int].0 != k);
                    if j - 1 > p {
                        assert(s0[p as int].0 < s0[j - 1].0);
                    }
                } else {
                    assert(s0[i - 1].0 < s0[j - 1].0);
                }
            }
        }
        proof {
            self.lemma_view_is_map();
        }
    }

    /// Removes the key `k`, returning its value if it was present.
    pub fn remove(&mut self, k: u64) -> (res: Option<V>)
        requires
            old(self).wf(),
        ensures
            final(self).wf(),
            final(self)@ == old(self)@.remove(k),
            res is Some <==> old(self)@.contains_key(k),
            res matches Some(v) ==> v == old(self)@[k],
    {
        let ghost s0 = self.pairs();
        let ghost ks0 = self.keys@;
        proof {
            self.lemma_view_is_map();
            lemma_sorted_distinct(s0);
        }
        let p = self.position(k);
        if p < self.keys.len() && self.keys[p] == k {
            let res = self.values.remove(&k);
            self.keys.remove(p);
            let ghost ks1 = self.keys@;
            assert(ks1 == ks0.remove(p as int));
            assert forall|x: u64| #[trigger] self.values@.contains_key(x) <==> ks1.contains(x) by {
                if ks0.contains(x) && x != k {
                    let j = choose|j: int| 0 <= j < ks0.len() && ks0[j] == x;
                    if j < p {
                        assert(ks1[j] == x);
                    } else {
                        assert(j != p);
                        assert(ks1[j - 1] == x);
                    }
                }
                if ks1.contains(x) {
                    let j = choose|j: int| 0 <= j < ks1.len() && ks1[j] == x;
                    if j < p {
                        assert(ks0[j] == x);
                        assert(s0[j].0 != s0[p as int].0);
                    } else {
                        assert(ks0[j + 1] == x);
                        assert(s0[j + 1].0 != s0[p as int].0);
                    }
                }
            }
            assert(keys_sorted(self.pairs())) by {
                assert forall|i: int, j: int| 0 <= i < j < ks1.len() implies #[trigger] self.pairs()[i].0
                    < #[trigger] self.pairs()[j].0 by {
                    assert(self.pairs()[i].0 == ks1[i]);
                    assert(self.pairs()[j].0 == ks1[j]);
                    if j < p {
                        assert(s0[i].0 < s0[j].0);
                    } else if i < p {
                        assert(s0[i].0 < s0[j + 1].0);
                    } else {
                        assert(s0[i + 1].0 < s0[j + 1].0);
                    }
                }
            }
            proof {
                self.lemma_view_is_map();
            }
            res
        } else {
            assert(!ks0.contains(k)) by {
                if ks0.contains(k) {
                    let j = choose|j: int| 0 <= j < ks0.len() && ks0[j] == k;
                    assert(s0[j].0 == k);
                    if j > p {
                        assert(s0[p as int].0 < s0[j].0);
                    }
                }
            }
            assert(old(self)@ =~= old(self)@.remove(k));
            None
        }
    }
}

/// The entries of a name table by their views.
pub open spec fn named_pairs(e: Seq<(String, u64)>) -> Seq<(Seq<char>, u64)> {
    e.map_values(|p: (String, u64)| (p.0@, p.1))
}

/// Whether `v` is a value of `m` that no value of `m` exceeds.
pub open spec fn is_greatest<K>(m: Map<K, u64>, v: u64) -> bool {
    &&& exists|k: K| #[trigger] m.contains_key(k) && m[k] == v
    &&& forall|k: K| #[trigger] m.contains_key(k) ==> m[k] <= v
}

/// The largest value stored in `m`, or 0 when `m` is empty.
pub open spec fn greatest_value<K>(m: Map<K, u64>) -> u64 {
    if exists|k: K| #[trigger] m.contains_key(k) {
        choose|v: u64| #[trigger] is_greatest(m, v)
    } else {
        0
    }
}

/// In a finite map with a key, the largest value is a value of the map that
/// no value exceeds.
pub proof fn lemma_greatest_is_max<K>(m: Map<K, u64>)
    requires
        m.dom().finite(),
    ensures
        forall|k: K| #[trigger] m.contains_key(k) ==> m[k] <= greatest_value(m),
        (exists|k: K| #[trigger] m.contains_key(k)) ==> is_greatest(m, greatest_value(m)),
    decreases m.dom().len(),
{
    if exists|k: K| #[trigger] m.contains_key(k) {
        let k0 = choose|k: K| #[trigger] m.contains_key(k);
        let rest = m.remove(k0);
        assert(rest.dom() =~= m.dom().remove(k0));
        lemma_greatest_is_max(rest);
        let top: u64 = if exists|k: K| #[trigger] rest.contains_key(k) {
            let g = greatest_value(rest);
            if g >= m[k0] {
                g
            } else {
                m[k0]
            }
        } else {
            m[k0]
        };
        assert(is_greatest(m, top)) by {
            if exists|k: K| #[trigger] rest.contains_key(k) {
                let g = greatest_value(rest);
                let kg = choose|k: K| #[trigger] rest.contains_key(k) && rest[k] == g;
                assert(m.contains_key(kg) && m[kg] == g);
                assert forall|k: K| #[trigger] m.contains_key(k) implies m[k] <= top by {
                    if k != k0 {
                        assert(rest.contains_key(k));
                    }
                }
            } else {
                assert forall|k: K| #[trigger] m.contains_key(k) implies m[k] <= top by {
                    if k != k0 {
                        assert(rest.contains_key(k));
                    }
                }
            }
        }
        let v = greatest_value(m);
        assert(is_greatest(m, v));
    }
}

/// A table from names to integer keys.
#[derive(Debug)]
pub struct NameTable {
    entries: Vec<(String, u64)>,
}

impl NameTable {
    /// The entries, by their views.
    pub closed spec fn pairs(&self) -> Seq<(Seq<char>, u64)> {
        named_pairs(self.entries@)
    }

    /// Whether no name occurs twice.
    pub open spec fn wf(&self) -> bool {
        keys_distinct(self.pairs())
    }
}

impl View for NameTable {
    type V = Map<Seq<char>, u64>;

    open spec fn view(&self) -> Map<Seq<char>, u64> {
        entries_map(self.pairs())
    }
}

impl NameTable {
    /// An empty table.
    pub fn new() -> (res: NameTable)
        ensures
            res.wf(),
            res@ == Map::<Seq<char>, u64>::empty(),
    {
        let res = NameTable { entries: Vec::new() };
        assert(res.pairs() =~= Seq::<(Seq<char>, u64)>::empty());
        assert(res@ =~= Map::<Seq<char>, u64>::empty());
        res
    }

    /// The position of the entry named `name`, if any.
    fn find(&self, name: &String) -> (res: Option<usize>)
        ensures
            match res {
                Some(i) => i < self.pairs().len() && self.pairs()[i as int].0 == name@,
                None => !has_key(self.pairs(), name@),
            },
    {
        let n = self.entries.len();
        let mut i: usize = 0;
        while i < n
            invariant
                n == self.entries@.len(),
                i <= n,
                forall|j: int| 0 <= j < i ==> self.pairs()[j].0 != name@,
            decreases n - i,
        {
            if self.entries[i].0 == *name {
                return Some(i);
            }
            i = i + 1;
        }
        None
    }

    /// The key stored under `name`, if any.
    pub fn get(&self, name: &String) -> (res: Option<u64>)
        requires
            self.wf(),
        ensures
            res is Some <==> self@.contains_key(name@),
            res matches Some(v) ==> v == self@[name@],
    {
        match self.find(name) {
            Some(i) => {
                proof {
                    lemma_entry_in_map(self.pairs(), i as int);
                }
                Some(self.entries[i].1)
            },
            None => None,
        }
    }

    /// Stores `key` under `name`, replacing an earlier key.
    pub fn insert(&mut self, name: String, key: u64)
        requires
            old(self).wf(),
        ensures
            final(self).wf(),
            final(self)@ == old(self)@.insert(name@, key),
    {
        let ghost s0 = self.pairs();
        let ghost nv = name@;
        match self.find(&name) {
            Some(i) => {
                self.entries.set(i, (name, key));
                let ghost s1 = self.pairs();
                assert(s1 =~= s0.update(i as int, (nv, key)));
                assert(keys_distinct(s1));
                assert(self@ =~= old(self)@.insert(nv, key)) by {
                    assert forall|x: Seq<char>| #[trigger] self@.contains_key(x) == old(
                        self,
                    )@.insert(nv, key).contains_key(x) by {
                        if has_key(s0, x) {
                            let j = choose|j: int| 0 <= j < s0.len() && s0[j].0 == x;
                            assert(s1[j].0 == x);
                        }
                        if has_key(s1, x) {
                            let j = choose|j: int| 0 <= j < s1.len() && s1[j].0 == x;
                            if j != i {
                                assert(s0[j].0 == x);
                            }
                        }
                    }
                    assert forall|x: Seq<char>| #[trigger] self@.contains_key(x) implies self@[x]
                        == old(self)@.insert(nv, key)[x] by {
                        let j = choose|j: int| 0 <= j < s1.len() && s1[j].0 == x;
                        lemma_entry_in_map(s1, j);
                        if j != i {
                            lemma_entry_in_map(s0, j);
                        }
                    }
                }
            },
            None => {
                self.entries.push((name, key));
                let ghost s1 = self.pairs();
                assert(s1 =~= s0.push((nv, key)));
                assert(keys_distinct(s1)) by {
                    assert forall|a: int, b: int|
                        0 <= a < s1.len() && 0 <= b < s1.len() && a != b implies #[trigger] s1[a].0
                        != #[trigger] s1[b].0 by {
                        if a == s0.len() {
                            assert(s0[b].0 != nv);
                        } else if b == s0.len() {
                            assert(s0[a].0 != nv);
                        } else {
                            assert(s0[a].0 != s0[b].0);
                        }
                    }
                }
                assert(self@ =~= old(self)@.insert(nv, key)) by {
                    assert forall|x: Seq<char>| #[trigger] self@.contains_key(x) == old(
                        self,
                    )@.insert(nv, key).contains_key(x) by {
                        if has_key(s0, x) {
                            let j = choose|j: int| 0 <= j < s0.len() && s0[j].0 == x;
                            assert(s1[j].0 == x);
                        }
                        if has_key(s1, x) {
                            let j = choose|j: int| 0 <= j < s1.len() && s1[j].0 == x;
                            if j < s0.len() {
                                assert(s0[j].0 == x);
                            }
                        }
                        assert(s1[s0.len() as int].0 == nv);
                    }
                    assert forall|x: Seq<char>| #[trigger] self@.contains_key(x) implies self@[x]
                        == old(self)@.insert(nv, key)[x] by {
                        let j = choose|j: int| 0 <= j < s1.len() && s1[j].0 == x;
                        lemma_entry_in_map(s1, j);
                        if j < s0.len() {
                            lemma_entry_in_map(s0, j);
                        }
                    }
                }
            },
        }
    }

    /// The entries, in the order they are kept.
    pub fn entries(&self) -> (res: Vec<(String, u64)>)
        ensures
            named_pairs(res@) == self.pairs(),
    {
        let n = self.entries.len();
        let mut out: Vec<(String, u64)> = Vec::new();
        let mut i: usize = 0;
        while i < n
            invariant
                n == self.entries@.len(),
                i <= n,
                named_pairs(out@) == named_pairs(self.entries@.subrange(0, i as int)),
            decreases n - i,
        {
            let e = &self.entries[i];
            let name = e.0.clone();
            let ghost before = out@;
            out.push((name, e.1));
            assert(out@ == before.push((name, e.1)));
            assert(named_pairs(out@) =~= named_pairs(before).push((e.0@, e.1)));
            assert(self.entries@.subrange(0, i + 1) =~= self.entries@.subrange(0, i as int).push(
                self.entries@[i as int],
            ));
            assert(named_pairs(self.entries@.subrange(0, i + 1)) =~= named_pairs(
                self.entries@.subrange(0, i as int),
            ).push((e.0@, e.1)));
            i = i + 1;
        }
        assert(self.entries@.subrange(0, n as int) =~= self.entries@);
        out
    }

    /// The largest key stored, or 0 when the table is empty.
    pub fn greatest(&self) -> (res: u64)
        requires
            self.wf(),
        ensures
            res == greatest_value(self@),
    {
        let ghost s = self.pairs();
        let n = self.entries.len();
        let mut m: u64 = 0;
        let mut i: usize = 0;
        while i < n
            invariant
                n == self.entries@.len(),
                s == self.pairs(),
                i <= n,
                forall|j: int| 0 <= j < i ==> #[trigger] s[j].1 <= m,
                (i == 0 && m == 0) || exists|j: int| 0 <= j < i && #[trigger] s[j].1 == m,
            decreases n - i,
        {
            assert(s[i as int].1 == self.entries@[i as int].1);
            if self.entries[i].1 > m {
                m = self.entries[i].1;
            }
            i = i + 1;
        }
        let ghost map = self@;
        assert forall|k: Seq<char>| #[trigger] map.contains_key(k) implies map[k] <= m by {
            let j = key_index(s, k);
            lemma_entry_in_map(s, j);
        }
        if n > 0 {
            let ghost j = choose|j: int| 0 <= j < n && #[trigger] s[j].1 == m;
            proof {
                lemma_entry_in_map(s, j);
                assert(map.contains_key(s[j].0) && map[s[j].0] == m);
                assert(is_greatest(map, m));
                let v = greatest_value(map);
                let kv = choose|k: Seq<char>| #[trigger] map.contains_key(k) && map[k] == v;
                assert(map[kv] <= m);
                assert(m <= v);
            }
        } else {
            assert(!(exists|k: Seq<char>| #[trigger] map.contains_key(k)));
        }
        m
    }

    /// Removes the entry named `name`, returning its key if it was present.
    pub fn remove(&mut self, name: &String) -> (res: Option<u64>)
        requires
            old(self).wf(),
        ensures
            final(self).wf(),
            final(self)@ == old(self)@.remove(name@),
            res is Some <==> old(self)@.contains_key(name@),
            res matches Some(v) ==> v == old(self)@[name@],
    {
        let ghost s0 = self.pairs();
        let ghost nv = name@;
        match self.find(name) {
            Some(i) => {
                proof {
                    lemma_entry_in_map(s0, i as int);
                }
                let (_, v) = self.entries.remove(i);
                let ghost s1 = self.pairs();
                assert(s1 =~= s0.remove(i as int));
                assert(keys_distinct(s1)) by {
                    assert forall|a: int, b: int|
                        0 <= a < s1.len() && 0 <= b < s1.len() && a != b implies #[trigger] s1[a].0
                        != #[trigger] s1[b].0 by {
                        let a0 = if a < i { a } else { a + 1 };
                        let b0 = if b < i { b } else { b + 1 };
                        assert(s0[a0].0 != s0[b0].0);
                    }
                }
                assert(self@ =~= old(self)@.remove(nv)) by {
                    assert forall|x: Seq<char>| #[trigger] self@.contains_key(x) == old(
                        self,
                    )@.remove(nv).contains_key(x) by {
                        if has_key(s0, x) && x != nv {
                            let j = choose|j: int| 0 <= j < s0.len() && s0[j].0 == x;
                            if j < i {
                                assert(s1[j].0 == x);
                            } else {
                                assert(j != i);
                                assert(s1[j - 1].0 == x);
                            }
                        }
                        if has_key(s1, x) {
                            let j = choose|j: int| 0 <= j < s1.len() && s1[j].0 == x;
                            if j < i {
                                assert(s0[j].0 == x);
                                assert(s0[j].0 != s0[i as int].0);
                            } else {
                                assert(s0[j + 1].0 == x);
                                assert(s0[j + 1].0 != s0[i as int].0);
                            }
                        }
                    }
                    assert forall|x: Seq<char>| #[trigger] self@.contains_key(x) implies self@[x]
                        == old(self)@.remove(nv)[x] by {
                        let j = choose|j: int| 0 <= j < s1.len() && s1[j].0 == x;
                        lemma_entry_in_map(s1, j);
                        if j < i {
                            lemma_entry_in_map(s0, j);
                        } else {
                            lemma_entry_in_map(s0, j + 1);
                        }
                    }
                }
                Some(v)
            },
            None => {
                assert(self@ =~= old(self)@.remove(nv));
                None
            },
        }
    }
}

} // verus!
