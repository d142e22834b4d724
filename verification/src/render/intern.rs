//! First-appearance-ordered interning: dedup a value under a key, handing
//! back a stable index — the order `<defs>` ids get assigned, so output
//! stays deterministic.

use vstd::prelude::*;
use vstd::std_specs::cmp::PartialEqSpec;

verus! {

/// The index of the first key in `keys` equal to `key`.
pub open spec fn key_index<K: PartialEq>(keys: Seq<K>, key: K) -> Option<int> {
    if exists|i: int| 0 <= i < keys.len() && (#[trigger] keys[i]).eq_spec(&key) {
        Some(
            choose|i: int|
                0 <= i < keys.len() && (#[trigger] keys[i]).eq_spec(&key) && forall|j: int|
                    0 <= j < i ==> !(#[trigger] keys[j]).eq_spec(&key),
        )
    } else {
        None
    }
}

/// The first index `i` holds `key` and no earlier one does.
pub open spec fn first_at<K: PartialEq>(keys: Seq<K>, key: K, i: int) -> bool {
    0 <= i < keys.len() && keys[i].eq_spec(&key) && forall|j: int|
        0 <= j < i ==> !(#[trigger] keys[j]).eq_spec(&key)
}

proof fn lemma_first_at_is_key_index<K: PartialEq>(keys: Seq<K>, key: K, i: int)
    requires
        first_at(keys, key, i),
    ensures
        key_index(keys, key) == Some(i),
{
    assert(keys[i].eq_spec(&key));
    let k = choose|k: int|
        0 <= k < keys.len() && (#[trigger] keys[k]).eq_spec(&key) && forall|j: int|
            0 <= j < k ==> !(#[trigger] keys[j]).eq_spec(&key);
    if k < i {
        assert(!keys[k].eq_spec(&key));
    } else if k > i {
        assert(!keys[i].eq_spec(&key));
    }
}

/// A keyed set of distinct values, in first-appearance order.
pub struct IdTable<K, V> {
    keys: Vec<K>,
    values: Vec<V>,
}

impl<K: PartialEq, V> IdTable<K, V> {
    /// One value per key.
    pub closed spec fn wf(self) -> bool {
        self.keys@.len() == self.values@.len()
    }

    /// The keys seen, in first-appearance order.
    pub closed spec fn spec_keys(self) -> Seq<K> {
        self.keys@
    }

    /// The values, one per key, in the same order.
    pub closed spec fn spec_values(self) -> Seq<V> {
        self.values@
    }

    pub fn new() -> (t: Self)
        ensures
            t.wf(),
            t.spec_keys() == interned(Seq::<K>::empty()),
            t.spec_keys().len() == 0,
            t.spec_values().len() == 0,
    {
        IdTable { keys: Vec::new(), values: Vec::new() }
    }

    /// Intern `value` under `key`, returning its stable 0-based index —
    /// reused when an equal key was already seen. `make` builds the value
    /// only on first sight.
    pub fn intern<F: FnOnce() -> V>(&mut self, key: K, make: F) -> (i: usize)
        requires
            old(self).wf(),
            K::obeys_eq_spec(),
            call_requires(make, ()),
        ensures
            final(self).wf(),
            match key_index(old(self).spec_keys(), key) {
                Some(j) => i == j && final(self).spec_keys() == old(self).spec_keys()
                    && final(self).spec_values() == old(self).spec_values(),
                None => i == old(self).spec_keys().len() && final(self).spec_keys() == old(
                    self,
                ).spec_keys().push(key) && final(self).spec_values().drop_last() == old(
                    self,
                ).spec_values() && final(self).spec_values().len() == i + 1 && call_ensures(
                    make,
                    (),
                    final(self).spec_values()[i as int],
                ),
            },
            forall|ks: Seq<K>|
                #[trigger] interned(ks) == old(self).spec_keys() ==> final(self).spec_keys() == interned(
                    ks.push(key),
                ) && i == intern_result(ks.push(key), ks.len() as int),
    {
        let ghost k = key;
        let i = match self.index_of(&key) {
            Some(i) => i,
            None => {
                self.keys.push(key);
                let v = make();
                self.values.push(v);
                proof {
                    assert(self.values@.drop_last() =~= old(self).values@);
                }
                self.values.len() - 1
            },
        };
        proof {
            assert forall|ks: Seq<K>| #[trigger] interned(ks) == old(self).spec_keys() implies self.spec_keys()
                == interned(ks.push(k)) && i == intern_result(ks.push(k), ks.len() as int) by {
                law_intern_extends_run(ks, k);
            }
        }
        i
    }

    /// The index a `key` interned to, if any.
    pub fn index_of(&self, key: &K) -> (r: Option<usize>)
        requires
            K::obeys_eq_spec(),
        ensures
            match r {
                Some(i) => key_index(self.spec_keys(), *key) == Some(i as int),
                None => key_index(self.spec_keys(), *key) is None,
            },
            r matches Some(i) ==> i < self.spec_keys().len(),
    {
        let n = self.keys.len();
        let mut i: usize = 0;
        while i < n
            invariant
                n == self.keys@.len(),
                i <= n,
                K::obeys_eq_spec(),
                forall|j: int| 0 <= j < i ==> !(#[trigger] self.keys@[j]).eq_spec(key),
            decreases n - i,
        {
            if self.keys[i] == *key {
                proof {
                    lemma_first_at_is_key_index(self.keys@, *key, i as int);
                }
                return Some(i);
            }
            i = i + 1;
        }
        None
    }

    pub fn is_empty(&self) -> (r: bool)
        requires
            self.wf(),
        ensures
            r == (self.spec_keys().len() == 0),
            r == (self.spec_values().len() == 0),
    {
        self.values.len() == 0
    }

    pub fn values(&self) -> (v: &[V])
        ensures
            v@ == self.spec_values(),
    {
        self.values.as_slice()
    }

    pub fn into_values(self) -> (v: Vec<V>)
        ensures
            v@ == self.spec_values(),
    {
        self.values
    }
}

/// Interning is idempotent: a key already in the table maps to the index it
/// first got, so interning it again finds that same index.
pub proof fn law_intern_finds_first_index<K: PartialEq>(keys: Seq<K>, key: K, i: int)
    requires
        first_at(keys, key, i),
    ensures
        key_index(keys, key) == Some(i),
        key_index(keys.push(key), key) == Some(i),
{
    lemma_first_at_is_key_index(keys, key, i);
    assert(first_at(keys.push(key), key, i));
    lemma_first_at_is_key_index(keys.push(key), key, i);
}

/// Key equality that is plain equality: `==` on the key type compares
/// values, as it does for integers, strings and derived equality.
pub open spec fn eq_is_equality<K: PartialEq>() -> bool {
    forall|a: K, b: K| #[trigger] a.eq_spec(&b) <==> a == b
}

/// Key equality that is an equivalence: reflexive, symmetric, transitive.
pub open spec fn eq_is_equivalence<K: PartialEq>() -> bool {
    &&& forall|a: K| #[trigger] a.eq_spec(&a)
    &&& forall|a: K, b: K| #[trigger] a.eq_spec(&b) ==> b.eq_spec(&a)
    &&& forall|a: K, b: K, c: K| #[trigger] a.eq_spec(&b) && #[trigger] b.eq_spec(&c) ==> a.eq_spec(&c)
}

/// Whether the `j`-th key of the run equals no earlier key.
pub open spec fn first_seen<K: PartialEq>(ks: Seq<K>, j: int) -> bool {
    forall|l: int| 0 <= l < j ==> !(#[trigger] ks[l]).eq_spec(&ks[j])
}

/// Whether no key of the run equals `k`.
pub open spec fn unseen<K: PartialEq>(ks: Seq<K>, k: K) -> bool {
    forall|j: int| 0 <= j < ks.len() ==> !(#[trigger] ks[j]).eq_spec(&k)
}

/// Whether no two keys of `s` at different places are equal.
pub open spec fn no_equal_pair<K: PartialEq>(s: Seq<K>) -> bool {
    forall|a: int, b: int| 0 <= a < s.len() && 0 <= b < s.len() && a != b ==> !#[trigger] s[a].eq_spec(&s[b])
}

/// The keys a table holds after interning `ks` in order, starting empty:
/// each key is appended the first time it is seen.
pub open spec fn interned<K: PartialEq>(ks: Seq<K>) -> Seq<K>
    decreases ks.len(),
{
    if ks.len() == 0 {
        Seq::empty()
    } else {
        let before = interned(ks.drop_last());
        match key_index(before, ks.last()) {
            Some(_) => before,
            None => before.push(ks.last()),
        }
    }
}

/// The index the `j`-th intern of the run `ks` hands back.
pub open spec fn intern_result<K: PartialEq>(ks: Seq<K>, j: int) -> int {
    let before = interned(ks.take(j));
    match key_index(before, ks[j]) {
        Some(i) => i,
        None => before.len() as int,
    }
}

/// One more intern extends the run as `intern` states it: a table holding
/// the keys of the run `ks` holds those of `ks.push(key)` afterwards, and
/// the index it returns is the run's next result.
pub proof fn law_intern_extends_run<K: PartialEq>(ks: Seq<K>, key: K)
    ensures
        interned(ks.push(key)) == (match key_index(interned(ks), key) {
            Some(_) => interned(ks),
            None => interned(ks).push(key),
        }),
        intern_result(ks.push(key), ks.len() as int) == (match key_index(interned(ks), key) {
            Some(i) => i,
            None => interned(ks).len() as int,
        }),
{
    assert(ks.push(key).drop_last() =~= ks);
    assert(ks.push(key).take(ks.len() as int) =~= ks);
}

/// A key found anywhere is found first somewhere.
proof fn lemma_first_exists<K: PartialEq>(s: Seq<K>, k: K, i: int)
    requires
        0 <= i < s.len(),
        s[i].eq_spec(&k),
    ensures
        exists|f: int| first_at(s, k, f),
    decreases i,
{
    if exists|j: int| 0 <= j < i && (#[trigger] s[j]).eq_spec(&k) {
        let j = choose|j: int| 0 <= j < i && (#[trigger] s[j]).eq_spec(&k);
        lemma_first_exists(s, k, j);
    } else {
        assert(first_at(s, k, i));
    }
}

/// What `key_index` finds: the first key equal to `k`, or none when no key is.
proof fn lemma_key_index_found<K: PartialEq>(s: Seq<K>, k: K)
    ensures
        match key_index(s, k) {
            Some(i) => 0 <= i < s.len() && s[i].eq_spec(&k) && forall|j: int| 0 <= j < i ==> !(#[trigger] s[j]).eq_spec(&k),
            None => forall|i: int| 0 <= i < s.len() ==> !(#[trigger] s[i]).eq_spec(&k),
        },
{
    if let Some(i) = key_index(s, k) {
        let w = choose|w: int| 0 <= w < s.len() && (#[trigger] s[w]).eq_spec(&k);
        lemma_first_exists(s, k, w);
        let f = choose|f: int| first_at(s, k, f);
        lemma_first_at_is_key_index(s, k, f);
    }
}

/// In keys no two of which are equal, a key equal to the one at `i` is
/// found at `i`.
proof fn lemma_key_index_unique<K: PartialEq>(s: Seq<K>, i: int, k: K)
    requires
        eq_is_equivalence::<K>(),
        no_equal_pair(s),
        0 <= i < s.len(),
        s[i].eq_spec(&k),
    ensures
        key_index(s, k) == Some(i),
{
    assert forall|j: int| 0 <= j < i implies !(#[trigger] s[j]).eq_spec(&k) by {
        if s[j].eq_spec(&k) {
            assert(k.eq_spec(&s[i]));
            assert(s[j].eq_spec(&s[i]));
        }
    }
    lemma_first_at_is_key_index(s, k, i);
}

/// The keys of a run: no two equal, each one a key of the run, and every
/// key of the run equal to one of them.
proof fn lemma_interned_keys<K: PartialEq>(ks: Seq<K>)
    requires
        eq_is_equivalence::<K>(),
    ensures
        no_equal_pair(interned(ks)),
        forall|i: int| 0 <= i < interned(ks).len() ==> ks.contains(#[trigger] interned(ks)[i]),
        forall|j: int| 0 <= j < ks.len() ==> #[trigger] key_index(interned(ks), ks[j]) is Some,
    decreases ks.len(),
{
    if ks.len() > 0 {
        let prev = ks.drop_last();
        lemma_interned_keys(prev);
        let before = interned(prev);
        let all = interned(ks);
        let k = ks.last();
        lemma_key_index_found(before, k);
        assert forall|a: int, b: int|
            0 <= a < all.len() && 0 <= b < all.len() && a != b implies !#[trigger] all[a].eq_spec(&all[b]) by {
            if a < before.len() && b < before.len() {
                assert(!before[a].eq_spec(&before[b]));
            } else if a < before.len() {
                assert(all[b] == k);
                assert(!before[a].eq_spec(&k));
            } else {
                assert(all[a] == k);
                if k.eq_spec(&before[b]) {
                    assert(before[b].eq_spec(&k));
                }
            }
        }
        assert forall|i: int| 0 <= i < all.len() implies ks.contains(#[trigger] all[i]) by {
            if i < before.len() {
                assert(prev.contains(before[i]));
                let w = choose|w: int| 0 <= w < prev.len() && prev[w] == before[i];
                assert(ks[w] == before[i]);
            } else {
                assert(ks[ks.len() - 1] == k);
            }
        }
        assert forall|j: int| 0 <= j < ks.len() implies #[trigger] key_index(all, ks[j]) is Some by {
            let w: int = if j < prev.len() {
                assert(prev[j] == ks[j]);
                assert(key_index(before, prev[j]) is Some);
                lemma_key_index_found(before, prev[j]);
                key_index(before, prev[j])->0
            } else {
                match key_index(before, k) {
                    Some(w) => w,
                    None => {
                        assert(all[before.len() as int] == k);
                        assert(k.eq_spec(&k));
                        before.len() as int
                    },
                }
            };
            assert(all[w].eq_spec(&ks[j]));
            lemma_key_index_found(all, ks[j]);
        }
    }
}

/// The keys after a part of a run begin the keys after the whole run.
proof fn lemma_interned_prefix<K: PartialEq>(ks: Seq<K>, j: int)
    requires
        0 <= j <= ks.len(),
    ensures
        interned(ks.take(j)).len() <= interned(ks).len(),
        forall|i: int|
            0 <= i < interned(ks.take(j)).len() ==> #[trigger] interned(ks.take(j))[i]
                == interned(ks)[i],
    decreases ks.len(),
{
    if j == ks.len() {
        assert(ks.take(j) =~= ks);
    } else {
        let prev = ks.drop_last();
        lemma_interned_prefix(prev, j);
        assert(prev.take(j) =~= ks.take(j));
    }
}

/// Where the `j`-th intern of a run lands: the keys after it end at or past
/// its index, and the key there equals its key.
proof fn lemma_intern_result_lands<K: PartialEq>(ks: Seq<K>, j: int)
    requires
        eq_is_equivalence::<K>(),
        0 <= j < ks.len(),
    ensures
        0 <= intern_result(ks, j) < interned(ks.take(j + 1)).len(),
        interned(ks.take(j + 1))[intern_result(ks, j)].eq_spec(&ks[j]),
        key_index(interned(ks.take(j)), ks[j]) is None ==> intern_result(ks, j) == interned(ks.take(j)).len(),
{
    let before = interned(ks.take(j));
    law_intern_extends_run(ks.take(j), ks[j]);
    assert(ks.take(j).push(ks[j]) =~= ks.take(j + 1));
    lemma_key_index_found(before, ks[j]);
    if key_index(before, ks[j]) is None {
        assert(interned(ks.take(j + 1))[before.len() as int] == ks[j]);
        assert(ks[j].eq_spec(&ks[j]));
    }
}

/// A run of interns from an empty table, for any key type whose equality
/// is an equivalence. The table ends holding one key from each class of
/// equal keys of the run, in the order the classes first appear, and so one
/// value per class; each intern returns the index of a key equal to its own,
/// so two interns return the same index exactly when their keys are equal;
/// a key equal to no earlier one gets the next free index, after every
/// earlier intern's; `index_of` finds each key of the run at the index its
/// interns returned, and finds nothing for a key equal to none of the run;
/// and the table is empty only after an empty run.
pub proof fn law_intern_run<K: PartialEq>(ks: Seq<K>)
    requires
        eq_is_equivalence::<K>(),
    ensures
        no_equal_pair(interned(ks)),
        forall|i: int| 0 <= i < interned(ks).len() ==> ks.contains(#[trigger] interned(ks)[i]),
        (interned(ks).len() == 0) == (ks.len() == 0),
        forall|j: int|
            0 <= j < ks.len() ==> 0 <= #[trigger] intern_result(ks, j) < interned(ks).len()
                && interned(ks)[intern_result(ks, j)].eq_spec(&ks[j]),
        forall|j: int, l: int|
            0 <= j < ks.len() && 0 <= l < ks.len() ==> ((#[trigger] intern_result(ks, j)
                == #[trigger] intern_result(ks, l)) <==> ks[j].eq_spec(&ks[l])),
        forall|j: int|
            0 <= j < ks.len() && first_seen(ks, j) ==> #[trigger] intern_result(ks, j) == interned(
                ks.take(j),
            ).len(),
        forall|j: int, l: int|
            0 <= j < l < ks.len() && first_seen(ks, l) ==> #[trigger] intern_result(ks, j)
                < #[trigger] intern_result(ks, l),
        forall|j: int|
            0 <= j < ks.len() ==> key_index(interned(ks), #[trigger] ks[j]) == Some(intern_result(ks, j)),
        forall|k: K| unseen(ks, k) ==> #[trigger] key_index(interned(ks), k) is None,
{
    let all = interned(ks);
    lemma_interned_keys(ks);
    assert forall|j: int| 0 <= j < ks.len() implies 0 <= #[trigger] intern_result(ks, j) < all.len()
        && all[intern_result(ks, j)].eq_spec(&ks[j]) by {
        lemma_intern_result_lands(ks, j);
        lemma_interned_prefix(ks, j + 1);
    }
    assert forall|j: int, l: int|
        0 <= j < ks.len() && 0 <= l < ks.len() implies ((#[trigger] intern_result(ks, j)
        == #[trigger] intern_result(ks, l)) <==> ks[j].eq_spec(&ks[l])) by {
        let rj = intern_result(ks, j);
        let rl = intern_result(ks, l);
        assert(all[rj].eq_spec(&ks[j]) && all[rl].eq_spec(&ks[l]));
        if rj == rl {
            assert(ks[j].eq_spec(&all[rj]));
        } else if ks[j].eq_spec(&ks[l]) {
            assert(all[rj].eq_spec(&ks[l]));
            assert(ks[l].eq_spec(&all[rl]));
            assert(all[rj].eq_spec(&all[rl]));
        }
    }
    assert forall|j: int| 0 <= j < ks.len() && first_seen(ks, j) implies #[trigger] intern_result(ks, j)
        == interned(ks.take(j)).len() by {
        let before = interned(ks.take(j));
        lemma_intern_result_lands(ks, j);
        lemma_interned_keys(ks.take(j));
        lemma_key_index_found(before, ks[j]);
        if let Some(i) = key_index(before, ks[j]) {
            assert(ks.take(j).contains(before[i]));
            let w = choose|w: int| 0 <= w < j && ks.take(j)[w] == before[i];
            assert(ks[w] == before[i]);
            assert(!ks[w].eq_spec(&ks[j]));
        }
    }
    assert forall|j: int, l: int| 0 <= j < l < ks.len() && first_seen(ks, l) implies #[trigger] intern_result(
        ks,
        j,
    ) < #[trigger] intern_result(ks, l) by {
        lemma_intern_result_lands(ks, j);
        lemma_interned_prefix(ks.take(l), j + 1);
        assert(ks.take(l).take(j + 1) =~= ks.take(j + 1));
        assert(intern_result(ks, l) == interned(ks.take(l)).len());
    }
    assert forall|j: int| 0 <= j < ks.len() implies key_index(all, #[trigger] ks[j]) == Some(
        intern_result(ks, j),
    ) by {
        lemma_key_index_unique(all, intern_result(ks, j), ks[j]);
    }
    assert forall|k: K| unseen(ks, k) implies #[trigger] key_index(all, k) is None by {
        lemma_key_index_found(all, k);
        if let Some(i) = key_index(all, k) {
            assert(ks.contains(all[i]));
            let w = choose|w: int| 0 <= w < ks.len() && ks[w] == all[i];
            assert(!ks[w].eq_spec(&k));
        }
    }
    if ks.len() > 0 {
        assert(key_index(all, ks[0]) is Some);
        lemma_key_index_found(all, ks[0]);
    }
}

/// The same run for keys compared by value: the table ends holding each
/// distinct key of the run exactly once, and so as many values as the run
/// has distinct keys.
pub proof fn law_intern_run_distinct_keys<K: PartialEq>(ks: Seq<K>)
    requires
        eq_is_equality::<K>(),
    ensures
        interned(ks).no_duplicates(),
        interned(ks).to_set() == ks.to_set(),
        interned(ks).len() == ks.to_set().len(),
{
    assert(eq_is_equivalence::<K>()) by {
        assert forall|a: K| #[trigger] a.eq_spec(&a) by {}
        assert forall|a: K, b: K| #[trigger] a.eq_spec(&b) implies b.eq_spec(&a) by {}
        assert forall|a: K, b: K, c: K| #[trigger] a.eq_spec(&b) && #[trigger] b.eq_spec(&c) implies a.eq_spec(&c) by {}
    }
    law_intern_run(ks);
    let all = interned(ks);
    assert forall|a: int, b: int| 0 <= a < all.len() && 0 <= b < all.len() && a != b implies all[a] != all[b] by {
        assert(!all[a].eq_spec(&all[b]));
    }
    assert(all.to_set() =~= ks.to_set()) by {
        assert forall|k: K| all.to_set().contains(k) implies ks.to_set().contains(k) by {
            let i = choose|i: int| 0 <= i < all.len() && all[i] == k;
            assert(ks.contains(all[i]));
        }
        assert forall|k: K| ks.to_set().contains(k) implies all.to_set().contains(k) by {
            let j = choose|j: int| 0 <= j < ks.len() && ks[j] == k;
            let r = intern_result(ks, j);
            assert(all[r].eq_spec(&ks[j]));
            assert(all[r] == k);
        }
    }
    all.unique_seq_to_set();
}

} // verus!
