//! An ordered map keyed by path, kept as a vector sorted in the path order.

use vstd::prelude::*;
use crate::order::path_lt;
use crate::order::rank_paths;
use crate::order::Rank;
use crate::order::lemma_path_lt_asymmetric;
use crate::order::lemma_path_lt_transitive;
use crate::order::lemma_path_lt_total;

verus! {

/// The keys of `pairs`, in the same order.
pub open spec fn keys_of<V>(pairs: Seq<(Seq<char>, V)>) -> Seq<Seq<char>> {
    pairs.map_values(|p: (Seq<char>, V)| p.0)
}

/// Each key sorts strictly before every later one.
pub open spec fn ascending<V>(pairs: Seq<(Seq<char>, V)>) -> bool {
    forall|i: int, j: int| 0 <= i < j < pairs.len() ==> path_lt(#[trigger] pairs[i].0, #[trigger] pairs[j].0)
}

/// Whether some pair of `pairs` has the key `k`.
pub open spec fn has_key<V>(pairs: Seq<(Seq<char>, V)>, k: Seq<char>) -> bool {
    exists|i: int| 0 <= i < pairs.len() && #[trigger] pairs[i].0 == k
}

/// Some position at which `pairs` holds the key `k`.
pub open spec fn key_index<V>(pairs: Seq<(Seq<char>, V)>, k: Seq<char>) -> int {
    choose|i: int| 0 <= i < pairs.len() && #[trigger] pairs[i].0 == k
}

/// The map that a sequence of key-value pairs stands for.
pub open spec fn pairs_to_map<V>(pairs: Seq<(Seq<char>, V)>) -> Map<Seq<char>, V> {
    Map::new(|k: Seq<char>| has_key(pairs, k), |k: Seq<char>| pairs[key_index(pairs, k)].1)
}

/// In an ascending sequence every pair is found in the map under its own key.
pub proof fn lemma_pairs_lookup<V>(pairs: Seq<(Seq<char>, V)>, i: int)
    requires
        ascending(pairs),
        0 <= i < pairs.len(),
    ensures
        pairs_to_map(pairs).contains_key(pairs[i].0),
        pairs_to_map(pairs)[pairs[i].0] == pairs[i].1,
{
    let k = pairs[i].0;
    assert(has_key(pairs, k));
    let j = key_index(pairs, k);
    assert(0 <= j < pairs.len() && pairs[j].0 == k);
    if j < i {
        lemma_path_lt_asymmetric(pairs[j].0, pairs[i].0);
    } else if i < j {
        lemma_path_lt_asymmetric(pairs[i].0, pairs[j].0);
    }
}

/// A key that falls strictly between two neighbours of an ascending sequence, or
/// before its first or after its last pair, is not a key of the sequence.
pub proof fn lemma_pairs_gap<V>(pairs: Seq<(Seq<char>, V)>, pos: int, k: Seq<char>)
    requires
        ascending(pairs),
        0 <= pos <= pairs.len(),
        pos > 0 ==> path_lt(pairs[pos - 1].0, k),
        pos < pairs.len() ==> path_lt(k, pairs[pos].0),
    ensures
        !pairs_to_map(pairs).contains_key(k),
{
    if has_key(pairs, k) {
        let j = key_index(pairs, k);
        if j < pos {
            if j < pos - 1 {
                lemma_path_lt_transitive(pairs[j].0, pairs[pos - 1].0, k);
            }
            lemma_path_lt_asymmetric(pairs[j].0, k);
        } else {
            if pos < j {
                lemma_path_lt_transitive(k, pairs[pos].0, pairs[j].0);
            }
            lemma_path_lt_asymmetric(k, pairs[j].0);
        }
    }
}

/// Putting a fresh key at its sorted place keeps the order and adds the binding.
pub proof fn lemma_pairs_insert<V>(pairs: Seq<(Seq<char>, V)>, pos: int, k: Seq<char>, v: V)
    requires
        ascending(pairs),
        0 <= pos <= pairs.len(),
        forall|i: int| 0 <= i < pos ==> path_lt(#[trigger] pairs[i].0, k),
        forall|i: int| pos <= i < pairs.len() ==> path_lt(k, #[trigger] pairs[i].0),
    ensures
        ascending(pairs.insert(pos, (k, v))),
        pairs_to_map(pairs.insert(pos, (k, v))) == pairs_to_map(pairs).insert(k, v),
{
    let after = pairs.insert(pos, (k, v));
    assert forall|i: int, j: int| 0 <= i < j < after.len() implies path_lt(
        #[trigger] after[i].0,
        #[trigger] after[j].0,
    ) by {
        let a = if i < pos { i } else { i - 1 };
        let b = if j < pos { j } else { j - 1 };
        if i != pos && j != pos {
            assert(after[i] == pairs[a] && after[j] == pairs[b]);
        } else if i == pos {
            assert(after[j] == pairs[b]);
        } else {
            assert(after[i] == pairs[a]);
        }
    }
    let m1 = pairs_to_map(after);
    let m2 = pairs_to_map(pairs).insert(k, v);
    assert forall|q: Seq<char>| m1.contains_key(q) <==> m2.contains_key(q) by {
        if has_key(after, q) {
            let i = key_index(after, q);
            if i != pos {
                let a = if i < pos { i } else { i - 1 };
                assert(pairs[a].0 == q);
            }
        }
        if has_key(pairs, q) {
            let a = key_index(pairs, q);
            let i = if a < pos { a } else { a + 1 };
            assert(after[i].0 == q);
        }
        if q == k {
            assert(after[pos].0 == q);
        }
    }
    assert forall|q: Seq<char>| m1.contains_key(q) implies m1[q] == m2[q] by {
        let i = key_index(after, q);
        lemma_pairs_lookup(after, i);
        if i != pos {
            let a = if i < pos { i } else { i - 1 };
            assert(after[i] == pairs[a]);
            lemma_pairs_lookup(pairs, a);
            if q == k {
                if a < pos {
                    lemma_path_lt_asymmetric(pairs[a].0, k);
                } else {
                    lemma_path_lt_asymmetric(k, pairs[a].0);
                }
            }
        }
    }
    assert(m1 =~= m2);
}

/// Replacing the value under an existing key keeps the order and rebinds the key.
pub proof fn lemma_pairs_update<V>(pairs: Seq<(Seq<char>, V)>, pos: int, v: V)
    requires
        ascending(pairs),
        0 <= pos < pairs.len(),
    ensures
        ascending(pairs.update(pos, (pairs[pos].0, v))),
        pairs_to_map(pairs.update(pos, (pairs[pos].0, v))) == pairs_to_map(pairs).insert(pairs[pos].0, v),
{
    let k = pairs[pos].0;
    let after = pairs.update(pos, (k, v));
    assert forall|i: int, j: int| 0 <= i < j < after.len() implies path_lt(
        #[trigger] after[i].0,
        #[trigger] after[j].0,
    ) by {
        assert(after[i].0 == pairs[i].0 && after[j].0 == pairs[j].0);
    }
    let m1 = pairs_to_map(after);
    let m2 = pairs_to_map(pairs).insert(k, v);
    assert forall|q: Seq<char>| m1.contains_key(q) <==> m2.contains_key(q) by {
        if has_key(after, q) {
            let i = key_index(after, q);
            assert(pairs[i].0 == q);
        }
        if has_key(pairs, q) {
            let i = key_index(pairs, q);
            assert(after[i].0 == q);
        }
        if q == k {
            assert(after[pos].0 == q);
        }
    }
    assert forall|q: Seq<char>| m1.contains_key(q) implies m1[q] == m2[q] by {
        let i = key_index(after, q);
        lemma_pairs_lookup(after, i);
        if i != pos {
            assert(after[i] == pairs[i]);
            lemma_pairs_lookup(pairs, i);
            if i < pos {
                lemma_path_lt_asymmetric(pairs[i].0, k);
            } else {
                lemma_path_lt_asymmetric(k, pairs[i].0);
            }
        }
    }
    assert(m1 =~= m2);
}

/// Taking one pair out keeps the order and removes exactly its key.
pub proof fn lemma_pairs_remove<V>(pairs: Seq<(Seq<char>, V)>, pos: int)
    requires
        ascending(pairs),
        0 <= pos < pairs.len(),
    ensures
        ascending(pairs.remove(pos)),
        pairs_to_map(pairs.remove(pos)) == pairs_to_map(pairs).remove(pairs[pos].0),
{
    let k = pairs[pos].0;
    let after = pairs.remove(pos);
    assert forall|i: int, j: int| 0 <= i < j < after.len() implies path_lt(
        #[trigger] after[i].0,
        #[trigger] after[j].0,
    ) by {
        let a = if i < pos { i } else { i + 1 };
        let b = if j < pos { j } else { j + 1 };
        assert(after[i] == pairs[a] && after[j] == pairs[b]);
    }
    let m1 = pairs_to_map(after);
    let m2 = pairs_to_map(pairs).remove(k);
    assert forall|q: Seq<char>| m1.contains_key(q) <==> m2.contains_key(q) by {
        if has_key(after, q) {
            let i = key_index(after, q);
            let a = if i < pos { i } else { i + 1 };
            assert(after[i] == pairs[a]);
            assert(pairs[a].0 == q);
            if a < pos {
                lemma_path_lt_asymmetric(pairs[a].0, k);
            } else {
                lemma_path_lt_asymmetric(k, pairs[a].0);
            }
        }
        if has_key(pairs, q) && q != k {
            let a = key_index(pairs, q);
            let i = if a < pos { a } else { a - 1 };
            assert(after[i] == pairs[a]);
            assert(after[i].0 == q);
        }
    }
    assert forall|q: Seq<char>| m1.contains_key(q) implies m1[q] == m2[q] by {
        let i = key_index(after, q);
        lemma_pairs_lookup(after, i);
        let a = if i < pos { i } else { i + 1 };
        assert(after[i] == pairs[a]);
        lemma_pairs_lookup(pairs, a);
    }
    assert(m1 =~= m2);
}

/// The bindings that stored entries stand for: each key by its characters.
pub open spec fn pairs_of<V>(entries: Seq<(String, V)>) -> Seq<(Seq<char>, V)> {
    entries.map_values(|e: (String, V)| (e.0@, e.1))
}

/// A map from paths to values that keeps its keys in the path order.
pub struct PathMap<V> {
    entries: Vec<(String, V)>,
}

impl<V> View for PathMap<V> {
    type V = Map<Seq<char>, V>;

    open spec fn view(&self) -> Map<Seq<char>, V> {
        pairs_to_map(self.pairs())
    }
}

impl<V> PathMap<V> {
    /// The bindings in the order in which the map walks them.
    pub closed spec fn pairs(self) -> Seq<(Seq<char>, V)> {
        pairs_of(self.entries@)
    }

    /// Moves the stored bindings out, leaving the map empty.
    fn take_entries(&mut self) -> (entries: Vec<(String, V)>)
        ensures
            pairs_of(entries@) == old(self).pairs(),
            final(self).pairs().len() == 0,
    {
        let mut entries: Vec<(String, V)> = Vec::new();
        std::mem::swap(&mut self.entries, &mut entries);
        entries
    }

    /// Stores `entries` as the bindings of the map.
    fn put_entries(&mut self, entries: Vec<(String, V)>)
        requires
            ascending(pairs_of(entries@)),
        ensures
            final(self).pairs() == pairs_of(entries@),
    {
        let mut entries = entries;
        std::mem::swap(&mut self.entries, &mut entries);
    }

    /// The keys are strictly ascending, so no key occurs twice.
    pub open spec fn wf(self) -> bool {
        ascending(self.pairs())
    }

    #[verifier::type_invariant]
    spec fn sorted(self) -> bool {
        self.wf()
    }

    /// A map without bindings.
    pub fn new() -> (m: Self)
        ensures
            m.wf(),
            m.pairs() == Seq::<(Seq<char>, V)>::empty(),
            m@ == Map::<Seq<char>, V>::empty(),
    {
        let m = PathMap { entries: Vec::new() };
        assert(m.pairs() =~= Seq::<(Seq<char>, V)>::empty());
        assert(m@ =~= Map::<Seq<char>, V>::empty());
        m
    }

    /// The number of bindings.
    pub fn len(&self) -> (n: usize)
        ensures
            self.wf(),
            n == self.pairs().len(),
    {
        proof {
            use_type_invariant(self);
        }
        self.entries.len()
    }

    /// Whether the map has no bindings.
    pub fn is_empty(&self) -> (b: bool)
        ensures
            self.wf(),
            b == (self.pairs().len() == 0),
    {
        proof {
            use_type_invariant(self);
        }
        self.entries.len() == 0
    }

    /// The key of the binding at position `i` of the walk.
    pub fn key_at(&self, i: usize) -> (k: &String)
        requires
            i < self.pairs().len(),
        ensures
            self.wf(),
            k@ == self.pairs()[i as int].0,
            self@.contains_key(k@),
    {
        proof {
            use_type_invariant(self);
            lemma_pairs_lookup(self.pairs(), i as int);
        }
        &self.entries[i].0
    }

    /// The value of the binding at position `i` of the walk.
    pub fn value_at(&self, i: usize) -> (v: &V)
        requires
            i < self.pairs().len(),
        ensures
            self.wf(),
            *v == self.pairs()[i as int].1,
            self@.contains_key(self.pairs()[i as int].0),
            self@[self.pairs()[i as int].0] == *v,
    {
        proof {
            use_type_invariant(self);
            lemma_pairs_lookup(self.pairs(), i as int);
        }
        &self.entries[i].1
    }

    /// The first position whose key does not sort before `key`.
    fn lower_bound(&self, key: &str) -> (pos: usize)
        ensures
            pos <= self.pairs().len(),
            forall|i: int| 0 <= i < pos ==> path_lt(#[trigger] self.pairs()[i].0, key@),
            forall|i: int| pos <= i < self.pairs().len() ==> !path_lt(#[trigger] self.pairs()[i].0, key@),
    {
        proof {
            use_type_invariant(self);
        }
        let mut lo: usize = 0;
        let mut hi: usize = self.entries.len();
        while lo < hi
            invariant
                self.wf(),
                lo <= hi <= self.pairs().len(),
                self.pairs().len() == self.entries@.len(),
                forall|i: int| 0 <= i < lo ==> path_lt(#[trigger] self.pairs()[i].0, key@),
                forall|i: int| hi <= i < self.pairs().len() ==> !path_lt(#[trigger] self.pairs()[i].0, key@),
            decreases hi - lo,
        {
            let mid = lo + (hi - lo) / 2;
            let r = rank_paths(self.entries[mid].0.as_str(), key);
            assert(self.pairs()[mid as int].0 == self.entries@[mid as int].0@);
            if r == Rank::Before {
                assert forall|i: int| 0 <= i < mid + 1 implies path_lt(#[trigger] self.pairs()[i].0, key@) by {
                    if i < mid {
                        lemma_path_lt_transitive(self.pairs()[i].0, self.pairs()[mid as int].0, key@);
                    }
                }
                lo = mid + 1;
            } else {
                assert forall|i: int| mid <= i < self.pairs().len() implies !path_lt(
                    #[trigger] self.pairs()[i].0,
                    key@,
                ) by {
                    if mid < i && path_lt(self.pairs()[i].0, key@) {
                        lemma_path_lt_transitive(self.pairs()[mid as int].0, self.pairs()[i].0, key@);
                    }
                }
                hi = mid;
            }
        }
        lo
    }

    /// The position of `key` in the walk, if the map binds it.
    pub fn position(&self, key: &str) -> (found: Option<usize>)
        ensures
            self.wf(),
            match found {
                Some(i) => i < self.pairs().len() && self.pairs()[i as int].0 == key@
                    && self@.contains_key(key@),
                None => !self@.contains_key(key@),
            },
    {
        proof {
            use_type_invariant(self);
        }
        let pos = self.lower_bound(key);
        if pos < self.entries.len() {
            let r = rank_paths(self.entries[pos].0.as_str(), key);
            assert(self.pairs()[pos as int].0 == self.entries@[pos as int].0@);
            if r == Rank::Same {
                proof {
                    lemma_pairs_lookup(self.pairs(), pos as int);
                }
                return Some(pos);
            }
            proof {
                lemma_path_lt_total(self.pairs()[pos as int].0, key@);
            }
        }
        proof {
            lemma_pairs_gap(self.pairs(), pos as int, key@);
        }
        None
    }

    /// Whether the map binds `key`.
    pub fn contains_key(&self, key: &str) -> (b: bool)
        ensures
            self.wf(),
            b == self@.contains_key(key@),
    {
        self.position(key).is_some()
    }

    /// The value bound to `key`, if any.
    pub fn get(&self, key: &str) -> (found: Option<&V>)
        ensures
            self.wf(),
            match found {
                Some(v) => self@.contains_key(key@) && self@[key@] == *v,
                None => !self@.contains_key(key@),
            },
    {
        proof {
            use_type_invariant(self);
        }
        match self.position(key) {
            Some(i) => {
                proof {
                    lemma_pairs_lookup(self.pairs(), i as int);
                }
                Some(&self.entries[i].1)
            },
            None => None,
        }
    }

    /// Binds `key` to `value` and returns the value that `key` was bound to before.
    pub fn insert(&mut self, key: String, value: V) -> (previous: Option<V>)
        ensures
            final(self).wf(),
            final(self)@ == old(self)@.insert(key@, value),
            previous == (if old(self)@.contains_key(key@) {
                Some(old(self)@[key@])
            } else {
                None
            }),
    {
        proof {
            use_type_invariant(&*self);
        }
        let pos = self.lower_bound(key.as_str());
        let ghost before = self.pairs();
        if pos < self.entries.len() {
            let r = rank_paths(self.entries[pos].0.as_str(), key.as_str());
            assert(before[pos as int].0 == self.entries@[pos as int].0@);
            if r == Rank::Same {
                proof {
                    lemma_pairs_lookup(before, pos as int);
                    lemma_pairs_update(before, pos as int, value);
                }
                let mut entries = self.take_entries();
                entries.push((key, value));
                let gone = entries.swap_remove(pos);
                assert(pairs_of(entries@) =~= before.update(pos as int, (before[pos as int].0, value)));
                self.put_entries(entries);
                return Some(gone.1);
            }
            proof {
                lemma_path_lt_total(before[pos as int].0, key@);
            }
        }
        proof {
            lemma_pairs_gap(before, pos as int, key@);
            assert forall|i: int| pos <= i < before.len() implies path_lt(key@, #[trigger] before[i].0) by {
                if pos < i {
                    lemma_path_lt_transitive(key@, before[pos as int].0, before[i].0);
                }
            }
            lemma_pairs_insert(before, pos as int, key@, value);
        }
        let mut entries = self.take_entries();
        entries.insert(pos, (key, value));
        assert(pairs_of(entries@) =~= before.insert(pos as int, (key@, value)));
        self.put_entries(entries);
        None
    }

    /// Unbinds `key` and returns the value that it was bound to.
    pub fn remove(&mut self, key: &str) -> (previous: Option<V>)
        ensures
            final(self).wf(),
            final(self)@ == old(self)@.remove(key@),
            previous == (if old(self)@.contains_key(key@) {
                Some(old(self)@[key@])
            } else {
                None
            }),
    {
        proof {
            use_type_invariant(&*self);
        }
        let ghost before = self.pairs();
        match self.position(key) {
            Some(i) => {
                proof {
                    lemma_pairs_lookup(before, i as int);
                    lemma_pairs_remove(before, i as int);
                }
                let mut entries = self.take_entries();
                let gone = entries.remove(i);
                assert(pairs_of(entries@) =~= before.remove(i as int));
                self.put_entries(entries);
                Some(gone.1)
            },
            None => {
                assert(self@ =~= old(self)@.remove(key@));
                None
            },
        }
    }

    /// Appends a binding whose key sorts after every key of the map.
    pub fn push_last(&mut self, key: String, value: V)
        requires
            old(self).pairs().len() > 0 ==> path_lt(old(self).pairs().last().0, key@),
        ensures
            final(self).wf(),
            final(self).pairs() == old(self).pairs().push((key@, value)),
            final(self)@ == old(self)@.insert(key@, value),
    {
        proof {
            use_type_invariant(&*self);
        }
        let ghost before = self.pairs();
        proof {
            assert forall|i: int| 0 <= i < before.len() implies path_lt(#[trigger] before[i].0, key@) by {
                if i < before.len() - 1 {
                    lemma_path_lt_transitive(before[i].0, before.last().0, key@);
                }
            }
            lemma_pairs_insert(before, before.len() as int, key@, value);
            assert(before.insert(before.len() as int, (key@, value)) =~= before.push((key@, value)));
        }
        let mut entries = self.take_entries();
        entries.push((key, value));
        assert(pairs_of(entries@) =~= before.push((key@, value)));
        self.put_entries(entries);
    }
}

/// The value under `k` in `m`, if `m` binds `k`.
pub open spec fn lookup<V>(m: Map<Seq<char>, V>, k: Seq<char>) -> Option<V> {
    if m.contains_key(k) {
        Some(m[k])
    } else {
        None
    }
}

/// The map that binds each path `p` to `f(p)` wherever `f(p)` is some value.
pub open spec fn chosen<T>(f: spec_fn(Seq<char>) -> Option<T>) -> Map<Seq<char>, T> {
    Map::new(|p: Seq<char>| f(p) is Some, |p: Seq<char>| f(p)->0)
}

/// The part of [`chosen`] that lies on the first `n` keys of `keys`.
pub open spec fn chosen_upto<U, T>(keys: Seq<(Seq<char>, U)>, n: int, f: spec_fn(Seq<char>) -> Option<T>) -> Map<
    Seq<char>,
    T,
> {
    Map::new(|p: Seq<char>| f(p) is Some && has_key(keys.take(n), p), |p: Seq<char>| f(p)->0)
}

/// Every key of `out` is one of the first `n` keys of `keys`.
pub open spec fn drawn_from<U, T>(out: Seq<(Seq<char>, T)>, keys: Seq<(Seq<char>, U)>, n: int) -> bool {
    forall|x: int| 0 <= x < out.len() ==> has_key(keys.take(n), #[trigger] out[x].0)
}

/// Nothing is chosen before the walk over `keys` begins.
pub proof fn lemma_chosen_start<U, T>(keys: Seq<(Seq<char>, U)>, f: spec_fn(Seq<char>) -> Option<T>)
    ensures
        pairs_to_map(Seq::<(Seq<char>, T)>::empty()) == chosen_upto(keys, 0, f),
        drawn_from(Seq::<(Seq<char>, T)>::empty(), keys, 0),
        ascending(Seq::<(Seq<char>, T)>::empty()),
{
    assert(pairs_to_map(Seq::<(Seq<char>, T)>::empty()) =~= chosen_upto(keys, 0, f));
}

/// One step of a walk over ascending `keys` that collects `f` of each key where it is
/// some value: the collected pairs stay ascending and stand for [`chosen_upto`].
pub proof fn lemma_chosen_step<U, T>(
    keys: Seq<(Seq<char>, U)>,
    i: int,
    f: spec_fn(Seq<char>) -> Option<T>,
    out: Seq<(Seq<char>, T)>,
)
    requires
        ascending(keys),
        0 <= i < keys.len(),
        ascending(out),
        drawn_from(out, keys, i),
        pairs_to_map(out) == chosen_upto(keys, i, f),
    ensures
        f(keys[i].0) is Some ==> {
            let grown = out.push((keys[i].0, f(keys[i].0)->0));
            &&& ascending(grown)
            &&& drawn_from(grown, keys, i + 1)
            &&& pairs_to_map(grown) == chosen_upto(keys, i + 1, f)
        },
        f(keys[i].0) is None ==> drawn_from(out, keys, i + 1) && pairs_to_map(out) == chosen_upto(
            keys,
            i + 1,
            f,
        ),
{
    let k = keys[i].0;
    assert(keys.take(i + 1)[i].0 == k);
    assert forall|p: Seq<char>| has_key(keys.take(i + 1), p) <==> (has_key(keys.take(i), p) || p == k) by {
        lemma_take_grows(keys, i, p);
    }
    assert forall|x: int| 0 <= x < out.len() implies path_lt(#[trigger] out[x].0, k) by {
        let j = key_index(keys.take(i), out[x].0);
        assert(keys.take(i)[j].0 == out[x].0);
        assert(keys[j].0 == out[x].0);
    }
    if f(k) is Some {
        let v = f(k)->0;
        let grown = out.push((k, v));
        lemma_pairs_insert(out, out.len() as int, k, v);
        assert(out.insert(out.len() as int, (k, v)) =~= grown);
        assert(pairs_to_map(grown) =~= chosen_upto(keys, i + 1, f));
        assert forall|x: int| 0 <= x < grown.len() implies has_key(keys.take(i + 1), #[trigger] grown[x].0) by {
            if x < out.len() {
                assert(grown[x] == out[x]);
                assert(has_key(keys.take(i), out[x].0));
            }
        }
    } else {
        assert(pairs_to_map(out) =~= chosen_upto(keys, i + 1, f));
        assert forall|x: int| 0 <= x < out.len() implies has_key(keys.take(i + 1), #[trigger] out[x].0) by {
            assert(has_key(keys.take(i), out[x].0));
        }
    }
}

/// Once the walk has passed every key on which `f` is some value, the collected
/// pairs stand for all of [`chosen`].
pub proof fn lemma_chosen_done<U, T>(keys: Seq<(Seq<char>, U)>, f: spec_fn(Seq<char>) -> Option<T>)
    requires
        forall|p: Seq<char>| f(p) is Some ==> has_key(keys, p),
    ensures
        chosen_upto(keys, keys.len() as int, f) == chosen(f),
{
    assert(keys.take(keys.len() as int) =~= keys);
    assert(chosen_upto(keys, keys.len() as int, f) =~= chosen(f));
}

/// The keys of either map, each once, in the path order.
pub fn union_keys<A, B>(a: &PathMap<A>, b: &PathMap<B>) -> (keys: PathMap<()>)
    ensures
        keys.wf(),
        a.wf(),
        b.wf(),
        forall|p: Seq<char>| keys@.contains_key(p) <==> (a@.contains_key(p) || b@.contains_key(p)),
{
    let n = a.len();
    let m = b.len();
    let mut keys: PathMap<()> = PathMap::new();
    let mut i: usize = 0;
    let mut j: usize = 0;
    while i < n || j < m
        invariant
            a.wf(),
            b.wf(),
            keys.wf(),
            i <= n == a.pairs().len(),
            j <= m == b.pairs().len(),
            forall|p: Seq<char>|
                keys@.contains_key(p) <==> (has_key(a.pairs().take(i as int), p) || has_key(
                    b.pairs().take(j as int),
                    p,
                )),
            keys.pairs().len() > 0 && i < n ==> path_lt(keys.pairs().last().0, a.pairs()[i as int].0),
            keys.pairs().len() > 0 && j < m ==> path_lt(keys.pairs().last().0, b.pairs()[j as int].0),
        decreases (n - i) + (m - j),
    {
        let ghost before = keys@;
        let take_a: bool;
        let take_b: bool;
        if i < n && j < m {
            let r = rank_paths(a.key_at(i).as_str(), b.key_at(j).as_str());
            take_a = r == Rank::Before || r == Rank::Same;
            take_b = r == Rank::After || r == Rank::Same;
            proof {
                lemma_path_lt_total(a.pairs()[i as int].0, b.pairs()[j as int].0);
            }
        } else {
            take_a = i < n;
            take_b = j < m;
        }
        if take_a {
            let k = a.key_at(i).clone();
            proof {
                if i + 1 < n {
                    assert(path_lt(a.pairs()[i as int].0, a.pairs()[i + 1].0));
                }
                if take_b && j + 1 < m {
                    assert(path_lt(b.pairs()[j as int].0, b.pairs()[j + 1].0));
                }
            }
            keys.push_last(k, ());
            assert(keys@ == before.insert(a.pairs()[i as int].0, ()));
            assert(take_b ==> b.pairs()[j as int].0 == a.pairs()[i as int].0);
            let ghost j2 = if take_b { j + 1 } else { j as int };
            assert forall|p: Seq<char>|
                keys@.contains_key(p) <==> (has_key(a.pairs().take(i + 1), p) || has_key(
                    b.pairs().take(j2),
                    p,
                )) by {
                lemma_take_grows(a.pairs(), i as int, p);
                if take_b {
                    lemma_take_grows(b.pairs(), j as int, p);
                }
            }
            i += 1;
            if take_b {
                j += 1;
            }
        } else {
            let k = b.key_at(j).clone();
            proof {
                if j + 1 < m {
                    assert(path_lt(b.pairs()[j as int].0, b.pairs()[j + 1].0));
                }
            }
            keys.push_last(k, ());
            assert(keys@ == before.insert(b.pairs()[j as int].0, ()));
            assert forall|p: Seq<char>|
                keys@.contains_key(p) <==> (has_key(a.pairs().take(i as int), p) || has_key(
                    b.pairs().take(j + 1),
                    p,
                )) by {
                lemma_take_grows(b.pairs(), j as int, p);
            }
            j += 1;
        }
    }
    proof {
        assert(a.pairs().take(n as int) =~= a.pairs());
        assert(b.pairs().take(m as int) =~= b.pairs());
    }
    keys
}

/// The keys among the first `n + 1` pairs are those among the first `n`, and the next one.
pub proof fn lemma_take_grows<V>(pairs: Seq<(Seq<char>, V)>, n: int, p: Seq<char>)
    requires
        0 <= n < pairs.len(),
    ensures
        has_key(pairs.take(n + 1), p) <==> (has_key(pairs.take(n), p) || p == pairs[n].0),
{
    assert(pairs.take(n + 1)[n].0 == pairs[n].0);
    if has_key(pairs.take(n + 1), p) {
        let x = key_index(pairs.take(n + 1), p);
        if x < n {
            assert(pairs.take(n)[x].0 == p);
        }
    }
    if has_key(pairs.take(n), p) {
        let x = key_index(pairs.take(n), p);
        assert(pairs.take(n + 1)[x].0 == p);
    }
}

} // verus!
