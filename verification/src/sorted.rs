//! Sorted association vectors: the ordered maps and sets that hold the
//! replicated state.
//!
//! An [`OrdMap`] keeps its entries in a vector sorted by strictly increasing
//! key; its view is a `Map` from the keys' views to the values' views. An
//! [`OrdSet`] is an `OrdMap` whose values are all `true`; its view is the set of
//! its keys. Sorting keeps the representation canonical: two well-formed maps
//! with equal views hold equal vectors, and iteration is in ascending order.

use crate::order::{Order, TotalOrder};
use vstd::prelude::*;

verus! {

/// Ordered map from `K` to `V`, kept as a vector sorted by key.
#[derive(Clone, PartialEq, Eq, Debug)]
pub struct OrdMap<K, V> {
    items: Vec<(K, V)>,
}

/// Keys strictly increase along the sequence.
pub open spec fn strictly_sorted<K: TotalOrder>(keys: Seq<K::V>) -> bool {
    forall|i: int, j: int| 0 <= i < j < keys.len() ==> K::precedes(#[trigger] keys[i], #[trigger] keys[j])
}

/// In a strictly sorted sequence, equal keys sit at equal positions.
pub proof fn lemma_sorted_unique<K: TotalOrder>(keys: Seq<K::V>, i: int, j: int)
    requires
        strictly_sorted::<K>(keys),
        0 <= i < keys.len(),
        0 <= j < keys.len(),
        keys[i] == keys[j],
    ensures
        i == j,
{
    if i < j {
        K::lemma_irreflexive(keys[i]);
    } else if j < i {
        K::lemma_irreflexive(keys[i]);
    }
}

pub proof fn lemma_sorted_no_duplicates<K: TotalOrder>(keys: Seq<K::V>)
    requires
        strictly_sorted::<K>(keys),
    ensures
        keys.no_duplicates(),
{
    assert forall|i: int, j: int| 0 <= i < keys.len() && 0 <= j < keys.len() && i != j
        implies keys[i] != keys[j] by {
        if keys[i] == keys[j] {
            lemma_sorted_unique::<K>(keys, i, j);
        }
    }
}

/// Two strictly sorted sequences with the same elements are equal: sorting
/// makes the representation canonical.
pub proof fn lemma_sorted_eq<K: TotalOrder>(s: Seq<K::V>, t: Seq<K::V>)
    requires
        strictly_sorted::<K>(s),
        strictly_sorted::<K>(t),
        forall|x: K::V| s.contains(x) <==> t.contains(x),
    ensures
        s == t,
    decreases s.len(),
{
    if s.len() == 0 {
        if t.len() > 0 {
            assert(t.contains(t[0]));
        }
        assert(s =~= t);
    } else {
        assert(s.contains(s[0]));
        assert(t.len() > 0) by {
            assert(t.contains(s[0]));
        }
        assert(t.contains(t[0]));
        let j = choose|j: int| 0 <= j < t.len() && t[j] == s[0];
        let k = choose|k: int| 0 <= k < s.len() && s[k] == t[0];
        if j > 0 {
            assert(K::precedes(t[0], t[j]));
            if k == 0 {
                K::lemma_irreflexive(t[0]);
            } else {
                assert(K::precedes(s[0], s[k]));
                K::lemma_transitive(t[0], s[0], t[0]);
                K::lemma_irreflexive(t[0]);
            }
        }
        assert(s[0] == t[0]);
        let s1 = s.drop_first();
        let t1 = t.drop_first();
        assert forall|x: K::V| s1.contains(x) <==> t1.contains(x) by {
            if s1.contains(x) {
                let a = choose|a: int| 0 <= a < s1.len() && s1[a] == x;
                assert(s[a + 1] == x);
                assert(K::precedes(s[0], s[a + 1]));
                assert(t.contains(x));
                let b = choose|b: int| 0 <= b < t.len() && t[b] == x;
                if b == 0 {
                    K::lemma_irreflexive(x);
                }
                assert(t1[b - 1] == x);
            }
            if t1.contains(x) {
                let a = choose|a: int| 0 <= a < t1.len() && t1[a] == x;
                assert(t[a + 1] == x);
                assert(K::precedes(t[0], t[a + 1]));
                assert(s.contains(x));
                let b = choose|b: int| 0 <= b < s.len() && s[b] == x;
                if b == 0 {
                    K::lemma_irreflexive(x);
                }
                assert(s1[b - 1] == x);
            }
        }
        assert(strictly_sorted::<K>(s1)) by {
            assert forall|a: int, b: int| 0 <= a < b < s1.len() implies K::precedes(#[trigger] s1[a], #[trigger] s1[b]) by {
                assert(s1[a] == s[a + 1] && s1[b] == s[b + 1]);
            }
        }
        assert(strictly_sorted::<K>(t1)) by {
            assert forall|a: int, b: int| 0 <= a < b < t1.len() implies K::precedes(#[trigger] t1[a], #[trigger] t1[b]) by {
                assert(t1[a] == t[a + 1] && t1[b] == t[b + 1]);
            }
        }
        lemma_sorted_eq::<K>(s1, t1);
        assert(s =~= t) by {
            assert(s.len() == t.len());
            assert forall|i: int| 0 <= i < s.len() implies s[i] == t[i] by {
                if i > 0 {
                    assert(s[i] == s1[i - 1]);
                    assert(t[i] == t1[i - 1]);
                }
            }
        }
    }
}

impl<K: TotalOrder, V: View> OrdMap<K, V> {
    /// Two well-formed maps with the same view store the same keys and
    /// values, in the same order.
    pub proof fn lemma_canonical(a: Self, b: Self)
        requires
            a.wf(),
            b.wf(),
            a@ == b@,
        ensures
            a.keys() == b.keys(),
            a.vals() == b.vals(),
    {
        a.lemma_view();
        b.lemma_view();
        assert forall|x: K::V| a.keys().contains(x) <==> b.keys().contains(x) by {
            a.lemma_dom();
            b.lemma_dom();
            assert(a@.contains_key(x) <==> a.keys().contains(x));
            assert(b@.contains_key(x) <==> b.keys().contains(x));
        }
        lemma_sorted_eq::<K>(a.keys(), b.keys());
        assert(a.vals() =~= b.vals()) by {
            assert forall|i: int| 0 <= i < a.vals().len() implies a.vals()[i] == b.vals()[i] by {
                assert(a@[a.keys()[i]] == a.vals()[i]);
                assert(b@[b.keys()[i]] == b.vals()[i]);
            }
        }
    }

    /// Maps storing the same keys and values have the same view.
    pub proof fn lemma_same_entries(a: Self, b: Self)
        requires
            a.keys() == b.keys(),
            a.vals() == b.vals(),
        ensures
            a@ == b@,
    {
        assert(a@ =~= b@);
    }

    /// Views of the keys, in storage order.
    pub closed spec fn keys(self) -> Seq<K::V> {
        Seq::new(self.items@.len(), |i: int| self.items@[i].0@)
    }

    /// Views of the values, in storage order.
    pub closed spec fn vals(self) -> Seq<V::V> {
        Seq::new(self.items@.len(), |i: int| self.items@[i].1@)
    }

    /// Well-formedness: keys strictly increase.
    pub open spec fn wf(self) -> bool {
        strictly_sorted::<K>(self.keys())
    }

    pub proof fn lemma_lengths(self)
        ensures
            self.keys().len() == self.vals().len(),
    {
    }

    /// The keys of the view are those stored, well-formed or not.
    pub proof fn lemma_dom(self)
        ensures
            forall|k: K::V| #[trigger] self@.contains_key(k) <==> self.keys().contains(k),
            forall|i: int| 0 <= i < self.keys().len() ==> #[trigger] self@.contains_key(self.keys()[i]),
            self@.dom() == self.keys().to_set(),
            self@.dom().finite(),
    {
        assert forall|i: int| 0 <= i < self.keys().len() implies #[trigger] self@.contains_key(self.keys()[i]) by {
            assert(self.keys().contains(self.keys()[i]));
        }
        assert(self@.dom() =~= self.keys().to_set());
    }

    /// What the view holds, read from the sorted entries.
    pub proof fn lemma_view(self)
        requires
            self.wf(),
        ensures
            self.keys().len() == self.vals().len(),
            self.keys().no_duplicates(),
            forall|i: int|
                0 <= i < self.keys().len() ==> #[trigger] self@.contains_key(self.keys()[i])
                    && self@[self.keys()[i]] == self.vals()[i],
            forall|k: K::V| #[trigger] self@.contains_key(k) <==> self.keys().contains(k),
            self@.dom() == self.keys().to_set(),
            self@.dom().finite(),
            self@.dom().len() == self.keys().len(),
    {
        lemma_sorted_no_duplicates::<K>(self.keys());
        assert forall|i: int| 0 <= i < self.keys().len() implies #[trigger] self@.contains_key(
            self.keys()[i],
        ) && self@[self.keys()[i]] == self.vals()[i] by {
            let k = self.keys()[i];
            assert(self.keys().contains(k));
            let j = self.keys().index_of(k);
            lemma_sorted_unique::<K>(self.keys(), i, j);
        }
        assert(self@.dom() =~= self.keys().to_set());
        self.keys().unique_seq_to_set();
    }

    /// The empty map.
    pub fn new() -> (m: Self)
        ensures
            m.wf(),
            m@ == Map::<K::V, V::V>::empty(),
            m.keys().len() == 0,
    {
        let m = OrdMap { items: Vec::new() };
        assert(m@ =~= Map::<K::V, V::V>::empty());
        m
    }

    /// Number of entries.
    pub fn len(&self) -> (r: usize)
        ensures
            r == self.keys().len(),
    {
        self.items.len()
    }

    /// The key stored at position `i`.
    pub fn key_at(&self, i: usize) -> (r: &K)
        requires
            i < self.keys().len(),
        ensures
            r@ == self.keys()[i as int],
    {
        &self.items[i].0
    }

    /// The value stored at position `i`.
    pub fn value_at(&self, i: usize) -> (r: &V)
        requires
            i < self.keys().len(),
        ensures
            r@ == self.vals()[i as int],
    {
        &self.items[i].1
    }

    /// Position of `k`, if present.
    pub fn find(&self, k: &K) -> (r: Option<usize>)
        ensures
            match r {
                Some(i) => i < self.keys().len() && self.keys()[i as int] == k@,
                None => !self@.contains_key(k@),
            },
    {
        let mut i: usize = 0;
        while i < self.items.len()
            invariant
                i <= self.keys().len(),
                forall|j: int| 0 <= j < i ==> self.keys()[j] != k@,
            decreases self.keys().len() - i,
        {
            match self.items[i].0.compare(k) {
                Order::Equal => {
                    return Some(i);
                },
                _ => {},
            }
            i = i + 1;
        }
        None
    }

    /// The value stored under `k`, if any.
    pub fn get(&self, k: &K) -> (r: Option<&V>)
        requires
            self.wf(),
        ensures
            match r {
                Some(v) => self@.contains_key(k@) && self@[k@] == v@,
                None => !self@.contains_key(k@),
            },
    {
        proof {
            self.lemma_view();
        }
        match self.find(k) {
            Some(i) => Some(&self.items[i].1),
            None => None,
        }
    }

    /// A well-formed map whose entries all appear in `m`, with `m` holding no
    /// other key, has `m` as its view.
    pub proof fn lemma_view_equals(self, m: Map<K::V, V::V>)
        requires
            self.wf(),
            forall|i: int|
                0 <= i < self.keys().len() ==> #[trigger] m.contains_key(self.keys()[i])
                    && m[self.keys()[i]] == self.vals()[i],
            forall|k: K::V| #[trigger] m.contains_key(k) ==> self.keys().contains(k),
        ensures
            self@ == m,
    {
        self.lemma_view();
        assert forall|k: K::V| #[trigger] self@.contains_key(k) == m.contains_key(k) by {
            if self.keys().contains(k) {
                let j = choose|j: int| 0 <= j < self.keys().len() && self.keys()[j] == k;
                assert(m.contains_key(self.keys()[j]));
            }
        }
        assert forall|k: K::V| #[trigger] self@.contains_key(k) implies self@[k] == m[k] by {
            let j = choose|j: int| 0 <= j < self.keys().len() && self.keys()[j] == k;
            assert(m.contains_key(self.keys()[j]));
        }
        assert(self@ =~= m);
    }

    /// Stores `v` under `k`, replacing any previous value.
    pub fn insert(&mut self, k: K, v: V)
        requires
            old(self).wf(),
        ensures
            final(self).wf(),
            final(self)@ == old(self)@.insert(k@, v@),
    {
        proof {
            old(self).lemma_view();
        }
        let ghost k_view = k@;
        let ghost v_view = v@;
        let ghost old_keys = self.keys();
        let ghost old_vals = self.vals();
        let ghost target = old(self)@.insert(k_view, v_view);
        let mut i: usize = 0;
        while i < self.items.len()
            invariant
                self.keys() == old_keys,
                self.vals() == old_vals,
                old(self).keys() == old_keys,
                old(self).vals() == old_vals,
                target == old(self)@.insert(k_view, v_view),
                strictly_sorted::<K>(old_keys),
                i <= old_keys.len(),
                forall|j: int| 0 <= j < i ==> K::precedes(#[trigger] old_keys[j], k_view),
                k@ == k_view,
                v@ == v_view,
                self@ == old(self)@,
            decreases old_keys.len() - i,
        {
            match self.items[i].0.compare(&k) {
                Order::Less => {},
                Order::Equal => {
                    self.items.set(i, (k, v));
                    proof {
                        assert(self.keys() =~= old_keys);
                        assert(self.vals() =~= old_vals.update(i as int, v_view));
                        old(self).lemma_view();
                        assert forall|j: int| 0 <= j < self.keys().len() implies #[trigger] target.contains_key(self.keys()[j])
                            && target[self.keys()[j]] == self.vals()[j] by {
                            if j != i {
                                if old_keys[j] == k_view {
                                    lemma_sorted_unique::<K>(old_keys, j, i as int);
                                }
                            }
                        }
                        assert forall|kk: K::V| #[trigger] target.contains_key(kk) implies self.keys().contains(kk) by {
                            if kk != k_view {
                                assert(old(self)@.contains_key(kk));
                                assert(old_keys.contains(kk));
                            } else {
                                assert(self.keys()[i as int] == kk);
                            }
                        }
                        self.lemma_view_equals(target);
                    }
                    return;
                },
                Order::Greater => {
                    proof {
                        assert forall|l: int| i <= l < old_keys.len() implies K::precedes(k_view, #[trigger] old_keys[l]) by {
                            if l > i {
                                K::lemma_transitive(k_view, old_keys[i as int], old_keys[l]);
                            }
                        }
                    }
                    self.items.insert(i, (k, v));
                    proof {
                        assert(self.keys() =~= old_keys.insert(i as int, k_view));
                        assert(self.vals() =~= old_vals.insert(i as int, v_view));
                        old(self).lemma_view();
                        K::lemma_irreflexive(k_view);
                        assert forall|a: int, b: int|
                            0 <= a < b < self.keys().len() implies K::precedes(
                            #[trigger] self.keys()[a],
                            #[trigger] self.keys()[b],
                        ) by {
                            if a < i && b > i {
                                assert(K::precedes(k_view, old_keys[b - 1]));
                                K::lemma_transitive(old_keys[a], k_view, old_keys[b - 1]);
                            } else if a > i {
                                assert(old_keys[a - 1] == self.keys()[a]);
                                assert(old_keys[b - 1] == self.keys()[b]);
                            }
                        }
                        assert forall|j: int| 0 <= j < self.keys().len() implies #[trigger] target.contains_key(self.keys()[j])
                            && target[self.keys()[j]] == self.vals()[j] by {
                            if j < i {
                                assert(K::precedes(old_keys[j], k_view));
                                assert(self.keys()[j] == old_keys[j]);
                            } else if j > i {
                                assert(K::precedes(k_view, old_keys[j - 1]));
                                assert(self.keys()[j] == old_keys[j - 1]);
                            }
                        }
                        assert forall|kk: K::V| #[trigger] target.contains_key(kk) implies self.keys().contains(kk) by {
                            if kk != k_view {
                                let j = choose|j: int| 0 <= j < old_keys.len() && old_keys[j] == kk;
                                if j < i {
                                    assert(self.keys()[j] == kk);
                                } else {
                                    assert(self.keys()[j + 1] == kk);
                                }
                            } else {
                                assert(self.keys()[i as int] == kk);
                            }
                        }
                        self.lemma_view_equals(target);
                    }
                    return;
                },
            }
            i = i + 1;
        }
        self.items.push((k, v));
        proof {
            assert(self.keys() =~= old_keys.push(k_view));
            assert(self.vals() =~= old_vals.push(v_view));
            K::lemma_irreflexive(k_view);
            assert forall|j: int| 0 <= j < self.keys().len() implies #[trigger] target.contains_key(self.keys()[j])
                && target[self.keys()[j]] == self.vals()[j] by {
                if j < old_keys.len() {
                    assert(K::precedes(old_keys[j], k_view));
                    assert(self.keys()[j] == old_keys[j]);
                }
            }
            assert forall|kk: K::V| #[trigger] target.contains_key(kk) implies self.keys().contains(kk) by {
                if kk != k_view {
                    let j = choose|j: int| 0 <= j < old_keys.len() && old_keys[j] == kk;
                    assert(self.keys()[j] == kk);
                } else {
                    assert(self.keys()[old_keys.len() as int] == kk);
                }
            }
            self.lemma_view_equals(target);
        }
    }

    /// Removes the entry under `k`, returning its value.
    pub fn remove(&mut self, k: &K) -> (r: Option<V>)
        requires
            old(self).wf(),
        ensures
            final(self).wf(),
            final(self)@ == old(self)@.remove(k@),
            match r {
                Some(v) => old(self)@.contains_key(k@) && old(self)@[k@] == v@,
                None => !old(self)@.contains_key(k@),
            },
    {
        proof {
            old(self).lemma_view();
        }
        match self.find(k) {
            None => {
                proof {
                    assert(self@ =~= old(self)@.remove(k@));
                }
                None
            },
            Some(i) => {
                let ghost old_keys = self.keys();
                let ghost old_vals = self.vals();
                let (_, v) = self.items.remove(i);
                proof {
                    assert(self.keys() =~= old_keys.remove(i as int));
                    assert(self.vals() =~= old_vals.remove(i as int));
                    assert forall|a: int, b: int|
                        0 <= a < b < self.keys().len() implies K::precedes(
                        #[trigger] self.keys()[a],
                        #[trigger] self.keys()[b],
                    ) by {
                        if a < i && b >= i {
                            assert(old_keys[b + 1] == self.keys()[b]);
                        } else if a >= i {
                            assert(old_keys[a + 1] == self.keys()[a]);
                            assert(old_keys[b + 1] == self.keys()[b]);
                        }
                    }
                    self.lemma_view();
                    assert forall|kk: K::V| #[trigger] self@.contains_key(kk)
                        == old(self)@.remove(k@).contains_key(kk) by {
                        if self.keys().contains(kk) {
                            let j = choose|j: int| 0 <= j < self.keys().len() && self.keys()[j] == kk;
                            if j < i {
                                assert(old_keys[j] == kk);
                                if kk == k@ {
                                    lemma_sorted_unique::<K>(old_keys, j, i as int);
                                }
                            } else {
                                assert(old_keys[j + 1] == kk);
                                if kk == k@ {
                                    lemma_sorted_unique::<K>(old_keys, j + 1, i as int);
                                }
                            }
                        }
                        if old_keys.contains(kk) && kk != k@ {
                            let j = choose|j: int| 0 <= j < old_keys.len() && old_keys[j] == kk;
                            if j < i {
                                assert(self.keys()[j] == kk);
                            } else {
                                assert(j != i);
                                assert(self.keys()[j - 1] == kk);
                            }
                        }
                    }
                    assert forall|kk: K::V| #[trigger] self@.contains_key(kk)
                        implies self@[kk] == old(self)@.remove(k@)[kk] by {
                        let j = choose|j: int| 0 <= j < self.keys().len() && self.keys()[j] == kk;
                        if j < i {
                            assert(old_keys[j] == kk);
                        } else {
                            assert(old_keys[j + 1] == kk);
                        }
                    }
                    assert(self@ =~= old(self)@.remove(k@));
                }
                Some(v)
            },
        }
    }
}

impl<K: TotalOrder, V: View> View for OrdMap<K, V> {
    type V = Map<K::V, V::V>;

    closed spec fn view(&self) -> Map<K::V, V::V> {
        Map::new(
            |k: K::V| self.keys().contains(k),
            |k: K::V| self.vals()[self.keys().index_of(k)],
        )
    }
}

impl<K: TotalOrder, V: TotalOrder> OrdMap<K, V> {
    /// Do the two maps store the same keys and values in the same order?
    pub fn same_entries(&self, other: &Self) -> (r: bool)
        ensures
            r == (self.keys() == other.keys() && self.vals() == other.vals()),
    {
        if self.len() != other.len() {
            proof {
                self.lemma_lengths();
                other.lemma_lengths();
            }
            return false;
        }
        proof {
            self.lemma_lengths();
            other.lemma_lengths();
        }
        let mut i: usize = 0;
        while i < self.len()
            invariant
                self.keys().len() == other.keys().len(),
                self.keys().len() == self.vals().len(),
                other.keys().len() == other.vals().len(),
                i <= self.keys().len(),
                forall|j: int| 0 <= j < i ==> self.keys()[j] == other.keys()[j] && self.vals()[j] == other.vals()[j],
            decreases self.keys().len() - i,
        {
            let same_key = match self.key_at(i).compare(other.key_at(i)) {
                Order::Equal => true,
                _ => false,
            };
            let same_value = match self.value_at(i).compare(other.value_at(i)) {
                Order::Equal => true,
                _ => false,
            };
            if !same_key || !same_value {
                return false;
            }
            i = i + 1;
        }
        assert(self.keys() =~= other.keys());
        assert(self.vals() =~= other.vals());
        true
    }
}

/// Ordered set of `K`, kept as a sorted vector.
#[derive(Clone, PartialEq, Eq, Debug)]
pub struct OrdSet<K> {
    map: OrdMap<K, bool>,
}

impl<K: TotalOrder> OrdSet<K> {
    /// Views of the elements, in ascending order.
    pub closed spec fn elems(self) -> Seq<K::V> {
        self.map.keys()
    }

    pub closed spec fn wf(self) -> bool {
        self.map.wf()
    }

    /// What the view holds, read from the sorted elements.
    pub proof fn lemma_view(self)
        requires
            self.wf(),
        ensures
            strictly_sorted::<K>(self.elems()),
            self.elems().no_duplicates(),
            forall|k: K::V| #[trigger] self@.contains(k) <==> self.elems().contains(k),
            forall|i: int| 0 <= i < self.elems().len() ==> #[trigger] self@.contains(self.elems()[i]),
            self@ == self.elems().to_set(),
            self@.finite(),
            self@.len() == self.elems().len(),
    {
        self.map.lemma_view();
    }

    /// The members are those stored, well-formed or not.
    pub proof fn lemma_members(self)
        ensures
            forall|k: K::V| #[trigger] self@.contains(k) <==> self.elems().contains(k),
            forall|i: int| 0 <= i < self.elems().len() ==> #[trigger] self@.contains(self.elems()[i]),
            self@ == self.elems().to_set(),
            self@.finite(),
    {
        self.map.lemma_dom();
    }

    /// The empty set.
    pub fn new() -> (s: Self)
        ensures
            s.wf(),
            s@ == Set::<K::V>::empty(),
    {
        let s = OrdSet { map: OrdMap::new() };
        assert(s@ =~= Set::<K::V>::empty());
        s
    }

    /// Number of elements.
    pub fn len(&self) -> (r: usize)
        ensures
            r == self.elems().len(),
    {
        self.map.len()
    }

    /// Is the set empty?
    pub fn is_empty(&self) -> (r: bool)
        ensures
            r == (self@ == Set::<K::V>::empty()),
    {
        proof {
            self.lemma_members();
        }
        let r = self.map.len() == 0;
        if !r {
            proof {
                assert(self@.contains(self.elems()[0]));
            }
        } else {
            assert(self@ =~= Set::<K::V>::empty());
        }
        r
    }

    /// The `i`-th smallest element.
    pub fn elem_at(&self, i: usize) -> (r: &K)
        requires
            i < self.elems().len(),
        ensures
            r@ == self.elems()[i as int],
    {
        self.map.key_at(i)
    }

    /// Two well-formed sets with the same members store them in the same
    /// order.
    pub proof fn lemma_canonical(a: Self, b: Self)
        requires
            a.wf(),
            b.wf(),
            a@ == b@,
        ensures
            a.elems() == b.elems(),
    {
        a.lemma_view();
        b.lemma_view();
        assert forall|x: K::V| a.elems().contains(x) <==> b.elems().contains(x) by {
            a.lemma_members();
            b.lemma_members();
            assert(a@.contains(x) <==> a.elems().contains(x));
            assert(b@.contains(x) <==> b.elems().contains(x));
        }
        lemma_sorted_eq::<K>(a.elems(), b.elems());
    }

    /// Do the two sets store the same elements in the same order?
    pub fn same_elems(&self, other: &Self) -> (r: bool)
        ensures
            r == (self.elems() == other.elems()),
    {
        if self.len() != other.len() {
            return false;
        }
        let mut i: usize = 0;
        while i < self.len()
            invariant
                self.elems().len() == other.elems().len(),
                i <= self.elems().len(),
                forall|j: int| 0 <= j < i ==> self.elems()[j] == other.elems()[j],
            decreases self.elems().len() - i,
        {
            match self.elem_at(i).compare(other.elem_at(i)) {
                Order::Equal => {},
                _ => {
                    return false;
                },
            }
            i = i + 1;
        }
        assert(self.elems() =~= other.elems());
        true
    }

    /// Do the two sets have the same members (well-formed or not)?
    pub fn same_members(&self, other: &Self) -> (r: bool)
        ensures
            r == (self@ == other@),
    {
        proof {
            self.lemma_members();
            other.lemma_members();
        }
        let mut i: usize = 0;
        while i < self.len()
            invariant
                i <= self.elems().len(),
                forall|j: int| 0 <= j < i ==> other@.contains(#[trigger] self.elems()[j]),
                forall|k: K::V| #[trigger] self@.contains(k) <==> self.elems().contains(k),
            decreases self.elems().len() - i,
        {
            if !other.contains(self.elem_at(i)) {
                assert(self@.contains(self.elems()[i as int]));
                return false;
            }
            i = i + 1;
        }
        let mut j: usize = 0;
        while j < other.len()
            invariant
                j <= other.elems().len(),
                forall|q: int| 0 <= q < j ==> self@.contains(#[trigger] other.elems()[q]),
                forall|k: K::V| #[trigger] other@.contains(k) <==> other.elems().contains(k),
            decreases other.elems().len() - j,
        {
            if !self.contains(other.elem_at(j)) {
                assert(other@.contains(other.elems()[j as int]));
                return false;
            }
            j = j + 1;
        }
        assert(self@ =~= other@) by {
            assert forall|k: K::V| self@.contains(k) implies other@.contains(k) by {
                let q = choose|q: int| 0 <= q < self.elems().len() && self.elems()[q] == k;
            }
            assert forall|k: K::V| other@.contains(k) implies self@.contains(k) by {
                let q = choose|q: int| 0 <= q < other.elems().len() && other.elems()[q] == k;
            }
        }
        true
    }

    /// Membership.
    pub fn contains(&self, k: &K) -> (r: bool)
        ensures
            r == self@.contains(k@),
    {
        proof {
            self.map.lemma_dom();
        }
        self.map.find(k).is_some()
    }

    /// Adds `k`.
    pub fn insert(&mut self, k: K)
        requires
            old(self).wf(),
        ensures
            final(self).wf(),
            final(self)@ == old(self)@.insert(k@),
    {
        let ghost kv = k@;
        self.map.insert(k, true);
        assert(self@ =~= old(self)@.insert(kv));
    }

    /// Removes `k`; tells whether it was present.
    pub fn remove(&mut self, k: &K) -> (r: bool)
        requires
            old(self).wf(),
        ensures
            final(self).wf(),
            final(self)@ == old(self)@.remove(k@),
            r == old(self)@.contains(k@),
    {
        let r = self.map.remove(k).is_some();
        assert(self@ =~= old(self)@.remove(k@));
        r
    }

    /// A copy with the same view.
    pub fn duplicate(&self) -> (r: Self)
        ensures
            r.wf(),
            r@ == self@,
    {
        let mut r = OrdSet::new();
        let mut i: usize = 0;
        while i < self.len()
            invariant
                r.wf(),
                i <= self.elems().len(),
                r@ == self.elems().take(i as int).to_set(),
            decreases self.elems().len() - i,
        {
            r.insert(self.elem_at(i).duplicate());
            proof {
                assert(self.elems().take(i + 1) =~= self.elems().take(i as int).push(self.elems()[i as int]));
                self.elems().take(i as int).lemma_push_to_set_commute(self.elems()[i as int]);
            }
            i = i + 1;
        }
        proof {
            assert(self.elems().take(i as int) =~= self.elems());
            self.lemma_members();
        }
        r
    }
}

impl<K: TotalOrder> View for OrdSet<K> {
    type V = Set<K::V>;

    closed spec fn view(&self) -> Set<K::V> {
        self.map@.dom()
    }
}

} // verus!
