//! Optimised **add-wins** OR-Set (delta-state): tracks the membership of
//! elements (for instance which entries exist in the vault).
//!
//! Each add creates a fresh [`Dot`] attached to the element; a remove drops the
//! element's observed dots (they stay in the causal context, so that a
//! re-delivery of the add does not "resurrect" the element). The join
//! (DotKernel) keeps a dot `d` of element `e` iff
//! `(d ∈ dots_self(e) ∨ d ∉ ctx_self) ∧ (d ∈ dots_other(e) ∨ d ∉ ctx_other)`.
//! Hence a **concurrent add wins** over a remove (add-wins), and the join is
//! idempotent, commutative and associative.

use super::dot::{fresh_dot, is_next_counter, Dot, DotContext};
use super::DeviceId;
use crate::order::{Order, TotalOrder};
use crate::sorted::{strictly_sorted, OrdMap, OrdSet};
use vstd::prelude::*;
use vstd::std_specs::cmp::PartialEqSpecImpl;

verus! {

/// Views of a sequence of values.
pub open spec fn views_of<E: View>(s: Seq<E>) -> Seq<E::V> {
    s.map_values(|x: E| x@)
}

/// Dots attached to `e` (empty when `e` is absent).
pub open spec fn dots_of<K>(m: Map<K, Set<Dot>>, e: K) -> Set<Dot> {
    if m.contains_key(e) {
        m[e]
    } else {
        Set::empty()
    }
}

/// Does the join keep dot `d`, given the dots `sd`/`od` of one element on
/// each side and the causal contexts `sc`/`oc`?
pub open spec fn kept_dot(sd: Set<Dot>, sc: Set<Dot>, od: Set<Dot>, oc: Set<Dot>, d: Dot) -> bool {
    &&& sd.contains(d) || od.contains(d)
    &&& sd.contains(d) || !sc.contains(d)
    &&& od.contains(d) || !oc.contains(d)
}

/// The dots of one element after the join.
pub open spec fn join_dots(sd: Set<Dot>, sc: Set<Dot>, od: Set<Dot>, oc: Set<Dot>) -> Set<Dot> {
    Set::new(|d: Dot| kept_dot(sd, sc, od, oc, d))
}

/// The entries after the join: elements whose joined dots are not empty.
pub open spec fn join_entries<K>(
    a: Map<K, Set<Dot>>,
    ac: Set<Dot>,
    b: Map<K, Set<Dot>>,
    bc: Set<Dot>,
) -> Map<K, Set<Dot>> {
    Map::new(
        |e: K|
            (a.contains_key(e) || b.contains_key(e)) && join_dots(dots_of(a, e), ac, dots_of(b, e), bc)
                != Set::<Dot>::empty(),
        |e: K| join_dots(dots_of(a, e), ac, dots_of(b, e), bc),
    )
}

/// Join of two add-wins states `(entries, context)`.
pub open spec fn aw_join<K>(a: (Map<K, Set<Dot>>, Set<Dot>), b: (Map<K, Set<Dot>>, Set<Dot>)) -> (
    Map<K, Set<Dot>>,
    Set<Dot>,
) {
    (join_entries(a.0, a.1, b.0, b.1), a.1.union(b.1))
}

/// The empty state.
pub open spec fn aw_empty<K>() -> (Map<K, Set<Dot>>, Set<Dot>) {
    (Map::empty(), Set::empty())
}

/// Every present element has dots, all of them observed in the context.
pub open spec fn aw_valid<K>(a: (Map<K, Set<Dot>>, Set<Dot>)) -> bool {
    forall|e: K| #[trigger]
        a.0.contains_key(e) ==> a.0[e] != Set::<Dot>::empty() && a.0[e].subset_of(a.1)
}

/// No dot is attached to two elements.
pub open spec fn aw_disjoint<K>(a: (Map<K, Set<Dot>>, Set<Dot>)) -> bool {
    forall|e1: K, e2: K, d: Dot|
        e1 != e2 && #[trigger] dots_of(a.0, e1).contains(d) ==> !#[trigger] dots_of(a.0, e2).contains(d)
}

/// State after adding `e` with the fresh dot `dot`.
pub open spec fn aw_added<K>(s: (Map<K, Set<Dot>>, Set<Dot>), e: K, dot: Dot) -> (
    Map<K, Set<Dot>>,
    Set<Dot>,
) {
    (s.0.insert(e, set![dot]), s.1.insert(dot))
}

/// Delta of adding `e` with the fresh dot `dot`: the new dot, with the dots
/// it supersedes in its context.
pub open spec fn aw_add_delta<K>(s: (Map<K, Set<Dot>>, Set<Dot>), e: K, dot: Dot) -> (
    Map<K, Set<Dot>>,
    Set<Dot>,
) {
    (Map::empty().insert(e, set![dot]), dots_of(s.0, e).insert(dot))
}

/// State after removing `e`.
pub open spec fn aw_removed<K>(s: (Map<K, Set<Dot>>, Set<Dot>), e: K) -> (
    Map<K, Set<Dot>>,
    Set<Dot>,
) {
    (s.0.remove(e), s.1)
}

/// Delta of removing `e`: no entry, the removed dots as context.
pub open spec fn aw_remove_delta<K>(s: (Map<K, Set<Dot>>, Set<Dot>), e: K) -> (
    Map<K, Set<Dot>>,
    Set<Dot>,
) {
    (Map::empty(), dots_of(s.0, e))
}

/// Add-wins set of elements `E`, replicable without coordination.
#[derive(Clone, Debug)]
pub struct AddWinsSet<E> {
    /// Present elements → dots of their still-active adds (never empty).
    entries: OrdMap<E, OrdSet<Dot>>,
    /// Causal context (all the dots observed).
    ctx: DotContext,
}

impl<E: TotalOrder> View for AddWinsSet<E> {
    type V = (Map<E::V, Set<Dot>>, Set<Dot>);

    closed spec fn view(&self) -> (Map<E::V, Set<Dot>>, Set<Dot>) {
        (self.entries@, self.ctx@)
    }
}

/// Joined dots of one element, computed from both sides.
fn join_dot_sets(sd: &OrdSet<Dot>, sc: &DotContext, od: &OrdSet<Dot>, oc: &DotContext) -> (r: OrdSet<Dot>)
    requires
        sc.wf(),
        oc.wf(),
        sd@.subset_of(sc@),
        od@.subset_of(oc@),
    ensures
        r.wf(),
        r@ == join_dots(sd@, sc@, od@, oc@),
{
    let ghost keep = |d: Dot| kept_dot(sd@, sc@, od@, oc@, d);
    let mut r: OrdSet<Dot> = OrdSet::new();
    let mut i: usize = 0;
    proof {
        sd.lemma_members();
        od.lemma_members();
        assert(r@ =~= sd.elems().take(0).to_set().filter(keep));
    }
    while i < sd.len()
        invariant
            r.wf(),
            sc.wf(),
            oc.wf(),
            sd@.subset_of(sc@),
            od@.subset_of(oc@),
            i <= sd.elems().len(),
            keep == (|d: Dot| kept_dot(sd@, sc@, od@, oc@, d)),
            r@ == sd.elems().take(i as int).to_set().filter(keep),
        decreases sd.elems().len() - i,
    {
        proof {
            sd.lemma_members();
        }
        let d = *sd.elem_at(i);
        let keep_self = true;
        let keep_other = od.contains(&d) || !oc.contains(&d);
        proof {
            assert(sc@.contains(d));
            assert(d.counter >= 1);
            assert(keep_other == (od@.contains(d) || !oc@.contains(d)));
        }
        let ghost before = r@;
        if keep_self && keep_other {
            r.insert(d);
        }
        proof {
            sd.elems().take(i as int).lemma_push_to_set_commute(d);
            assert(sd.elems().take(i + 1) =~= sd.elems().take(i as int).push(d));
            assert(r@ =~= sd.elems().take(i + 1).to_set().filter(keep));
        }
        i = i + 1;
    }
    proof {
        sd.lemma_members();
        assert(sd.elems().take(i as int) =~= sd.elems());
        assert(r@ =~= sd@.filter(keep).union(od.elems().take(0).to_set().filter(keep)));
    }
    let mut j: usize = 0;
    while j < od.len()
        invariant
            r.wf(),
            sc.wf(),
            oc.wf(),
            sd@.subset_of(sc@),
            od@.subset_of(oc@),
            j <= od.elems().len(),
            keep == (|d: Dot| kept_dot(sd@, sc@, od@, oc@, d)),
            r@ == sd@.filter(keep).union(od.elems().take(j as int).to_set().filter(keep)),
        decreases od.elems().len() - j,
    {
        proof {
            od.lemma_members();
        }
        let d = *od.elem_at(j);
        let keep_self = sd.contains(&d) || !sc.contains(&d);
        let keep_other = true;
        proof {
            assert(oc@.contains(d));
            assert(d.counter >= 1);
            assert(keep_self == (sd@.contains(d) || !sc@.contains(d)));
        }
        if keep_self && keep_other {
            r.insert(d);
        }
        proof {
            od.elems().take(j as int).lemma_push_to_set_commute(d);
            assert(od.elems().take(j + 1) =~= od.elems().take(j as int).push(d));
            assert(r@ =~= sd@.filter(keep).union(od.elems().take(j + 1).to_set().filter(keep)));
        }
        j = j + 1;
    }
    proof {
        od.lemma_members();
        assert(od.elems().take(j as int) =~= od.elems());
        assert(r@ =~= join_dots(sd@, sc@, od@, oc@));
    }
    r
}

impl<E: TotalOrder> AddWinsSet<E> {
    /// Well-formedness: sorted storage, well-formed context, valid state.
    pub closed spec fn wf(self) -> bool {
        &&& self.entries.wf()
        &&& self.ctx.wf()
        &&& aw_valid(self@)
        &&& aw_disjoint(self@)
    }

    /// A well-formed set has a valid state in which no dot is shared by two
    /// elements, to which the laws below apply.
    pub proof fn lemma_wf_valid(self)
        requires
            self.wf(),
        ensures
            aw_valid(self@),
            aw_disjoint(self@),
    {
    }

    /// The empty set.
    pub fn new() -> (s: Self)
        ensures
            s.wf(),
            s@ == aw_empty::<E::V>(),
    {
        let s = AddWinsSet { entries: OrdMap::new(), ctx: DotContext::new() };
        assert(s@ == aw_empty::<E::V>());
        s
    }

    /// The two sets store the same elements with the same dots, in the same
    /// order, and the same context.
    pub closed spec fn same_repr(self, other: Self) -> bool {
        &&& self.entries.keys() == other.entries.keys()
        &&& self.entries.vals() == other.entries.vals()
        &&& self.ctx.same_repr(other.ctx)
    }

    /// `==` on well-formed sets is equality of their states: the stored form
    /// is canonical.
    pub proof fn lemma_eq_iff_view(a: Self, b: Self)
        requires
            a.wf(),
            b.wf(),
        ensures
            a.same_repr(b) <==> a@ == b@,
    {
        DotContext::lemma_eq_iff_view(a.ctx, b.ctx);
        if a@ == b@ {
            OrdMap::lemma_canonical(a.entries, b.entries);
        }
        if a.same_repr(b) {
            OrdMap::lemma_same_entries(a.entries, b.entries);
        }
    }

    /// Do the two sets store the same elements with the same dots, in the
    /// same order, and the same context?
    fn same_state(&self, other: &Self) -> (r: bool)
        ensures
            r == self.same_repr(*other),
    {
        proof {
            self.entries.lemma_lengths();
            other.entries.lemma_lengths();
        }
        if self.entries.len() != other.entries.len() {
            return false;
        }
        let mut i: usize = 0;
        while i < self.entries.len()
            invariant
                self.entries.keys().len() == other.entries.keys().len(),
                self.entries.keys().len() == self.entries.vals().len(),
                other.entries.keys().len() == other.entries.vals().len(),
                i <= self.entries.keys().len(),
                forall|j: int| 0 <= j < i ==> #[trigger] self.entries.keys()[j] == other.entries.keys()[j],
                forall|j: int| 0 <= j < i ==> #[trigger] self.entries.vals()[j] == other.entries.vals()[j],
            decreases self.entries.keys().len() - i,
        {
            let ka = self.entries.key_at(i);
            let kb = other.entries.key_at(i);
            let same_key = match ka.compare(kb) {
                Order::Equal => true,
                _ => false,
            };
            if !same_key {
                return false;
            }
            let va = self.entries.value_at(i);
            let vb = other.entries.value_at(i);
            if !va.same_members(vb) {
                return false;
            }
            assert(self.entries.keys()[i as int] == other.entries.keys()[i as int]);
            assert(self.entries.vals()[i as int] == other.entries.vals()[i as int]);
            i = i + 1;
        }
        assert(self.entries.keys() =~= other.entries.keys());
        assert(self.entries.vals() =~= other.entries.vals());
        self.ctx == other.ctx
    }

    /// A copy with the same state.
    pub fn duplicate(&self) -> (r: Self)
        requires
            self.wf(),
        ensures
            r.wf(),
            r@ == self@,
    {
        let mut r = AddWinsSet::new();
        r.merge(self);
        proof {
            lemma_aw_empty_neutral(self@);
        }
        r
    }

    /// Is the element present?
    pub fn contains(&self, e: &E) -> (r: bool)
        ensures
            r == self@.0.contains_key(e@),
    {
        proof {
            self.entries.lemma_dom();
        }
        self.entries.find(e).is_some()
    }

    /// The present elements, in ascending order.
    pub fn elements(&self) -> (r: Vec<E>)
        requires
            self.wf(),
        ensures
            strictly_sorted::<E>(views_of(r@)),
            views_of(r@).to_set() == self@.0.dom(),
    {
        let mut r: Vec<E> = Vec::new();
        let mut i: usize = 0;
        while i < self.entries.len()
            invariant
                self.wf(),
                i <= self.entries.keys().len(),
                views_of(r@) == self.entries.keys().take(i as int),
            decreases self.entries.keys().len() - i,
        {
            let ghost prev = r@;
            let x = self.entries.key_at(i).duplicate();
            r.push(x);
            proof {
                assert(r@ == prev.push(x));
                assert(views_of(r@) =~= views_of(prev).push(x@));
                assert(views_of(r@) =~= self.entries.keys().take(i + 1));
            }
            i = i + 1;
        }
        proof {
            assert(self.entries.keys().take(i as int) =~= self.entries.keys());
            self.entries.lemma_dom();
        }
        r
    }

    /// Number of present elements.
    pub fn len(&self) -> (r: usize)
        requires
            self.wf(),
        ensures
            r == self@.0.dom().len(),
    {
        proof {
            self.entries.lemma_view();
        }
        self.entries.len()
    }

    /// Is the set empty?
    pub fn is_empty(&self) -> (r: bool)
        requires
            self.wf(),
        ensures
            r == (self@.0.dom() == Set::<E::V>::empty()),
    {
        proof {
            self.entries.lemma_view();
        }
        let r = self.entries.len() == 0;
        if !r {
            proof {
                assert(self@.0.dom().contains(self.entries.keys()[0]));
            }
        } else {
            assert(self@.0.dom() =~= Set::<E::V>::empty());
        }
        r
    }

    /// Causal context (for version vectors / synchronisation).
    pub fn context(&self) -> (r: &DotContext)
        requires
            self.wf(),
        ensures
            r.wf(),
            r@ == self@.1,
    {
        &self.ctx
    }

    /// Adds (or marks present again) `e` with a fresh dot of `device`.
    /// Returns the **delta** to propagate. The delta carries, in its context,
    /// the dots it supersedes, so that merging it reproduces the new state.
    pub fn add(&mut self, e: E, device: DeviceId) -> (delta: Self)
        requires
            old(self).wf(),
            forall|c: u64| #[trigger]
                old(self)@.1.contains(Dot { device, counter: c }) ==> c < u64::MAX - 1,
        ensures
            final(self).wf(),
            delta.wf(),
            final(self)@ == aw_added(old(self)@, e@, fresh_dot(old(self)@.1, device)),
            delta@ == aw_add_delta(old(self)@, e@, fresh_dot(old(self)@.1, device)),
            aw_join(old(self)@, delta@) == final(self)@,
            fresh_dot(old(self)@.1, device).device == device,
            !old(self)@.1.contains(fresh_dot(old(self)@.1, device)),
            is_next_counter(old(self)@.1, device, fresh_dot(old(self)@.1, device).counter),
    {
        let ghost ev = e@;
        proof {
            assert(self.ctx@ == old(self)@.1);
        }
        let dot = self.ctx.next_dot(device);
        proof {
            self.ctx.lemma_counters_bounded();
            assert(self.ctx@.contains(dot));
        }
        let superseded: OrdSet<Dot> = match self.entries.get(&e) {
            Some(s) => s.duplicate(),
            None => OrdSet::new(),
        };
        proof {
            assert(superseded@ == dots_of(old(self)@.0, ev));
            old(self).ctx.lemma_counters_bounded();
        }
        let mut dots: OrdSet<Dot> = OrdSet::new();
        dots.insert(dot);
        let delta_dots = dots.duplicate();
        let delta_key = e.duplicate();
        self.entries.insert(e, dots);
        let mut delta_ctx = DotContext::new();
        delta_ctx.insert(dot);
        let mut i: usize = 0;
        proof {
            superseded.lemma_members();
            assert(delta_ctx@ =~= superseded.elems().take(0).to_set().insert(dot));
        }
        while i < superseded.len()
            invariant
                delta_ctx.wf(),
                i <= superseded.elems().len(),
                superseded@ == dots_of(old(self)@.0, ev),
                superseded@.subset_of(old(self)@.1),
                forall|d: Dot| #[trigger] old(self)@.1.contains(d) ==> 1 <= d.counter < u64::MAX,
                delta_ctx@ == superseded.elems().take(i as int).to_set().insert(dot),
            decreases superseded.elems().len() - i,
        {
            proof {
                superseded.lemma_members();
            }
            let d = *superseded.elem_at(i);
            proof {
                assert(old(self)@.1.contains(d));
            }
            delta_ctx.insert(d);
            proof {
                superseded.elems().take(i as int).lemma_push_to_set_commute(d);
                assert(superseded.elems().take(i + 1) =~= superseded.elems().take(i as int).push(d));
                assert(delta_ctx@ =~= superseded.elems().take(i + 1).to_set().insert(dot));
            }
            i = i + 1;
        }
        let mut delta_entries: OrdMap<E, OrdSet<Dot>> = OrdMap::new();
        delta_entries.insert(delta_key, delta_dots);
        proof {
            superseded.lemma_members();
            assert(superseded.elems().take(i as int) =~= superseded.elems());
            assert(dots@ =~= set![dot]);
            assert(self@ =~= aw_added(old(self)@, ev, dot));
        }
        let delta = AddWinsSet { entries: delta_entries, ctx: delta_ctx };
        proof {
            assert(delta@.0 =~= aw_add_delta(old(self)@, ev, dot).0);
            assert(delta@.1 =~= aw_add_delta(old(self)@, ev, dot).1);
            assert(set![dot].contains(dot));
            assert forall|x: E::V| #[trigger] self@.0.contains_key(x) implies self@.0[x] != Set::<Dot>::empty()
                && self@.0[x].subset_of(self@.1) by {
                if x != ev {
                    assert(old(self)@.0.contains_key(x));
                }
            }
            assert forall|x: E::V| #[trigger] delta@.0.contains_key(x) implies delta@.0[x] != Set::<Dot>::empty()
                && delta@.0[x].subset_of(delta@.1) by {
            }
            lemma_aw_add_delta(old(self)@, ev, dot);
            assert forall|e1: E::V, e2: E::V, d: Dot| e1 != e2 && #[trigger] dots_of(delta@.0, e1).contains(d)
                implies !#[trigger] dots_of(delta@.0, e2).contains(d) by {
                if e1 != ev {
                    assert(!delta@.0.contains_key(e1));
                } else {
                    assert(!delta@.0.contains_key(e2));
                }
            }
        }
        delta
    }

    /// Removes `e`. Returns the **delta** (no entry, context = the removed
    /// dots → merging it removes `e` elsewhere, unless re-added concurrently).
    pub fn remove(&mut self, e: &E) -> (delta: Self)
        requires
            old(self).wf(),
        ensures
            final(self).wf(),
            delta.wf(),
            final(self)@ == aw_removed(old(self)@, e@),
            delta@ == aw_remove_delta(old(self)@, e@),
            aw_join(old(self)@, delta@) == final(self)@,
    {
        let mut delta_ctx = DotContext::new();
        proof {
            old(self).ctx.lemma_counters_bounded();
        }
        proof {
            if old(self)@.0.contains_key(e@) {
                assert(old(self)@.0[e@].subset_of(old(self)@.1));
            }
        }
        match self.entries.remove(e) {
            Some(dots) => {
                let mut i: usize = 0;
                proof {
                    dots.lemma_members();
                    assert(delta_ctx@ =~= dots.elems().take(0).to_set());
                }
                while i < dots.len()
                    invariant
                        delta_ctx.wf(),
                        i <= dots.elems().len(),
                        dots@ == dots_of(old(self)@.0, e@),
                        dots@.subset_of(old(self)@.1),
                        forall|d: Dot| #[trigger] old(self)@.1.contains(d) ==> 1 <= d.counter < u64::MAX,
                        delta_ctx@ == dots.elems().take(i as int).to_set(),
                    decreases dots.elems().len() - i,
                {
                    proof {
                        dots.lemma_members();
                    }
                    let d = *dots.elem_at(i);
                    proof {
                        assert(old(self)@.1.contains(d));
                    }
                    delta_ctx.insert(d);
                    proof {
                        dots.elems().take(i as int).lemma_push_to_set_commute(d);
                        assert(dots.elems().take(i + 1) =~= dots.elems().take(i as int).push(d));
                    }
                    i = i + 1;
                }
                proof {
                    dots.lemma_members();
                    assert(dots.elems().take(i as int) =~= dots.elems());
                }
            },
            None => {
                assert(delta_ctx@ =~= dots_of(old(self)@.0, e@));
            },
        }
        let delta = AddWinsSet { entries: OrdMap::new(), ctx: delta_ctx };
        proof {
            assert(delta@.0 =~= aw_remove_delta(old(self)@, e@).0);
            assert(self@.0 =~= aw_removed(old(self)@, e@).0);
            lemma_aw_remove_delta(old(self)@, e@);
        }
        delta
    }

    /// Merges (joins) another state — or a delta. Idempotent, commutative
    /// and associative.
    pub fn merge(&mut self, other: &Self)
        requires
            old(self).wf(),
            other.wf(),
        ensures
            final(self).wf(),
            final(self)@ == aw_join(old(self)@, other@),
    {
        let ghost j_map = join_entries(old(self)@.0, old(self)@.1, other@.0, other@.1);
        let empty: OrdSet<Dot> = OrdSet::new();
        let mut merged: OrdMap<E, OrdSet<Dot>> = OrdMap::new();
        let mut i: usize = 0;
        proof {
            self.entries.lemma_view();
            other.entries.lemma_view();
        }
        while i < self.entries.len()
            invariant
                merged.wf(),
                self == old(self),
                self.wf(),
                other.wf(),
                empty@ == Set::<Dot>::empty(),
                j_map == join_entries(self@.0, self@.1, other@.0, other@.1),
                i <= self.entries.keys().len(),
                forall|x: E::V| #[trigger] merged@.contains_key(x) == (self.entries.keys().take(
                    i as int,
                ).contains(x) && j_map.contains_key(x)),
                forall|x: E::V| #[trigger] merged@.contains_key(x) ==> merged@[x] == j_map[x],
            decreases self.entries.keys().len() - i,
        {
            proof {
                self.entries.lemma_view();
            }
            let e = self.entries.key_at(i);
            let sd = self.entries.value_at(i);
            let od = match other.entries.get(e) {
                Some(v) => v,
                None => &empty,
            };
            proof {
                assert(sd@ == dots_of(self@.0, e@));
                assert(od@ == dots_of(other@.0, e@));
            }
            let kept = join_dot_sets(sd, &self.ctx, od, &other.ctx);
            let ghost before = merged@;
            if !kept.is_empty() {
                merged.insert(e.duplicate(), kept);
            }
            proof {
                let t0 = self.entries.keys().take(i as int);
                let t1 = self.entries.keys().take(i + 1);
                assert(t1 =~= t0.push(e@));
                assert forall|x: E::V| #[trigger] t1.contains(x) == (t0.contains(x) || x == e@) by {
                    if t1.contains(x) && x != e@ {
                        let k = choose|k: int| 0 <= k < i + 1 && #[trigger] t1[k] == x;
                        assert(t0[k] == x);
                    }
                    if t0.contains(x) {
                        let k = choose|k: int| 0 <= k < i && #[trigger] t0[k] == x;
                        assert(t1[k] == x);
                    }
                    if x == e@ {
                        assert(t1[i as int] == x);
                    }
                }
            }
            i = i + 1;
        }
        let mut k: usize = 0;
        proof {
            assert(self.entries.keys().take(i as int) =~= self.entries.keys());
        }
        while k < other.entries.len()
            invariant
                merged.wf(),
                self == old(self),
                self.wf(),
                other.wf(),
                empty@ == Set::<Dot>::empty(),
                j_map == join_entries(self@.0, self@.1, other@.0, other@.1),
                k <= other.entries.keys().len(),
                forall|x: E::V| #[trigger] merged@.contains_key(x) == ((self.entries.keys().contains(x)
                    || other.entries.keys().take(k as int).contains(x)) && j_map.contains_key(x)),
                forall|x: E::V| #[trigger] merged@.contains_key(x) ==> merged@[x] == j_map[x],
            decreases other.entries.keys().len() - k,
        {
            proof {
                other.entries.lemma_view();
                self.entries.lemma_view();
            }
            let e = other.entries.key_at(k);
            if self.entries.find(e).is_none() {
                let od = other.entries.value_at(k);
                proof {
                    assert(empty@ == dots_of(self@.0, e@));
                    assert(od@ == dots_of(other@.0, e@));
                }
                let kept = join_dot_sets(&empty, &self.ctx, od, &other.ctx);
                if !kept.is_empty() {
                    merged.insert(e.duplicate(), kept);
                }
            }
            proof {
                let t0 = other.entries.keys().take(k as int);
                let t1 = other.entries.keys().take(k + 1);
                assert(t1 =~= t0.push(e@));
                assert forall|x: E::V| #[trigger] t1.contains(x) == (t0.contains(x) || x == e@) by {
                    if t1.contains(x) && x != e@ {
                        let q = choose|q: int| 0 <= q < k + 1 && #[trigger] t1[q] == x;
                        assert(t0[q] == x);
                    }
                    if t0.contains(x) {
                        let q = choose|q: int| 0 <= q < k && #[trigger] t0[q] == x;
                        assert(t1[q] == x);
                    }
                    if x == e@ {
                        assert(t1[k as int] == x);
                    }
                }
            }
            k = k + 1;
        }
        proof {
            assert(other.entries.keys().take(k as int) =~= other.entries.keys());
            self.entries.lemma_view();
            other.entries.lemma_view();
            assert(merged@ =~= j_map);
        }
        self.entries = merged;
        self.ctx.merge(&other.ctx);
        proof {
            lemma_join_valid(old(self)@, other@);
            lemma_join_disjoint(old(self)@, other@);
        }
    }
}

impl<E: TotalOrder> PartialEq for AddWinsSet<E> {
    fn eq(&self, other: &Self) -> (r: bool) {
        self.same_state(other)
    }
}

impl<E: TotalOrder> PartialEqSpecImpl for AddWinsSet<E> {
    open spec fn obeys_eq_spec() -> bool {
        true
    }

    open spec fn eq_spec(&self, other: &AddWinsSet<E>) -> bool {
        self.same_repr(*other)
    }
}

impl<E: TotalOrder> Eq for AddWinsSet<E> {
}

impl<E: TotalOrder> Default for AddWinsSet<E> {
    fn default() -> (s: Self)
        ensures
            s.wf(),
            s@ == aw_empty::<E::V>(),
    {
        Self::new()
    }
}

/// The join of two valid states is valid.
pub proof fn lemma_join_valid<K>(a: (Map<K, Set<Dot>>, Set<Dot>), b: (Map<K, Set<Dot>>, Set<Dot>))
    requires
        aw_valid(a),
        aw_valid(b),
    ensures
        aw_valid(aw_join(a, b)),
{
    let j = aw_join(a, b);
    assert forall|e: K| #[trigger] j.0.contains_key(e) implies j.0[e] != Set::<Dot>::empty()
        && j.0[e].subset_of(j.1) by {
        assert forall|d: Dot| j.0[e].contains(d) implies j.1.contains(d) by {
            if dots_of(a.0, e).contains(d) {
                assert(a.0.contains_key(e));
            }
            if dots_of(b.0, e).contains(d) {
                assert(b.0.contains_key(e));
            }
        }
    }
}

/// The join of two valid states in which no dot is shared by two elements
/// shares no dot either.
pub proof fn lemma_join_disjoint<K>(a: (Map<K, Set<Dot>>, Set<Dot>), b: (Map<K, Set<Dot>>, Set<Dot>))
    requires
        aw_valid(a),
        aw_valid(b),
        aw_disjoint(a),
        aw_disjoint(b),
    ensures
        aw_disjoint(aw_join(a, b)),
{
    lemma_valid_dots(a);
    lemma_valid_dots(b);
    let j = aw_join(a, b);
    assert forall|e1: K, e2: K, d: Dot| e1 != e2 && #[trigger] dots_of(j.0, e1).contains(d) implies !#[trigger] dots_of(
        j.0,
        e2,
    ).contains(d) by {
        lemma_dots_of_join(a, b, e1);
        lemma_dots_of_join(a, b, e2);
        if dots_of(j.0, e2).contains(d) {
            if dots_of(a.0, e1).contains(d) {
                assert(a.1.contains(d));
                assert(!dots_of(a.0, e2).contains(d));
            } else {
                assert(dots_of(b.0, e1).contains(d));
                assert(b.1.contains(d));
                assert(!dots_of(b.0, e2).contains(d));
            }
        }
    }
}

/// In a valid state, an element's dots are observed, and they are empty
/// exactly when the element is absent.
pub proof fn lemma_valid_dots<K>(a: (Map<K, Set<Dot>>, Set<Dot>))
    requires
        aw_valid(a),
    ensures
        forall|e: K| #[trigger] dots_of(a.0, e).subset_of(a.1),
        forall|e: K| #[trigger] a.0.contains_key(e) <==> dots_of(a.0, e) != Set::<Dot>::empty(),
{
    assert forall|e: K| #[trigger] dots_of(a.0, e).subset_of(a.1) by {
        if a.0.contains_key(e) {
        }
    }
}

/// The dots of an element after the join, whether or not it is present.
pub proof fn lemma_dots_of_join<K>(a: (Map<K, Set<Dot>>, Set<Dot>), b: (Map<K, Set<Dot>>, Set<Dot>), e: K)
    ensures
        dots_of(aw_join(a, b).0, e) == join_dots(dots_of(a.0, e), a.1, dots_of(b.0, e), b.1),
        aw_join(a, b).0.contains_key(e) <==> dots_of(aw_join(a, b).0, e) != Set::<Dot>::empty(),
{
    let j = join_dots(dots_of(a.0, e), a.1, dots_of(b.0, e), b.1);
    if !a.0.contains_key(e) && !b.0.contains_key(e) {
        assert(j =~= Set::<Dot>::empty());
    }
}

/// Two states with the same context and the same dots for every element,
/// each holding exactly the elements that have dots, are equal.
pub proof fn lemma_states_equal<K>(x: (Map<K, Set<Dot>>, Set<Dot>), y: (Map<K, Set<Dot>>, Set<Dot>))
    requires
        forall|e: K| #[trigger] x.0.contains_key(e) <==> dots_of(x.0, e) != Set::<Dot>::empty(),
        forall|e: K| #[trigger] y.0.contains_key(e) <==> dots_of(y.0, e) != Set::<Dot>::empty(),
        forall|e: K| #[trigger] dots_of(x.0, e) == dots_of(y.0, e),
        x.1 == y.1,
    ensures
        x == y,
{
    assert forall|e: K| #[trigger] x.0.contains_key(e) == y.0.contains_key(e) by {
        assert(dots_of(x.0, e) == dots_of(y.0, e));
    }
    assert forall|e: K| #[trigger] x.0.contains_key(e) implies x.0[e] == y.0[e] by {
        assert(dots_of(x.0, e) == dots_of(y.0, e));
    }
    assert(x.0 =~= y.0);
}

/// Law: merging a state with itself changes nothing.
pub proof fn lemma_aw_idempotent<K>(a: (Map<K, Set<Dot>>, Set<Dot>))
    requires
        aw_valid(a),
    ensures
        aw_join(a, a) == a,
{
    lemma_valid_dots(a);
    let j = aw_join(a, a);
    assert forall|e: K| #[trigger] dots_of(j.0, e) == dots_of(a.0, e) by {
        lemma_dots_of_join(a, a, e);
        assert(join_dots(dots_of(a.0, e), a.1, dots_of(a.0, e), a.1) =~= dots_of(a.0, e));
    }
    assert forall|e: K| #[trigger] j.0.contains_key(e) <==> dots_of(j.0, e) != Set::<Dot>::empty() by {
        lemma_dots_of_join(a, a, e);
    }
    assert(j.1 =~= a.1);
    lemma_states_equal(j, a);
}

/// Law: the join does not depend on the order of its arguments.
pub proof fn lemma_aw_commutative<K>(a: (Map<K, Set<Dot>>, Set<Dot>), b: (Map<K, Set<Dot>>, Set<Dot>))
    ensures
        aw_join(a, b) == aw_join(b, a),
{
    let x = aw_join(a, b);
    let y = aw_join(b, a);
    assert forall|e: K| #[trigger] dots_of(x.0, e) == dots_of(y.0, e) by {
        lemma_dots_of_join(a, b, e);
        lemma_dots_of_join(b, a, e);
        assert(join_dots(dots_of(a.0, e), a.1, dots_of(b.0, e), b.1) =~= join_dots(
            dots_of(b.0, e),
            b.1,
            dots_of(a.0, e),
            a.1,
        ));
    }
    assert forall|e: K| #[trigger] x.0.contains_key(e) <==> dots_of(x.0, e) != Set::<Dot>::empty() by {
        lemma_dots_of_join(a, b, e);
    }
    assert forall|e: K| #[trigger] y.0.contains_key(e) <==> dots_of(y.0, e) != Set::<Dot>::empty() by {
        lemma_dots_of_join(b, a, e);
    }
    assert(x.1 =~= y.1);
    lemma_states_equal(x, y);
}

/// Law: the join does not depend on how merges are grouped.
pub proof fn lemma_aw_associative<K>(
    a: (Map<K, Set<Dot>>, Set<Dot>),
    b: (Map<K, Set<Dot>>, Set<Dot>),
    c: (Map<K, Set<Dot>>, Set<Dot>),
)
    requires
        aw_valid(a),
        aw_valid(b),
        aw_valid(c),
    ensures
        aw_join(aw_join(a, b), c) == aw_join(a, aw_join(b, c)),
{
    lemma_valid_dots(a);
    lemma_valid_dots(b);
    lemma_valid_dots(c);
    let ab = aw_join(a, b);
    let bc = aw_join(b, c);
    let x = aw_join(ab, c);
    let y = aw_join(a, bc);
    assert forall|e: K| #[trigger] dots_of(x.0, e) == dots_of(y.0, e) by {
        lemma_dots_of_join(a, b, e);
        lemma_dots_of_join(b, c, e);
        lemma_dots_of_join(ab, c, e);
        lemma_dots_of_join(a, bc, e);
        let da = dots_of(a.0, e);
        let db = dots_of(b.0, e);
        let dc = dots_of(c.0, e);
        assert(da.subset_of(a.1));
        assert(db.subset_of(b.1));
        assert(dc.subset_of(c.1));
        assert(dots_of(x.0, e) =~= dots_of(y.0, e));
    }
    assert forall|e: K| #[trigger] x.0.contains_key(e) <==> dots_of(x.0, e) != Set::<Dot>::empty() by {
        lemma_dots_of_join(ab, c, e);
    }
    assert forall|e: K| #[trigger] y.0.contains_key(e) <==> dots_of(y.0, e) != Set::<Dot>::empty() by {
        lemma_dots_of_join(a, bc, e);
    }
    assert(x.1 =~= y.1);
    lemma_states_equal(x, y);
}

/// Law: the empty state is neutral for the join, on either side.
pub proof fn lemma_aw_empty_neutral<K>(a: (Map<K, Set<Dot>>, Set<Dot>))
    requires
        aw_valid(a),
    ensures
        aw_join(a, aw_empty()) == a,
        aw_join(aw_empty(), a) == a,
{
    lemma_valid_dots(a);
    let z = aw_empty::<K>();
    let x = aw_join(a, z);
    assert forall|e: K| #[trigger] dots_of(x.0, e) == dots_of(a.0, e) by {
        lemma_dots_of_join(a, z, e);
        assert(join_dots(dots_of(a.0, e), a.1, dots_of(z.0, e), z.1) =~= dots_of(a.0, e));
    }
    assert forall|e: K| #[trigger] x.0.contains_key(e) <==> dots_of(x.0, e) != Set::<Dot>::empty() by {
        lemma_dots_of_join(a, z, e);
    }
    assert(x.1 =~= a.1);
    lemma_states_equal(x, a);
    lemma_aw_commutative(a, z);
}

/// Law (add wins): an element re-added with a fresh dot stays present after
/// merging a concurrent removal of it from the same base state.
pub proof fn lemma_aw_add_wins<K>(base: (Map<K, Set<Dot>>, Set<Dot>), e: K, dot: Dot)
    requires
        !base.1.contains(dot),
    ensures
        aw_join(aw_added(base, e, dot), aw_removed(base, e)).0.contains_key(e),
{
    let a = aw_added(base, e, dot);
    let b = aw_removed(base, e);
    lemma_dots_of_join(a, b, e);
    assert(kept_dot(dots_of(a.0, e), a.1, dots_of(b.0, e), b.1, dot));
    assert(join_dots(dots_of(a.0, e), a.1, dots_of(b.0, e), b.1).contains(dot));
}

/// Law (observed remove): merging a state with its own removal of an element
/// leaves the element absent.
pub proof fn lemma_aw_observed_remove<K>(s: (Map<K, Set<Dot>>, Set<Dot>), e: K)
    requires
        aw_valid(s),
    ensures
        !aw_join(s, aw_removed(s, e)).0.contains_key(e),
{
    lemma_valid_dots(s);
    let b = aw_removed(s, e);
    lemma_dots_of_join(s, b, e);
    assert(join_dots(dots_of(s.0, e), s.1, dots_of(b.0, e), b.1) =~= Set::<Dot>::empty());
}

/// Law: the delta of an add, merged into the state before the add, gives the
/// state after it — provided no dot is shared by two elements.
pub proof fn lemma_aw_add_delta<K>(s: (Map<K, Set<Dot>>, Set<Dot>), e: K, dot: Dot)
    requires
        aw_valid(s),
        aw_disjoint(s),
        !s.1.contains(dot),
    ensures
        aw_join(s, aw_add_delta(s, e, dot)) == aw_added(s, e, dot),
        aw_valid(aw_added(s, e, dot)),
        aw_disjoint(aw_added(s, e, dot)),
        aw_valid(aw_add_delta(s, e, dot)),
{
    lemma_valid_dots(s);
    let d = aw_add_delta(s, e, dot);
    let x = aw_join(s, d);
    let y = aw_added(s, e, dot);
    assert(set![dot].contains(dot));
    assert forall|k: K| #[trigger] dots_of(x.0, k) == dots_of(y.0, k) by {
        lemma_dots_of_join(s, d, k);
        if k == e {
            assert(dots_of(x.0, k) =~= set![dot]);
        } else {
            assert forall|q: Dot| dots_of(s.0, k).contains(q) implies !dots_of(s.0, e).contains(q) by {
            }
            assert(dots_of(x.0, k) =~= dots_of(s.0, k));
        }
    }
    assert forall|k: K| #[trigger] x.0.contains_key(k) <==> dots_of(x.0, k) != Set::<Dot>::empty() by {
        lemma_dots_of_join(s, d, k);
    }
    assert forall|k: K| #[trigger] y.0.contains_key(k) <==> dots_of(y.0, k) != Set::<Dot>::empty() by {
        if k != e {
            assert(dots_of(y.0, k) == dots_of(s.0, k));
        }
    }
    assert(x.1 =~= y.1);
    lemma_states_equal(x, y);
    assert forall|k: K| #[trigger] y.0.contains_key(k) implies y.0[k] != Set::<Dot>::empty()
        && y.0[k].subset_of(y.1) by {
        if k != e {
            assert(s.0.contains_key(k));
        }
    }
    assert forall|k1: K, k2: K, q: Dot|
        k1 != k2 && #[trigger] dots_of(y.0, k1).contains(q) implies !#[trigger] dots_of(y.0, k2).contains(q) by {
        if k1 != e && k2 != e {
            assert(dots_of(y.0, k1) == dots_of(s.0, k1));
            assert(dots_of(y.0, k2) == dots_of(s.0, k2));
        } else if k1 == e {
            assert(dots_of(y.0, k2) == dots_of(s.0, k2));
        } else {
            assert(dots_of(y.0, k1) == dots_of(s.0, k1));
        }
    }
    assert forall|k: K| #[trigger] d.0.contains_key(k) implies d.0[k] != Set::<Dot>::empty()
        && d.0[k].subset_of(d.1) by {
    }
}

/// Law: the delta of a removal, merged into the state before it, gives the
/// state after it — provided no dot is shared by two elements.
pub proof fn lemma_aw_remove_delta<K>(s: (Map<K, Set<Dot>>, Set<Dot>), e: K)
    requires
        aw_valid(s),
        aw_disjoint(s),
    ensures
        aw_join(s, aw_remove_delta(s, e)) == aw_removed(s, e),
        aw_valid(aw_removed(s, e)),
        aw_disjoint(aw_removed(s, e)),
        aw_valid(aw_remove_delta(s, e)),
{
    lemma_valid_dots(s);
    let d = aw_remove_delta(s, e);
    let x = aw_join(s, d);
    let y = aw_removed(s, e);
    assert forall|k: K| #[trigger] dots_of(x.0, k) == dots_of(y.0, k) by {
        lemma_dots_of_join(s, d, k);
        if k == e {
            assert(dots_of(x.0, k) =~= Set::<Dot>::empty());
        } else {
            assert forall|q: Dot| dots_of(s.0, k).contains(q) implies !dots_of(s.0, e).contains(q) by {
            }
            assert(dots_of(x.0, k) =~= dots_of(s.0, k));
        }
    }
    assert forall|k: K| #[trigger] x.0.contains_key(k) <==> dots_of(x.0, k) != Set::<Dot>::empty() by {
        lemma_dots_of_join(s, d, k);
    }
    assert forall|k: K| #[trigger] y.0.contains_key(k) <==> dots_of(y.0, k) != Set::<Dot>::empty() by {
        if k != e {
            assert(dots_of(y.0, k) == dots_of(s.0, k));
        }
    }
    assert(x.1 =~= y.1);
    lemma_states_equal(x, y);
    assert forall|k: K| #[trigger] y.0.contains_key(k) implies y.0[k] != Set::<Dot>::empty()
        && y.0[k].subset_of(y.1) by {
        assert(s.0.contains_key(k));
    }
    assert forall|k1: K, k2: K, q: Dot|
        k1 != k2 && #[trigger] dots_of(y.0, k1).contains(q) implies !#[trigger] dots_of(y.0, k2).contains(q) by {
        if k1 != e && k2 != e {
            assert(dots_of(y.0, k1) == dots_of(s.0, k1));
            assert(dots_of(y.0, k2) == dots_of(s.0, k2));
        }
    }
}

} // verus!
