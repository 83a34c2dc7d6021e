//! Last-Writer-Wins register: a value stamped with a [`Timestamp`].
//!
//! `merge` is the **join** of two registers: the larger `(timestamp, value)`
//! pair is kept. The timestamp being totally ordered (HLC then device), the
//! latest write wins; on **strictly equal** timestamps (same device and same
//! HLC, i.e. the same logical write) the values are equal by construction.
//! Breaking ties by the value anyway makes the join **total and deterministic
//! on the whole state space**: convergence holds even if a hostile client
//! forges two writes with the same timestamp. The join is idempotent,
//! commutative and associative.

use super::Timestamp;
use crate::order::{lemma_asymmetric, Order, TotalOrder};
use vstd::prelude::*;

verus! {

/// LWW register: last written value, ordered by [`Timestamp`].
#[derive(Clone, PartialEq, Eq, Debug)]
pub struct LwwRegister<T> {
    value: T,
    ts: Timestamp,
}

/// The view of a register: its timestamp and the view of its value.
impl<T: View> View for LwwRegister<T> {
    type V = (Timestamp, T::V);

    closed spec fn view(&self) -> (Timestamp, T::V) {
        (self.ts, self.value@)
    }
}

/// Join of two register states: the larger `(timestamp, value)` pair.
pub open spec fn lww_join<T: TotalOrder>(a: (Timestamp, T::V), b: (Timestamp, T::V)) -> (
    Timestamp,
    T::V,
) {
    if <(Timestamp, T) as TotalOrder>::precedes(a, b) {
        b
    } else {
        a
    }
}

impl<T: View> LwwRegister<T> {
    /// Creates a register from a write (value + timestamp).
    pub fn new(value: T, ts: Timestamp) -> (r: Self)
        ensures
            r@ == (ts, value@),
    {
        LwwRegister { value, ts }
    }

    /// Current value.
    pub fn value(&self) -> (r: &T)
        ensures
            r@ == self@.1,
    {
        &self.value
    }

    /// Timestamp of the current write.
    pub fn timestamp(&self) -> (r: Timestamp)
        ensures
            r == self@.0,
    {
        self.ts
    }

    /// Consumes the register and returns the value.
    pub fn into_value(self) -> (r: T)
        ensures
            r@ == self@.1,
    {
        self.value
    }
}

impl<T: TotalOrder> LwwRegister<T> {
    /// A copy with the same view.
    pub fn duplicate(&self) -> (r: Self)
        ensures
            r@ == self@,
    {
        LwwRegister { value: self.value.duplicate(), ts: self.ts }
    }

    /// Does `(ts, value)` win over the current pair?
    fn beats(&self, value: &T, ts: &Timestamp) -> (r: bool)
        ensures
            r == <(Timestamp, T) as TotalOrder>::precedes(self@, (*ts, value@)),
    {
        match self.ts.compare(ts) {
            Order::Less => true,
            Order::Greater => false,
            Order::Equal => match self.value.compare(value) {
                Order::Less => true,
                _ => false,
            },
        }
    }

    /// Local write: applies `(value, ts)` if it wins over the current pair
    /// (LWW rule: larger `ts` wins; on equal `ts`, the larger value). A `ts`
    /// from a fresh `tick` always dominates the current one.
    pub fn set(&mut self, value: T, ts: Timestamp)
        ensures
            final(self)@ == lww_join::<T>(old(self)@, (ts, value@)),
    {
        if self.beats(&value, &ts) {
            self.value = value;
            self.ts = ts;
        }
    }

    /// Merges `other` into `self` (LWW join). Idempotent, commutative and
    /// associative: the final state does not depend on the order of merges.
    pub fn merge(&mut self, other: &Self)
        ensures
            final(self)@ == lww_join::<T>(old(self)@, other@),
    {
        if self.beats(&other.value, &other.ts) {
            self.value = other.value.duplicate();
            self.ts = other.ts;
        }
    }

    /// Consuming variant of [`Self::merge`], handy for folds.
    pub fn merged(self, other: &Self) -> (r: Self)
        ensures
            r@ == lww_join::<T>(self@, other@),
    {
        let mut s = self;
        s.merge(other);
        s
    }
}

/// Law: merging a register with itself changes nothing.
pub proof fn lemma_lww_idempotent<T: TotalOrder>(a: (Timestamp, T::V))
    ensures
        lww_join::<T>(a, a) == a,
{
}

/// Law: the join does not depend on the order of its arguments.
pub proof fn lemma_lww_commutative<T: TotalOrder>(a: (Timestamp, T::V), b: (Timestamp, T::V))
    ensures
        lww_join::<T>(a, b) == lww_join::<T>(b, a),
{
    <(Timestamp, T) as TotalOrder>::lemma_total(a, b);
    if <(Timestamp, T) as TotalOrder>::precedes(a, b) {
        lemma_asymmetric::<(Timestamp, T)>(a, b);
    }
}

/// Law: the join does not depend on how merges are grouped.
pub proof fn lemma_lww_associative<T: TotalOrder>(
    a: (Timestamp, T::V),
    b: (Timestamp, T::V),
    c: (Timestamp, T::V),
)
    ensures
        lww_join::<T>(lww_join::<T>(a, b), c) == lww_join::<T>(a, lww_join::<T>(b, c)),
{
    <(Timestamp, T) as TotalOrder>::lemma_total(a, b);
    <(Timestamp, T) as TotalOrder>::lemma_total(b, c);
    <(Timestamp, T) as TotalOrder>::lemma_total(a, c);
    if <(Timestamp, T) as TotalOrder>::precedes(a, b) && <(Timestamp, T) as TotalOrder>::precedes(
        b,
        c,
    ) {
        <(Timestamp, T) as TotalOrder>::lemma_transitive(a, b, c);
    }
    if <(Timestamp, T) as TotalOrder>::precedes(b, a) && <(Timestamp, T) as TotalOrder>::precedes(
        c,
        b,
    ) {
        <(Timestamp, T) as TotalOrder>::lemma_transitive(c, b, a);
    }
    if <(Timestamp, T) as TotalOrder>::precedes(a, b) {
        lemma_asymmetric::<(Timestamp, T)>(a, b);
    }
    if <(Timestamp, T) as TotalOrder>::precedes(b, c) {
        lemma_asymmetric::<(Timestamp, T)>(b, c);
    }
    if <(Timestamp, T) as TotalOrder>::precedes(a, c) {
        lemma_asymmetric::<(Timestamp, T)>(a, c);
    }
}

/// Left fold of merges over a sequence of register states.
pub open spec fn lww_fold<T: TotalOrder>(regs: Seq<(Timestamp, T::V)>) -> (Timestamp, T::V)
    decreases regs.len(),
{
    if regs.len() <= 1 {
        regs[0]
    } else {
        lww_join::<T>(lww_fold::<T>(regs.drop_last()), regs.last())
    }
}

/// The folded state is one of the registers and no register beats it.
pub proof fn lemma_lww_fold_is_max<T: TotalOrder>(regs: Seq<(Timestamp, T::V)>)
    requires
        regs.len() > 0,
    ensures
        regs.contains(lww_fold::<T>(regs)),
        forall|i: int|
            0 <= i < regs.len() ==> !<(Timestamp, T) as TotalOrder>::precedes(
                lww_fold::<T>(regs),
                #[trigger] regs[i],
            ),
    decreases regs.len(),
{
    if regs.len() > 1 {
        let init = regs.drop_last();
        lemma_lww_fold_is_max::<T>(init);
        let f = lww_fold::<T>(init);
        let l = regs.last();
        assert(init.contains(f));
        let k = choose|k: int| 0 <= k < init.len() && init[k] == f;
        assert(regs[k] == f);
        <(Timestamp, T) as TotalOrder>::lemma_total(f, l);
        assert forall|i: int| 0 <= i < regs.len() implies !<(Timestamp, T) as TotalOrder>::precedes(
            lww_fold::<T>(regs),
            #[trigger] regs[i],
        ) by {
            if i < regs.len() - 1 {
                assert(regs[i] == init[i]);
                if <(Timestamp, T) as TotalOrder>::precedes(f, l) {
                    if <(Timestamp, T) as TotalOrder>::precedes(l, regs[i]) {
                        <(Timestamp, T) as TotalOrder>::lemma_transitive(f, l, regs[i]);
                    }
                }
            } else {
                if <(Timestamp, T) as TotalOrder>::precedes(f, l) {
                    <(Timestamp, T) as TotalOrder>::lemma_irreflexive(l);
                }
            }
        }
    } else {
        assert(regs[0] == lww_fold::<T>(regs));
        <(Timestamp, T) as TotalOrder>::lemma_irreflexive(regs[0]);
    }
}

/// Law (convergence whatever the order): folding the merges of the same
/// registers in any two orders — any two sequences holding the same states —
/// gives the same state, the maximum by `(timestamp, value)`.
pub proof fn lemma_lww_converges<T: TotalOrder>(
    regs: Seq<(Timestamp, T::V)>,
    other: Seq<(Timestamp, T::V)>,
)
    requires
        regs.len() > 0,
        regs.to_set() == other.to_set(),
    ensures
        other.len() > 0,
        lww_fold::<T>(regs) == lww_fold::<T>(other),
{
    assert(regs.to_set().contains(regs[0]));
    assert(other.to_set().contains(regs[0]));
    lemma_lww_fold_is_max::<T>(regs);
    lemma_lww_fold_is_max::<T>(other);
    let a = lww_fold::<T>(regs);
    let b = lww_fold::<T>(other);
    assert(regs.to_set().contains(a));
    assert(other.to_set().contains(b));
    let ia = choose|i: int| 0 <= i < other.len() && other[i] == a;
    let ib = choose|i: int| 0 <= i < regs.len() && regs[i] == b;
    <(Timestamp, T) as TotalOrder>::lemma_total(a, b);
}

/// Law: the join keeps the register with the later timestamp; on equal
/// timestamps, the one with the greater value.
pub proof fn lemma_lww_join_later_wins<T: TotalOrder>(a: (Timestamp, T::V), b: (Timestamp, T::V))
    ensures
        Timestamp::precedes(a.0, b.0) ==> lww_join::<T>(a, b) == b,
        Timestamp::precedes(b.0, a.0) ==> lww_join::<T>(a, b) == a,
        a.0 == b.0 && T::precedes(a.1, b.1) ==> lww_join::<T>(a, b) == b,
        a.0 == b.0 && T::precedes(b.1, a.1) ==> lww_join::<T>(a, b) == a,
        a == b ==> lww_join::<T>(a, b) == a,
{
    Timestamp::lemma_irreflexive(a.0);
    if Timestamp::precedes(b.0, a.0) && Timestamp::precedes(a.0, b.0) {
        Timestamp::lemma_transitive(a.0, b.0, a.0);
    }
    if a.0 == b.0 && T::precedes(b.1, a.1) && T::precedes(a.1, b.1) {
        T::lemma_transitive(a.1, b.1, a.1);
        T::lemma_irreflexive(a.1);
    }
}

} // verus!
