//! Total orders on the library's keys and values.
//!
//! The replicated types keep their contents in sorted vectors and compare
//! timestamps and values lexicographically. Every type that is used as a key or
//! as a register value implements [`TotalOrder`]: a strict total order on its
//! view, together with a verified three-way comparison.

use vstd::prelude::*;

verus! {

/// Outcome of a three-way comparison.
#[derive(Clone, Copy, PartialEq, Eq, Debug)]
pub enum Order {
    Less,
    Equal,
    Greater,
}

/// A strict total order on the view of a type, with an executable comparison
/// and an executable copy that agree with it.
pub trait TotalOrder: View + Sized {
    /// `a` comes strictly before `b`.
    spec fn precedes(a: Self::V, b: Self::V) -> bool;

    proof fn lemma_irreflexive(a: Self::V)
        ensures
            !Self::precedes(a, a),
    ;

    proof fn lemma_transitive(a: Self::V, b: Self::V, c: Self::V)
        requires
            Self::precedes(a, b),
            Self::precedes(b, c),
        ensures
            Self::precedes(a, c),
    ;

    proof fn lemma_total(a: Self::V, b: Self::V)
        ensures
            a == b || Self::precedes(a, b) || Self::precedes(b, a),
    ;

    /// Three-way comparison of the views.
    fn compare(&self, other: &Self) -> (r: Order)
        ensures
            (r is Less) == Self::precedes(self@, other@),
            (r is Equal) == (self@ == other@),
            (r is Greater) == Self::precedes(other@, self@),
    ;

    /// A copy with the same view.
    fn duplicate(&self) -> (r: Self)
        ensures
            r@ == self@,
    ;
}

/// Asymmetry, from irreflexivity and transitivity.
pub proof fn lemma_asymmetric<T: TotalOrder>(a: T::V, b: T::V)
    requires
        T::precedes(a, b),
    ensures
        !T::precedes(b, a),
{
    if T::precedes(b, a) {
        T::lemma_transitive(a, b, a);
        T::lemma_irreflexive(a);
    }
}

/// Lexicographic order on byte strings, as `[u8]` orders them: a proper
/// prefix comes first.
pub open spec fn bytes_precede(a: Seq<u8>, b: Seq<u8>) -> bool
    decreases a.len(),
{
    if a.len() == 0 {
        b.len() > 0
    } else if b.len() == 0 {
        false
    } else if a[0] != b[0] {
        a[0] < b[0]
    } else {
        bytes_precede(a.drop_first(), b.drop_first())
    }
}

pub proof fn lemma_bytes_irreflexive(a: Seq<u8>)
    ensures
        !bytes_precede(a, a),
    decreases a.len(),
{
    if a.len() > 0 {
        lemma_bytes_irreflexive(a.drop_first());
    }
}

pub proof fn lemma_bytes_transitive(a: Seq<u8>, b: Seq<u8>, c: Seq<u8>)
    requires
        bytes_precede(a, b),
        bytes_precede(b, c),
    ensures
        bytes_precede(a, c),
    decreases a.len(),
{
    if a.len() > 0 && b.len() > 0 && c.len() > 0 && a[0] == b[0] && b[0] == c[0] {
        lemma_bytes_transitive(a.drop_first(), b.drop_first(), c.drop_first());
    }
}

pub proof fn lemma_bytes_total(a: Seq<u8>, b: Seq<u8>)
    ensures
        a == b || bytes_precede(a, b) || bytes_precede(b, a),
    decreases a.len(),
{
    if a.len() > 0 && b.len() > 0 && a[0] == b[0] {
        lemma_bytes_total(a.drop_first(), b.drop_first());
        if a.drop_first() == b.drop_first() {
            assert(a =~= seq![a[0]] + a.drop_first());
            assert(b =~= seq![b[0]] + b.drop_first());
        }
    } else if a.len() == 0 && b.len() == 0 {
        assert(a =~= b);
    }
}

/// Lexicographic three-way comparison of two byte strings.
pub fn compare_bytes(a: &[u8], b: &[u8]) -> (r: Order)
    ensures
        (r is Less) == bytes_precede(a@, b@),
        (r is Equal) == (a@ == b@),
        (r is Greater) == bytes_precede(b@, a@),
{
    let mut i: usize = 0;
    proof {
        assert(a@.skip(0) =~= a@);
        assert(b@.skip(0) =~= b@);
    }
    while i < a.len() && i < b.len()
        invariant
            i <= a@.len(),
            i <= b@.len(),
            a@.take(i as int) =~= b@.take(i as int),
            bytes_precede(a@, b@) == bytes_precede(a@.skip(i as int), b@.skip(i as int)),
            bytes_precede(b@, a@) == bytes_precede(b@.skip(i as int), a@.skip(i as int)),
        decreases a@.len() - i,
    {
        if a[i] < b[i] {
            proof {
                lemma_bytes_irreflexive(a@);
                assert(a@[i as int] != b@[i as int]);
            }
            return Order::Less;
        }
        if a[i] > b[i] {
            proof {
                assert(a@[i as int] != b@[i as int]);
            }
            return Order::Greater;
        }
        proof {
            assert(a@.skip(i as int).drop_first() =~= a@.skip(i + 1));
            assert(b@.skip(i as int).drop_first() =~= b@.skip(i + 1));
            assert(a@.take(i + 1) =~= a@.take(i as int).push(a@[i as int]));
            assert(b@.take(i + 1) =~= b@.take(i as int).push(b@[i as int]));
        }
        i = i + 1;
    }
    if a.len() == b.len() {
        proof {
            assert(a@ =~= a@.take(i as int));
            assert(b@ =~= b@.take(i as int));
            lemma_bytes_irreflexive(a@);
        }
        Order::Equal
    } else if a.len() < b.len() {
        proof {
            assert(a@ =~= a@.take(i as int));
            assert(a@ != b@);
        }
        Order::Less
    } else {
        proof {
            assert(b@ =~= b@.take(i as int));
            assert(a@ != b@);
        }
        Order::Greater
    }
}

impl TotalOrder for u8 {
    open spec fn precedes(a: u8, b: u8) -> bool {
        a < b
    }

    proof fn lemma_irreflexive(a: u8) {
    }

    proof fn lemma_transitive(a: u8, b: u8, c: u8) {
    }

    proof fn lemma_total(a: u8, b: u8) {
    }

    fn compare(&self, other: &u8) -> (r: Order) {
        if *self < *other {
            Order::Less
        } else if *self == *other {
            Order::Equal
        } else {
            Order::Greater
        }
    }

    fn duplicate(&self) -> (r: u8) {
        *self
    }
}

impl TotalOrder for u16 {
    open spec fn precedes(a: u16, b: u16) -> bool {
        a < b
    }

    proof fn lemma_irreflexive(a: u16) {
    }

    proof fn lemma_transitive(a: u16, b: u16, c: u16) {
    }

    proof fn lemma_total(a: u16, b: u16) {
    }

    fn compare(&self, other: &u16) -> (r: Order) {
        if *self < *other {
            Order::Less
        } else if *self == *other {
            Order::Equal
        } else {
            Order::Greater
        }
    }

    fn duplicate(&self) -> (r: u16) {
        *self
    }
}

impl TotalOrder for u32 {
    open spec fn precedes(a: u32, b: u32) -> bool {
        a < b
    }

    proof fn lemma_irreflexive(a: u32) {
    }

    proof fn lemma_transitive(a: u32, b: u32, c: u32) {
    }

    proof fn lemma_total(a: u32, b: u32) {
    }

    fn compare(&self, other: &u32) -> (r: Order) {
        if *self < *other {
            Order::Less
        } else if *self == *other {
            Order::Equal
        } else {
            Order::Greater
        }
    }

    fn duplicate(&self) -> (r: u32) {
        *self
    }
}

impl TotalOrder for u64 {
    open spec fn precedes(a: u64, b: u64) -> bool {
        a < b
    }

    proof fn lemma_irreflexive(a: u64) {
    }

    proof fn lemma_transitive(a: u64, b: u64, c: u64) {
    }

    proof fn lemma_total(a: u64, b: u64) {
    }

    fn compare(&self, other: &u64) -> (r: Order) {
        if *self < *other {
            Order::Less
        } else if *self == *other {
            Order::Equal
        } else {
            Order::Greater
        }
    }

    fn duplicate(&self) -> (r: u64) {
        *self
    }
}

impl TotalOrder for i32 {
    open spec fn precedes(a: i32, b: i32) -> bool {
        a < b
    }

    proof fn lemma_irreflexive(a: i32) {
    }

    proof fn lemma_transitive(a: i32, b: i32, c: i32) {
    }

    proof fn lemma_total(a: i32, b: i32) {
    }

    fn compare(&self, other: &i32) -> (r: Order) {
        if *self < *other {
            Order::Less
        } else if *self == *other {
            Order::Equal
        } else {
            Order::Greater
        }
    }

    fn duplicate(&self) -> (r: i32) {
        *self
    }
}

impl TotalOrder for i64 {
    open spec fn precedes(a: i64, b: i64) -> bool {
        a < b
    }

    proof fn lemma_irreflexive(a: i64) {
    }

    proof fn lemma_transitive(a: i64, b: i64, c: i64) {
    }

    proof fn lemma_total(a: i64, b: i64) {
    }

    fn compare(&self, other: &i64) -> (r: Order) {
        if *self < *other {
            Order::Less
        } else if *self == *other {
            Order::Equal
        } else {
            Order::Greater
        }
    }

    fn duplicate(&self) -> (r: i64) {
        *self
    }
}

impl<A: TotalOrder, B: TotalOrder> TotalOrder for (A, B) {
    open spec fn precedes(a: (A::V, B::V), b: (A::V, B::V)) -> bool {
        A::precedes(a.0, b.0) || (a.0 == b.0 && B::precedes(a.1, b.1))
    }

    proof fn lemma_irreflexive(a: (A::V, B::V)) {
        A::lemma_irreflexive(a.0);
        B::lemma_irreflexive(a.1);
    }

    proof fn lemma_transitive(a: (A::V, B::V), b: (A::V, B::V), c: (A::V, B::V)) {
        if A::precedes(a.0, b.0) && A::precedes(b.0, c.0) {
            A::lemma_transitive(a.0, b.0, c.0);
        }
        if a.0 == b.0 && b.0 == c.0 && B::precedes(a.1, b.1) && B::precedes(b.1, c.1) {
            B::lemma_transitive(a.1, b.1, c.1);
        }
    }

    proof fn lemma_total(a: (A::V, B::V), b: (A::V, B::V)) {
        A::lemma_total(a.0, b.0);
        B::lemma_total(a.1, b.1);
    }

    fn compare(&self, other: &(A, B)) -> (r: Order) {
        match self.0.compare(&other.0) {
            Order::Less => {
                proof {
                    lemma_asymmetric::<A>(self.0@, other.0@);
                    A::lemma_irreflexive(self.0@);
                }
                Order::Less
            },
            Order::Greater => {
                proof {
                    lemma_asymmetric::<A>(other.0@, self.0@);
                    A::lemma_irreflexive(self.0@);
                }
                Order::Greater
            },
            Order::Equal => {
                proof {
                    A::lemma_irreflexive(self.0@);
                }
                self.1.compare(&other.1)
            },
        }
    }

    fn duplicate(&self) -> (r: (A, B)) {
        (self.0.duplicate(), self.1.duplicate())
    }
}

} // verus!
