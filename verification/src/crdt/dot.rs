//! Dots and causal context — the building blocks of the OR-Set
//! ([`super::awset`]).
//!
//! A [`Dot`] `(device, counter)` tags **each** add uniquely (a device only
//! increments its own counter). The [`DotContext`] remembers the set of dots
//! observed, in **compact** form: one contiguous prefix per device (version
//! vector `cc`) plus a "cloud" `dc` of the dots seen beyond that prefix
//! (because of gaps). Compaction absorbs the cloud as soon as the prefix is
//! contiguous again, keeping the context in O(devices) rather than
//! O(operations).

use super::DeviceId;
use crate::order::{lemma_asymmetric, Order, TotalOrder};
use crate::sorted::{OrdMap, OrdSet};
use vstd::prelude::*;
use vstd::std_specs::cmp::PartialEqSpecImpl;

verus! {

/// Unique tag of an add: authoring device + that device's monotone counter.
#[derive(Clone, Copy, PartialEq, Eq, PartialOrd, Ord, Hash, Debug)]
pub struct Dot {
    /// Device that made the add.
    pub device: DeviceId,
    /// Monotone counter (≥ 1) of `device`.
    pub counter: u64,
}

impl View for Dot {
    type V = Dot;

    open spec fn view(&self) -> Dot {
        *self
    }
}

impl Dot {
    /// Builds a dot.
    pub fn new(device: DeviceId, counter: u64) -> (r: Self)
        ensures
            r == (Dot { device, counter }),
    {
        Dot { device, counter }
    }
}

impl TotalOrder for Dot {
    open spec fn precedes(a: Dot, b: Dot) -> bool {
        DeviceId::precedes(a.device, b.device) || (a.device == b.device && a.counter < b.counter)
    }

    proof fn lemma_irreflexive(a: Dot) {
        DeviceId::lemma_irreflexive(a.device);
    }

    proof fn lemma_transitive(a: Dot, b: Dot, c: Dot) {
        if DeviceId::precedes(a.device, b.device) && DeviceId::precedes(b.device, c.device) {
            DeviceId::lemma_transitive(a.device, b.device, c.device);
        }
    }

    proof fn lemma_total(a: Dot, b: Dot) {
        DeviceId::lemma_total(a.device, b.device);
    }

    fn compare(&self, other: &Dot) -> (r: Order) {
        proof {
            DeviceId::lemma_irreflexive(self.device);
        }
        match self.device.compare(&other.device) {
            Order::Less => {
                proof {
                    lemma_asymmetric::<DeviceId>(self.device, other.device);
                }
                Order::Less
            },
            Order::Greater => {
                proof {
                    lemma_asymmetric::<DeviceId>(other.device, self.device);
                }
                Order::Greater
            },
            Order::Equal => if self.counter < other.counter {
                Order::Less
            } else if self.counter > other.counter {
                Order::Greater
            } else {
                Order::Equal
            },
        }
    }

    fn duplicate(&self) -> (r: Dot) {
        *self
    }
}

/// Compact causal context: the set of dots observed.
#[derive(Clone, Debug)]
pub struct DotContext {
    /// Version vector: largest **contiguous** counter observed per device.
    cc: OrdMap<DeviceId, u64>,
    /// Cloud: dots observed beyond the contiguous prefix (gaps below).
    dc: OrdSet<Dot>,
}

/// Does a version vector cover dot `d`?
pub open spec fn covered(prefix: Map<DeviceId, u64>, d: Dot) -> bool {
    prefix.contains_key(d.device) && d.counter <= prefix[d.device]
}

/// Contiguous prefix of `device` in a version vector (0 when absent).
pub open spec fn base_of(prefix: Map<DeviceId, u64>, device: DeviceId) -> u64 {
    if prefix.contains_key(device) {
        prefix[device]
    } else {
        0
    }
}

/// The dots that a version vector and a cloud stand for.
pub open spec fn observed(prefix: Map<DeviceId, u64>, cloud: Set<Dot>) -> Set<Dot> {
    Set::new(|d: Dot| d.counter >= 1 && (covered(prefix, d) || cloud.contains(d)))
}

/// `c` is the counter of the next fresh dot of `device` in `ctx`: one past
/// the largest counter of `device` observed, or 1 when none is.
pub open spec fn is_next_counter(ctx: Set<Dot>, device: DeviceId, c: u64) -> bool {
    &&& c >= 1
    &&& (c == 1 || ctx.contains(Dot { device, counter: (c - 1) as u64 }))
    &&& forall|c2: u64| #[trigger] ctx.contains(Dot { device, counter: c2 }) ==> c2 < c
}

/// The next fresh dot of `device` in `ctx`.
pub open spec fn fresh_dot(ctx: Set<Dot>, device: DeviceId) -> Dot {
    Dot { device, counter: choose|c: u64| is_next_counter(ctx, device, c) }
}

/// The next counter is unique.
pub proof fn lemma_next_counter_unique(ctx: Set<Dot>, device: DeviceId, a: u64, b: u64)
    requires
        is_next_counter(ctx, device, a),
        is_next_counter(ctx, device, b),
    ensures
        a == b,
{
    if a < b {
        assert(ctx.contains(Dot { device, counter: (b - 1) as u64 }));
    } else if b < a {
        assert(ctx.contains(Dot { device, counter: (a - 1) as u64 }));
    }
}

impl View for DotContext {
    type V = Set<Dot>;

    /// The set of (counter ≥ 1) dots observed.
    open spec fn view(&self) -> Set<Dot> {
        observed(self.prefix(), self.cloud())
    }
}

impl DotContext {
    /// The version vector.
    pub closed spec fn prefix(self) -> Map<DeviceId, u64> {
        self.cc@
    }

    /// The cloud.
    pub closed spec fn cloud(self) -> Set<Dot> {
        self.dc@
    }

    /// The two contexts store the same version vector and the same cloud,
    /// entry for entry.
    pub closed spec fn same_repr(self, other: DotContext) -> bool {
        &&& self.cc.keys() == other.cc.keys()
        &&& self.cc.vals() == other.cc.vals()
        &&& self.dc.elems() == other.dc.elems()
    }

    /// `==` on well-formed contexts is equality of the observed dots: the
    /// compact form is canonical.
    pub proof fn lemma_eq_iff_view(a: DotContext, b: DotContext)
        requires
            a.wf(),
            b.wf(),
        ensures
            a.same_repr(b) <==> a@ == b@,
    {
        if a@ == b@ {
            DotContext::lemma_view_determines(a, b);
            OrdMap::lemma_canonical(a.cc, b.cc);
            OrdSet::lemma_canonical(a.dc, b.dc);
        }
        if a.same_repr(b) {
            OrdMap::lemma_same_entries(a.cc, b.cc);
            a.dc.lemma_members();
            b.dc.lemma_members();
            assert(a.prefix() == b.prefix());
            assert(a.cloud() == b.cloud());
        }
    }

    /// Counters stay within `1 ..< u64::MAX`.
    pub closed spec fn bounded(self) -> bool {
        &&& self.cc.wf()
        &&& self.dc.wf()
        &&& forall|dev: DeviceId| #[trigger]
            self.cc@.contains_key(dev) ==> 1 <= self.cc@[dev] < u64::MAX
        &&& forall|d: Dot| #[trigger] self.dc@.contains(d) ==> 1 <= d.counter < u64::MAX
    }

    /// No device's next counter after its prefix sits in the cloud.
    pub open spec fn compacted_for(self, device: DeviceId) -> bool {
        !self.cloud().contains(Dot { device, counter: (base_of(self.prefix(), device) + 1) as u64 })
    }

    /// The cloud holds no dot that the prefix already covers.
    pub open spec fn uncovered_cloud(self) -> bool {
        forall|d: Dot| #[trigger] self.cloud().contains(d) ==> !covered(self.prefix(), d)
    }

    /// Well-formedness: bounded and compacted, with a cloud disjoint from
    /// the prefix.
    pub open spec fn wf(self) -> bool {
        &&& self.bounded()
        &&& self.uncovered_cloud()
        &&& forall|d: Dot| #[trigger] self.cloud().contains(d) ==> self.compacted_for(d.device)
    }

    /// The compact form is canonical: a well-formed context's prefix holds,
    /// for each device whose first dot was observed, the length of its
    /// longest contiguous run from 1; its cloud holds exactly the observed
    /// dots beyond the prefix.
    pub proof fn lemma_canonical(self)
        requires
            self.wf(),
        ensures
            forall|dev: DeviceId| #[trigger] self.prefix().contains_key(dev) <==> self@.contains(
                Dot { device: dev, counter: 1 },
            ),
            forall|dev: DeviceId, k: u64| #[trigger] self.prefix().contains_key(dev) && 1 <= k <= self.prefix()[dev]
                ==> #[trigger] self@.contains(Dot { device: dev, counter: k }),
            forall|dev: DeviceId| #[trigger] self.prefix().contains_key(dev) ==> self.prefix()[dev] < u64::MAX
                && !self@.contains(Dot { device: dev, counter: (self.prefix()[dev] + 1) as u64 }),
            forall|d: Dot| #[trigger] self.cloud().contains(d) <==> self@.contains(d) && !covered(self.prefix(), d),
    {
        assert forall|dev: DeviceId| #[trigger] self.prefix().contains_key(dev) <==> self@.contains(
            Dot { device: dev, counter: 1 },
        ) by {
            let one = Dot { device: dev, counter: 1 };
            if self@.contains(one) && !self.prefix().contains_key(dev) {
                assert(self.cloud().contains(one));
                assert(self.compacted_for(dev));
            }
        }
        assert forall|dev: DeviceId| #[trigger] self.prefix().contains_key(dev) implies self.prefix()[dev] < u64::MAX
            && !self@.contains(Dot { device: dev, counter: (self.prefix()[dev] + 1) as u64 }) by {
            let next = Dot { device: dev, counter: (self.prefix()[dev] + 1) as u64 };
            assert(self.cc@.contains_key(dev));
            if self.cloud().contains(next) {
                assert(self.compacted_for(dev));
            }
        }
        assert forall|d: Dot| #[trigger] self.cloud().contains(d) implies self@.contains(d) by {
            assert(self.dc@.contains(d));
        }
    }

    /// Two well-formed contexts that observed the same dots have the same
    /// prefix and the same cloud.
    pub proof fn lemma_view_determines(a: DotContext, b: DotContext)
        requires
            a.wf(),
            b.wf(),
            a@ == b@,
        ensures
            a.prefix() == b.prefix(),
            a.cloud() == b.cloud(),
    {
        a.lemma_canonical();
        b.lemma_canonical();
        assert forall|dev: DeviceId| #[trigger] a.prefix().contains_key(dev) implies b.prefix().contains_key(dev)
            && a.prefix()[dev] == b.prefix()[dev] by {
            let one = Dot { device: dev, counter: 1 };
            assert(a@.contains(one));
            let n = a.prefix()[dev];
            let m = b.prefix()[dev];
            if n < m {
                assert(b@.contains(Dot { device: dev, counter: (n + 1) as u64 }));
            }
            if m < n {
                assert(a@.contains(Dot { device: dev, counter: (m + 1) as u64 }));
            }
        }
        assert forall|dev: DeviceId| #[trigger] b.prefix().contains_key(dev) implies a.prefix().contains_key(dev) by {
            assert(b@.contains(Dot { device: dev, counter: 1 }));
        }
        assert(a.prefix() =~= b.prefix());
        assert(a.cloud() =~= b.cloud());
    }

    /// Every observed counter lies in `1 ..< u64::MAX`.
    pub proof fn lemma_counters_bounded(self)
        requires
            self.wf(),
        ensures
            forall|d: Dot| #[trigger] self@.contains(d) ==> 1 <= d.counter < u64::MAX,
    {
        assert forall|d: Dot| #[trigger] self@.contains(d) implies 1 <= d.counter < u64::MAX by {
            if covered(self.prefix(), d) {
                assert(self.cc@.contains_key(d.device));
            }
        }
    }

    /// The empty context.
    pub fn new() -> (c: Self)
        ensures
            c.wf(),
            c@ == Set::<Dot>::empty(),
            c.prefix() == Map::<DeviceId, u64>::empty(),
            c.cloud() == Set::<Dot>::empty(),
    {
        let c = DotContext { cc: OrdMap::new(), dc: OrdSet::new() };
        assert(c@ =~= Set::<Dot>::empty());
        c
    }

    /// A copy observing the same dots (hence, by
    /// [`DotContext::lemma_view_determines`], with the same prefix and cloud).
    pub fn duplicate(&self) -> (r: Self)
        requires
            self.wf(),
        ensures
            r.wf(),
            r@ == self@,
            r.prefix() == self.prefix(),
            r.cloud() == self.cloud(),
    {
        let mut r = DotContext::new();
        r.merge(self);
        assert(r@ =~= self@);
        proof {
            DotContext::lemma_view_determines(r, *self);
        }
        r
    }

    /// Has the context observed this dot? A dot with counter 0, which no
    /// add produces, counts as observed exactly when the device's first dot
    /// has been.
    pub fn contains(&self, dot: &Dot) -> (r: bool)
        requires
            self.wf(),
        ensures
            r == if dot.counter == 0 {
                self@.contains(Dot { device: dot.device, counter: 1 })
            } else {
                self@.contains(*dot)
            },
    {
        let in_prefix = match self.cc.get(&dot.device) {
            Some(n) => dot.counter <= *n,
            None => false,
        };
        let r = in_prefix || self.dc.contains(dot);
        proof {
            if dot.counter == 0 {
                let one = Dot { device: dot.device, counter: 1 };
                if self.cloud().contains(*dot) {
                    assert(false);
                }
                if !self.prefix().contains_key(dot.device) && self.cloud().contains(one) {
                    assert(self.compacted_for(one.device));
                }
            }
        }
        r
    }

    /// Largest contiguous counter of `device` (its version-vector entry).
    pub fn contiguous(&self, device: &DeviceId) -> (r: Option<u64>)
        requires
            self.wf(),
        ensures
            r == if self.prefix().contains_key(*device) {
                Some(self.prefix()[*device])
            } else {
                None
            },
    {
        match self.cc.get(device) {
            Some(n) => Some(*n),
            None => None,
        }
    }

    /// Number of dots held in the cloud (observed beyond a gap).
    pub fn cloud_len(&self) -> (r: usize)
        requires
            self.wf(),
        ensures
            r == self.cloud().len(),
    {
        proof {
            self.dc.lemma_view();
        }
        self.dc.len()
    }

    /// Generates the next fresh dot of `device` (counter = largest observed
    /// + 1) and records it in the context.
    pub fn next_dot(&mut self, device: DeviceId) -> (r: Dot)
        requires
            old(self).wf(),
            forall|c: u64| #[trigger]
                old(self)@.contains(Dot { device, counter: c }) ==> c < u64::MAX - 1,
        ensures
            final(self).wf(),
            r.device == device,
            forall|c: u64| #[trigger] old(self)@.contains(Dot { device, counter: c }) ==> c < r.counter,
            r.counter == 1 || old(self)@.contains(Dot { device, counter: (r.counter - 1) as u64 }),
            !old(self)@.contains(r),
            r == fresh_dot(old(self)@, device),
            final(self)@ == old(self)@.insert(r),
    {
        let base: u64 = match self.cc.get(&device) {
            Some(n) => *n,
            None => 0,
        };
        let mut max_cloud: u64 = 0;
        let mut i: usize = 0;
        proof {
            self.dc.lemma_view();
        }
        while i < self.dc.len()
            invariant
                self.wf(),
                i <= self.dc.elems().len(),
                forall|j: int| 0 <= j < i && (#[trigger] self.dc.elems()[j]).device == device
                    ==> self.dc.elems()[j].counter <= max_cloud,
                max_cloud == 0 || self.cloud().contains(Dot { device, counter: max_cloud }),
            decreases self.dc.elems().len() - i,
        {
            let d = self.dc.elem_at(i);
            proof {
                self.dc.lemma_view();
            }
            match d.device.compare(&device) {
                Order::Equal => {
                    if d.counter > max_cloud {
                        max_cloud = d.counter;
                    }
                },
                _ => {},
            }
            i = i + 1;
        }
        proof {
            self.dc.lemma_view();
            if base > 0 {
                assert(self@.contains(Dot { device, counter: base }));
            }
            if max_cloud > 0 {
                assert(self@.contains(Dot { device, counter: max_cloud }));
            }
            assert forall|c: u64| #[trigger] self@.contains(Dot { device, counter: c }) implies c
                <= base || c <= max_cloud by {
                let d = Dot { device, counter: c };
                if self.cloud().contains(d) {
                    let j = choose|j: int| 0 <= j < self.dc.elems().len() && self.dc.elems()[j] == d;
                }
            }
        }
        let top = if base >= max_cloud {
            base
        } else {
            max_cloud
        };
        let dot = Dot::new(device, top + 1);
        proof {
            assert(is_next_counter(self@, device, dot.counter));
            let c = choose|c: u64| is_next_counter(self@, device, c);
            lemma_next_counter_unique(self@, device, c, dot.counter);
        }
        self.insert(dot);
        dot
    }

    /// Records a dot already known or received, then compacts.
    pub fn insert(&mut self, dot: Dot)
        requires
            old(self).wf(),
            1 <= dot.counter < u64::MAX,
        ensures
            final(self).wf(),
            final(self)@ == old(self)@.insert(dot),
    {
        if self.contains(&dot) {
            assert(self@ =~= old(self)@.insert(dot));
            return;
        }
        self.dc.insert(dot);
        proof {
            assert(observed(self.prefix(), self.cloud()) =~= old(self)@.insert(dot));
            assert forall|d: Dot| #[trigger] self.cloud().contains(d) && d.device != dot.device
                implies self.compacted_for(d.device) by {
                assert(old(self).cloud().contains(d));
                assert(old(self).compacted_for(d.device));
            }
        }
        self.compact_device(dot.device);
    }

    /// Absorbs into `cc` the longest contiguous run of `dc` for `device`.
    fn compact_device(&mut self, device: DeviceId)
        requires
            old(self).bounded(),
            old(self).uncovered_cloud(),
        ensures
            final(self).bounded(),
            final(self).uncovered_cloud(),
            final(self)@ == old(self)@,
            final(self).compacted_for(device),
            forall|x: DeviceId| #[trigger] old(self).compacted_for(x) ==> final(self).compacted_for(x),
            final(self).cloud().subset_of(old(self).cloud()),
    {
        let ghost old_prefix = self.prefix();
        let ghost old_cloud = self.cloud();
        let mut n: u64 = match self.cc.get(&device) {
            Some(v) => *v,
            None => 0,
        };
        while n < u64::MAX - 1 && self.dc.remove(&Dot::new(device, n + 1))
            invariant
                self.bounded(),
                self.prefix() == old_prefix,
                self.cloud().subset_of(old_cloud),
                base_of(old_prefix, device) <= n < u64::MAX,
                forall|d: Dot| #[trigger] old_cloud.contains(d) && !self.cloud().contains(d)
                    ==> d.device == device && base_of(old_prefix, device) < d.counter <= n,
                forall|c: u64| base_of(old_prefix, device) < c <= n
                    ==> #[trigger] old_cloud.contains(Dot { device, counter: c }),
                forall|c: u64| base_of(old_prefix, device) < c <= n
                    ==> !#[trigger] self.cloud().contains(Dot { device, counter: c }),
                old_prefix == old(self).prefix(),
                old_cloud == old(self).cloud(),
            decreases u64::MAX - n,
        {
            n = n + 1;
        }
        proof {
            if n == u64::MAX - 1 {
                assert(!self.cloud().contains(Dot { device, counter: u64::MAX }));
            }
        }
        if n > 0 {
            self.cc.insert(device, n);
        }
        proof {
            let target = old(self)@;
            assert forall|d: Dot| #[trigger] self@.contains(d) == target.contains(d) by {
                if d.device == device && d.counter >= 1 && d.counter <= n && base_of(old_prefix, device) < d.counter {
                    assert(old_cloud.contains(Dot { device, counter: d.counter }));
                }
            }
            assert(self@ =~= target);
            assert forall|d: Dot| #[trigger] self.cloud().contains(d) implies !covered(self.prefix(), d) by {
                assert(old_cloud.contains(d));
                assert(!covered(old_prefix, d));
                if d.device == device && d.counter <= n && base_of(old_prefix, device) < d.counter {
                    assert(!self.cloud().contains(Dot { device, counter: d.counter }));
                }
            }
            assert forall|x: DeviceId| #[trigger] old(self).compacted_for(x) implies self.compacted_for(x) by {
                if x != device {
                    assert(base_of(self.prefix(), x) == base_of(old_prefix, x));
                }
            }
        }
    }

    /// Merges (union) another causal context.
    pub fn merge(&mut self, other: &DotContext)
        requires
            old(self).wf(),
            other.wf(),
        ensures
            final(self).wf(),
            final(self)@ == old(self)@.union(other@),
    {
        let ghost target = old(self)@.union(other@);
        // Version vectors: pointwise maximum.
        let mut i: usize = 0;
        proof {
            other.cc.lemma_view();
        }
        while i < other.cc.len()
            invariant
                self.bounded(),
                other.wf(),
                i <= other.cc.keys().len(),
                self.cloud() == old(self).cloud(),
                forall|d: Dot| #[trigger] covered(self.prefix(), d) == (covered(old(self).prefix(), d)
                    || exists|j: int| 0 <= j < i && other.cc.keys()[j] == d.device && d.counter <= other.cc.vals()[j]),
            decreases other.cc.keys().len() - i,
        {
            proof {
                other.cc.lemma_view();
            }
            let device = other.cc.key_at(i);
            let n = *other.cc.value_at(i);
            let cur: u64 = match self.cc.get(device) {
                Some(v) => *v,
                None => 0,
            };
            let top = if cur >= n {
                cur
            } else {
                n
            };
            let ghost before = self.prefix();
            proof {
                assert(other.cc@.contains_key(*device));
                assert(other.cc@[*device] == n);
            }
            self.cc.insert(*device, top);
            proof {
                assert forall|dev: DeviceId| #[trigger] self.cc@.contains_key(dev) implies 1
                    <= self.cc@[dev] < u64::MAX by {
                    if dev != *device {
                        assert(before.contains_key(dev));
                    }
                }
                assert forall|d: Dot| #[trigger] covered(self.prefix(), d) == (covered(old(self).prefix(), d)
                    || exists|j: int| 0 <= j < i + 1 && other.cc.keys()[j] == d.device && d.counter <= other.cc.vals()[j]) by {
                    if d.device == *device {
                        if covered(before, d) {
                        }
                    } else {
                        assert(covered(self.prefix(), d) == covered(before, d));
                        if exists|j: int| 0 <= j < i + 1 && other.cc.keys()[j] == d.device && d.counter <= other.cc.vals()[j] {
                            let j = choose|j: int| 0 <= j < i + 1 && other.cc.keys()[j] == d.device && d.counter <= other.cc.vals()[j];
                            assert(j < i);
                        }
                    }
                }
            }
            i = i + 1;
        }
        proof {
            other.cc.lemma_view();
            assert forall|d: Dot| #[trigger] covered(self.prefix(), d) == (covered(old(self).prefix(), d)
                || covered(other.prefix(), d)) by {
                if covered(other.prefix(), d) {
                    let j = choose|j: int| 0 <= j < other.cc.keys().len() && other.cc.keys()[j] == d.device;
                }
            }
        }
        // Clouds: union.
        let mut k: usize = 0;
        proof {
            other.dc.lemma_view();
        }
        while k < other.dc.len()
            invariant
                self.bounded(),
                other.wf(),
                k <= other.dc.elems().len(),
                forall|d: Dot| #[trigger] covered(self.prefix(), d) == (covered(old(self).prefix(), d)
                    || covered(other.prefix(), d)),
                self.cloud() == old(self).cloud().union(other.dc.elems().take(k as int).to_set()),
            decreases other.dc.elems().len() - k,
        {
            proof {
                other.dc.lemma_view();
            }
            let d = *other.dc.elem_at(k);
            let ghost pre = self.prefix();
            let ghost pre_cloud = self.cloud();
            proof {
                assert(other.dc@.contains(d));
            }
            self.dc.insert(d);
            proof {
                assert(self.prefix() == pre);
                assert forall|x: Dot| #[trigger] self.dc@.contains(x) implies 1 <= x.counter < u64::MAX by {
                    if x != d {
                        assert(pre_cloud.contains(x));
                    }
                }
                other.dc.elems().take(k as int).lemma_push_to_set_commute(other.dc.elems()[k as int]);
                assert(other.dc.elems().take(k + 1) =~= other.dc.elems().take(k as int).push(other.dc.elems()[k as int]));
                assert(self.cloud() =~= old(self).cloud().union(other.dc.elems().take(k + 1).to_set()));
            }
            k = k + 1;
        }
        proof {
            other.dc.lemma_view();
            assert(other.dc.elems().take(k as int) =~= other.dc.elems());
            assert(self@ =~= target);
        }
        // Purge the cloud of the dots now covered by the prefix…
        let mut kept: OrdSet<Dot> = OrdSet::new();
        let mut m: usize = 0;
        proof {
            self.dc.lemma_view();
        }
        while m < self.dc.len()
            invariant
                self.bounded(),
                kept.wf(),
                kept@.subset_of(self.cloud()),
                m <= self.dc.elems().len(),
                self@ == target,
                forall|d: Dot| #[trigger] kept@.contains(d) <==> (self.dc.elems().take(m as int).contains(d)
                    && !covered(self.prefix(), d)),
            decreases self.dc.elems().len() - m,
        {
            proof {
                self.dc.lemma_view();
            }
            let d = *self.dc.elem_at(m);
            let in_prefix = match self.cc.get(&d.device) {
                Some(n) => d.counter <= *n,
                None => false,
            };
            let ghost pre_kept = kept@;
            proof {
                assert(in_prefix == covered(self.prefix(), d));
                assert(self.cloud().contains(d));
            }
            if !in_prefix {
                kept.insert(d);
            }
            proof {
                assert(self.dc.elems().take(m + 1) =~= self.dc.elems().take(m as int).push(d));
                assert(kept@ =~= if in_prefix { pre_kept } else { pre_kept.insert(d) });
                let t1 = self.dc.elems().take(m + 1);
                let t0 = self.dc.elems().take(m as int);
                assert(t1[m as int] == d);
                assert forall|x: Dot| #[trigger] t1.contains(x) <==> (t0.contains(x) || x == d) by {
                    if t1.contains(x) && x != d {
                        let j = choose|j: int| 0 <= j < m + 1 && #[trigger] t1[j] == x;
                        assert(t0[j] == x);
                    }
                    if t0.contains(x) {
                        let j = choose|j: int| 0 <= j < m && #[trigger] t0[j] == x;
                        assert(t1[j] == x);
                    }
                }
                assert forall|x: Dot| #[trigger] kept@.contains(x) <==> (t1.contains(x)
                    && !covered(self.prefix(), x)) by {
                    if x != d {
                        assert(kept@.contains(x) == pre_kept.contains(x));
                    }
                }
            }
            m = m + 1;
        }
        proof {
            self.dc.lemma_view();
            assert(self.dc.elems().take(m as int) =~= self.dc.elems());
        }
        self.dc = kept;
        proof {
            assert(self@ =~= target);
        }
        // …then compact the runs that became contiguous.
        let mut devices: OrdSet<DeviceId> = OrdSet::new();
        let mut p: usize = 0;
        proof {
            self.dc.lemma_view();
        }
        while p < self.dc.len()
            invariant
                self.bounded(),
                devices.wf(),
                p <= self.dc.elems().len(),
                forall|j: int| 0 <= j < p ==> devices@.contains(#[trigger] self.dc.elems()[j].device),
            decreases self.dc.elems().len() - p,
        {
            let d = self.dc.elem_at(p);
            devices.insert(d.device);
            p = p + 1;
        }
        proof {
            self.dc.lemma_view();
            devices.lemma_view();
            assert forall|d: Dot| #[trigger] self.cloud().contains(d) implies devices@.contains(d.device) by {
                let j = choose|j: int| 0 <= j < self.dc.elems().len() && self.dc.elems()[j] == d;
            }
        }
        let mut q: usize = 0;
        while q < devices.len()
            invariant
                self.bounded(),
                devices.wf(),
                q <= devices.elems().len(),
                self@ == target,
                self.uncovered_cloud(),
                forall|d: Dot| #[trigger] self.cloud().contains(d) ==> devices@.contains(d.device),
                forall|j: int| 0 <= j < q ==> self.compacted_for(#[trigger] devices.elems()[j]),
            decreases devices.elems().len() - q,
        {
            let device = *devices.elem_at(q);
            self.compact_device(device);
            q = q + 1;
        }
        proof {
            devices.lemma_view();
            assert forall|d: Dot| #[trigger] self.cloud().contains(d) implies self.compacted_for(d.device) by {
                assert(devices@.contains(d.device));
                let j = choose|j: int| 0 <= j < devices.elems().len() && devices.elems()[j] == d.device;
            }
        }
    }
}

impl PartialEq for DotContext {
    fn eq(&self, other: &Self) -> (r: bool) {
        self.cc.same_entries(&other.cc) && self.dc.same_elems(&other.dc)
    }
}

impl PartialEqSpecImpl for DotContext {
    open spec fn obeys_eq_spec() -> bool {
        true
    }

    open spec fn eq_spec(&self, other: &DotContext) -> bool {
        self.same_repr(*other)
    }
}

impl Eq for DotContext {
}

} // verus!
