//! Hybrid logical clock (HLC): orders writes causally without trusting a
//! physical clock. Physical time (`now_ms`, milliseconds since the epoch) is
//! supplied by the caller, so the core stays pure and deterministic.
//!
//! Ref. Kulkarni et al., "Logical Physical Clocks" (2014).

use crate::order::{Order, TotalOrder};
use vstd::prelude::*;

verus! {

/// Hybrid logical clock value: physical time refined by a logical counter.
/// Totally ordered lexicographically (`wall_ms`, then `counter`).
///
/// Strict monotonicity holds in the physical domain: `wall_ms` in epoch
/// milliseconds and `counter` far below `u32::MAX`. The one value that cannot
/// be exceeded is [`Hlc::saturated`], both fields at their maximum.
#[derive(Clone, Copy, PartialEq, Eq, PartialOrd, Ord, Hash, Debug, Default)]
pub struct Hlc {
    /// Physical time in milliseconds (epoch).
    pub wall_ms: u64,
    /// Logical counter separating events with the same `wall_ms`.
    pub counter: u32,
}

impl View for Hlc {
    type V = Hlc;

    open spec fn view(&self) -> Hlc {
        *self
    }
}

impl TotalOrder for Hlc {
    open spec fn precedes(a: Hlc, b: Hlc) -> bool {
        a.wall_ms < b.wall_ms || (a.wall_ms == b.wall_ms && a.counter < b.counter)
    }

    proof fn lemma_irreflexive(a: Hlc) {
    }

    proof fn lemma_transitive(a: Hlc, b: Hlc, c: Hlc) {
    }

    proof fn lemma_total(a: Hlc, b: Hlc) {
    }

    fn compare(&self, other: &Hlc) -> (r: Order) {
        if self.wall_ms < other.wall_ms {
            Order::Less
        } else if self.wall_ms > other.wall_ms {
            Order::Greater
        } else if self.counter < other.counter {
            Order::Less
        } else if self.counter > other.counter {
            Order::Greater
        } else {
            Order::Equal
        }
    }

    fn duplicate(&self) -> (r: Hlc) {
        *self
    }
}

impl Hlc {
    /// The largest clock value: nothing comes after it.
    pub open spec fn saturated() -> Hlc {
        Hlc { wall_ms: u64::MAX, counter: u32::MAX }
    }

    /// Logical increment: bumps the counter, or, when the counter is full,
    /// moves to the next millisecond (saturating) with a zero counter.
    pub open spec fn inc_spec(self) -> Hlc {
        if self.counter < u32::MAX {
            Hlc { wall_ms: self.wall_ms, counter: (self.counter + 1) as u32 }
        } else {
            Hlc {
                wall_ms: if self.wall_ms < u64::MAX { (self.wall_ms + 1) as u64 } else { u64::MAX },
                counter: 0,
            }
        }
    }

    /// Safe logical increment: spills into `wall_ms` instead of panicking
    /// (a counter overflow would take 2^32 events in one millisecond).
    fn inc(self) -> (r: Hlc)
        ensures
            r == self.inc_spec(),
    {
        match self.counter.checked_add(1) {
            Some(counter) => Hlc { wall_ms: self.wall_ms, counter },
            None => Hlc { wall_ms: self.wall_ms.saturating_add(1), counter: 0 },
        }
    }
}

/// The increment moves strictly forward from every value but the saturated one.
pub proof fn lemma_inc_advances(h: Hlc)
    requires
        h != Hlc::saturated(),
    ensures
        Hlc::precedes(h, h.inc_spec()),
{
}

/// Result of a local event on a clock whose last value is `last`.
pub open spec fn tick_spec(last: Hlc, now_ms: u64) -> Hlc {
    if now_ms > last.wall_ms {
        Hlc { wall_ms: now_ms, counter: 0 }
    } else {
        last.inc_spec()
    }
}

/// Result of receiving `remote` on a clock whose last value is `last`.
pub open spec fn update_spec(last: Hlc, now_ms: u64, remote: Hlc) -> Hlc {
    let max_wall = if last.wall_ms >= remote.wall_ms { last.wall_ms } else { remote.wall_ms };
    let max_wall = if max_wall >= now_ms { max_wall } else { now_ms };
    if max_wall == last.wall_ms && max_wall == remote.wall_ms {
        Hlc {
            wall_ms: max_wall,
            counter: if last.counter >= remote.counter { last.counter } else { remote.counter },
        }.inc_spec()
    } else if max_wall == last.wall_ms {
        last.inc_spec()
    } else if max_wall == remote.wall_ms {
        Hlc { wall_ms: max_wall, counter: remote.counter }.inc_spec()
    } else {
        Hlc { wall_ms: max_wall, counter: 0 }
    }
}

/// HLC generator of one device: remembers the last value it issued, so that
/// local values strictly increase.
#[derive(Clone, Debug, Default)]
pub struct HlcClock {
    last: Hlc,
}

impl View for HlcClock {
    type V = Hlc;

    closed spec fn view(&self) -> Hlc {
        self.last
    }
}

impl HlcClock {
    /// New clock at zero.
    pub fn new() -> (c: Self)
        ensures
            c@ == (Hlc { wall_ms: 0, counter: 0 }),
    {
        HlcClock { last: Hlc { wall_ms: 0, counter: 0 } }
    }

    /// A clock whose last issued value is `last` (restoring a persisted clock).
    pub fn resume(last: Hlc) -> (c: Self)
        ensures
            c@ == last,
    {
        HlcClock { last }
    }

    /// Last value issued.
    pub fn last(&self) -> (r: Hlc)
        ensures
            r == self@,
    {
        self.last
    }

    /// **Local** event: returns a value strictly above the previous one
    /// (see [`lemma_tick_strictly_increases`]). `now_ms` is the current
    /// physical time; it may go backwards without breaking the order.
    pub fn tick(&mut self, now_ms: u64) -> (r: Hlc)
        ensures
            r == tick_spec(old(self)@, now_ms),
            final(self)@ == r,
    {
        self.last = if now_ms > self.last.wall_ms {
            Hlc { wall_ms: now_ms, counter: 0 }
        } else {
            self.last.inc()
        };
        self.last
    }

    /// **Receipt** of a remote value: moves the clock past the received event
    /// and past its own last value (see [`lemma_update_dominates`]). Returns
    /// the new local value.
    pub fn update(&mut self, now_ms: u64, remote: Hlc) -> (r: Hlc)
        ensures
            r == update_spec(old(self)@, now_ms, remote),
            final(self)@ == r,
    {
        let max_wall = if self.last.wall_ms >= remote.wall_ms {
            self.last.wall_ms
        } else {
            remote.wall_ms
        };
        let max_wall = if max_wall >= now_ms {
            max_wall
        } else {
            now_ms
        };
        self.last = if max_wall == self.last.wall_ms && max_wall == remote.wall_ms {
            Hlc {
                wall_ms: max_wall,
                counter: if self.last.counter >= remote.counter {
                    self.last.counter
                } else {
                    remote.counter
                },
            }.inc()
        } else if max_wall == self.last.wall_ms {
            self.last.inc()
        } else if max_wall == remote.wall_ms {
            Hlc { wall_ms: max_wall, counter: remote.counter }.inc()
        } else {
            Hlc { wall_ms: max_wall, counter: 0 }
        };
        self.last
    }
}

/// Law: whatever the (even chaotic) physical times, each local event issues a
/// value strictly greater than the previous one, unless the clock already
/// holds the saturated value.
pub proof fn lemma_tick_strictly_increases(last: Hlc, now_ms: u64)
    requires
        last != Hlc::saturated(),
    ensures
        Hlc::precedes(last, tick_spec(last, now_ms)),
{
}

/// Law: after a receipt, the clock dominates both the remote event and its
/// own previous value, unless one of the two is the saturated value.
pub proof fn lemma_update_dominates(last: Hlc, now_ms: u64, remote: Hlc)
    requires
        last != Hlc::saturated(),
        remote != Hlc::saturated(),
    ensures
        Hlc::precedes(last, update_spec(last, now_ms, remote)),
        Hlc::precedes(remote, update_spec(last, now_ms, remote)),
{
}

/// Law: a local event issues the least clock value that comes after the
/// last one and is not behind physical time.
pub proof fn lemma_tick_is_least(last: Hlc, now_ms: u64, h: Hlc)
    requires
        last != Hlc::saturated(),
    ensures
        Hlc::precedes(last, tick_spec(last, now_ms)),
        tick_spec(last, now_ms).wall_ms >= now_ms,
        Hlc::precedes(last, h) && h.wall_ms >= now_ms ==> h == tick_spec(last, now_ms) || Hlc::precedes(
            tick_spec(last, now_ms),
            h,
        ),
{
}

/// Law: a receipt issues the least clock value that comes after both the
/// last local value and the remote one, and is not behind physical time.
pub proof fn lemma_update_is_least(last: Hlc, now_ms: u64, remote: Hlc, h: Hlc)
    requires
        last != Hlc::saturated(),
        remote != Hlc::saturated(),
    ensures
        Hlc::precedes(last, update_spec(last, now_ms, remote)),
        Hlc::precedes(remote, update_spec(last, now_ms, remote)),
        update_spec(last, now_ms, remote).wall_ms >= now_ms,
        Hlc::precedes(last, h) && Hlc::precedes(remote, h) && h.wall_ms >= now_ms ==> h == update_spec(
            last,
            now_ms,
            remote,
        ) || Hlc::precedes(update_spec(last, now_ms, remote), h),
{
}

} // verus!
