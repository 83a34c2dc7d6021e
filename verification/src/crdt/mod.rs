//! Custom delta-state CRDTs: convergence without coordination.
//!
//! Primitives: [`Hlc`] (hybrid logical clock) + [`DeviceId`] → totally ordered
//! [`Timestamp`]; [`LwwRegister`]; [`AddWinsSet`] with its causal context
//! [`DotContext`].

pub mod awset;
pub mod dot;
pub mod hlc;
pub mod lww;

pub use hlc::{Hlc, HlcClock};
pub use lww::LwwRegister;
pub use awset::AddWinsSet;
pub use dot::{Dot, DotContext};

use crate::error::{Error, Result};
use crate::order::{bytes_precede, compare_bytes, lemma_bytes_irreflexive, lemma_bytes_total, lemma_bytes_transitive, Order, TotalOrder};
use crate::primitives::{describe_random_error, random_bytes};
use vstd::prelude::*;

verus! {

/// Stable identifier of a device (16 bytes). Serves as the **deterministic
/// tiebreak** in the total order of [`Timestamp`]s. Not secret.
#[derive(Clone, Copy, PartialEq, Eq, PartialOrd, Ord, Hash, Debug)]
pub struct DeviceId([u8; 16]);

impl View for DeviceId {
    type V = DeviceId;

    open spec fn view(&self) -> DeviceId {
        *self
    }
}

impl DeviceId {
    /// The identifier's 16 bytes.
    pub closed spec fn bytes(self) -> Seq<u8> {
        self.0@
    }

    /// Two identifiers with the same bytes are the same identifier.
    pub proof fn lemma_bytes_injective(a: DeviceId, b: DeviceId)
        ensures
            a.bytes().len() == 16,
            (a.bytes() == b.bytes()) == (a == b),
    {
        if a.bytes() == b.bytes() {
            assert(a.0 =~= b.0);
        }
    }

    /// Builds an identifier from 16 bytes.
    pub fn from_bytes(bytes: [u8; 16]) -> (r: Self)
        ensures
            r.bytes() == bytes@,
    {
        DeviceId(bytes)
    }

    /// The identifier's 16 bytes.
    pub fn as_bytes(&self) -> (r: &[u8; 16])
        ensures
            r@ == self.bytes(),
    {
        &self.0
    }

    /// Draws a random identifier from the OS CSPRNG. Fails only when the OS
    /// generator fails; the bytes drawn are not stated.
    pub fn generate() -> (r: Result<Self>)
        ensures
            r matches Err(e) ==> e matches Error::Crdt(m) && "CSPRNG : "@.is_prefix_of(m@),
    {
        match random_bytes::<16>() {
            Ok(bytes) => Ok(DeviceId(bytes)),
            Err(e) => Err(Error::Crdt(describe_random_error(&e))),
        }
    }
}

impl TotalOrder for DeviceId {
    open spec fn precedes(a: DeviceId, b: DeviceId) -> bool {
        bytes_precede(a.bytes(), b.bytes())
    }

    proof fn lemma_irreflexive(a: DeviceId) {
        lemma_bytes_irreflexive(a.bytes());
    }

    proof fn lemma_transitive(a: DeviceId, b: DeviceId, c: DeviceId) {
        lemma_bytes_transitive(a.bytes(), b.bytes(), c.bytes());
    }

    proof fn lemma_total(a: DeviceId, b: DeviceId) {
        lemma_bytes_total(a.bytes(), b.bytes());
        DeviceId::lemma_bytes_injective(a, b);
    }

    fn compare(&self, other: &DeviceId) -> (r: Order) {
        proof {
            DeviceId::lemma_bytes_injective(*self, *other);
        }
        compare_bytes(self.0.as_slice(), other.0.as_slice())
    }

    fn duplicate(&self) -> (r: DeviceId) {
        *self
    }
}

/// Totally ordered stamp of a write: [`Hlc`] then [`DeviceId`] (tiebreak).
/// The lexicographic order `(hlc, device)` separates **deterministically** two
/// concurrent writes that carry the same HLC.
#[derive(Clone, Copy, PartialEq, Eq, PartialOrd, Ord, Hash, Debug)]
pub struct Timestamp {
    /// Hybrid logical clock of the write.
    pub hlc: Hlc,
    /// Authoring device (separates equal HLCs).
    pub device: DeviceId,
}

impl View for Timestamp {
    type V = Timestamp;

    open spec fn view(&self) -> Timestamp {
        *self
    }
}

impl Timestamp {
    /// Assembles a timestamp.
    pub fn new(hlc: Hlc, device: DeviceId) -> (r: Self)
        ensures
            r.hlc == hlc,
            r.device == device,
    {
        Timestamp { hlc, device }
    }
}

impl TotalOrder for Timestamp {
    open spec fn precedes(a: Timestamp, b: Timestamp) -> bool {
        Hlc::precedes(a.hlc, b.hlc) || (a.hlc == b.hlc && DeviceId::precedes(a.device, b.device))
    }

    proof fn lemma_irreflexive(a: Timestamp) {
        DeviceId::lemma_irreflexive(a.device);
    }

    proof fn lemma_transitive(a: Timestamp, b: Timestamp, c: Timestamp) {
        if a.hlc == b.hlc && b.hlc == c.hlc {
            DeviceId::lemma_transitive(a.device, b.device, c.device);
        }
    }

    proof fn lemma_total(a: Timestamp, b: Timestamp) {
        DeviceId::lemma_total(a.device, b.device);
    }

    fn compare(&self, other: &Timestamp) -> (r: Order) {
        match self.hlc.compare(&other.hlc) {
            Order::Equal => {
                proof {
                    DeviceId::lemma_irreflexive(self.device);
                }
                self.device.compare(&other.device)
            },
            Order::Less => {
                proof {
                    DeviceId::lemma_irreflexive(self.device);
                }
                Order::Less
            },
            Order::Greater => {
                proof {
                    DeviceId::lemma_irreflexive(self.device);
                }
                Order::Greater
            },
        }
    }

    fn duplicate(&self) -> (r: Timestamp) {
        *self
    }
}

/// Law: the HLC dominates the order, whatever the devices.
pub proof fn lemma_timestamp_hlc_first(a: Timestamp, b: Timestamp)
    requires
        Hlc::precedes(a.hlc, b.hlc),
    ensures
        Timestamp::precedes(a, b),
        !Timestamp::precedes(b, a),
{
    crate::order::lemma_asymmetric::<Timestamp>(a, b);
}

/// Law: on equal HLCs, distinct devices give distinct, ordered timestamps.
pub proof fn lemma_timestamp_device_breaks_tie(a: Timestamp, b: Timestamp)
    requires
        a.hlc == b.hlc,
        a.device != b.device,
    ensures
        a != b,
        Timestamp::precedes(a, b) || Timestamp::precedes(b, a),
{
    DeviceId::lemma_total(a.device, b.device);
}

} // verus!
