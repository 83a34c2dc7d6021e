//! Shared core of Realm Guard: end-to-end encryption of the vault and
//! delta-state CRDTs for local-first synchronisation between devices.
//!
//! Used by the server and by the mobile client (through an FFI bridge). No
//! platform dependency: pure logic, testable deterministically.

pub mod auth;
pub mod crdt;
pub mod crypto;
pub mod error;
pub mod model;
pub mod order;
mod primitives;
pub mod sorted;
pub mod wire;

pub use error::{Error, Result};

use vstd::prelude::*;

verus! {

/// Version of the core (client ↔ server compatibility tracking); the
/// package version.
pub const CORE_VERSION: &'static str = "1.0.0";

/// The version of the core. Trivial entry point that validates the FFI
/// integration and the server dependency.
#[must_use]
pub fn core_version() -> (r: &'static str)
    ensures
        r@ == CORE_VERSION@,
{
    CORE_VERSION
}

} // verus!
