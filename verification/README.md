# realm_guard_core

Shared core of Realm Guard: end-to-end encryption of the vault (key
hierarchy, per-entry encryption, recovery kit, device keys, device pairing)
and delta-state CRDTs for local-first synchronisation between devices,
written in Verus with its contracts proved.

Layout:

- `src/crdt` — hybrid logical clock, last-writer-wins register, dots and
  causal context, add-wins set, with their join laws.
- `src/model` — the replicated vault document and its laws (semilattice join,
  deltas that reproduce each mutation, convergence of a delta stream).
- `src/crypto` — key hierarchy, AEAD envelope, per-entry keys, server blob,
  recovery kit, device keys and the two-round pairing protocol.
- `src/wire` — byte framing of the exchange format (varints, byte strings).
- `src/primitives.rs` — the trusted boundary: every call into an outside
  cryptographic crate, with the contract it is believed to meet.
- `app/` — OPAQUE authentication over `opaque-ke`, postcard codec for serde
  types, and serde/thiserror counterparts of the core's plain types.
