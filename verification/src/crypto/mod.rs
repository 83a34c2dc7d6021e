//! End-to-end encryption — key hierarchy.
//!
//! master password —Argon2id→ **KEK** ([`MasterKey`]) —AEAD→ wraps/unwraps the
//! **root vault key** ([`VaultKey`], random, independent of the password).
//! The vault key encrypts the vault's entries (one AEAD key per entry) and is
//! also wrapped by a recovery code (recovery kit). The server never sees the
//! password nor the vault key.
//!
//! Primitives: Argon2id (KDF), XChaCha20-Poly1305 (AEAD) — audited crates
//! (RustCrypto), no home-made cryptography.

pub mod aead;
pub mod device_key;
pub mod entry;
pub mod kdf;
pub mod pairing;
pub mod recovery;
pub mod server_blob;
pub mod vault_key;

pub use aead::{decode_ciphertext, encode_ciphertext, seal_with_nonce, Ciphertext, CIPHERTEXT_VERSION};
pub use device_key::{device_sign, device_verify, generate_device_keypair, keypair_from_seed, DeviceKeypair};
pub use entry::{decrypt_entry, encrypt_entry};
pub use kdf::derive_master_key;
pub use pairing::{
    pairing_new_device_confirm, pairing_open, pairing_seal_with_nonce, pairing_source_begin, pairing_source_respond,
    pairing_source_seal, pairing_start, pairing_start_from, PairingConfirm, PairingOpenResult, PairingSourceBegin,
    PairingStart,
};
pub use recovery::{create_recovery_kit, recover_vault_key, recovery_kit_from, RecoveryCode};
pub use server_blob::{open_with_export_key, seal_with_export_key};
pub use vault_key::{
    generate_vault_key_bytes, unwrap_vault_key, unwrap_vault_key_bytes, wrap_vault_key, wrap_vault_key_bytes,
};

use crate::error::{message_with_number, Error, Result};
use crate::primitives::wipe_key;
use vstd::prelude::*;

verus! {

/// Length of symmetric keys (256 bits).
pub const KEY_LEN: usize = 32;

/// Length of the derivation salt (256 bits).
pub const SALT_LEN: usize = 32;

/// Length of the XChaCha20-Poly1305 nonce (192 bits).
pub const XNONCE_LEN: usize = 24;

/// Argon2id memory cost, in KiB (64 MiB).
pub const ARGON2_M_COST_KIB: u32 = 65_536;

/// Argon2id number of passes.
pub const ARGON2_T_COST: u32 = 3;

/// Argon2id number of lanes.
pub const ARGON2_P_COST: u32 = 1;

/// Copies a slice into an `N`-byte array, when it has exactly `N` bytes.
pub(crate) fn exact_array<const N: usize>(bytes: &[u8]) -> (r: Option<[u8; N]>)
    ensures
        r is Some <==> bytes@.len() == N,
        r matches Some(a) ==> a@ == bytes@,
{
    if bytes.len() != N {
        return None;
    }
    let mut a = [0u8; N];
    let mut i: usize = 0;
    while i < N
        invariant
            bytes@.len() == N,
            i <= N,
            a@.len() == N,
            forall|j: int| 0 <= j < i ==> a@[j] == bytes@[j],
        decreases N - i,
    {
        a[i] = bytes[i];
        i = i + 1;
    }
    assert(a@ =~= bytes@);
    Some(a)
}

/// Wrapping key (KEK) derived from the master password with Argon2id. Never
/// persisted; only wraps and unwraps the [`VaultKey`].
#[derive(Clone)]
pub struct MasterKey([u8; KEY_LEN]);

/// Root key of the vault, random and **independent of the password**.
/// Encrypts the entries; handed to devices at pairing, never to the server.
#[derive(Clone)]
pub struct VaultKey([u8; KEY_LEN]);

impl MasterKey {
    /// The key's bytes.
    pub closed spec fn bytes(self) -> Seq<u8> {
        self.0@
    }

    pub(crate) fn from_bytes(bytes: [u8; KEY_LEN]) -> (k: Self)
        ensures
            k.bytes() == bytes@,
    {
        MasterKey(bytes)
    }

    /// Builds a KEK from a slice, checking its length.
    pub(crate) fn from_slice(bytes: &[u8]) -> (r: Result<Self>)
        ensures
            r is Ok <==> bytes@.len() == KEY_LEN,
            r matches Ok(k) ==> k.bytes() == bytes@,
            r matches Err(e) ==> e is Crypto,
    {
        match exact_array::<KEY_LEN>(bytes) {
            Some(a) => Ok(MasterKey(a)),
            None => Err(Error::Crypto(
                message_with_number("KEK de taille invalide (", bytes.len(), " octets, 32 attendus)"),
            )),
        }
    }

    /// The key's bytes.
    pub fn as_bytes(&self) -> (r: &[u8; KEY_LEN])
        ensures
            r@ == self.bytes(),
    {
        &self.0
    }

    /// Wipes the key from memory: every byte becomes 0.
    pub fn wipe(&mut self)
        ensures
            final(self).bytes() == Seq::new(KEY_LEN as nat, |i: int| 0u8),
    {
        wipe_key(&mut self.0);
    }
}

impl VaultKey {
    /// The key's bytes.
    pub closed spec fn bytes(self) -> Seq<u8> {
        self.0@
    }

    pub proof fn lemma_len(self)
        ensures
            self.bytes().len() == KEY_LEN,
    {
    }

    pub(crate) fn from_bytes(bytes: [u8; KEY_LEN]) -> (k: Self)
        ensures
            k.bytes() == bytes@,
    {
        VaultKey(bytes)
    }

    /// Builds a vault key from a slice, checking its length.
    pub(crate) fn from_slice(bytes: &[u8]) -> (r: Result<Self>)
        ensures
            r is Ok <==> bytes@.len() == KEY_LEN,
            r matches Ok(k) ==> k.bytes() == bytes@,
            r matches Err(e) ==> e is Crypto,
    {
        match exact_array::<KEY_LEN>(bytes) {
            Some(a) => Ok(VaultKey(a)),
            None => Err(Error::Crypto(
                message_with_number("VaultKey de taille invalide (", bytes.len(), " octets, 32 attendus)"),
            )),
        }
    }

    /// The key's bytes.
    pub fn as_bytes(&self) -> (r: &[u8; KEY_LEN])
        ensures
            r@ == self.bytes(),
    {
        &self.0
    }

    /// Wipes the key from memory: every byte becomes 0.
    pub fn wipe(&mut self)
        ensures
            final(self).bytes() == Seq::new(KEY_LEN as nat, |i: int| 0u8),
    {
        wipe_key(&mut self.0);
    }
}

impl Drop for MasterKey {
    /// The key is wiped when it goes out of use.
    fn drop(&mut self)
        opens_invariants none
        no_unwind
    {
        wipe_key(&mut self.0);
    }
}

impl Drop for VaultKey {
    /// The key is wiped when it goes out of use.
    fn drop(&mut self)
        opens_invariants none
        no_unwind
    {
        wipe_key(&mut self.0);
    }
}

} // verus!
