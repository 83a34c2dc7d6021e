//! Root key of the vault ([`VaultKey`]): random generation + wrapping.

use super::aead::{open, opened, random_failure, seal, sealed_by, Ciphertext};
use super::{MasterKey, VaultKey, KEY_LEN};
use crate::error::{Error, Result};
use crate::primitives::{describe_random_error, random_bytes, wipe_bytes};
use vstd::prelude::*;

verus! {

/// What unwrapping `wrapped` under `kek` gives: the opened bytes when they
/// authenticate and form a 32-byte key, `None` otherwise.
pub open spec fn unwrapped(kek: Seq<u8>, wrapped: Ciphertext) -> Option<Seq<u8>> {
    match opened(kek, wrapped) {
        Some(p) => if p.len() == KEY_LEN {
            Some(p)
        } else {
            None
        },
        None => None,
    }
}

impl VaultKey {
    /// Draws a vault key from the OS CSPRNG. Fails only when the OS generator
    /// fails; the bytes drawn are not stated.
    pub fn generate() -> (r: Result<Self>)
        ensures
            r matches Err(e) ==> random_failure(e),
    {
        match random_bytes::<KEY_LEN>() {
            Ok(bytes) => Ok(VaultKey::from_bytes(bytes)),
            Err(e) => Err(Error::Crypto(describe_random_error(&e))),
        }
    }
}

/// Wraps (encrypts) the [`VaultKey`] under the [`MasterKey`] (KEK). Fails
/// only when the OS generator fails.
pub fn wrap_vault_key(vault_key: &VaultKey, kek: &MasterKey) -> (r: Result<Ciphertext>)
    ensures
        r matches Ok(c) ==> sealed_by(kek.bytes(), vault_key.bytes(), c),
        r matches Err(e) ==> random_failure(e),
{
    proof {
        vault_key.lemma_len();
    }
    seal(kek.as_bytes(), vault_key.as_bytes().as_slice())
}

/// Unwraps (decrypts and authenticates) the [`VaultKey`].
pub fn unwrap_vault_key(wrapped: &Ciphertext, kek: &MasterKey) -> (r: Result<VaultKey>)
    ensures
        r is Ok <==> unwrapped(kek.bytes(), *wrapped) is Some,
        r matches Ok(k) ==> unwrapped(kek.bytes(), *wrapped) == Some(k.bytes()),
        r matches Err(e) ==> e is Crypto,
{
    let mut plaintext = open(kek.as_bytes(), wrapped)?;
    let bytes = match super::exact_array::<KEY_LEN>(plaintext.as_slice()) {
        Some(b) => b,
        None => {
            return Err(Error::crypto("taille de clé invalide"));
        },
    };
    wipe_bytes(&mut plaintext);
    Ok(VaultKey::from_bytes(bytes))
}

/// Law: a wrapped key unwraps, under the same KEK, to itself.
pub proof fn lemma_wrap_unwrap_roundtrip(kek: MasterKey, vault_key: VaultKey, wrapped: Ciphertext)
    requires
        sealed_by(kek.bytes(), vault_key.bytes(), wrapped),
    ensures
        unwrapped(kek.bytes(), wrapped) == Some(vault_key.bytes()),
{
    vault_key.lemma_len();
}

/// Draws a vault key and returns its raw bytes: the **byte-oriented**
/// variant for the FFI bridge (the `VaultKey` type stays inside the core).
pub fn generate_vault_key_bytes() -> (r: Result<Vec<u8>>)
    ensures
        r matches Ok(v) ==> v@.len() == KEY_LEN,
        r matches Err(e) ==> random_failure(e),
{
    let key = VaultKey::generate()?;
    let mut v: Vec<u8> = Vec::new();
    v.extend_from_slice(key.as_bytes().as_slice());
    proof {
        key.lemma_len();
    }
    Ok(v)
}

/// Wraps a vault key (bytes) under a KEK (bytes) — byte-oriented variant of
/// [`wrap_vault_key`] for the FFI bridge. Both keys must be [`KEY_LEN`] bytes
/// long.
pub fn wrap_vault_key_bytes(kek: &[u8], vault_key: &[u8]) -> (r: Result<Ciphertext>)
    ensures
        kek@.len() != KEY_LEN || vault_key@.len() != KEY_LEN ==> r is Err,
        r matches Ok(c) ==> sealed_by(kek@, vault_key@, c),
        r matches Err(e) ==> if kek@.len() != KEY_LEN || vault_key@.len() != KEY_LEN {
            e is Crypto
        } else {
            random_failure(e)
        },
{
    let kek = MasterKey::from_slice(kek)?;
    let vault_key = VaultKey::from_slice(vault_key)?;
    wrap_vault_key(&vault_key, &kek)
}

/// Unwraps a vault key and returns its raw bytes — byte-oriented variant of
/// [`unwrap_vault_key`] for the FFI bridge.
pub fn unwrap_vault_key_bytes(kek: &[u8], wrapped: &Ciphertext) -> (r: Result<Vec<u8>>)
    ensures
        r is Ok <==> kek@.len() == KEY_LEN && unwrapped(kek@, *wrapped) is Some,
        r matches Ok(v) ==> unwrapped(kek@, *wrapped) == Some(v@),
        r matches Err(e) ==> e is Crypto,
{
    let kek = MasterKey::from_slice(kek)?;
    let key = unwrap_vault_key(wrapped, &kek)?;
    let mut v: Vec<u8> = Vec::new();
    v.extend_from_slice(key.as_bytes().as_slice());
    assert(v@ =~= key.bytes());
    Ok(v)
}

} // verus!
