//! Per-entry encryption: each entry of the vault has its **own** key, derived
//! from the root key and the entry's identifier.
//!
//! `HKDF-SHA256(ikm = VK, info = domain ‖ entry_id)` → subkey, then AEAD. The
//! subkey depending on `entry_id`, a ciphertext only decrypts for the right
//! entry (implicit entry ↔ ciphertext binding; no key reuse across entries).

use super::aead::{open, opened, seal, seal_failure, sealed_by, Ciphertext};
use super::{VaultKey, KEY_LEN};
use crate::error::{Error, Result};
use crate::primitives::{hkdf_expand, hkdf_sha256, wipe_key};
use vstd::prelude::*;
use vstd::string::StringSliceAdditionalSpecFns;

verus! {

/// Domain separation of the per-entry subkeys.
pub const ENTRY_KEY_INFO: &'static str = "realm-guard-core/v1/entry-key";

/// The subkey of an entry: HKDF-SHA256 of the vault key, with the domain
/// followed by the entry's identifier as context.
pub open spec fn entry_key(vault_key: Seq<u8>, entry_id: Seq<u8>) -> Seq<u8> {
    hkdf_sha256(vault_key, ENTRY_KEY_INFO.spec_bytes() + entry_id, KEY_LEN as nat)
}

/// Derives an entry's own subkey from the root key.
fn entry_subkey(vault_key: &VaultKey, entry_id: &[u8]) -> (r: Result<[u8; KEY_LEN]>)
    ensures
        r matches Ok(k) ==> k@ == entry_key(vault_key.bytes(), entry_id@),
        r is Ok,
{
    let mut info: Vec<u8> = Vec::new();
    info.extend_from_slice(ENTRY_KEY_INFO.as_bytes());
    info.extend_from_slice(entry_id);
    assert(info@ =~= ENTRY_KEY_INFO.spec_bytes() + entry_id@);
    match hkdf_expand::<KEY_LEN>(vault_key.as_bytes().as_slice(), info.as_slice()) {
        Ok(k) => Ok(k),
        Err(_) => Err(Error::crypto("dérivation HKDF échouée")),
    }
}

/// Encrypts an entry's content under its own subkey (derived from
/// `vault_key` and `entry_id`). Fails when the OS generator fails or the
/// plaintext is too long for the cipher.
pub fn encrypt_entry(vault_key: &VaultKey, entry_id: &[u8], plaintext: &[u8]) -> (r: Result<Ciphertext>)
    ensures
        r matches Ok(c) ==> sealed_by(entry_key(vault_key.bytes(), entry_id@), plaintext@, c),
        r matches Err(e) ==> seal_failure(e, plaintext@),
        plaintext@.len() / 64 >= u32::MAX ==> r is Err,
{
    let mut subkey = entry_subkey(vault_key, entry_id)?;
    let result = seal(&subkey, plaintext);
    wipe_key(&mut subkey);
    result
}

/// Decrypts and authenticates an entry's content. Fails with a wrong root
/// key, a wrong `entry_id` or a tampered ciphertext — whenever the subkey's
/// opening fails.
pub fn decrypt_entry(vault_key: &VaultKey, entry_id: &[u8], ciphertext: &Ciphertext) -> (r: Result<Vec<u8>>)
    ensures
        r is Ok <==> opened(entry_key(vault_key.bytes(), entry_id@), *ciphertext) is Some,
        r matches Ok(p) ==> opened(entry_key(vault_key.bytes(), entry_id@), *ciphertext) == Some(p@),
        r matches Err(e) ==> e is Crypto,
{
    let mut subkey = entry_subkey(vault_key, entry_id)?;
    let result = open(&subkey, ciphertext);
    wipe_key(&mut subkey);
    result
}

/// Law: an entry encrypted under a vault key decrypts, under the same key
/// and identifier, to its plaintext.
pub proof fn lemma_entry_roundtrip(vault_key: Seq<u8>, entry_id: Seq<u8>, plaintext: Seq<u8>, c: Ciphertext)
    requires
        sealed_by(entry_key(vault_key, entry_id), plaintext, c),
    ensures
        opened(entry_key(vault_key, entry_id), c) == Some(plaintext),
{
}

/// Law: an entry's subkey is HKDF-SHA256 keyed by the vault key, whose
/// context is the domain `realm-guard-core/v1/entry-key` first, then the
/// entry's identifier; 32 bytes long.
pub proof fn lemma_entry_key_layout(vault_key: Seq<u8>, entry_id: Seq<u8>)
    ensures
        entry_key(vault_key, entry_id) == hkdf_sha256(
            vault_key,
            "realm-guard-core/v1/entry-key".spec_bytes() + entry_id,
            32,
        ),
{
}

} // verus!
