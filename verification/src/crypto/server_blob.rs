//! Wrapping of the vault key (already wrapped by the KEK) under the **OPAQUE
//! export key**, for server-side storage (several devices).
//!
//! Defence in depth: the server only stores this blob. Without completing
//! the OPAQUE protocol (to obtain the `export_key`, derived from the
//! password), the blob is **useless** — a leak of the database does not even
//! let an attacker *start* a dictionary attack on the KEK. The `export_key`
//! never leaves the client.

use super::aead::{open, opened, seal, seal_failure, sealed_by, Ciphertext};
use super::KEY_LEN;
use crate::error::{Error, Result};
use crate::primitives::{hkdf_expand, hkdf_sha256, wipe_key};
use vstd::prelude::*;
use vstd::string::StringSliceAdditionalSpecFns;

verus! {

/// Domain separation of the key derived from the export key.
pub const SERVER_BLOB_INFO: &'static str = "realm-guard-core/v1/server-blob-key";

/// AEAD key of the server blob: HKDF-SHA256 of the export key.
pub open spec fn blob_key_of(export_key: Seq<u8>) -> Seq<u8> {
    hkdf_sha256(export_key, SERVER_BLOB_INFO.spec_bytes(), KEY_LEN as nat)
}

/// Derives the blob's AEAD key from the `export_key` (HKDF-SHA256).
fn blob_key(export_key: &[u8]) -> (r: Result<[u8; KEY_LEN]>)
    ensures
        r matches Ok(k) ==> k@ == blob_key_of(export_key@),
        r is Ok,
{
    match hkdf_expand::<KEY_LEN>(export_key, SERVER_BLOB_INFO.as_bytes()) {
        Ok(k) => Ok(k),
        Err(_) => Err(Error::crypto("dérivation HKDF (blob serveur) échouée")),
    }
}

/// Wraps a blob (typically the vault key already wrapped by the KEK) under a
/// key derived from the `export_key`, for server storage. Fails when the OS
/// generator fails or the blob is too long for the cipher.
pub fn seal_with_export_key(export_key: &[u8], plaintext: &[u8]) -> (r: Result<Ciphertext>)
    ensures
        r matches Ok(c) ==> sealed_by(blob_key_of(export_key@), plaintext@, c),
        r matches Err(e) ==> seal_failure(e, plaintext@),
        plaintext@.len() / 64 >= u32::MAX ==> r is Err,
{
    let mut key = blob_key(export_key)?;
    let result = seal(&key, plaintext);
    wipe_key(&mut key);
    result
}

/// Unwraps a server blob with the key derived from the `export_key`. Fails
/// with a wrong `export_key` or a tampered blob — whenever the opening fails.
pub fn open_with_export_key(export_key: &[u8], sealed: &Ciphertext) -> (r: Result<Vec<u8>>)
    ensures
        r is Ok <==> opened(blob_key_of(export_key@), *sealed) is Some,
        r matches Ok(p) ==> opened(blob_key_of(export_key@), *sealed) == Some(p@),
        r matches Err(e) ==> e is Crypto,
{
    let mut key = blob_key(export_key)?;
    let result = open(&key, sealed);
    wipe_key(&mut key);
    result
}

/// Law: a blob sealed under an export key opens, under the same key, to
/// itself.
pub proof fn lemma_blob_roundtrip(export_key: Seq<u8>, plaintext: Seq<u8>, c: Ciphertext)
    requires
        sealed_by(blob_key_of(export_key), plaintext, c),
    ensures
        opened(blob_key_of(export_key), c) == Some(plaintext),
{
}

/// Law: the server blob's key is HKDF-SHA256 keyed by the OPAQUE export key,
/// with the domain `realm-guard-core/v1/server-blob-key` as context; 32 bytes
/// long.
pub proof fn lemma_blob_key_layout(export_key: Seq<u8>)
    ensures
        blob_key_of(export_key) == hkdf_sha256(export_key, "realm-guard-core/v1/server-blob-key".spec_bytes(), 32),
{
}

} // verus!
