//! Device identity keys (Ed25519): generation, signature, verification.
//!
//! Used for **per-device authentication** (server challenge-response): a
//! paired device, which does **not** know the account password, proves its
//! identity by signing a challenge with its private key. The mobile app
//! generates and stores the key and signs; the server verifies against the
//! account's registry. Audited crate (`ed25519-dalek`), no home-made
//! cryptography.

use super::aead::random_failure;
use super::exact_array;
use crate::error::{Error, Result};
use crate::primitives::{
    describe_random_error, ed25519_public, ed25519_public_key, ed25519_sign, ed25519_signature, ed25519_verifies,
    ed25519_verify, random_bytes, wipe_key,
};
use vstd::prelude::*;

verus! {

/// Length of an Ed25519 public key / secret seed.
pub const ED25519_KEY_LEN: usize = 32;

/// Length of an Ed25519 signature.
pub const ED25519_SIG_LEN: usize = 64;

/// Device key pair (bytes, FFI-oriented).
pub struct DeviceKeypair {
    /// Public key (32 bytes) — published in the account's registry.
    pub public: Vec<u8>,
    /// Secret seed (32 bytes) — to keep **offline** (secure storage).
    pub secret: Vec<u8>,
}

/// `signature` is the Ed25519 signature of `message` by the seed `secret`,
/// and it verifies under that seed's public key.
pub open spec fn signed_by(secret: Seq<u8>, message: Seq<u8>, signature: Seq<u8>) -> bool {
    &&& signature == ed25519_signature(secret, message)
    &&& ed25519_verifies(ed25519_public(secret), message, signature)
}

/// What [`device_verify`] answers: both inputs have their Ed25519 lengths
/// and the signature verifies.
pub open spec fn device_verifies(public: Seq<u8>, message: Seq<u8>, signature: Seq<u8>) -> bool {
    &&& public.len() == ED25519_KEY_LEN
    &&& signature.len() == ED25519_SIG_LEN
    &&& ed25519_verifies(public, message, signature)
}

/// The device key pair of a 32-byte seed: the seed as secret, and its
/// Ed25519 public key.
pub fn keypair_from_seed(seed: [u8; ED25519_KEY_LEN]) -> (kp: DeviceKeypair)
    ensures
        kp.secret@ == seed@,
        kp.public@.len() == ED25519_KEY_LEN,
        kp.public@ == ed25519_public(seed@),
{
    let mut seed = seed;
    let public_key = ed25519_public_key(&seed);
    let mut public: Vec<u8> = Vec::new();
    public.extend_from_slice(public_key.as_slice());
    let mut secret: Vec<u8> = Vec::new();
    secret.extend_from_slice(seed.as_slice());
    assert(public@ =~= public_key@);
    assert(secret@ =~= seed@);
    wipe_key(&mut seed);
    DeviceKeypair { public, secret }
}

/// Generates an Ed25519 device key pair from a seed drawn from the OS
/// generator, as [`keypair_from_seed`]. Fails only when the OS generator
/// fails.
pub fn generate_device_keypair() -> (r: Result<DeviceKeypair>)
    ensures
        r matches Ok(kp) ==> {
            &&& kp.secret@.len() == ED25519_KEY_LEN
            &&& kp.public@.len() == ED25519_KEY_LEN
            &&& kp.public@ == ed25519_public(kp.secret@)
        },
        r matches Err(e) ==> random_failure(e),
{
    let mut seed = match random_bytes::<ED25519_KEY_LEN>() {
        Ok(s) => s,
        Err(e) => {
            return Err(Error::Crypto(describe_random_error(&e)));
        },
    };
    let kp = keypair_from_seed(seed);
    wipe_key(&mut seed);
    Ok(kp)
}

/// Signs `message` with the secret seed (32 bytes). Returns a 64-byte
/// signature, which verifies under the seed's public key.
pub fn device_sign(secret: &[u8], message: &[u8]) -> (r: Result<Vec<u8>>)
    ensures
        r is Ok <==> secret@.len() == ED25519_KEY_LEN,
        r matches Ok(s) ==> signed_by(secret@, message@, s@) && s@.len() == ED25519_SIG_LEN,
        r matches Err(e) ==> e is Crypto,
{
    let mut seed = match exact_array::<ED25519_KEY_LEN>(secret) {
        Some(s) => s,
        None => {
            return Err(Error::crypto("longueur de graine invalide (attendu 32)"));
        },
    };
    let signature = ed25519_sign(&seed, message);
    wipe_key(&mut seed);
    let mut out: Vec<u8> = Vec::new();
    out.extend_from_slice(signature.as_slice());
    assert(out@ =~= signature@);
    Ok(out)
}

/// Verifies an Ed25519 signature. Returns `false` on any malformed input
/// (wrong lengths, key not on the curve) or invalid signature — no detailed
/// error oracle.
pub fn device_verify(public: &[u8], message: &[u8], signature: &[u8]) -> (r: bool)
    ensures
        r == device_verifies(public@, message@, signature@),
{
    let public_bytes = match exact_array::<ED25519_KEY_LEN>(public) {
        Some(p) => p,
        None => {
            return false;
        },
    };
    let signature_bytes = match exact_array::<ED25519_SIG_LEN>(signature) {
        Some(s) => s,
        None => {
            return false;
        },
    };
    ed25519_verify(&public_bytes, message, &signature_bytes)
}

/// Law: a signature made with a key pair's secret verifies, for the same
/// message, under that key pair's public key.
pub proof fn lemma_sign_then_verify(public: Seq<u8>, secret: Seq<u8>, message: Seq<u8>, signature: Seq<u8>)
    requires
        secret.len() == ED25519_KEY_LEN,
        public.len() == ED25519_KEY_LEN,
        public == ed25519_public(secret),
        signed_by(secret, message, signature),
        signature.len() == ED25519_SIG_LEN,
    ensures
        device_verifies(public, message, signature),
{
}

} // verus!
