//! The library's trusted boundary: every call into an outside crate goes
//! through an item of this file, and its contract is believed, not proved.
//!
//! Deterministic primitives (AEAD, HKDF, Argon2id, Ed25519, X25519, BIP39)
//! have their results named by uninterpreted spec functions, with only the
//! short facts their documentation gives (for instance that decryption gives
//! back what encryption sealed). Randomness is never named.

use argon2::Error as Argon2Error;
use bip39::Error as MnemonicError;
use chacha20poly1305::aead::{Aead, KeyInit};
use chacha20poly1305::Error as AeadError;
use ed25519_dalek::{Signer, Verifier};
use getrandom::Error as OsRandomError;
use hkdf::InvalidLength;
use vstd::prelude::*;
use vstd::string::StringExecFns;
use zeroize::Zeroize;

verus! {

#[verifier::external_type_specification]
#[verifier::external_body]
pub struct ExRandomError(OsRandomError);

/// `getrandom::getrandom` into a fresh `N`-byte buffer: the OS CSPRNG. The
/// bytes drawn, and whether the OS generator fails, are not stated.
#[verifier::external_body]
pub(crate) fn random_bytes<const N: usize>() -> (r: Result<[u8; N], OsRandomError>) {
    let mut bytes = [0u8; N];
    getrandom::getrandom(&mut bytes).map(|_| bytes)
}

/// The `Display` text of a `getrandom::Error`; its content is not stated.
#[verifier::external_body]
fn random_error_text(e: &OsRandomError) -> (r: String) {
    e.to_string()
}

/// Message of a CSPRNG failure: `"CSPRNG : "` followed by the OS error text
/// (that text is `getrandom`'s, and is not stated).
pub(crate) fn describe_random_error(e: &OsRandomError) -> (r: String)
    ensures
        "CSPRNG : "@.is_prefix_of(r@),
{
    let mut m = String::from_str("CSPRNG : ");
    let ghost head = m@;
    let t = random_error_text(e);
    m.append(t.as_str());
    assert(m@.subrange(0, head.len() as int) =~= head);
    m
}

// ---------------------------------------------------------------------------
// AEAD: XChaCha20-Poly1305 (crate `chacha20poly1305`).
// ---------------------------------------------------------------------------

#[verifier::external_type_specification]
#[verifier::external_body]
pub struct ExAeadError(AeadError);

/// XChaCha20-Poly1305 encryption of `plaintext` under `key` and `nonce`,
/// without associated data: ciphertext followed by the 16-byte tag.
pub uninterp spec fn xchacha_seal(key: Seq<u8>, nonce: Seq<u8>, plaintext: Seq<u8>) -> Seq<u8>;

/// XChaCha20-Poly1305 decryption: the plaintext when the tag authenticates
/// `ciphertext` under `key` and `nonce`, `None` otherwise.
pub uninterp spec fn xchacha_open(key: Seq<u8>, nonce: Seq<u8>, ciphertext: Seq<u8>) -> Option<Seq<u8>>;

/// `XChaCha20Poly1305::encrypt` (via the `Aead` trait). The crate refuses a
/// plaintext of `u32::MAX` 64-byte blocks or more and succeeds otherwise; the
/// ciphertext is the named seal, 16 bytes longer than the plaintext, and
/// decrypting it with the same key and nonce gives the plaintext back (AEAD
/// correctness).
#[verifier::external_body]
pub(crate) fn aead_encrypt(key: &[u8; 32], nonce: &[u8; 24], plaintext: &[u8]) -> (r: Result<Vec<u8>, AeadError>)
    ensures
        r is Ok <==> plaintext@.len() / 64 < u32::MAX,
        r matches Ok(c) ==> {
            &&& c@ == xchacha_seal(key@, nonce@, plaintext@)
            &&& c@.len() == plaintext@.len() + 16
            &&& xchacha_open(key@, nonce@, c@) == Some(plaintext@)
        },
{
    let cipher = chacha20poly1305::XChaCha20Poly1305::new(key.into());
    cipher.encrypt(nonce.into(), plaintext)
}

/// `XChaCha20Poly1305::decrypt` (via the `Aead` trait): succeeds exactly when
/// the named opening does, with its plaintext.
#[verifier::external_body]
pub(crate) fn aead_decrypt(key: &[u8; 32], nonce: &[u8; 24], ciphertext: &[u8]) -> (r: Result<Vec<u8>, AeadError>)
    ensures
        r is Ok <==> xchacha_open(key@, nonce@, ciphertext@) is Some,
        r matches Ok(p) ==> xchacha_open(key@, nonce@, ciphertext@) == Some(p@),
{
    let cipher = chacha20poly1305::XChaCha20Poly1305::new(key.into());
    cipher.decrypt(nonce.into(), ciphertext)
}

// ---------------------------------------------------------------------------
// HKDF-SHA256 (crates `hkdf` and `sha2`).
// ---------------------------------------------------------------------------

#[verifier::external_type_specification]
#[verifier::external_body]
pub struct ExInvalidLength(InvalidLength);

/// HKDF-SHA256 with no salt: the first `len` bytes expanded from `ikm` with
/// context `info`.
pub uninterp spec fn hkdf_sha256(ikm: Seq<u8>, info: Seq<u8>, len: nat) -> Seq<u8>;

/// `Hkdf::<Sha256>::new(None, ikm)` then `expand(info, ..)` into `N` bytes.
/// The crate refuses more than 255 × 32 bytes and succeeds otherwise.
#[verifier::external_body]
pub(crate) fn hkdf_expand<const N: usize>(ikm: &[u8], info: &[u8]) -> (r: Result<[u8; N], InvalidLength>)
    ensures
        r is Ok <==> N <= 255 * 32,
        r matches Ok(k) ==> k@ == hkdf_sha256(ikm@, info@, N as nat),
{
    let mut okm = [0u8; N];
    hkdf::Hkdf::<sha2::Sha256>::new(None, ikm).expand(info, &mut okm).map(|_| okm)
}

/// `Hkdf::<Sha256>::new(None, ikm)` then `expand_multi_info(&[a, b, c, d], ..)`
/// into `N` bytes: the crate feeds the components in sequence, which is the
/// expansion of their concatenation. It refuses more than 255 × 32 bytes.
#[verifier::external_body]
pub(crate) fn hkdf_expand_parts<const N: usize>(
    ikm: &[u8],
    a: &[u8],
    b: &[u8],
    c: &[u8],
    d: &[u8],
) -> (r: Result<[u8; N], InvalidLength>)
    ensures
        r is Ok <==> N <= 255 * 32,
        r matches Ok(k) ==> k@ == hkdf_sha256(ikm@, a@ + b@ + c@ + d@, N as nat),
{
    let mut okm = [0u8; N];
    hkdf::Hkdf::<sha2::Sha256>::new(None, ikm).expand_multi_info(&[a, b, c, d], &mut okm).map(|_| okm)
}

// ---------------------------------------------------------------------------
// Argon2id (crate `argon2`).
// ---------------------------------------------------------------------------

#[verifier::external_type_specification]
#[verifier::external_body]
pub struct ExArgon2Error(Argon2Error);

/// Argon2id (version 0x13) of `password` with `salt`, memory `m_cost` KiB,
/// `t_cost` passes and `p_cost` lanes, into 32 bytes.
pub uninterp spec fn argon2id(password: Seq<u8>, salt: Seq<u8>, m_cost: u32, t_cost: u32, p_cost: u32) -> Seq<u8>;

/// `Params::new(m_cost, t_cost, p_cost, Some(32))`, `Argon2::new(Argon2id,
/// V0x13, params)`, then `hash_password_into(password, salt, ..)`. With
/// parameters that `Params::new` accepts and a 32-byte salt, the crate
/// refuses only a password longer than `u32::MAX` bytes.
#[verifier::external_body]
pub(crate) fn argon2id_hash(password: &[u8], salt: &[u8; 32], m_cost: u32, t_cost: u32, p_cost: u32) -> (r: Result<
    [u8; 32],
    Argon2Error,
>)
    requires
        1 <= p_cost <= 0xFF_FFFF,
        8 <= m_cost,
        8 * p_cost <= m_cost,
        1 <= t_cost,
    ensures
        r is Ok <==> password@.len() <= 0xFFFF_FFFF,
        r matches Ok(k) ==> k@ == argon2id(password@, salt@, m_cost, t_cost, p_cost),
{
    let params = argon2::Params::new(m_cost, t_cost, p_cost, Some(32))?;
    let mut out = [0u8; 32];
    argon2::Argon2::new(argon2::Algorithm::Argon2id, argon2::Version::V0x13, params)
        .hash_password_into(password, salt, &mut out)
        .map(|_| out)
}

/// The `Display` text of an `argon2::Error`; its content is not stated.
#[verifier::external_body]
pub(crate) fn argon2_error_text(e: &Argon2Error) -> (r: String) {
    e.to_string()
}

// ---------------------------------------------------------------------------
// Ed25519 (crate `ed25519-dalek`).
// ---------------------------------------------------------------------------

/// Ed25519 public key of the 32-byte secret seed.
pub uninterp spec fn ed25519_public(seed: Seq<u8>) -> Seq<u8>;

/// Ed25519 signature (64 bytes, deterministic) of `message` by `seed`.
pub uninterp spec fn ed25519_signature(seed: Seq<u8>, message: Seq<u8>) -> Seq<u8>;

/// Does `signature` verify for `message` under the 32-byte public key
/// (`false` when the key bytes do not decode to a curve point)?
pub uninterp spec fn ed25519_verifies(public: Seq<u8>, message: Seq<u8>, signature: Seq<u8>) -> bool;

/// `SigningKey::from_bytes(seed).verifying_key().to_bytes()`.
#[verifier::external_body]
pub(crate) fn ed25519_public_key(seed: &[u8; 32]) -> (r: [u8; 32])
    ensures
        r@ == ed25519_public(seed@),
{
    ed25519_dalek::SigningKey::from_bytes(seed).verifying_key().to_bytes()
}

/// `SigningKey::from_bytes(seed).sign(message).to_bytes()` (trait `Signer`).
/// A signature made with a seed verifies under that seed's public key.
#[verifier::external_body]
pub(crate) fn ed25519_sign(seed: &[u8; 32], message: &[u8]) -> (r: [u8; 64])
    ensures
        r@ == ed25519_signature(seed@, message@),
        ed25519_verifies(ed25519_public(seed@), message@, r@),
{
    ed25519_dalek::SigningKey::from_bytes(seed).sign(message).to_bytes()
}

/// `VerifyingKey::from_bytes(public)` then `verify(message, &Signature::from_bytes(signature))`
/// (trait `Verifier`): `false` when either step fails.
#[verifier::external_body]
pub(crate) fn ed25519_verify(public: &[u8; 32], message: &[u8], signature: &[u8; 64]) -> (r: bool)
    ensures
        r == ed25519_verifies(public@, message@, signature@),
{
    match ed25519_dalek::VerifyingKey::from_bytes(public) {
        Ok(key) => key.verify(message, &ed25519_dalek::Signature::from_bytes(signature)).is_ok(),
        Err(_) => false,
    }
}

// ---------------------------------------------------------------------------
// X25519 (crate `x25519-dalek`).
// ---------------------------------------------------------------------------

/// X25519 public key of a 32-byte secret (clamped by the crate).
pub uninterp spec fn x25519_public(secret: Seq<u8>) -> Seq<u8>;

/// X25519 shared secret of a 32-byte secret with a 32-byte public key.
pub uninterp spec fn x25519_shared(secret: Seq<u8>, public: Seq<u8>) -> Seq<u8>;

/// `PublicKey::from(&StaticSecret::from(secret)).to_bytes()`.
#[verifier::external_body]
pub(crate) fn x25519_public_key(secret: &[u8; 32]) -> (r: [u8; 32])
    ensures
        r@ == x25519_public(secret@),
{
    x25519_dalek::PublicKey::from(&x25519_dalek::StaticSecret::from(*secret)).to_bytes()
}

/// `StaticSecret::from(secret).diffie_hellman(&PublicKey::from(public))`.
/// Both sides agree: the secret of `a` with the public key of `b` equals the
/// secret of `b` with the public key of `a`.
#[verifier::external_body]
pub(crate) fn x25519_diffie_hellman(secret: &[u8; 32], public: &[u8; 32]) -> (r: [u8; 32])
    ensures
        r@ == x25519_shared(secret@, public@),
        forall|other: Seq<u8>|
            other.len() == 32 && public@ == #[trigger] x25519_public(other) ==> r@ == x25519_shared(
                other,
                x25519_public(secret@),
            ),
{
    let shared = x25519_dalek::StaticSecret::from(*secret).diffie_hellman(&x25519_dalek::PublicKey::from(*public));
    shared.to_bytes()
}

// ---------------------------------------------------------------------------
// BIP39 mnemonics (crate `bip39`) and `str::trim`.
// ---------------------------------------------------------------------------

#[verifier::external_type_specification]
#[verifier::external_body]
pub struct ExMnemonicError(MnemonicError);

/// The English BIP39 phrase of some entropy: words separated by single spaces.
pub uninterp spec fn bip39_phrase(entropy: Seq<u8>) -> Seq<char>;

/// The entropy of a BIP39 phrase, `None` when the phrase is not valid.
pub uninterp spec fn bip39_entropy(phrase: Seq<char>) -> Option<Seq<u8>>;

/// Whitespace as `char::is_whitespace` and `str::trim` define it: the
/// characters of the Unicode `White_Space` property.
pub open spec fn is_whitespace(c: char) -> bool {
    let u = c as u32;
    ||| 0x9 <= u <= 0xD
    ||| u == 0x20
    ||| u == 0x85
    ||| u == 0xA0
    ||| u == 0x1680
    ||| 0x2000 <= u <= 0x200A
    ||| u == 0x2028
    ||| u == 0x2029
    ||| u == 0x202F
    ||| u == 0x205F
    ||| u == 0x3000
}

/// The text without its leading whitespace.
pub open spec fn trim_start(text: Seq<char>) -> Seq<char>
    decreases text.len(),
{
    if text.len() > 0 && is_whitespace(text[0]) {
        trim_start(text.drop_first())
    } else {
        text
    }
}

/// The text without its trailing whitespace.
pub open spec fn trim_end(text: Seq<char>) -> Seq<char>
    decreases text.len(),
{
    if text.len() > 0 && is_whitespace(text.last()) {
        trim_end(text.drop_last())
    } else {
        text
    }
}

/// `str::trim`: the text without leading and trailing whitespace.
pub open spec fn trimmed(text: Seq<char>) -> Seq<char> {
    trim_end(trim_start(text))
}

/// `Mnemonic::from_entropy(entropy)` then `to_string()`. For 32 bytes of
/// entropy the crate always succeeds; the phrase has no surrounding
/// whitespace and parses back to the entropy.
#[verifier::external_body]
pub(crate) fn bip39_from_entropy(entropy: &[u8; 32]) -> (r: Result<String, MnemonicError>)
    ensures
        r is Ok,
        r matches Ok(p) ==> {
            &&& p@ == bip39_phrase(entropy@)
            &&& trimmed(p@) == p@
            &&& bip39_entropy(p@) == Some(entropy@)
        },
{
    bip39::Mnemonic::from_entropy(entropy).map(|m| m.to_string())
}

/// `Mnemonic::parse(phrase)` then `to_entropy()`: succeeds exactly when the
/// phrase is valid, with its entropy.
#[verifier::external_body]
pub(crate) fn bip39_parse(phrase: &str) -> (r: Result<Vec<u8>, MnemonicError>)
    ensures
        r is Ok <==> bip39_entropy(phrase@) is Some,
        r matches Ok(e) ==> bip39_entropy(phrase@) == Some(e@),
{
    bip39::Mnemonic::parse(phrase).map(|m| m.to_entropy())
}

/// `str::trim`: removes the leading and trailing characters of the Unicode
/// `White_Space` property, as its documentation says.
#[verifier::external_body]
pub(crate) fn trim(text: &str) -> (r: &str)
    ensures
        r@ == trimmed(text@),
{
    text.trim()
}

/// The `Display` text of a `bip39::Error`; its content is not stated.
#[verifier::external_body]
pub(crate) fn mnemonic_error_text(e: &MnemonicError) -> (r: String) {
    e.to_string()
}

// ---------------------------------------------------------------------------
// Wiping secrets (crate `zeroize`).
// ---------------------------------------------------------------------------

/// `Zeroize::zeroize` on a 32-byte array: every byte becomes 0.
#[verifier::external_body]
pub(crate) fn wipe_key(key: &mut [u8; 32])
    ensures
        final(key)@ == Seq::new(32, |i: int| 0u8),
    opens_invariants none
    no_unwind
{
    key.zeroize();
}

/// `Zeroize::zeroize` on a byte vector: its bytes are zeroed, then it is
/// cleared.
#[verifier::external_body]
pub(crate) fn wipe_bytes(bytes: &mut Vec<u8>)
    ensures
        final(bytes)@.len() == 0,
{
    bytes.zeroize();
}

/// `Zeroize::zeroize` on a `String`: its bytes are zeroed, then it is
/// cleared.
#[verifier::external_body]
pub(crate) fn wipe_text(text: &mut String)
    ensures
        final(text)@.len() == 0,
    opens_invariants none
    no_unwind
{
    text.zeroize();
}

} // verus!
