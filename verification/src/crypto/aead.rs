//! Shared AEAD envelope (XChaCha20-Poly1305): random nonce + ciphertext.
//! Used both by key wrapping ([`super::vault_key`]) and by per-entry
//! encryption ([`super::entry`]).

use super::{KEY_LEN, XNONCE_LEN};
use crate::error::{Error, Result};
use crate::order::{
    bytes_precede, compare_bytes, lemma_bytes_irreflexive, lemma_bytes_total, lemma_bytes_transitive, Order, TotalOrder,
};
use crate::primitives::{aead_decrypt, aead_encrypt, describe_random_error, random_bytes, xchacha_open, xchacha_seal};
use crate::wire::{bytes_field, bytes_field_at, lemma_bytes_field_roundtrip, read_array, read_bytes, write_bytes, WireError};
use vstd::prelude::*;

verus! {

/// Version of the envelope format written by [`seal`].
pub const CIPHERTEXT_VERSION: u8 = 1;

/// AEAD ciphertext: format version, nonce (192 bits) and encrypted data
/// (tag included). Opaque.
#[derive(Clone, Debug, PartialEq, Eq, PartialOrd, Ord, Hash)]
pub struct Ciphertext {
    /// Version of the envelope format.
    pub version: u8,
    /// XChaCha20-Poly1305 nonce.
    pub nonce: [u8; XNONCE_LEN],
    /// Encrypted data + authentication tag.
    pub ciphertext: Vec<u8>,
}

impl View for Ciphertext {
    type V = (u8, Seq<u8>, Seq<u8>);

    open spec fn view(&self) -> (u8, Seq<u8>, Seq<u8>) {
        (self.version, self.nonce@, self.ciphertext@)
    }
}

impl TotalOrder for Ciphertext {
    /// Lexicographic: version, then nonce, then encrypted data.
    open spec fn precedes(a: (u8, Seq<u8>, Seq<u8>), b: (u8, Seq<u8>, Seq<u8>)) -> bool {
        a.0 < b.0 || (a.0 == b.0 && (bytes_precede(a.1, b.1) || (a.1 == b.1 && bytes_precede(a.2, b.2))))
    }

    proof fn lemma_irreflexive(a: (u8, Seq<u8>, Seq<u8>)) {
        lemma_bytes_irreflexive(a.1);
        lemma_bytes_irreflexive(a.2);
    }

    proof fn lemma_transitive(a: (u8, Seq<u8>, Seq<u8>), b: (u8, Seq<u8>, Seq<u8>), c: (u8, Seq<u8>, Seq<u8>)) {
        if a.0 == b.0 && b.0 == c.0 {
            if bytes_precede(a.1, b.1) && bytes_precede(b.1, c.1) {
                lemma_bytes_transitive(a.1, b.1, c.1);
            }
            if a.1 == b.1 && b.1 == c.1 && bytes_precede(a.2, b.2) && bytes_precede(b.2, c.2) {
                lemma_bytes_transitive(a.2, b.2, c.2);
            }
        }
    }

    proof fn lemma_total(a: (u8, Seq<u8>, Seq<u8>), b: (u8, Seq<u8>, Seq<u8>)) {
        lemma_bytes_total(a.1, b.1);
        lemma_bytes_total(a.2, b.2);
    }

    fn compare(&self, other: &Ciphertext) -> (r: Order) {
        proof {
            lemma_bytes_irreflexive(self.nonce@);
            lemma_bytes_irreflexive(self.ciphertext@);
        }
        if self.version < other.version {
            return Order::Less;
        }
        if self.version > other.version {
            return Order::Greater;
        }
        match compare_bytes(self.nonce.as_slice(), other.nonce.as_slice()) {
            Order::Less => {
                proof {
                    if bytes_precede(other.nonce@, self.nonce@) {
                        lemma_bytes_transitive(self.nonce@, other.nonce@, self.nonce@);
                    }
                }
                Order::Less
            },
            Order::Greater => {
                proof {
                    if bytes_precede(self.nonce@, other.nonce@) {
                        lemma_bytes_transitive(self.nonce@, other.nonce@, self.nonce@);
                    }
                }
                Order::Greater
            },
            Order::Equal => compare_bytes(self.ciphertext.as_slice(), other.ciphertext.as_slice()),
        }
    }

    fn duplicate(&self) -> (r: Ciphertext) {
        let mut data: Vec<u8> = Vec::new();
        data.extend_from_slice(self.ciphertext.as_slice());
        assert(data@ =~= self.ciphertext@);
        Ciphertext { version: self.version, nonce: self.nonce, ciphertext: data }
    }
}

/// `c` is a version-1 envelope of `plaintext` under `key`: its data is the
/// AEAD seal of the plaintext under its nonce, and opening it gives the
/// plaintext back.
pub open spec fn sealed_by(key: Seq<u8>, plaintext: Seq<u8>, c: Ciphertext) -> bool {
    &&& c.version == CIPHERTEXT_VERSION
    &&& c.ciphertext@ == xchacha_seal(key, c.nonce@, plaintext)
    &&& xchacha_open(key, c.nonce@, c.ciphertext@) == Some(plaintext)
}

/// What opening `c` under `key` gives: `None` for an envelope of another
/// version, or when authentication fails.
pub open spec fn opened(key: Seq<u8>, c: Ciphertext) -> Option<Seq<u8>> {
    if c.version == CIPHERTEXT_VERSION {
        xchacha_open(key, c.nonce@, c.ciphertext@)
    } else {
        None
    }
}

/// The error of a failed draw from the OS generator.
pub open spec fn random_failure(e: Error) -> bool {
    e matches Error::Crypto(m) && "CSPRNG : "@.is_prefix_of(m@)
}

/// The error of a plaintext too long for the cipher.
pub open spec fn too_long_failure(e: Error) -> bool {
    e matches Error::Crypto(m) && m@ == "échec du chiffrement"@
}

/// Why sealing `plaintext` may fail: the OS generator failed, or the
/// plaintext is too long for the cipher (`u32::MAX` blocks of 64 bytes or
/// more).
pub open spec fn seal_failure(e: Error, plaintext: Seq<u8>) -> bool {
    random_failure(e) || (plaintext.len() / 64 >= u32::MAX && too_long_failure(e))
}

/// Encrypts `plaintext` under `key` with the given nonce, as a version-1
/// envelope. Fails exactly when the plaintext is too long for the cipher.
pub fn seal_with_nonce(key: &[u8; KEY_LEN], nonce: [u8; XNONCE_LEN], plaintext: &[u8]) -> (r: Result<Ciphertext>)
    ensures
        r is Ok <==> plaintext@.len() / 64 < u32::MAX,
        r matches Ok(c) ==> c.nonce@ == nonce@ && sealed_by(key@, plaintext@, c),
        r matches Err(e) ==> too_long_failure(e),
{
    match aead_encrypt(key, &nonce, plaintext) {
        Ok(ciphertext) => Ok(Ciphertext { version: CIPHERTEXT_VERSION, nonce, ciphertext }),
        Err(_) => Err(Error::crypto("échec du chiffrement")),
    }
}

/// Draws a nonce and makes it a random-generator failure when it fails.
pub(crate) fn draw_nonce() -> (r: Result<[u8; XNONCE_LEN]>)
    ensures
        r matches Err(e) ==> random_failure(e),
{
    match random_bytes::<XNONCE_LEN>() {
        Ok(n) => Ok(n),
        Err(e) => Err(Error::Crypto(describe_random_error(&e))),
    }
}

/// Encrypts `plaintext` under `key` with a random nonce. Fails when the OS
/// generator fails, or when the plaintext is too long for the cipher.
pub(crate) fn seal(key: &[u8; KEY_LEN], plaintext: &[u8]) -> (r: Result<Ciphertext>)
    ensures
        r matches Ok(c) ==> sealed_by(key@, plaintext@, c),
        r matches Err(e) ==> seal_failure(e, plaintext@),
        plaintext@.len() / 64 >= u32::MAX ==> r is Err,
{
    let nonce = draw_nonce()?;
    seal_with_nonce(key, nonce, plaintext)
}

/// Decrypts and authenticates a [`Ciphertext`] under `key`. Refuses an
/// envelope of another version than [`CIPHERTEXT_VERSION`].
pub(crate) fn open(key: &[u8; KEY_LEN], sealed: &Ciphertext) -> (r: Result<Vec<u8>>)
    ensures
        r is Ok <==> opened(key@, *sealed) is Some,
        r matches Ok(p) ==> opened(key@, *sealed) == Some(p@),
        r matches Err(e) ==> e is Crypto,
{
    if sealed.version != CIPHERTEXT_VERSION {
        return Err(Error::crypto("version d'enveloppe non prise en charge"));
    }
    match aead_decrypt(key, &sealed.nonce, sealed.ciphertext.as_slice()) {
        Ok(p) => Ok(p),
        Err(_) => Err(Error::crypto("authentification échouée")),
    }
}

/// A serialised envelope: version, nonce, then the data as a byte string.
pub open spec fn envelope_bytes(c: Ciphertext) -> Seq<u8> {
    seq![c.version] + c.nonce@ + bytes_field(c.ciphertext@)
}

/// Reads a serialised envelope: version, nonce and data.
pub open spec fn envelope_at(s: Seq<u8>) -> core::result::Result<(u8, Seq<u8>, Seq<u8>), WireError> {
    if s.len() < 25 {
        Err(WireError::UnexpectedEnd)
    } else {
        match bytes_field_at(s, 25) {
            Ok((data, _)) => Ok((s[0], s.subrange(1, 25), data)),
            Err(e) => Err(e),
        }
    }
}

/// Serialises an envelope: version, nonce, then the data as a byte string.
pub fn encode_ciphertext(c: &Ciphertext) -> (r: Vec<u8>)
    ensures
        r@ == envelope_bytes(*c),
{
    let mut out: Vec<u8> = Vec::new();
    out.push(c.version);
    out.extend_from_slice(c.nonce.as_slice());
    write_bytes(&mut out, c.ciphertext.as_slice());
    assert(out@ =~= envelope_bytes(*c));
    out
}

/// Decodes a serialised envelope: version, nonce, then the data as a byte
/// string; bytes after it are ignored.
pub fn decode_ciphertext(bytes: &[u8]) -> (r: Result<Ciphertext>)
    ensures
        r is Ok <==> envelope_at(bytes@) is Ok,
        r matches Ok(c) ==> envelope_at(bytes@) == Ok::<(u8, Seq<u8>, Seq<u8>), WireError>(
            (c.version, c.nonce@, c.ciphertext@),
        ),
        r matches Err(e) ==> e is Serialization,
{
    let version = match read_array::<1>(bytes, 0) {
        Ok(a) => a,
        Err(e) => {
            return Err(e.into_error());
        },
    };
    let nonce = match read_array::<24>(bytes, 1) {
        Ok(a) => a,
        Err(e) => {
            return Err(e.into_error());
        },
    };
    match read_bytes(bytes, 25) {
        Ok((data, _)) => Ok(Ciphertext { version: version[0], nonce, ciphertext: data }),
        Err(e) => Err(e.into_error()),
    }
}

/// Law: a serialised envelope reads back as the envelope, whatever follows
/// it.
pub proof fn lemma_envelope_roundtrip(c: Ciphertext, after: Seq<u8>)
    requires
        c.ciphertext@.len() <= usize::MAX,
    ensures
        envelope_at(envelope_bytes(c) + after) == Ok::<(u8, Seq<u8>, Seq<u8>), WireError>(
            (c.version, c.nonce@, c.ciphertext@),
        ),
{
    let head = seq![c.version] + c.nonce@;
    let s = envelope_bytes(c) + after;
    assert(s =~= head + bytes_field(c.ciphertext@) + after);
    lemma_bytes_field_roundtrip(head, c.ciphertext@, after);
    assert(s.subrange(1, 25) =~= c.nonce@);
}

/// Law: every envelope this library seals is of version 1, and what it
/// opens to under the sealing key is the sealed plaintext.
pub proof fn lemma_sealed_envelope(key: Seq<u8>, plaintext: Seq<u8>, c: Ciphertext)
    requires
        sealed_by(key, plaintext, c),
    ensures
        c.version == 1,
        opened(key, c) == Some(plaintext),
{
}

} // verus!
