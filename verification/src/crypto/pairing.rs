//! Device pairing: **end-to-end** transfer of the vault key from a source
//! device (already unlocked) to a new device, over a channel authenticated by
//! QR code + SAS. The server only relays **opaque blobs**; the vault key is
//! never exposed to it (neither in clear nor wrapped by a key it knows).
//!
//! # Protocol in **two rounds**
//!
//! 1. the **new device** draws an ephemeral X25519 pair and shows
//!    `{pairing_id, pk_new, device_pk}` as a QR code ([`pairing_start`]);
//!    `device_pk` is its **device identity key** (Ed25519, opaque here), bound
//!    for the account's registry;
//! 2. **round 1**: the source scans it and publishes **only its ephemeral
//!    public key** ([`pairing_source_begin`] → `hello`). Both sides then derive
//!    the SAS ([`pairing_new_device_confirm`]) and show it. **No secret has
//!    travelled**;
//! 3. **round 2**: *only after* the user has confirmed that both SAS match,
//!    the source seals `{account_id, vault_key}` ([`pairing_source_seal`]);
//!    the new device opens it ([`pairing_open`]).
//!
//! Both sides derive, from the **same** shared secret and transcript
//! (`pk_new ‖ pk_src ‖ device_pk`), the AEAD key **and** the SAS. Any
//! substitution changes the transcript, so the SAS **diverge**; since the key
//! only leaves **after** confirmation, the SAS **prevents** rather than merely
//! detects.
//!
//! Wire layouts (postcard): request = `pairing_id ‖ pk ‖ device_pk`; state =
//! `secret ‖ pairing_id ‖ device_pk`; hello = `pk_src`; session = `aead_key`;
//! payload = `account_id ‖ len ‖ vault_key`; sealed blob =
//! `version ‖ nonce ‖ len ‖ ciphertext`.

use super::aead::{
    decode_ciphertext, draw_nonce, encode_ciphertext, envelope_at, envelope_bytes, open, random_failure, seal_with_nonce,
    sealed_by, too_long_failure, Ciphertext, CIPHERTEXT_VERSION,
};
use super::KEY_LEN;
use crate::error::{message_with_number, Error, Result};
use crate::primitives::{
    describe_random_error, hkdf_expand_parts, hkdf_sha256, random_bytes, wipe_bytes, wipe_key, x25519_diffie_hellman,
    x25519_public, x25519_public_key, x25519_shared, xchacha_open, xchacha_seal,
};
use crate::wire::{
    bytes_field, bytes_field_at, varint, lemma_bytes_field_roundtrip, read_array, read_bytes, write_bytes,
    WireError,
};
use vstd::prelude::*;
use vstd::string::{StringExecFns, StringSliceAdditionalSpecFns};

verus! {

/// Length of the pairing identifier.
pub const PAIRING_ID_LEN: usize = 16;

/// Length of an X25519 key.
pub const X25519_LEN: usize = 32;

/// Length of the device identity key (Ed25519). Opaque to pairing: it is
/// bound to the transcript and carried to the registry.
pub const DEVICE_PK_LEN: usize = 32;

/// Length of the account identifier (UUID) carried by the sealed blob.
pub const ACCOUNT_ID_LEN: usize = 16;

/// Length of the SAS derivation output.
pub const SAS_BYTES_LEN: usize = 4;

/// Domain separation of the pairing AEAD key.
pub const AEAD_INFO: &'static str = "realm-guard-core/v1/pairing-aead";

/// Domain separation of the SAS.
pub const SAS_INFO: &'static str = "realm-guard-core/v1/pairing-sas";

/// Outcome of the start on the **new device**.
pub struct PairingStart {
    /// State to keep until round 1 (holds the ephemeral secret).
    pub state: Vec<u8>,
    /// QR payload to show (`{pairing_id, pk, device_pk}`, serialised).
    pub qr: Vec<u8>,
}

/// Outcome of **round 1** on the source.
pub struct PairingSourceBegin {
    /// State to keep until sealing (holds the derived AEAD key).
    pub state: Vec<u8>,
    /// Round 1 to relay to the new device (ephemeral public key only).
    pub hello: Vec<u8>,
    /// SAS to show. **Seal only after** the user confirmed it.
    pub sas: String,
    /// Identity key of the new device, **taken from the QR** (so bound to the
    /// transcript). To be registered **only after** SAS confirmation too.
    pub device_public_key: Vec<u8>,
}

/// Outcome of **round 1** on the new device.
pub struct PairingConfirm {
    /// State to keep until opening (holds the derived AEAD key).
    pub state: Vec<u8>,
    /// SAS to show (must match the source's).
    pub sas: String,
}

/// Outcome of the opening (**round 2**) on the new device.
pub struct PairingOpenResult {
    /// Vault key received (bytes).
    pub vault_key: Vec<u8>,
    /// Identifier (UUID) of the account the new device joins.
    pub account_id: Vec<u8>,
}

// ---------------------------------------------------------------------------
// Short authentication string.
// ---------------------------------------------------------------------------

/// The big-endian number of four bytes.
pub open spec fn be_u32(b: Seq<u8>) -> nat {
    b[0] as nat * 16777216 + b[1] as nat * 65536 + b[2] as nat * 256 + b[3] as nat
}

/// The decimal digit character of `d` (below ten).
pub open spec fn digit_char(d: nat) -> char {
    if d == 0 {
        '0'
    } else if d == 1 {
        '1'
    } else if d == 2 {
        '2'
    } else if d == 3 {
        '3'
    } else if d == 4 {
        '4'
    } else if d == 5 {
        '5'
    } else if d == 6 {
        '6'
    } else if d == 7 {
        '7'
    } else if d == 8 {
        '8'
    } else {
        '9'
    }
}

/// The six decimal digits of `v`, zero-padded on the left.
#[verifier::opaque]
pub open spec fn six_digits(v: nat) -> Seq<char> {
    seq![
        digit_char(v / 100000 % 10),
        digit_char(v / 10000 % 10),
        digit_char(v / 1000 % 10),
        digit_char(v / 100 % 10),
        digit_char(v / 10 % 10),
        digit_char(v % 10),
    ]
}

/// The SAS shown for four derived bytes: their big-endian value modulo a
/// million, as six digits.
pub open spec fn sas_text(bytes: Seq<u8>) -> Seq<char> {
    six_digits(be_u32(bytes) % 1_000_000)
}

/// The number that a text of decimal digits stands for (most significant
/// digit first).
pub open spec fn decimal_value(text: Seq<char>) -> int
    decreases text.len(),
{
    if text.len() == 0 {
        0
    } else {
        decimal_value(text.drop_last()) * 10 + ((text.last() as u32) - 48)
    }
}

proof fn lemma_digit_char_value(d: nat)
    requires
        d < 10,
    ensures
        digit_char(d) as u32 == 48 + d,
{
}

/// Law: the SAS of four derived bytes is six ASCII digits that, read as a
/// decimal number, give the bytes' big-endian value modulo a million (the
/// first byte is the most significant).
pub proof fn lemma_sas_reads_big_endian(bytes: Seq<u8>)
    requires
        bytes.len() == 4,
    ensures
        sas_text(bytes).len() == 6,
        forall|i: int| 0 <= i < 6 ==> 48 <= #[trigger] (sas_text(bytes)[i] as u32) <= 57,
        decimal_value(sas_text(bytes)) == (bytes[0] * 16777216 + bytes[1] * 65536 + bytes[2] * 256 + bytes[3])
            % 1000000,
{
    reveal(six_digits);
    let n: int = bytes[0] * 16777216 + bytes[1] * 65536 + bytes[2] * 256 + bytes[3];
    let v: int = n % 1000000;
    assert(be_u32(bytes) == n);
    assert(0 <= v < 1000000);
    let q1 = v / 10;
    let q2 = v / 100;
    let q3 = v / 1000;
    let q4 = v / 10000;
    let q5 = v / 100000;
    vstd::arithmetic::div_mod::lemma_div_denominator(v, 10, 10);
    vstd::arithmetic::div_mod::lemma_div_denominator(v, 100, 10);
    vstd::arithmetic::div_mod::lemma_div_denominator(v, 1000, 10);
    vstd::arithmetic::div_mod::lemma_div_denominator(v, 10000, 10);
    vstd::arithmetic::div_mod::lemma_fundamental_div_mod(v, 10);
    vstd::arithmetic::div_mod::lemma_fundamental_div_mod(q1, 10);
    vstd::arithmetic::div_mod::lemma_fundamental_div_mod(q2, 10);
    vstd::arithmetic::div_mod::lemma_fundamental_div_mod(q3, 10);
    vstd::arithmetic::div_mod::lemma_fundamental_div_mod(q4, 10);
    assert(q5 < 10);
    let t = sas_text(bytes);
    let d0 = (v % 10) as nat;
    let d1 = (q1 % 10) as nat;
    let d2 = (q2 % 10) as nat;
    let d3 = (q3 % 10) as nat;
    let d4 = (q4 % 10) as nat;
    let d5 = (q5 % 10) as nat;
    lemma_digit_char_value(d0);
    lemma_digit_char_value(d1);
    lemma_digit_char_value(d2);
    lemma_digit_char_value(d3);
    lemma_digit_char_value(d4);
    lemma_digit_char_value(d5);
    assert(t =~= seq![digit_char(d5), digit_char(d4), digit_char(d3), digit_char(d2), digit_char(d1), digit_char(d0)]);
    let t5 = t.drop_last();
    let t4 = t5.drop_last();
    let t3 = t4.drop_last();
    let t2 = t3.drop_last();
    let t1 = t2.drop_last();
    let t0 = t1.drop_last();
    assert(t0.len() == 0);
    assert(decimal_value(t0) == 0);
    assert(t1.last() == digit_char(d5));
    assert(t2.last() == digit_char(d4));
    assert(t3.last() == digit_char(d3));
    assert(t4.last() == digit_char(d2));
    assert(t5.last() == digit_char(d1));
    assert(t.last() == digit_char(d0));
    assert(decimal_value(t1) == d5);
    assert(decimal_value(t2) == d5 * 10 + d4);
    assert(decimal_value(t3) == (d5 * 10 + d4) * 10 + d3);
    assert(decimal_value(t4) == ((d5 * 10 + d4) * 10 + d3) * 10 + d2);
    assert(decimal_value(t5) == (((d5 * 10 + d4) * 10 + d3) * 10 + d2) * 10 + d1);
    assert(decimal_value(t) == ((((d5 * 10 + d4) * 10 + d3) * 10 + d2) * 10 + d1) * 10 + d0);
    assert(q4 == q5 * 10 + d4);
    assert(q3 == q4 * 10 + d3);
    assert(q2 == q3 * 10 + d2);
    assert(q1 == q2 * 10 + d1);
    assert(v == q1 * 10 + d0);
}

/// The one-character text of a decimal digit.
pub(crate) fn digit_text(d: u64) -> (r: &'static str)
    requires
        d < 10,
    ensures
        r@ == seq![digit_char(d as nat)],
{
    if d == 0 {
        proof {
            reveal_strlit("0");
        }
        "0"
    } else if d == 1 {
        proof {
            reveal_strlit("1");
        }
        "1"
    } else if d == 2 {
        proof {
            reveal_strlit("2");
        }
        "2"
    } else if d == 3 {
        proof {
            reveal_strlit("3");
        }
        "3"
    } else if d == 4 {
        proof {
            reveal_strlit("4");
        }
        "4"
    } else if d == 5 {
        proof {
            reveal_strlit("5");
        }
        "5"
    } else if d == 6 {
        proof {
            reveal_strlit("6");
        }
        "6"
    } else if d == 7 {
        proof {
            reveal_strlit("7");
        }
        "7"
    } else if d == 8 {
        proof {
            reveal_strlit("8");
        }
        "8"
    } else {
        proof {
            reveal_strlit("9");
        }
        "9"
    }
}

/// Formats the SAS as **6 digits** (short code for the user to compare).
fn format_sas(bytes: &[u8; SAS_BYTES_LEN]) -> (r: String)
    ensures
        r@ == sas_text(bytes@),
{
    let value: u64 = ((bytes[0] as u64) * 16777216 + (bytes[1] as u64) * 65536 + (bytes[2] as u64) * 256
        + bytes[3] as u64) % 1_000_000;
    let mut s = String::new();
    s.append(digit_text(value / 100000 % 10));
    s.append(digit_text(value / 10000 % 10));
    s.append(digit_text(value / 1000 % 10));
    s.append(digit_text(value / 100 % 10));
    s.append(digit_text(value / 10 % 10));
    s.append(digit_text(value % 10));
    assert(s@ =~= six_digits(value as nat)) by {
        reveal(six_digits);
    }
    s
}

// ---------------------------------------------------------------------------
// Derivation from the shared secret and the transcript.
// ---------------------------------------------------------------------------

/// The pairing AEAD key: HKDF-SHA256 of the shared secret, with the domain
/// and the transcript `pk_new ‖ pk_src ‖ device_pk` as context.
pub open spec fn pairing_aead_key(shared: Seq<u8>, pk_new: Seq<u8>, pk_src: Seq<u8>, device_pk: Seq<u8>) -> Seq<u8> {
    hkdf_sha256(shared, AEAD_INFO.spec_bytes() + pk_new + pk_src + device_pk, KEY_LEN as nat)
}

/// The SAS of a transcript: four bytes derived like the AEAD key under
/// their own domain, shown as six digits.
pub open spec fn pairing_sas(shared: Seq<u8>, pk_new: Seq<u8>, pk_src: Seq<u8>, device_pk: Seq<u8>) -> Seq<char> {
    sas_text(hkdf_sha256(shared, SAS_INFO.spec_bytes() + pk_new + pk_src + device_pk, SAS_BYTES_LEN as nat))
}

/// Derives the AEAD key and the SAS from the ECDH shared secret and the
/// transcript (`pk_new ‖ pk_src ‖ device_pk`, fixed order). Binding the
/// transcript makes a substitution of a public key **or** of `device_pk`
/// visible: another key (the opening fails) and another SAS.
fn derive(shared: &[u8], pk_new: &[u8], pk_src: &[u8], device_pk: &[u8]) -> (r: Result<([u8; KEY_LEN], String)>)
    ensures
        r is Ok,
        r matches Ok((k, sas)) ==> k@ == pairing_aead_key(shared@, pk_new@, pk_src@, device_pk@) && sas@
            == pairing_sas(shared@, pk_new@, pk_src@, device_pk@),
{
    let aead_key = match hkdf_expand_parts::<KEY_LEN>(shared, AEAD_INFO.as_bytes(), pk_new, pk_src, device_pk) {
        Ok(k) => k,
        Err(_) => {
            return Err(Error::crypto("dérivation HKDF (pairing AEAD) échouée"));
        },
    };
    let sas_bytes = match hkdf_expand_parts::<SAS_BYTES_LEN>(shared, SAS_INFO.as_bytes(), pk_new, pk_src, device_pk) {
        Ok(k) => k,
        Err(_) => {
            return Err(Error::crypto("dérivation HKDF (pairing SAS) échouée"));
        },
    };
    Ok((aead_key, format_sas(&sas_bytes)))
}

// ---------------------------------------------------------------------------
// Wire layouts.
// ---------------------------------------------------------------------------

/// The QR request: pairing id, X25519 public key, device key.
pub open spec fn request_bytes(pairing_id: Seq<u8>, public_key: Seq<u8>, device_pk: Seq<u8>) -> Seq<u8> {
    pairing_id + public_key + device_pk
}

/// The X25519 public key a QR request carries.
pub open spec fn request_public_key(qr: Seq<u8>) -> Seq<u8> {
    qr.subrange(16, 48)
}

/// The device key a QR request carries.
pub open spec fn request_device_key(qr: Seq<u8>) -> Seq<u8> {
    qr.subrange(48, 80)
}

/// The new device's state: ephemeral secret, pairing id, device key.
pub open spec fn state_bytes(secret: Seq<u8>, pairing_id: Seq<u8>, device_pk: Seq<u8>) -> Seq<u8> {
    secret + pairing_id + device_pk
}

/// The plaintext sealed at round 2: account id, then the vault key as a
/// byte string.
pub open spec fn payload_bytes(account_id: Seq<u8>, vault_key: Seq<u8>) -> Seq<u8> {
    account_id + bytes_field(vault_key)
}

/// Reads a round-2 plaintext: account id and vault key.
pub open spec fn payload_at(p: Seq<u8>) -> core::result::Result<(Seq<u8>, Seq<u8>), WireError> {
    if p.len() < 16 {
        Err(WireError::UnexpectedEnd)
    } else {
        match bytes_field_at(p, 16) {
            Ok((vault_key, _)) => Ok((p.subrange(0, 16), vault_key)),
            Err(e) => Err(e),
        }
    }
}

/// Decodes a QR request: pairing id, public key, device key.
fn decode_request(qr: &[u8]) -> (r: Result<([u8; PAIRING_ID_LEN], [u8; X25519_LEN], [u8; DEVICE_PK_LEN])>)
    ensures
        r is Ok <==> qr@.len() >= 80,
        r matches Ok((id, pk, dpk)) ==> qr@.subrange(0, 80) == request_bytes(id@, pk@, dpk@),
        r matches Err(e) ==> e is Serialization,
{
    let id = match read_array::<PAIRING_ID_LEN>(qr, 0) {
        Ok(a) => a,
        Err(e) => {
            return Err(e.into_error());
        },
    };
    let pk = match read_array::<X25519_LEN>(qr, 16) {
        Ok(a) => a,
        Err(e) => {
            return Err(e.into_error());
        },
    };
    let dpk = match read_array::<DEVICE_PK_LEN>(qr, 48) {
        Ok(a) => a,
        Err(e) => {
            return Err(e.into_error());
        },
    };
    assert(qr@.subrange(0, 80) =~= request_bytes(id@, pk@, dpk@));
    Ok((id, pk, dpk))
}

/// Decodes the new device's state: secret, pairing id, device key.
fn decode_state(state: &[u8]) -> (r: Result<([u8; X25519_LEN], [u8; PAIRING_ID_LEN], [u8; DEVICE_PK_LEN])>)
    ensures
        r is Ok <==> state@.len() >= 80,
        r matches Ok((secret, id, dpk)) ==> state@.subrange(0, 80) == state_bytes(secret@, id@, dpk@),
        r matches Err(e) ==> e is Serialization,
{
    let secret = match read_array::<X25519_LEN>(state, 0) {
        Ok(a) => a,
        Err(e) => {
            return Err(e.into_error());
        },
    };
    let id = match read_array::<PAIRING_ID_LEN>(state, 32) {
        Ok(a) => a,
        Err(e) => {
            return Err(e.into_error());
        },
    };
    let dpk = match read_array::<DEVICE_PK_LEN>(state, 48) {
        Ok(a) => a,
        Err(e) => {
            return Err(e.into_error());
        },
    };
    assert(state@.subrange(0, 80) =~= state_bytes(secret@, id@, dpk@));
    Ok((secret, id, dpk))
}

/// Decodes a 32-byte key (a round-1 hello or a session state).
fn decode_key(bytes: &[u8]) -> (r: Result<[u8; 32]>)
    ensures
        r is Ok <==> bytes@.len() >= 32,
        r matches Ok(k) ==> k@ == bytes@.subrange(0, 32),
        r matches Err(e) ==> e is Serialization,
{
    match read_array::<32>(bytes, 0) {
        Ok(a) => Ok(a),
        Err(e) => Err(e.into_error()),
    }
}

/// Decodes a round-2 plaintext.
fn decode_payload(bytes: &[u8]) -> (r: Result<([u8; ACCOUNT_ID_LEN], Vec<u8>)>)
    ensures
        r is Ok <==> payload_at(bytes@) is Ok,
        r matches Ok((account, vault_key)) ==> payload_at(bytes@) == Ok::<(Seq<u8>, Seq<u8>), WireError>(
            (account@, vault_key@),
        ),
        r matches Err(e) ==> e is Serialization,
{
    let account = match read_array::<ACCOUNT_ID_LEN>(bytes, 0) {
        Ok(a) => a,
        Err(e) => {
            return Err(e.into_error());
        },
    };
    match read_bytes(bytes, 16) {
        Ok((vault_key, _)) => Ok((account, vault_key)),
        Err(e) => Err(e.into_error()),
    }
}

/// Copies a slice into an `N`-byte array, failing with a message naming
/// `what` when its length is not `N`.
fn to_array<const N: usize>(bytes: &[u8], what: &str) -> (r: Result<[u8; N]>)
    ensures
        r is Ok <==> bytes@.len() == N,
        r matches Ok(a) ==> a@ == bytes@,
        r matches Err(e) ==> e is Crypto,
{
    match super::exact_array::<N>(bytes) {
        Some(a) => Ok(a),
        None => {
            let mut prefix = String::from_str("longueur ");
            prefix.append(what);
            prefix.append(" invalide (attendu ");
            Err(Error::Crypto(message_with_number(prefix.as_str(), N, " octets)")))
        },
    }
}

// ---------------------------------------------------------------------------
// What each step produces.
// ---------------------------------------------------------------------------

/// `state` and `qr` come from one start of a new device with identity key
/// `device_pk`: the QR carries the pairing id and device key of the state,
/// and the public key of its ephemeral secret.
pub open spec fn started(device_pk: Seq<u8>, state: Seq<u8>, qr: Seq<u8>) -> bool {
    &&& device_pk.len() == DEVICE_PK_LEN
    &&& state.len() == 80
    &&& qr.len() == 80
    &&& state.subrange(48, 80) == device_pk
    &&& qr == request_bytes(state.subrange(32, 48), x25519_public(state.subrange(0, 32)), device_pk)
}

/// Round 1 on the source with ephemeral `secret`, for the request `qr`:
/// `hello` is the secret's public key; `state` and `sas` derive from the
/// shared secret with the QR's key and the transcript; and any holder of the
/// QR's public key computes the same shared secret with `hello`.
pub open spec fn source_side(secret: Seq<u8>, qr: Seq<u8>, state: Seq<u8>, hello: Seq<u8>, sas: Seq<char>) -> bool {
    let pk_new = request_public_key(qr);
    let device_pk = request_device_key(qr);
    let shared = x25519_shared(secret, pk_new);
    &&& secret.len() == X25519_LEN
    &&& hello == x25519_public(secret)
    &&& hello.len() == X25519_LEN
    &&& state.len() == KEY_LEN
    &&& state == pairing_aead_key(shared, pk_new, hello, device_pk)
    &&& sas == pairing_sas(shared, pk_new, hello, device_pk)
    &&& forall|other: Seq<u8>|
        other.len() == X25519_LEN && #[trigger] x25519_public(other) == pk_new ==> x25519_shared(other, hello)
            == shared
}

/// Round 1 on the source, for some ephemeral secret drawn at random.
pub open spec fn begun(qr: Seq<u8>, state: Seq<u8>, hello: Seq<u8>, sas: Seq<char>) -> bool {
    exists|secret: Seq<u8>| #[trigger] source_side(secret, qr, state, hello, sas)
}

/// Round 1 on the new device: the session state and SAS that its `state`
/// and the source's `hello` give, `None` when either is too short.
pub open spec fn confirmed(state: Seq<u8>, hello: Seq<u8>) -> Option<(Seq<u8>, Seq<char>)> {
    if state.len() >= 80 && hello.len() >= 32 {
        let secret = state.subrange(0, 32);
        let device_pk = state.subrange(48, 80);
        let pk_src = hello.subrange(0, 32);
        let pk_new = x25519_public(secret);
        let shared = x25519_shared(secret, pk_src);
        Some((pairing_aead_key(shared, pk_new, pk_src, device_pk), pairing_sas(shared, pk_new, pk_src, device_pk)))
    } else {
        None
    }
}

/// `sealed` is a round-2 blob under the session key `key`: the envelope of
/// the payload `{account_id, vault_key}`.
pub open spec fn sealed_for(key: Seq<u8>, account_id: Seq<u8>, vault_key: Seq<u8>, sealed: Seq<u8>) -> bool {
    exists|c: Ciphertext| #[trigger] sealed_by(key, payload_bytes(account_id, vault_key), c) && sealed == envelope_bytes(c)
}

/// What round 2 opens to under a session `state`: the vault key and account
/// id, `None` when the state or blob does not decode, the blob is of
/// another version or does not authenticate, or its plaintext does not
/// decode.
pub open spec fn pairing_opened(state: Seq<u8>, sealed: Seq<u8>) -> Option<(Seq<u8>, Seq<u8>)> {
    if state.len() < 32 {
        None
    } else {
        match envelope_at(sealed) {
            Err(_) => None,
            Ok((version, nonce, data)) => match if version == CIPHERTEXT_VERSION {
                xchacha_open(state.subrange(0, 32), nonce, data)
            } else {
                None
            } {
                None => None,
                Some(p) => match payload_at(p) {
                    Err(_) => None,
                    Ok((account_id, vault_key)) => Some((vault_key, account_id)),
                },
            },
        }
    }
}

/// Round 2 fails on authentication: state and blob decode, but the blob is
/// an envelope of another version or does not open under the state's key.
pub open spec fn pairing_rejected(state: Seq<u8>, sealed: Seq<u8>) -> bool {
    &&& state.len() >= 32
    &&& envelope_at(sealed) matches Ok((version, nonce, data))
    &&& (version != CIPHERTEXT_VERSION || xchacha_open(state.subrange(0, 32), nonce, data) is None)
}

// ---------------------------------------------------------------------------
// The protocol.
// ---------------------------------------------------------------------------

/// **New device**: starts pairing with the given ephemeral X25519 secret and
/// pairing id, putting its identity key `device_public_key` (Ed25519) in the
/// QR and the state. Fails exactly on a device key that is not 32 bytes long.
pub fn pairing_start_from(device_public_key: &[u8], secret: [u8; X25519_LEN], pairing_id: [u8; PAIRING_ID_LEN]) -> (r:
    Result<PairingStart>)
    ensures
        r is Ok <==> device_public_key@.len() == DEVICE_PK_LEN,
        r matches Ok(s) ==> {
            &&& s.state@ == state_bytes(secret@, pairing_id@, device_public_key@)
            &&& s.qr@ == request_bytes(pairing_id@, x25519_public(secret@), device_public_key@)
            &&& started(device_public_key@, s.state@, s.qr@)
        },
        r matches Err(e) ==> e is Crypto,
{
    let device_pk = to_array::<DEVICE_PK_LEN>(device_public_key, "device_public_key")?;
    let mut secret = secret;
    let public = x25519_public_key(&secret);
    let mut qr: Vec<u8> = Vec::new();
    qr.extend_from_slice(pairing_id.as_slice());
    qr.extend_from_slice(public.as_slice());
    qr.extend_from_slice(device_pk.as_slice());
    let mut state: Vec<u8> = Vec::new();
    state.extend_from_slice(secret.as_slice());
    state.extend_from_slice(pairing_id.as_slice());
    state.extend_from_slice(device_pk.as_slice());
    proof {
        assert(state@ =~= state_bytes(secret@, pairing_id@, device_pk@));
        assert(state@.subrange(0, 32) =~= secret@);
        assert(state@.subrange(32, 48) =~= pairing_id@);
        assert(state@.subrange(48, 80) =~= device_pk@);
        assert(qr@ =~= request_bytes(pairing_id@, public@, device_pk@));
    }
    wipe_key(&mut secret);
    Ok(PairingStart { state, qr })
}

/// **New device**: starts pairing. Draws an ephemeral X25519 secret and a
/// random `pairing_id` from the OS generator, then proceeds as
/// [`pairing_start_from`]. Fails on a device key that is not 32 bytes long,
/// and otherwise only when the OS generator fails.
pub fn pairing_start(device_public_key: &[u8]) -> (r: Result<PairingStart>)
    ensures
        device_public_key@.len() != DEVICE_PK_LEN ==> r is Err,
        r matches Ok(s) ==> started(device_public_key@, s.state@, s.qr@),
        r matches Err(e) ==> e is Crypto && (device_public_key@.len() == DEVICE_PK_LEN ==> random_failure(e)),
{
    to_array::<DEVICE_PK_LEN>(device_public_key, "device_public_key")?;
    let mut secret = match random_bytes::<X25519_LEN>() {
        Ok(b) => b,
        Err(e) => {
            return Err(Error::Crypto(describe_random_error(&e)));
        },
    };
    let pairing_id = match random_bytes::<PAIRING_ID_LEN>() {
        Ok(b) => b,
        Err(e) => {
            wipe_key(&mut secret);
            return Err(Error::Crypto(describe_random_error(&e)));
        },
    };
    let r = pairing_start_from(device_public_key, secret, pairing_id);
    wipe_key(&mut secret);
    r
}

/// **Source device, round 1**, with the given ephemeral secret: reads the
/// QR, does the ECDH and derives the session state and the SAS. Publishes
/// **only its public key**. Fails exactly on a QR too short to decode.
pub fn pairing_source_respond(qr: &[u8], secret: [u8; X25519_LEN]) -> (r: Result<PairingSourceBegin>)
    ensures
        r is Ok <==> qr@.len() >= 80,
        r matches Ok(b) ==> {
            &&& source_side(secret@, qr@, b.state@, b.hello@, b.sas@)
            &&& begun(qr@, b.state@, b.hello@, b.sas@)
            &&& b.device_public_key@ == request_device_key(qr@)
        },
        r matches Err(e) ==> e is Serialization,
{
    let (_pairing_id, their_public, device_pk) = decode_request(qr)?;
    assert(their_public@ =~= request_public_key(qr@) && device_pk@ =~= request_device_key(qr@)) by {
        assert(qr@.subrange(0, 80).subrange(16, 48) =~= qr@.subrange(16, 48));
        assert(qr@.subrange(0, 80).subrange(48, 80) =~= qr@.subrange(48, 80));
        assert(request_bytes(_pairing_id@, their_public@, device_pk@).subrange(16, 48) =~= their_public@);
        assert(request_bytes(_pairing_id@, their_public@, device_pk@).subrange(48, 80) =~= device_pk@);
    }
    let mut secret = secret;
    let ghost drawn = secret@;
    let source_public = x25519_public_key(&secret);
    let mut shared = x25519_diffie_hellman(&secret, &their_public);
    wipe_key(&mut secret);
    let derived = derive(shared.as_slice(), their_public.as_slice(), source_public.as_slice(), device_pk.as_slice());
    wipe_key(&mut shared);
    let (mut aead_key, sas) = derived?;
    let mut state: Vec<u8> = Vec::new();
    state.extend_from_slice(aead_key.as_slice());
    assert(state@ =~= aead_key@);
    wipe_key(&mut aead_key);
    let mut hello: Vec<u8> = Vec::new();
    hello.extend_from_slice(source_public.as_slice());
    assert(hello@ =~= source_public@);
    let mut device_public_key: Vec<u8> = Vec::new();
    device_public_key.extend_from_slice(device_pk.as_slice());
    assert(device_public_key@ =~= device_pk@);
    assert(source_side(drawn, qr@, state@, hello@, sas@));
    Ok(PairingSourceBegin { state, hello, sas, device_public_key })
}

/// **Source device, round 1**: scans the QR, draws an ephemeral secret from
/// the OS generator and proceeds as [`pairing_source_respond`]. No secret
/// travels at this stage. Fails on a QR too short to decode, and otherwise
/// only when the OS generator fails.
pub fn pairing_source_begin(qr: &[u8]) -> (r: Result<PairingSourceBegin>)
    ensures
        qr@.len() < 80 ==> r is Err,
        r matches Ok(b) ==> {
            &&& begun(qr@, b.state@, b.hello@, b.sas@)
            &&& b.device_public_key@ == request_device_key(qr@)
        },
        r matches Err(e) ==> if qr@.len() < 80 {
            e is Serialization
        } else {
            random_failure(e)
        },
{
    decode_request(qr)?;
    let mut secret = match random_bytes::<X25519_LEN>() {
        Ok(b) => b,
        Err(e) => {
            return Err(Error::Crypto(describe_random_error(&e)));
        },
    };
    let r = pairing_source_respond(qr, secret);
    wipe_key(&mut secret);
    r
}

/// **New device, round 1**: takes the source's public key, derives the SAS
/// and the session state. The SAS must be **compared** with the source's
/// before it sends anything. Fails when the state or the hello is too short
/// to decode.
pub fn pairing_new_device_confirm(state: &[u8], hello: &[u8]) -> (r: Result<PairingConfirm>)
    ensures
        r is Ok <==> state@.len() >= 80 && hello@.len() >= 32,
        r matches Ok(c) ==> confirmed(state@, hello@) == Some((c.state@, c.sas@)),
        r matches Err(e) ==> e is Serialization,
{
    let (mut secret, _pairing_id, device_pk) = decode_state(state)?;
    let source_public = decode_key(hello)?;
    proof {
        assert(state@.subrange(0, 80).subrange(0, 32) =~= state@.subrange(0, 32));
        assert(state@.subrange(0, 80).subrange(48, 80) =~= state@.subrange(48, 80));
        assert(state_bytes(secret@, _pairing_id@, device_pk@).subrange(0, 32) =~= secret@);
        assert(state_bytes(secret@, _pairing_id@, device_pk@).subrange(48, 80) =~= device_pk@);
    }
    let our_public = x25519_public_key(&secret);
    let mut shared = x25519_diffie_hellman(&secret, &source_public);
    let derived = derive(shared.as_slice(), our_public.as_slice(), source_public.as_slice(), device_pk.as_slice());
    wipe_key(&mut secret);
    wipe_key(&mut shared);
    let (mut aead_key, sas) = derived?;
    let mut session: Vec<u8> = Vec::new();
    session.extend_from_slice(aead_key.as_slice());
    assert(session@ =~= aead_key@);
    wipe_key(&mut aead_key);
    Ok(PairingConfirm { state: session, sas })
}

/// The round-2 blob sealed with `nonce` under the session key `key`.
pub open spec fn pairing_sealed(key: Seq<u8>, account_id: Seq<u8>, vault_key: Seq<u8>, nonce: Seq<u8>) -> Seq<u8> {
    seq![CIPHERTEXT_VERSION] + nonce + bytes_field(xchacha_seal(key, nonce, payload_bytes(account_id, vault_key)))
}

/// Is the round-2 payload too long for the cipher?
pub open spec fn payload_too_long(account_id: Seq<u8>, vault_key: Seq<u8>) -> bool {
    payload_bytes(account_id, vault_key).len() / 64 >= u32::MAX
}

/// **Source device, round 2**, with the given nonce: seals
/// `{account_id, vault_key}` with the state from round 1. Fails exactly on an
/// account id that is not 16 bytes long, a state too short to decode, or a
/// payload too long for the cipher.
pub fn pairing_seal_with_nonce(state: &[u8], account_id: &[u8], vault_key: &[u8], nonce: [u8; 24]) -> (r: Result<
    Vec<u8>,
>)
    ensures
        r is Ok <==> account_id@.len() == ACCOUNT_ID_LEN && state@.len() >= 32 && !payload_too_long(
            account_id@,
            vault_key@,
        ),
        r matches Ok(sealed) ==> {
            &&& sealed@ == pairing_sealed(state@.subrange(0, 32), account_id@, vault_key@, nonce@)
            &&& sealed_for(state@.subrange(0, 32), account_id@, vault_key@, sealed@)
        },
        r matches Err(e) ==> if account_id@.len() != ACCOUNT_ID_LEN {
            e is Crypto
        } else if state@.len() < 32 {
            e is Serialization
        } else {
            too_long_failure(e)
        },
{
    let account = to_array::<ACCOUNT_ID_LEN>(account_id, "account_id")?;
    let mut key = decode_key(state)?;
    let mut plaintext: Vec<u8> = Vec::new();
    plaintext.extend_from_slice(account.as_slice());
    write_bytes(&mut plaintext, vault_key);
    let ghost payload = plaintext@;
    let ghost session = key@;
    assert(payload =~= payload_bytes(account_id@, vault_key@));
    let sealed = seal_with_nonce(&key, nonce, plaintext.as_slice());
    wipe_key(&mut key);
    wipe_bytes(&mut plaintext);
    let c = sealed?;
    let out = encode_ciphertext(&c);
    assert(out@ =~= pairing_sealed(session, account_id@, vault_key@, nonce@));
    assert(sealed_by(session, payload, c));
    Ok(out)
}

/// **Source device, round 2**: seals `{account_id, vault_key}` with the
/// state from round 1 and a nonce drawn from the OS generator, as
/// [`pairing_seal_with_nonce`]. **Call only after** the user confirmed that
/// both SAS match. Fails on an account id that is not 16 bytes long, a state
/// too short to decode, a payload too long for the cipher, or when the OS
/// generator fails.
pub fn pairing_source_seal(state: &[u8], account_id: &[u8], vault_key: &[u8]) -> (r: Result<Vec<u8>>)
    ensures
        account_id@.len() != ACCOUNT_ID_LEN || state@.len() < 32 ==> r is Err,
        r matches Ok(sealed) ==> sealed_for(state@.subrange(0, 32), account_id@, vault_key@, sealed@),
        r matches Err(e) ==> if account_id@.len() != ACCOUNT_ID_LEN {
            e is Crypto
        } else if state@.len() < 32 {
            e is Serialization
        } else {
            random_failure(e) || (payload_too_long(account_id@, vault_key@) && too_long_failure(e))
        },
{
    to_array::<ACCOUNT_ID_LEN>(account_id, "account_id")?;
    decode_key(state)?;
    let nonce = draw_nonce()?;
    pairing_seal_with_nonce(state, account_id, vault_key, nonce)
}

/// **New device, round 2**: opens the sealed blob with the state from round
/// 1. **Fails** when the blob does not open (wrong recipient, or tampering),
/// and when the state, the blob or its plaintext does not decode.
pub fn pairing_open(state: &[u8], sealed: &[u8]) -> (r: Result<PairingOpenResult>)
    ensures
        r is Ok <==> pairing_opened(state@, sealed@) is Some,
        r matches Ok(o) ==> pairing_opened(state@, sealed@) == Some((o.vault_key@, o.account_id@)),
        r matches Err(e) ==> if pairing_rejected(state@, sealed@) {
            e is Crypto
        } else {
            e is Serialization
        },
{
    let mut key = decode_key(state)?;
    let c = match decode_ciphertext(sealed) {
        Ok(c) => c,
        Err(e) => {
            wipe_key(&mut key);
            return Err(e);
        },
    };
    let result = open(&key, &c);
    wipe_key(&mut key);
    let mut plaintext = result?;
    let decoded = decode_payload(plaintext.as_slice());
    wipe_bytes(&mut plaintext);
    let (account, vault_key) = decoded?;
    let mut account_id: Vec<u8> = Vec::new();
    account_id.extend_from_slice(account.as_slice());
    assert(account_id@ =~= account@);
    Ok(PairingOpenResult { vault_key, account_id })
}

// ---------------------------------------------------------------------------
// Laws.
// ---------------------------------------------------------------------------

/// Law: when the source answers the new device's own QR, both sides end
/// round 1 with the same session state and the same SAS.
pub proof fn lemma_pairing_sas_agreement(
    device_pk: Seq<u8>,
    new_state: Seq<u8>,
    qr: Seq<u8>,
    source_state: Seq<u8>,
    hello: Seq<u8>,
    sas: Seq<char>,
)
    requires
        started(device_pk, new_state, qr),
        begun(qr, source_state, hello, sas),
    ensures
        confirmed(new_state, hello) == Some((source_state, sas)),
{
    let secret = choose|secret: Seq<u8>| #[trigger] source_side(secret, qr, source_state, hello, sas);
    let mine = new_state.subrange(0, 32);
    let pk_new = request_public_key(qr);
    let req = request_bytes(new_state.subrange(32, 48), x25519_public(mine), device_pk);
    assert(pk_new =~= x25519_public(mine)) by {
        assert(req.subrange(16, 48) =~= x25519_public(mine));
    }
    assert(request_device_key(qr) =~= device_pk) by {
        assert(req.subrange(48, 80) =~= device_pk);
    }
    assert(hello.subrange(0, 32) =~= hello);
    assert(mine.len() == X25519_LEN);
    assert(x25519_shared(mine, hello) == x25519_shared(secret, pk_new));
}

/// Law: a round-2 blob sealed under a session key opens, under a state
/// holding that key, to the vault key and account id that were sealed.
pub proof fn lemma_pairing_seal_open(
    state: Seq<u8>,
    account_id: Seq<u8>,
    vault_key: Seq<u8>,
    sealed: Seq<u8>,
)
    requires
        state.len() >= 32,
        account_id.len() == ACCOUNT_ID_LEN,
        vault_key.len() <= usize::MAX,
        sealed.len() <= usize::MAX,
        sealed_for(state.subrange(0, 32), account_id, vault_key, sealed),
    ensures
        pairing_opened(state, sealed) == Some((vault_key, account_id)),
{
    let key = state.subrange(0, 32);
    let payload = payload_bytes(account_id, vault_key);
    let c = choose|c: Ciphertext| #[trigger] sealed_by(key, payload, c) && sealed == envelope_bytes(c);
    let head = seq![c.version] + c.nonce@;
    assert(sealed =~= head + bytes_field(c.ciphertext@) + Seq::<u8>::empty());
    lemma_bytes_field_roundtrip(head, c.ciphertext@, Seq::<u8>::empty());
    assert(sealed.subrange(1, 25) =~= c.nonce@);
    assert(payload =~= account_id + bytes_field(vault_key) + Seq::<u8>::empty());
    lemma_bytes_field_roundtrip(account_id, vault_key, Seq::<u8>::empty());
    assert(payload.subrange(0, 16) =~= account_id);
}

/// Law: the whole protocol transfers the vault key. When the source
/// answers the new device's own QR and seals under its round-1 state, the
/// new device confirms the same SAS, and its round-1 state opens the blob
/// to the vault key and account id that were sealed.
pub proof fn lemma_pairing_transfers_vault_key(
    device_pk: Seq<u8>,
    new_state: Seq<u8>,
    qr: Seq<u8>,
    source_state: Seq<u8>,
    hello: Seq<u8>,
    sas: Seq<char>,
    account_id: Seq<u8>,
    vault_key: Seq<u8>,
    sealed: Seq<u8>,
)
    requires
        started(device_pk, new_state, qr),
        begun(qr, source_state, hello, sas),
        account_id.len() == ACCOUNT_ID_LEN,
        vault_key.len() <= usize::MAX,
        sealed.len() <= usize::MAX,
        sealed_for(source_state.subrange(0, 32), account_id, vault_key, sealed),
    ensures
        confirmed(new_state, hello) matches Some((session, confirmed_sas)) && confirmed_sas == sas && pairing_opened(
            session,
            sealed,
        ) == Some((vault_key, account_id)),
{
    lemma_pairing_sas_agreement(device_pk, new_state, qr, source_state, hello, sas);
    let secret = choose|secret: Seq<u8>| #[trigger] source_side(secret, qr, source_state, hello, sas);
    lemma_pairing_seal_open(source_state, account_id, vault_key, sealed);
}

/// Law: both round-1 derivations are HKDF-SHA256 keyed by the shared
/// secret, whose context is a domain string followed by the transcript
/// `pk_new ‖ pk_src ‖ device_pk`: 32 bytes under
/// `realm-guard-core/v1/pairing-aead` for the AEAD key, 4 bytes under
/// `realm-guard-core/v1/pairing-sas` for the SAS.
pub proof fn lemma_pairing_derivation_layout(shared: Seq<u8>, pk_new: Seq<u8>, pk_src: Seq<u8>, device_pk: Seq<u8>)
    ensures
        pairing_aead_key(shared, pk_new, pk_src, device_pk) == hkdf_sha256(
            shared,
            "realm-guard-core/v1/pairing-aead".spec_bytes() + pk_new + pk_src + device_pk,
            32,
        ),
        pairing_sas(shared, pk_new, pk_src, device_pk) == sas_text(
            hkdf_sha256(shared, "realm-guard-core/v1/pairing-sas".spec_bytes() + pk_new + pk_src + device_pk, 4),
        ),
{
}

/// Law: where each field sits in the pairing messages. The QR holds the
/// pairing id at bytes 0..16, the X25519 public key at 16..48 and the device
/// key at 48..80; the new device's state holds the secret at 0..32, the
/// pairing id at 32..48 and the device key at 48..80.
pub proof fn lemma_message_layout(pairing_id: Seq<u8>, key: Seq<u8>, device_pk: Seq<u8>)
    requires
        pairing_id.len() == 16,
        key.len() == 32,
        device_pk.len() == 32,
    ensures
        request_bytes(pairing_id, key, device_pk).len() == 80,
        request_bytes(pairing_id, key, device_pk).subrange(0, 16) == pairing_id,
        request_bytes(pairing_id, key, device_pk).subrange(16, 48) == key,
        request_bytes(pairing_id, key, device_pk).subrange(48, 80) == device_pk,
        state_bytes(key, pairing_id, device_pk).len() == 80,
        state_bytes(key, pairing_id, device_pk).subrange(0, 32) == key,
        state_bytes(key, pairing_id, device_pk).subrange(32, 48) == pairing_id,
        state_bytes(key, pairing_id, device_pk).subrange(48, 80) == device_pk,
{
    let r = request_bytes(pairing_id, key, device_pk);
    let s = state_bytes(key, pairing_id, device_pk);
    assert(r.subrange(0, 16) =~= pairing_id);
    assert(r.subrange(16, 48) =~= key);
    assert(r.subrange(48, 80) =~= device_pk);
    assert(s.subrange(0, 32) =~= key);
    assert(s.subrange(32, 48) =~= pairing_id);
    assert(s.subrange(48, 80) =~= device_pk);
}

/// Law: a round-2 blob starts with the envelope version 1, then the nonce,
/// then the length of the encrypted payload as a varint; the payload it
/// seals starts with the 16-byte account id, then the vault key's length as
/// a varint, then the vault key.
pub proof fn lemma_sealed_layout(key: Seq<u8>, account_id: Seq<u8>, vault_key: Seq<u8>, nonce: Seq<u8>)
    requires
        account_id.len() == 16,
        nonce.len() == 24,
    ensures
        pairing_sealed(key, account_id, vault_key, nonce)[0] == 1,
        pairing_sealed(key, account_id, vault_key, nonce).subrange(1, 25) == nonce,
        pairing_sealed(key, account_id, vault_key, nonce).subrange(25, pairing_sealed(key, account_id, vault_key, nonce).len() as int)
            == varint(xchacha_seal(key, nonce, payload_bytes(account_id, vault_key)).len()) + xchacha_seal(
            key,
            nonce,
            payload_bytes(account_id, vault_key),
        ),
        payload_bytes(account_id, vault_key).subrange(0, 16) == account_id,
        payload_bytes(account_id, vault_key).subrange(16, payload_bytes(account_id, vault_key).len() as int) == varint(
            vault_key.len(),
        ) + vault_key,
{
    let s = pairing_sealed(key, account_id, vault_key, nonce);
    let p = payload_bytes(account_id, vault_key);
    assert(s.subrange(1, 25) =~= nonce);
    assert(s.subrange(25, s.len() as int) =~= varint(xchacha_seal(key, nonce, p).len()) + xchacha_seal(key, nonce, p));
    assert(p.subrange(0, 16) =~= account_id);
    assert(p.subrange(16, p.len() as int) =~= varint(vault_key.len()) + vault_key);
}

} // verus!
