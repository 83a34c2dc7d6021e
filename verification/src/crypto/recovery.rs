//! Recovery kit: the [`VaultKey`] is also wrapped by a key derived from a
//! **recovery code** (24-word BIP39 mnemonic, 256 bits).
//!
//! Allows **solo** recovery (without a paired device): the user writes the
//! code down offline; the wrapped vault key is stored (for instance on the
//! server, opaque). The code carrying 256 bits, a plain HKDF derivation is
//! enough (no brute force possible — no need for a slow KDF).

use super::aead::{draw_nonce, open, random_failure, seal_with_nonce, sealed_by, Ciphertext};
use super::vault_key::unwrapped;
use super::{exact_array, VaultKey, KEY_LEN, XNONCE_LEN};
use crate::error::{Error, Result};
use crate::primitives::{
    bip39_entropy, bip39_from_entropy, bip39_parse, bip39_phrase, describe_random_error, hkdf_expand,
    hkdf_sha256, is_whitespace, mnemonic_error_text, random_bytes, trim, trim_end, trim_start, trimmed, wipe_bytes,
    wipe_key, wipe_text,
};
use vstd::prelude::*;
use vstd::string::{StringExecFns, StringSliceAdditionalSpecFns};

verus! {

/// Entropy of a recovery code: 256 bits → 24 words.
pub const RECOVERY_ENTROPY_LEN: usize = 32;

/// Domain separation of the recovery key.
pub const RECOVERY_KEY_INFO: &'static str = "realm-guard-core/v1/recovery-key";

/// Recovery code: a BIP39 mnemonic phrase (24 words). To keep offline.
pub struct RecoveryCode(String);

impl RecoveryCode {
    /// The phrase.
    pub closed spec fn text(self) -> Seq<char> {
        self.0@
    }

    /// The phrase (24 words separated by spaces).
    pub fn phrase(&self) -> (r: &str)
        ensures
            r@ == self.text(),
    {
        self.0.as_str()
    }

    /// Wipes the phrase from memory (zeroes its bytes, then empties it); a
    /// code is also wiped when it goes out of use.
    pub fn wipe(&mut self)
        ensures
            final(self).text().len() == 0,
    {
        wipe_text(&mut self.0);
    }
}

/// The recovery key of some code entropy (HKDF-SHA256).
pub open spec fn recovery_key_of(entropy: Seq<u8>) -> Seq<u8> {
    hkdf_sha256(entropy, RECOVERY_KEY_INFO.spec_bytes(), KEY_LEN as nat)
}

/// What recovering with `phrase` and `wrapped` gives: the vault key's bytes
/// when the trimmed phrase is a valid mnemonic whose recovery key unwraps
/// `wrapped`, `None` otherwise.
pub open spec fn recovered(phrase: Seq<char>, wrapped: Ciphertext) -> Option<Seq<u8>> {
    match bip39_entropy(trimmed(phrase)) {
        Some(e) => unwrapped(recovery_key_of(e), wrapped),
        None => None,
    }
}

/// Derives the recovery key from the code's entropy (HKDF-SHA256).
fn recovery_key(entropy: &[u8]) -> (r: Result<[u8; KEY_LEN]>)
    ensures
        r matches Ok(k) ==> k@ == recovery_key_of(entropy@),
        r is Ok,
{
    match hkdf_expand::<KEY_LEN>(entropy, RECOVERY_KEY_INFO.as_bytes()) {
        Ok(k) => Ok(k),
        Err(_) => Err(Error::crypto("dérivation HKDF (récup) échouée")),
    }
}

/// Creates the recovery kit of `vault_key` for the given code entropy and
/// nonce: the **mnemonic code** of the entropy (to show the user once) and
/// the **vault key wrapped** under the entropy's recovery key (to store).
/// Always succeeds.
pub fn recovery_kit_from(vault_key: &VaultKey, entropy: [u8; RECOVERY_ENTROPY_LEN], nonce: [u8; XNONCE_LEN]) -> (r:
    Result<(RecoveryCode, Ciphertext)>)
    ensures
        r is Ok,
        r matches Ok((code, wrapped)) ==> {
            &&& code.text() == bip39_phrase(entropy@)
            &&& trimmed(code.text()) == code.text()
            &&& bip39_entropy(trimmed(code.text())) == Some(entropy@)
            &&& wrapped.nonce@ == nonce@
            &&& sealed_by(recovery_key_of(entropy@), vault_key.bytes(), wrapped)
        },
{
    let mut entropy = entropy;
    let phrase = match bip39_from_entropy(&entropy) {
        Ok(p) => p,
        Err(e) => {
            let mut m = String::from_str("BIP39 : ");
            let t = mnemonic_error_text(&e);
            m.append(t.as_str());
            return Err(Error::Crypto(m));
        },
    };
    let mut key = recovery_key(entropy.as_slice())?;
    wipe_key(&mut entropy);
    proof {
        vault_key.lemma_len();
    }
    let wrapped = seal_with_nonce(&key, nonce, vault_key.as_bytes().as_slice());
    wipe_key(&mut key);
    let code = RecoveryCode(phrase);
    let wrapped = wrapped?;
    Ok((code, wrapped))
}

/// Creates a recovery kit for `vault_key` from code entropy and a nonce drawn
/// from the OS generator, as [`recovery_kit_from`]. Fails only when the OS
/// generator fails.
pub fn create_recovery_kit(vault_key: &VaultKey) -> (r: Result<(RecoveryCode, Ciphertext)>)
    ensures
        r matches Ok((code, wrapped)) ==> exists|e: Seq<u8>|
            {
                &&& e.len() == RECOVERY_ENTROPY_LEN
                &&& #[trigger] bip39_phrase(e) == code.text()
                &&& trimmed(code.text()) == code.text()
                &&& bip39_entropy(trimmed(code.text())) == Some(e)
                &&& sealed_by(recovery_key_of(e), vault_key.bytes(), wrapped)
            },
        r matches Err(e) ==> random_failure(e),
{
    let mut entropy = match random_bytes::<RECOVERY_ENTROPY_LEN>() {
        Ok(e) => e,
        Err(e) => {
            return Err(Error::Crypto(describe_random_error(&e)));
        },
    };
    let nonce = match draw_nonce() {
        Ok(n) => n,
        Err(e) => {
            wipe_key(&mut entropy);
            return Err(e);
        },
    };
    let ghost e = entropy@;
    let r = recovery_kit_from(vault_key, entropy, nonce);
    wipe_key(&mut entropy);
    proof {
        if r is Ok {
            assert(bip39_phrase(e) == r->Ok_0.0.text());
        }
    }
    r
}

/// Recovers the [`VaultKey`] from the recovery code and the wrapped key.
/// Fails with an invalid code, or a wrapped key tampered with or not matching
/// the code.
pub fn recover_vault_key(recovery_phrase: &str, wrapped: &Ciphertext) -> (r: Result<VaultKey>)
    ensures
        r is Ok <==> recovered(recovery_phrase@, *wrapped) is Some,
        r matches Ok(k) ==> recovered(recovery_phrase@, *wrapped) == Some(k.bytes()),
        r matches Err(e) ==> e is Crypto,
{
    let mut entropy = match bip39_parse(trim(recovery_phrase)) {
        Ok(e) => e,
        Err(_) => {
            return Err(Error::crypto("code de récupération invalide"));
        },
    };
    let mut key = recovery_key(entropy.as_slice())?;
    wipe_bytes(&mut entropy);
    let plaintext = open(&key, wrapped);
    wipe_key(&mut key);
    let mut plaintext = plaintext?;
    let bytes = match exact_array::<KEY_LEN>(plaintext.as_slice()) {
        Some(b) => b,
        None => {
            return Err(Error::crypto("taille de clé invalide"));
        },
    };
    wipe_bytes(&mut plaintext);
    Ok(VaultKey::from_bytes(bytes))
}

/// Law: the code and wrapped key of a recovery kit recover the vault key.
pub proof fn lemma_recovery_roundtrip(entropy: Seq<u8>, phrase: Seq<char>, vault_key: VaultKey, wrapped: Ciphertext)
    requires
        bip39_entropy(trimmed(phrase)) == Some(entropy),
        sealed_by(recovery_key_of(entropy), vault_key.bytes(), wrapped),
    ensures
        recovered(phrase, wrapped) == Some(vault_key.bytes()),
{
    vault_key.lemma_len();
}

proof fn lemma_trim_start_len(s: Seq<char>)
    ensures
        trim_start(s).len() <= s.len(),
        trim_start(s).len() == s.len() ==> trim_start(s) == s,
    decreases s.len(),
{
    if s.len() > 0 && is_whitespace(s[0]) {
        lemma_trim_start_len(s.drop_first());
    }
}

proof fn lemma_trim_end_len(s: Seq<char>)
    ensures
        trim_end(s).len() <= s.len(),
        trim_end(s).len() == s.len() ==> trim_end(s) == s,
    decreases s.len(),
{
    if s.len() > 0 && is_whitespace(s.last()) {
        lemma_trim_end_len(s.drop_last());
    }
}

proof fn lemma_trim_start_skips(lead: Seq<char>, rest: Seq<char>)
    requires
        forall|i: int| 0 <= i < lead.len() ==> is_whitespace(#[trigger] lead[i]),
    ensures
        trim_start(lead + rest) == trim_start(rest),
    decreases lead.len(),
{
    if lead.len() == 0 {
        assert(lead + rest =~= rest);
    } else {
        assert((lead + rest)[0] == lead[0]);
        assert((lead + rest).drop_first() =~= lead.drop_first() + rest);
        assert forall|i: int| 0 <= i < lead.drop_first().len() implies is_whitespace(
            #[trigger] lead.drop_first()[i],
        ) by {
            assert(lead.drop_first()[i] == lead[i + 1]);
        }
        lemma_trim_start_skips(lead.drop_first(), rest);
    }
}

proof fn lemma_trim_end_skips(rest: Seq<char>, trail: Seq<char>)
    requires
        forall|i: int| 0 <= i < trail.len() ==> is_whitespace(#[trigger] trail[i]),
    ensures
        trim_end(rest + trail) == trim_end(rest),
    decreases trail.len(),
{
    if trail.len() == 0 {
        assert(rest + trail =~= rest);
    } else {
        assert((rest + trail).last() == trail[trail.len() - 1]);
        assert((rest + trail).drop_last() =~= rest + trail.drop_last());
        assert forall|i: int| 0 <= i < trail.drop_last().len() implies is_whitespace(
            #[trigger] trail.drop_last()[i],
        ) by {
            assert(trail.drop_last()[i] == trail[i]);
        }
        lemma_trim_end_skips(rest, trail.drop_last());
    }
}

/// Law (`str::trim`): whitespace around a text that has none at its ends
/// is trimmed back to that text.
pub proof fn lemma_trim_surrounding(lead: Seq<char>, text: Seq<char>, trail: Seq<char>)
    requires
        forall|i: int| 0 <= i < lead.len() ==> is_whitespace(#[trigger] lead[i]),
        forall|i: int| 0 <= i < trail.len() ==> is_whitespace(#[trigger] trail[i]),
        trimmed(text) == text,
    ensures
        trimmed(lead + text + trail) == text,
{
    assert(lead + text + trail =~= lead + (text + trail));
    lemma_trim_start_skips(lead, text + trail);
    lemma_trim_start_len(text);
    lemma_trim_end_len(trim_start(text));
    if text.len() == 0 {
        assert(text + trail =~= trail + text);
        lemma_trim_start_skips(trail, text);
    } else {
        assert(trim_start(text) == text);
        lemma_trim_start_len(text.drop_first());
        assert(!is_whitespace(text[0]));
        assert((text + trail)[0] == text[0]);
        lemma_trim_end_skips(text, trail);
    }
}

/// Law: the code of a recovery kit, with whitespace around it, still
/// recovers the vault key.
pub proof fn lemma_recovery_tolerates_whitespace(
    entropy: Seq<u8>,
    phrase: Seq<char>,
    lead: Seq<char>,
    trail: Seq<char>,
    vault_key: VaultKey,
    wrapped: Ciphertext,
)
    requires
        bip39_entropy(trimmed(phrase)) == Some(entropy),
        trimmed(phrase) == phrase,
        forall|i: int| 0 <= i < lead.len() ==> is_whitespace(#[trigger] lead[i]),
        forall|i: int| 0 <= i < trail.len() ==> is_whitespace(#[trigger] trail[i]),
        sealed_by(recovery_key_of(entropy), vault_key.bytes(), wrapped),
    ensures
        recovered(lead + phrase + trail, wrapped) == Some(vault_key.bytes()),
{
    lemma_trim_surrounding(lead, phrase, trail);
    lemma_recovery_roundtrip(entropy, lead + phrase + trail, vault_key, wrapped);
}

impl Drop for RecoveryCode {
    /// The phrase is wiped when the code goes out of use.
    fn drop(&mut self)
        opens_invariants none
        no_unwind
    {
        wipe_text(&mut self.0);
    }
}

/// Law: the recovery key is HKDF-SHA256 keyed by the code's entropy, with
/// the domain `realm-guard-core/v1/recovery-key` as context; 32 bytes long.
pub proof fn lemma_recovery_key_layout(entropy: Seq<u8>)
    ensures
        recovery_key_of(entropy) == hkdf_sha256(entropy, "realm-guard-core/v1/recovery-key".spec_bytes(), 32),
{
}

} // verus!
