//! Derivation of the wrapping key (KEK) from the master password with
//! Argon2id.

use super::{MasterKey, ARGON2_M_COST_KIB, ARGON2_P_COST, ARGON2_T_COST, SALT_LEN};
use crate::error::{Error, Result};
use crate::primitives::{argon2_error_text, argon2id, argon2id_hash};
use vstd::prelude::*;
use vstd::string::StringExecFns;

verus! {

/// The KEK that a password and salt derive to.
pub open spec fn kek_of(password: Seq<u8>, salt: Seq<u8>) -> Seq<u8> {
    argon2id(password, salt, ARGON2_M_COST_KIB, ARGON2_T_COST, ARGON2_P_COST)
}

/// Derives the wrapping key (KEK) from the master password with **Argon2id**
/// (m = 64 MiB, t = 3, p = 1, 32-byte output). Refuses an empty password
/// (and one too long for Argon2, over `u32::MAX` bytes).
pub fn derive_master_key(password: &[u8], salt: &[u8; SALT_LEN]) -> (r: Result<MasterKey>)
    ensures
        r is Ok <==> 0 < password@.len() <= 0xFFFF_FFFF,
        r matches Ok(k) ==> k.bytes() == kek_of(password@, salt@),
        r matches Ok(k) ==> k.bytes() == argon2id(password@, salt@, 65536, 3, 1),
        r matches Err(e) ==> e is Crypto,
{
    if password.len() == 0 {
        return Err(Error::crypto("mot de passe vide"));
    }
    match argon2id_hash(password, salt, ARGON2_M_COST_KIB, ARGON2_T_COST, ARGON2_P_COST) {
        Ok(out) => Ok(MasterKey::from_bytes(out)),
        Err(e) => {
            let mut m = String::from_str("Argon2 : ");
            let t = argon2_error_text(&e);
            m.append(t.as_str());
            Err(Error::Crypto(m))
        },
    }
}

/// Law: the KEK of a password and salt is Argon2id with 64 MiB of memory
/// (65 536 KiB), three passes and one lane.
pub proof fn lemma_kek_parameters(password: Seq<u8>, salt: Seq<u8>)
    ensures
        kek_of(password, salt) == argon2id(password, salt, 65536, 3, 1),
{
}

} // verus!
