use realm_guard_core::crypto::{
    decode_ciphertext, encode_ciphertext, keypair_from_seed, recovery_kit_from, seal_with_nonce, Ciphertext,
    CIPHERTEXT_VERSION,
};
use realm_guard_core::crypto::device_key::{ED25519_KEY_LEN, ED25519_SIG_LEN};
use realm_guard_core::crypto::{
    create_recovery_kit, decrypt_entry, derive_master_key, device_sign, device_verify, encrypt_entry,
    generate_device_keypair, generate_vault_key_bytes, open_with_export_key, recover_vault_key, seal_with_export_key,
    unwrap_vault_key, unwrap_vault_key_bytes, wrap_vault_key, wrap_vault_key_bytes, MasterKey, VaultKey, KEY_LEN,
    SALT_LEN,
};
use realm_guard_core::Error;

fn vk() -> VaultKey {
    VaultKey::generate().unwrap()
}

fn kek(password: &[u8]) -> MasterKey {
    derive_master_key(password, &[9u8; SALT_LEN]).unwrap()
}

// ---- per-entry encryption ----

#[test]
fn entry_roundtrip() {
    let vk = vk();
    let ct = encrypt_entry(&vk, b"entry-1", b"secret data").unwrap();
    assert_eq!(decrypt_entry(&vk, b"entry-1", &ct).unwrap(), b"secret data");
}

#[test]
fn wrong_entry_id_rejected() {
    let vk = vk();
    let ct = encrypt_entry(&vk, b"entry-1", b"data").unwrap();
    assert!(decrypt_entry(&vk, b"entry-2", &ct).is_err());
}

#[test]
fn wrong_vault_key_rejected() {
    let ct = encrypt_entry(&vk(), b"e", b"data").unwrap();
    assert!(decrypt_entry(&vk(), b"e", &ct).is_err());
}

#[test]
fn tampered_rejected() {
    let vk = vk();
    let mut ct = encrypt_entry(&vk, b"e", b"data").unwrap();
    ct.ciphertext[0] ^= 0xFF;
    assert!(matches!(decrypt_entry(&vk, b"e", &ct), Err(Error::Crypto(_))));
}

#[test]
fn distinct_entries_distinct_ciphertext() {
    let vk = vk();
    let a = encrypt_entry(&vk, b"a", b"data").unwrap();
    let b = encrypt_entry(&vk, b"b", b"data").unwrap();
    assert_ne!(a.ciphertext, b.ciphertext);
}

#[test]
fn empty_plaintext_roundtrips() {
    let vk = vk();
    let ct = encrypt_entry(&vk, b"e", b"").unwrap();
    assert_eq!(decrypt_entry(&vk, b"e", &ct).unwrap(), b"");
}

#[test]
fn envelope_has_version_nonce_and_tag() {
    let vk = vk();
    let ct = encrypt_entry(&vk, b"e", b"abc").unwrap();
    assert_eq!(ct.version, 1);
    assert_eq!(ct.ciphertext.len(), 3 + 16);
    assert_ne!(ct.ciphertext[..3], b"abc"[..]);
}

// ---- password derivation ----

#[test]
fn deterministic() {
    let salt = [7u8; SALT_LEN];
    let a = derive_master_key(b"correct horse battery staple", &salt).unwrap();
    let b = derive_master_key(b"correct horse battery staple", &salt).unwrap();
    assert_eq!(a.as_bytes(), b.as_bytes());
}

#[test]
fn depends_on_password() {
    let salt = [7u8; SALT_LEN];
    let a = derive_master_key(b"password-a", &salt).unwrap();
    let b = derive_master_key(b"password-b", &salt).unwrap();
    assert_ne!(a.as_bytes(), b.as_bytes());
}

#[test]
fn depends_on_salt() {
    let a = derive_master_key(b"pw", &[1u8; SALT_LEN]).unwrap();
    let b = derive_master_key(b"pw", &[2u8; SALT_LEN]).unwrap();
    assert_ne!(a.as_bytes(), b.as_bytes());
}

#[test]
fn rejects_empty_password() {
    assert!(matches!(derive_master_key(b"", &[7u8; SALT_LEN]), Err(Error::Crypto(_))));
}

// ---- vault key wrapping ----

#[test]
fn vault_key_generate_is_random() {
    let a = VaultKey::generate().unwrap();
    let b = VaultKey::generate().unwrap();
    assert_ne!(a.as_bytes(), b.as_bytes());
}

#[test]
fn wrap_unwrap_roundtrip() {
    let kek = kek(b"master-password");
    let vk = VaultKey::generate().unwrap();
    let wrapped = wrap_vault_key(&vk, &kek).unwrap();
    let unwrapped = unwrap_vault_key(&wrapped, &kek).unwrap();
    assert_eq!(vk.as_bytes(), unwrapped.as_bytes());
}

#[test]
fn distinct_nonces_across_wraps() {
    let kek = kek(b"pw");
    let vk = VaultKey::generate().unwrap();
    let w1 = wrap_vault_key(&vk, &kek).unwrap();
    let w2 = wrap_vault_key(&vk, &kek).unwrap();
    assert_ne!(w1.nonce, w2.nonce);
    assert_ne!(w1.ciphertext, w2.ciphertext);
}

#[test]
fn vault_key_tampered_ciphertext_rejected() {
    let kek = kek(b"pw");
    let vk = VaultKey::generate().unwrap();
    let mut wrapped = wrap_vault_key(&vk, &kek).unwrap();
    wrapped.ciphertext[0] ^= 0xFF;
    assert!(unwrap_vault_key(&wrapped, &kek).is_err());
}

#[test]
fn wrong_kek_rejected() {
    let vk = VaultKey::generate().unwrap();
    let wrapped = wrap_vault_key(&vk, &kek(b"password-1")).unwrap();
    assert!(unwrap_vault_key(&wrapped, &kek(b"password-2")).is_err());
}

#[test]
fn byte_wrappers_roundtrip() {
    let kek = [7u8; KEY_LEN];
    let vk = generate_vault_key_bytes().unwrap();
    assert_eq!(vk.len(), KEY_LEN);
    let wrapped = wrap_vault_key_bytes(&kek, &vk).unwrap();
    assert_eq!(unwrap_vault_key_bytes(&kek, &wrapped).unwrap(), vk);
}

#[test]
fn byte_wrap_rejects_bad_key_length() {
    assert!(wrap_vault_key_bytes(&[0u8; 16], &[1u8; KEY_LEN]).is_err());
    assert!(wrap_vault_key_bytes(&[0u8; KEY_LEN], &[1u8; 10]).is_err());
}

#[test]
fn byte_unwrap_wrong_kek_rejected() {
    let vk = generate_vault_key_bytes().unwrap();
    let wrapped = wrap_vault_key_bytes(&[1u8; KEY_LEN], &vk).unwrap();
    assert!(unwrap_vault_key_bytes(&[2u8; KEY_LEN], &wrapped).is_err());
}

#[test]
fn byte_unwrap_rejects_bad_kek_length() {
    let vk = generate_vault_key_bytes().unwrap();
    let wrapped = wrap_vault_key_bytes(&[1u8; KEY_LEN], &vk).unwrap();
    assert!(matches!(unwrap_vault_key_bytes(&[1u8; 31], &wrapped), Err(Error::Crypto(_))));
}

#[test]
fn byte_unwrap_rejects_plaintext_of_wrong_length() {
    let kek = [4u8; KEY_LEN];
    let wrapped = seal_with_export_key(&[0u8; 8], b"short").unwrap();
    assert!(unwrap_vault_key_bytes(&kek, &wrapped).is_err());
}

// ---- server blob ----

#[test]
fn server_blob_roundtrip() {
    let export_key = [7u8; 64];
    let secret = b"vault key deja enrobee par la KEK";
    let sealed = seal_with_export_key(&export_key, secret).unwrap();
    assert_eq!(open_with_export_key(&export_key, &sealed).unwrap(), secret);
}

#[test]
fn wrong_export_key_rejected() {
    let sealed = seal_with_export_key(&[7u8; 64], b"secret").unwrap();
    assert!(open_with_export_key(&[8u8; 64], &sealed).is_err());
}

#[test]
fn tampered_blob_rejected() {
    let export_key = [7u8; 64];
    let mut sealed = seal_with_export_key(&export_key, b"secret").unwrap();
    sealed.ciphertext[0] ^= 0xFF;
    assert!(open_with_export_key(&export_key, &sealed).is_err());
}

#[test]
fn server_blob_key_differs_from_raw_export_key() {
    let export_key = [7u8; 32];
    let sealed = seal_with_export_key(&export_key, &[1u8; 32]).unwrap();
    assert!(unwrap_vault_key_bytes(&export_key, &sealed).is_err());
}

// ---- device identity keys ----

#[test]
fn sign_then_verify_roundtrip() {
    let kp = generate_device_keypair().unwrap();
    let message = b"challenge-nonce";
    let signature = device_sign(&kp.secret, message).unwrap();
    assert_eq!(kp.public.len(), ED25519_KEY_LEN);
    assert_eq!(signature.len(), ED25519_SIG_LEN);
    assert!(device_verify(&kp.public, message, &signature));
}

#[test]
fn wrong_message_fails() {
    let kp = generate_device_keypair().unwrap();
    let signature = device_sign(&kp.secret, b"nonce-a").unwrap();
    assert!(!device_verify(&kp.public, b"nonce-b", &signature));
}

#[test]
fn wrong_key_fails() {
    let signer = generate_device_keypair().unwrap();
    let other = generate_device_keypair().unwrap();
    let signature = device_sign(&signer.secret, b"nonce").unwrap();
    assert!(!device_verify(&other.public, b"nonce", &signature));
}

#[test]
fn tampered_signature_fails() {
    let kp = generate_device_keypair().unwrap();
    let mut signature = device_sign(&kp.secret, b"nonce").unwrap();
    signature[0] ^= 0xFF;
    assert!(!device_verify(&kp.public, b"nonce", &signature));
}

#[test]
fn malformed_inputs_fail() {
    let kp = generate_device_keypair().unwrap();
    let signature = device_sign(&kp.secret, b"nonce").unwrap();
    assert!(!device_verify(&[0u8; 10], b"nonce", &signature));
    assert!(!device_verify(&kp.public, b"nonce", &[0u8; 10]));
    assert!(device_sign(&[0u8; 10], b"nonce").is_err());
}

#[test]
fn signature_is_deterministic_and_known_key() {
    // RFC 8032, test 1: secret key 9d61…7f60, empty message.
    let secret: [u8; 32] = [
        0x9d, 0x61, 0xb1, 0x9d, 0xef, 0xfd, 0x5a, 0x60, 0xba, 0x84, 0x4a, 0xf4, 0x92, 0xec, 0x2c, 0xc4, 0x44, 0x49, 0xc5,
        0x69, 0x7b, 0x32, 0x69, 0x19, 0x70, 0x3b, 0xac, 0x03, 0x1c, 0xae, 0x7f, 0x60,
    ];
    let s1 = device_sign(&secret, b"").unwrap();
    let s2 = device_sign(&secret, b"").unwrap();
    assert_eq!(s1, s2);
    assert_eq!(s1[0], 0xe5);
    assert_eq!(s1[63], 0x0b);
}

// ---- recovery kit ----

#[test]
fn recovery_roundtrip() {
    let vk = VaultKey::generate().unwrap();
    let (code, wrapped) = create_recovery_kit(&vk).unwrap();
    let recovered = recover_vault_key(code.phrase(), &wrapped).unwrap();
    assert_eq!(vk.as_bytes(), recovered.as_bytes());
}

#[test]
fn recovery_tolerates_surrounding_whitespace() {
    let vk = VaultKey::generate().unwrap();
    let (code, wrapped) = create_recovery_kit(&vk).unwrap();
    let padded = format!("  {}\n", code.phrase());
    let recovered = recover_vault_key(&padded, &wrapped).unwrap();
    assert_eq!(vk.as_bytes(), recovered.as_bytes());
}

#[test]
fn code_is_24_words() {
    let vk = VaultKey::generate().unwrap();
    let (code, _) = create_recovery_kit(&vk).unwrap();
    assert_eq!(code.phrase().split_whitespace().count(), 24);
}

#[test]
fn wrong_code_rejected() {
    let vk = VaultKey::generate().unwrap();
    let (_, wrapped) = create_recovery_kit(&vk).unwrap();
    let (other, _) = create_recovery_kit(&VaultKey::generate().unwrap()).unwrap();
    assert!(recover_vault_key(other.phrase(), &wrapped).is_err());
}

#[test]
fn invalid_code_rejected() {
    let vk = VaultKey::generate().unwrap();
    let (_, wrapped) = create_recovery_kit(&vk).unwrap();
    assert!(recover_vault_key("not a valid mnemonic phrase", &wrapped).is_err());
}

#[test]
fn tampered_wrapped_rejected() {
    let vk = VaultKey::generate().unwrap();
    let (code, mut wrapped) = create_recovery_kit(&vk).unwrap();
    wrapped.ciphertext[0] ^= 0xFF;
    assert!(recover_vault_key(code.phrase(), &wrapped).is_err());
}

#[test]
fn bad_key_length_message_names_the_length() {
    match wrap_vault_key_bytes(&[0u8; 16], &[1u8; KEY_LEN]) {
        Err(Error::Crypto(m)) => assert_eq!(m, "KEK de taille invalide (16 octets, 32 attendus)"),
        _ => panic!("expected a crypto error"),
    }
}

#[test]
fn seal_with_nonce_is_deterministic_and_refuses_other_versions() {
    let key = [3u8; KEY_LEN];
    let a = seal_with_nonce(&key, [1u8; 24], b"payload").unwrap();
    let b = seal_with_nonce(&key, [1u8; 24], b"payload").unwrap();
    assert_eq!(a, b);
    assert_eq!(a.version, CIPHERTEXT_VERSION);
    assert_eq!(a.nonce, [1u8; 24]);
    assert_eq!(open_with_export_key(&[0u8; 4], &a).is_err(), true);
    let sealed = seal_with_export_key(&[7u8; 64], b"secret").unwrap();
    let mut other = sealed.clone();
    other.version = 2;
    assert!(open_with_export_key(&[7u8; 64], &other).is_err());
    assert_eq!(open_with_export_key(&[7u8; 64], &sealed).unwrap(), b"secret");
}

#[test]
fn keypair_from_seed_matches_rfc8032() {
    let seed: [u8; 32] = [
        0x9d, 0x61, 0xb1, 0x9d, 0xef, 0xfd, 0x5a, 0x60, 0xba, 0x84, 0x4a, 0xf4, 0x92, 0xec, 0x2c, 0xc4, 0x44, 0x49, 0xc5,
        0x69, 0x7b, 0x32, 0x69, 0x19, 0x70, 0x3b, 0xac, 0x03, 0x1c, 0xae, 0x7f, 0x60,
    ];
    let kp = keypair_from_seed(seed);
    assert_eq!(kp.secret, seed.to_vec());
    assert_eq!(kp.public[0], 0xd7);
    assert_eq!(kp.public[31], 0x1a);
}

#[test]
fn recovery_kit_from_given_entropy() {
    let vk = VaultKey::generate().unwrap();
    let (code, wrapped) = recovery_kit_from(&vk, [0u8; 32], [2u8; 24]).unwrap();
    let words: Vec<&str> = code.phrase().split(' ').collect();
    assert_eq!(words.len(), 24);
    assert!(words[..23].iter().all(|w| *w == "abandon"));
    assert_eq!(words[23], "art");
    assert_eq!(wrapped.nonce, [2u8; 24]);
    let recovered = recover_vault_key(code.phrase(), &wrapped).unwrap();
    assert_eq!(recovered.as_bytes(), vk.as_bytes());
}

#[test]
fn keys_and_codes_can_be_wiped() {
    let mut vk = VaultKey::generate().unwrap();
    vk.wipe();
    assert_eq!(vk.as_bytes(), &[0u8; KEY_LEN]);
    let mut kek = kek(b"pw");
    kek.wipe();
    assert_eq!(kek.as_bytes(), &[0u8; KEY_LEN]);
    let (mut code, _) = create_recovery_kit(&VaultKey::generate().unwrap()).unwrap();
    code.wipe();
    assert!(code.phrase().is_empty());
}

#[test]
fn ciphertext_bytes_roundtrip() {
    let ct = Ciphertext { version: 1, nonce: [3u8; 24], ciphertext: vec![9, 8, 7] };
    let bytes = encode_ciphertext(&ct);
    assert_eq!(bytes.len(), 1 + 24 + 1 + 3);
    assert_eq!(bytes[25], 3);
    assert_eq!(decode_ciphertext(&bytes).unwrap(), ct);
    let mut longer = bytes.clone();
    longer.push(0xEE);
    assert_eq!(decode_ciphertext(&longer).unwrap(), ct);
    assert!(matches!(decode_ciphertext(&bytes[..27]), Err(Error::Serialization(_))));
}
