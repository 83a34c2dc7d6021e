use realm_guard_core::crypto::{pairing_seal_with_nonce, pairing_source_respond, pairing_start_from};
use realm_guard_core::crypto::{
    pairing_new_device_confirm, pairing_open, pairing_source_begin, pairing_source_seal, pairing_start, KEY_LEN,
};
use realm_guard_core::Error;

const DEVICE_PK: [u8; 32] = [3u8; 32];
const ACCOUNT_ID: [u8; 16] = [7u8; 16];

#[test]
fn two_round_roundtrip_matches_sas_and_transfers_vault_key() {
    let vault_key = [42u8; KEY_LEN];

    let start = pairing_start(&DEVICE_PK).unwrap();
    let begin = pairing_source_begin(&start.qr).unwrap();
    let confirm = pairing_new_device_confirm(&start.state, &begin.hello).unwrap();

    assert_eq!(begin.sas, confirm.sas);
    assert_eq!(begin.sas.len(), 6);
    assert!(begin.sas.chars().all(|c| c.is_ascii_digit()));
    assert_eq!(begin.device_public_key, DEVICE_PK);

    let sealed = pairing_source_seal(&begin.state, &ACCOUNT_ID, &vault_key).unwrap();
    let opened = pairing_open(&confirm.state, &sealed).unwrap();

    assert_eq!(opened.vault_key, vault_key);
    assert_eq!(opened.account_id, ACCOUNT_ID);
}

#[test]
fn hello_carries_no_secret() {
    let vault_key = [42u8; KEY_LEN];
    let start = pairing_start(&DEVICE_PK).unwrap();
    let begin = pairing_source_begin(&start.qr).unwrap();

    assert_eq!(begin.hello.len(), 32);
    assert!(!begin.hello.windows(4).any(|w| w == &vault_key[..4]));
    assert_ne!(begin.hello[..], [0u8; 32][..]);
}

#[test]
fn swapped_device_key_diverges_sas_before_anything_is_sent() {
    let start = pairing_start(&DEVICE_PK).unwrap();

    // The QR layout is pairing id (16) ‖ X25519 key (32) ‖ device key (32).
    let mut tampered_qr = start.qr.clone();
    for b in &mut tampered_qr[48..80] {
        *b = 0xAA;
    }

    let begin = pairing_source_begin(&tampered_qr).unwrap();
    let confirm = pairing_new_device_confirm(&start.state, &begin.hello).unwrap();

    assert_ne!(begin.sas, confirm.sas);
}

#[test]
fn wrong_recipient_cannot_open() {
    let vault_key = [7u8; KEY_LEN];
    let target = pairing_start(&DEVICE_PK).unwrap();
    let other = pairing_start(&DEVICE_PK).unwrap();

    let begin = pairing_source_begin(&target.qr).unwrap();
    let other_confirm = pairing_new_device_confirm(&other.state, &begin.hello).unwrap();
    let sealed = pairing_source_seal(&begin.state, &ACCOUNT_ID, &vault_key).unwrap();

    assert!(pairing_open(&other_confirm.state, &sealed).is_err());
}

#[test]
fn pairing_tampered_ciphertext_rejected() {
    let vault_key = [9u8; KEY_LEN];
    let start = pairing_start(&DEVICE_PK).unwrap();
    let begin = pairing_source_begin(&start.qr).unwrap();
    let confirm = pairing_new_device_confirm(&start.state, &begin.hello).unwrap();

    let mut sealed = pairing_source_seal(&begin.state, &ACCOUNT_ID, &vault_key).unwrap();
    *sealed.last_mut().unwrap() ^= 0xFF;

    assert!(matches!(pairing_open(&confirm.state, &sealed), Err(Error::Crypto(_))));
}

#[test]
fn rejects_invalid_lengths() {
    assert!(pairing_start(&[0u8; 31]).is_err());
    let start = pairing_start(&DEVICE_PK).unwrap();
    let begin = pairing_source_begin(&start.qr).unwrap();
    assert!(pairing_source_seal(&begin.state, &[0u8; 15], &[1u8; KEY_LEN]).is_err());
}

#[test]
fn layouts_have_fixed_sizes() {
    let start = pairing_start(&DEVICE_PK).unwrap();
    assert_eq!(start.qr.len(), 80);
    assert_eq!(start.state.len(), 80);
    assert_eq!(start.qr[48..80], DEVICE_PK[..]);
    assert_eq!(start.state[48..80], DEVICE_PK[..]);
    assert_eq!(start.qr[0..16], start.state[32..48]);
    let begin = pairing_source_begin(&start.qr).unwrap();
    assert_eq!(begin.state.len(), 32);
    let sealed = pairing_source_seal(&begin.state, &ACCOUNT_ID, &[1u8; 5]).unwrap();
    // version ‖ nonce (24) ‖ varint length ‖ (16 + 1 + 5 payload bytes + 16 tag)
    assert_eq!(sealed[0], 1);
    assert_eq!(sealed[25], 38);
    assert_eq!(sealed.len(), 26 + 38);
}

#[test]
fn short_inputs_are_serialization_errors() {
    assert!(matches!(pairing_source_begin(&[0u8; 79]), Err(Error::Serialization(_))));
    assert!(matches!(pairing_new_device_confirm(&[0u8; 79], &[0u8; 32]), Err(Error::Serialization(_))));
    assert!(matches!(pairing_new_device_confirm(&[0u8; 80], &[0u8; 31]), Err(Error::Serialization(_))));
    assert!(matches!(pairing_source_seal(&[0u8; 31], &ACCOUNT_ID, &[1u8; 4]), Err(Error::Serialization(_))));
    assert!(matches!(pairing_open(&[0u8; 31], &[0u8; 64]), Err(Error::Serialization(_))));
    assert!(matches!(pairing_open(&[0u8; 32], &[1u8; 25]), Err(Error::Serialization(_))));
    assert!(matches!(pairing_start(&[0u8; 33]), Err(Error::Crypto(_))));
}

#[test]
fn empty_vault_key_transfers() {
    let start = pairing_start(&DEVICE_PK).unwrap();
    let begin = pairing_source_begin(&start.qr).unwrap();
    let confirm = pairing_new_device_confirm(&start.state, &begin.hello).unwrap();
    let sealed = pairing_source_seal(&begin.state, &ACCOUNT_ID, &[]).unwrap();
    let opened = pairing_open(&confirm.state, &sealed).unwrap();
    assert!(opened.vault_key.is_empty());
    assert_eq!(opened.account_id, ACCOUNT_ID);
}

#[test]
fn invalid_length_message_names_the_field() {
    match pairing_start(&[0u8; 31]) {
        Err(Error::Crypto(m)) => assert_eq!(m, "longueur device_public_key invalide (attendu 32 octets)"),
        _ => panic!("expected a crypto error"),
    }
}

#[test]
fn pairing_from_given_randomness_is_deterministic() {
    let secret_new = [5u8; 32];
    let secret_src = [6u8; 32];
    let id = [9u8; 16];
    let a = pairing_start_from(&DEVICE_PK, secret_new, id).unwrap();
    let b = pairing_start_from(&DEVICE_PK, secret_new, id).unwrap();
    assert_eq!(a.qr, b.qr);
    assert_eq!(a.state[..32], secret_new[..]);
    assert_eq!(a.qr[..16], id[..]);
    assert_ne!(a.qr[16..48], secret_new[..]);
    assert!(pairing_start_from(&[1u8; 31], secret_new, id).is_err());

    let r1 = pairing_source_respond(&a.qr, secret_src).unwrap();
    let r2 = pairing_source_respond(&a.qr, secret_src).unwrap();
    assert_eq!(r1.state, r2.state);
    assert_eq!(r1.sas, r2.sas);
    assert_eq!(r1.hello, r2.hello);
    assert!(matches!(pairing_source_respond(&a.qr[..79], secret_src), Err(Error::Serialization(_))));

    let confirm = pairing_new_device_confirm(&a.state, &r1.hello).unwrap();
    assert_eq!(confirm.sas, r1.sas);
    assert_eq!(confirm.state, r1.state);

    let nonce = [4u8; 24];
    let s1 = pairing_seal_with_nonce(&r1.state, &ACCOUNT_ID, &[8u8; 32], nonce).unwrap();
    let s2 = pairing_seal_with_nonce(&r1.state, &ACCOUNT_ID, &[8u8; 32], nonce).unwrap();
    assert_eq!(s1, s2);
    assert_eq!(s1[1..25], nonce[..]);
    let opened = pairing_open(&confirm.state, &s1).unwrap();
    assert_eq!(opened.vault_key, vec![8u8; 32]);
}

#[test]
fn pairing_open_refuses_other_envelope_versions() {
    let start = pairing_start(&DEVICE_PK).unwrap();
    let begin = pairing_source_begin(&start.qr).unwrap();
    let confirm = pairing_new_device_confirm(&start.state, &begin.hello).unwrap();
    let mut sealed = pairing_source_seal(&begin.state, &ACCOUNT_ID, &[1u8; 32]).unwrap();
    sealed[0] = 2;
    assert!(matches!(pairing_open(&confirm.state, &sealed), Err(Error::Crypto(_))));
}
