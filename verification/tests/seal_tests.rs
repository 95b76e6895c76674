use ancrypt::encrypted_password::{CounterNonce, EncryptedPasswords};
use ancrypt::errors::Error;

fn key_of(byte: u8) -> Vec<u8> {
    vec![byte; 32]
}

#[test]
fn seal_then_open_recovers_plaintext() {
    let mut envelope = EncryptedPasswords::new().unwrap();
    let key = key_of(7);
    let payload: Vec<u8> = b"a small secret payload".to_vec();
    envelope.encrypt_data(key.as_slice(), payload.clone()).unwrap();
    let opened = envelope.decrypt(key.as_slice()).unwrap();
    assert_eq!(opened, payload);
}

#[test]
fn seal_changes_the_bytes_and_appends_a_tag() {
    let mut envelope = EncryptedPasswords::new().unwrap();
    let key = key_of(9);
    let payload: Vec<u8> = b"0123456789".to_vec();
    envelope.encrypt_data(key.as_slice(), payload.clone()).unwrap();
    assert_eq!(envelope.data.len(), payload.len() + 16);
    assert_ne!(&envelope.data[..payload.len()], payload.as_slice());
}

#[test]
fn open_with_wrong_key_fails() {
    let mut envelope = EncryptedPasswords::new().unwrap();
    let key = key_of(1);
    envelope.encrypt_data(key.as_slice(), b"data".to_vec()).unwrap();
    let other = key_of(2);
    assert_eq!(envelope.decrypt(other.as_slice()), Err(Error::DecryptionFailure));
}

#[test]
fn open_with_corrupted_ciphertext_fails() {
    let mut envelope = EncryptedPasswords::new().unwrap();
    let key = key_of(3);
    envelope.encrypt_data(key.as_slice(), b"data".to_vec()).unwrap();
    envelope.data[0] ^= 0x55;
    assert_eq!(envelope.decrypt(key.as_slice()), Err(Error::DecryptionFailure));
}

#[test]
fn successive_seals_increment_the_counter() {
    let mut envelope = EncryptedPasswords::new().unwrap();
    let key = key_of(4);
    assert_eq!(envelope.nonce_sequence.index, 0);
    envelope.encrypt_data(key.as_slice(), b"one".to_vec()).unwrap();
    assert_eq!(envelope.nonce_sequence.index, 1);
    assert_eq!(envelope.index, 1);
    envelope.encrypt_data(key.as_slice(), b"two".to_vec()).unwrap();
    assert_eq!(envelope.nonce_sequence.index, 2);
    assert_eq!(envelope.index, 2);
}

#[test]
fn opening_the_second_seal_with_the_first_counter_fails() {
    let mut envelope = EncryptedPasswords::new().unwrap();
    let key = key_of(5);
    envelope.encrypt_data(key.as_slice(), b"first".to_vec()).unwrap();
    let first_counter = envelope.index;
    envelope.encrypt_data(key.as_slice(), b"second".to_vec()).unwrap();
    assert_eq!(envelope.decrypt(key.as_slice()).unwrap(), b"second".to_vec());
    envelope.index = first_counter;
    assert_eq!(envelope.decrypt(key.as_slice()), Err(Error::DecryptionFailure));
}

#[test]
fn seal_at_counter_end_reports_nonce_exhausted_and_keeps_the_data() {
    let envelope = EncryptedPasswords::new().unwrap();
    let key = key_of(6);
    let mut exhausted = EncryptedPasswords {
        aad: envelope.aad,
        nonce_sequence: CounterNonce {
            nonce_bytes: envelope.nonce_sequence.nonce_bytes,
            index: u64::MAX,
        },
        data: b"previous ciphertext".to_vec(),
        index: 41,
    };
    let r = exhausted.encrypt_data(key.as_slice(), b"next".to_vec());
    assert_eq!(r, Err(Error::NonceExhausted));
    assert_eq!(exhausted.data, b"previous ciphertext".to_vec());
    assert_eq!(exhausted.nonce_sequence.index, u64::MAX);
    assert_eq!(exhausted.index, 41);
}

#[test]
fn fresh_envelopes_use_random_material() {
    let a = EncryptedPasswords::new().unwrap();
    assert_eq!(a.aad.len(), 128);
    assert_eq!(a.nonce_sequence.nonce_bytes.len(), 4);
    // An aad of 128 random bytes is all zero with negligible probability;
    // an unfilled buffer would stay zero.
    assert!(a.aad.iter().any(|&b| b != 0));
}
