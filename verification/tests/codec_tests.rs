use ancrypt::codec::{decode_map, decode_record, encode_map, encode_record};
use ancrypt::master_password::init_master_password_with;

fn entries(pairs: &[(&str, &str)]) -> Vec<(String, String)> {
    pairs.iter().map(|(n, v)| (n.to_string(), v.to_string())).collect()
}

#[test]
fn map_round_trip_empty() {
    let m = entries(&[]);
    let bytes = encode_map(&m);
    assert_eq!(bytes.len(), 8);
    let back = decode_map(bytes.as_slice()).unwrap();
    assert_eq!(back.len(), 0);
}

#[test]
fn map_round_trip_ascii_and_unicode() {
    let m = entries(&[("email", "hunter2"), ("héllo→世界", "väl🔑ue")]);
    let bytes = encode_map(&m);
    let back = decode_map(bytes.as_slice()).unwrap();
    assert_eq!(back, m);
}

#[test]
fn map_decode_rejects_trailing_bytes() {
    let m = entries(&[("a", "b")]);
    let mut bytes = encode_map(&m);
    bytes.push(0);
    assert!(decode_map(bytes.as_slice()).is_none());
}

#[test]
fn map_decode_rejects_truncation() {
    let m = entries(&[("name", "value")]);
    let mut bytes = encode_map(&m);
    bytes.pop();
    assert!(decode_map(bytes.as_slice()).is_none());
}

#[test]
fn map_decode_rejects_duplicate_names() {
    let m = vec![
        ("twin".to_string(), "one".to_string()),
        ("twin".to_string(), "two".to_string()),
    ];
    let bytes = encode_map(&m);
    assert!(decode_map(bytes.as_slice()).is_none());
}

#[test]
fn map_decode_rejects_surrogate_code_points() {
    // A one-entry map whose name claims one character holding a surrogate
    // value, which no string can contain.
    let mut bytes: Vec<u8> = Vec::new();
    bytes.extend_from_slice(&1u64.to_le_bytes());
    bytes.extend_from_slice(&1u64.to_le_bytes());
    bytes.extend_from_slice(&0xD800u32.to_le_bytes());
    bytes.extend_from_slice(&0u64.to_le_bytes());
    assert!(decode_map(bytes.as_slice()).is_none());
}

#[test]
fn record_round_trip_preserves_every_persisted_field() {
    let component = init_master_password_with("pw", 500).unwrap();
    let bytes = encode_record(&component);
    let back = decode_record(bytes.as_slice()).unwrap();
    assert_eq!(back.pbkdf2_iterations, component.pbkdf2_iterations);
    assert_eq!(back.db_salt_component, component.db_salt_component);
    assert_eq!(back.master_password, component.master_password);
    assert_eq!(back.encrypted_passwords.aad, component.encrypted_passwords.aad);
    assert_eq!(
        back.encrypted_passwords.nonce_sequence.nonce_bytes,
        component.encrypted_passwords.nonce_sequence.nonce_bytes
    );
    assert_eq!(
        back.encrypted_passwords.nonce_sequence.index,
        component.encrypted_passwords.nonce_sequence.index
    );
    assert_eq!(back.encrypted_passwords.index, component.encrypted_passwords.index);
    assert_eq!(back.encrypted_passwords.data, component.encrypted_passwords.data);
    // The derived key is never part of the record.
    assert!(back.derived_key.is_empty());
}

#[test]
fn record_decode_rejects_wrong_version() {
    let component = init_master_password_with("pw", 500).unwrap();
    let mut bytes = encode_record(&component);
    bytes[0] = 2;
    assert!(decode_record(bytes.as_slice()).is_none());
}

#[test]
fn record_decode_rejects_short_input() {
    assert!(decode_record(b"too short").is_none());
}

#[test]
fn record_decode_rejects_length_mismatch() {
    let component = init_master_password_with("pw", 500).unwrap();
    let mut bytes = encode_record(&component);
    bytes.push(0);
    assert!(decode_record(bytes.as_slice()).is_none());
}
