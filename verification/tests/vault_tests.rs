use ancrypt::codec::encode_record;
use ancrypt::commands::VaultCollection;
use ancrypt::errors::Error;
use ancrypt::vault::{attempt_unlock, init, Vault};

const CHARSET: &str = "abcdefghijklmnopqrstuvwxyzABCDEFGHIJKLMNOPQRSTUVWXYZ1234567890!@#$%^&*()-=_+[]\\{}|;:'\"<>?,./`~";

fn fresh_vault(password: &str, name: &str) -> (Vault<ancrypt::vault::Unlocked>, Vec<u8>) {
    let pending = Vault::new().unwrap();
    pending
        .create_new_with_iterations(password, name, 1000)
        .unwrap()
}

#[test]
fn create_rejects_empty_name_and_password() {
    let pending = Vault::new().unwrap();
    assert_eq!(
        pending.create_new_with_iterations("pw", "", 1000).err(),
        Some(Error::EmptyName)
    );
    let pending = Vault::new().unwrap();
    assert_eq!(
        pending.create_new_with_iterations("", "work", 1000).err(),
        Some(Error::EmptyPassword)
    );
}

#[test]
fn insert_then_get_returns_the_inserted_value() {
    let (mut vault, _record) = fresh_vault("pw", "vault");
    vault.insert_password("email".to_string(), "hunter2".to_string()).unwrap();
    assert_eq!(vault.retrieve_password("email").unwrap(), "hunter2");
}

#[test]
fn insert_of_a_present_name_reports_already_exists_and_keeps_the_map() {
    let (mut vault, _record) = fresh_vault("pw", "vault");
    vault.insert_password("email".to_string(), "first".to_string()).unwrap();
    let r = vault.insert_password("email".to_string(), "second".to_string());
    assert_eq!(r.err(), Some(Error::AlreadyExists));
    assert_eq!(vault.retrieve_password("email").unwrap(), "first");
    assert_eq!(vault.list_password().len(), 1);
}

#[test]
fn remove_of_an_absent_name_reports_not_found_and_keeps_the_map() {
    let (mut vault, _record) = fresh_vault("pw", "vault");
    vault.insert_password("kept".to_string(), "value".to_string()).unwrap();
    let r = vault.delete_password("absent".to_string());
    assert_eq!(r.err(), Some(Error::NotFound));
    assert_eq!(vault.retrieve_password("kept").unwrap(), "value");
}

#[test]
fn remove_of_a_present_name_makes_it_not_found() {
    let (mut vault, _record) = fresh_vault("pw", "vault");
    vault.insert_password("gone".to_string(), "value".to_string()).unwrap();
    vault.delete_password("gone".to_string()).unwrap();
    assert_eq!(vault.retrieve_password("gone").err(), Some(Error::NotFound));
}

#[test]
fn unlock_with_the_correct_password_recovers_the_persisted_map() {
    let (mut vault, _record) = fresh_vault("letmein", "vault");
    let record = vault
        .insert_password("site".to_string(), "s3cret".to_string())
        .unwrap();
    let locked = init(record.as_slice()).unwrap();
    let unlocked = attempt_unlock(locked, "letmein").ok().unwrap();
    assert_eq!(unlocked.retrieve_password("site").unwrap(), "s3cret");
    assert_eq!(unlocked.list_password(), vec!["site".to_string()]);
}

#[test]
fn unlock_with_a_wrong_password_fails_and_leaves_the_record_unchanged() {
    let (mut vault, _record) = fresh_vault("letmein", "vault");
    let record = vault
        .insert_password("site".to_string(), "s3cret".to_string())
        .unwrap();
    let locked = init(record.as_slice()).unwrap();
    let (locked_back, err) = attempt_unlock(locked, "not-it").err().unwrap();
    assert_eq!(err, Error::WrongPassword);
    assert_eq!(encode_record(&locked_back.pbkdf2_component), record);
}

#[test]
fn unlock_with_tampered_ciphertext_reports_decryption_failure() {
    let (mut vault, _record) = fresh_vault("letmein", "vault");
    let mut record = vault
        .insert_password("site".to_string(), "s3cret".to_string())
        .unwrap();
    let last = record.len() - 1;
    record[last] ^= 0x40;
    let locked = init(record.as_slice()).unwrap();
    let (_, err) = attempt_unlock(locked, "letmein").err().unwrap();
    assert_eq!(err, Error::DecryptionFailure);
}

#[test]
fn init_with_garbage_reports_corrupt_store() {
    assert_eq!(
        init(b"not a vault record at all").err(),
        Some(Error::CorruptOrIncompatibleStore)
    );
}

#[test]
fn lock_leaves_no_secret_bytes_behind() {
    let (mut vault, _record) = fresh_vault("pw", "vault");
    vault.insert_password("email".to_string(), "hunter2".to_string()).unwrap();
    let locked = vault.lock();
    assert!(locked.passwords.is_empty());
    assert_eq!(locked.pbkdf2_component.derived_key, vec![0u8; 32]);
    assert_eq!(locked.pbkdf2_component.master_password.1, vec![0u8; 32]);
    assert!(locked.pbkdf2_component.encrypted_passwords.data.is_empty());
}

#[test]
fn check_lock_reflects_the_lifecycle_stage() {
    let (vault, record) = fresh_vault("pw", "vault");
    assert!(!vault.check_lock());
    let locked = init(record.as_slice()).unwrap();
    assert!(locked.check_lock());
}

#[test]
fn retrieve_from_file_replaces_a_locked_vault() {
    let (mut vault, _record) = fresh_vault("pw", "vault");
    let record = vault
        .insert_password("email".to_string(), "hunter2".to_string())
        .unwrap();
    let pending = Vault::new().unwrap();
    let mut locked = pending.retrieved();
    assert_eq!(
        locked.retrieve_from_file(record.as_slice()),
        ancrypt::errors::RetrieveResult::Success
    );
    let unlocked = attempt_unlock(locked, "pw").ok().unwrap();
    assert_eq!(unlocked.retrieve_password("email").unwrap(), "hunter2");
}

#[test]
fn end_to_end_create_add_lock_reload_unlock() {
    let pending = Vault::new().unwrap();
    let (mut vault, _record) = pending.create_new("Tr0ub4dor&3", "work").unwrap();
    let disk = vault
        .insert_password("email".to_string(), "hunter2".to_string())
        .unwrap();
    vault.lock();
    let locked = init(disk.as_slice()).unwrap();
    let unlocked = attempt_unlock(locked, "Tr0ub4dor&3").ok().unwrap();
    assert_eq!(unlocked.retrieve_password("email").unwrap(), "hunter2");
}

#[test]
fn end_to_end_wrong_password_leaves_the_disk_record_intact() {
    let pending = Vault::new().unwrap();
    let (mut vault, _record) = pending
        .create_new_with_iterations("Tr0ub4dor&3", "work", 1000)
        .unwrap();
    let disk = vault
        .insert_password("email".to_string(), "hunter2".to_string())
        .unwrap();
    let locked = init(disk.as_slice()).unwrap();
    let (locked_back, err) = attempt_unlock(locked, "wrong").err().unwrap();
    assert_eq!(err, Error::WrongPassword);
    assert_eq!(encode_record(&locked_back.pbkdf2_component), disk);
}

#[test]
fn generated_secret_has_length_18_from_the_charset_and_refuses_reuse() {
    let (mut vault, _record) = fresh_vault("pw", "vault");
    let (value, _disk) = vault.generate_secret("api-key".to_string()).unwrap();
    assert_eq!(value.chars().count(), 18);
    for c in value.chars() {
        assert!(CHARSET.contains(c), "unexpected character {c:?}");
    }
    assert_eq!(vault.retrieve_password("api-key").unwrap(), value);
    let again = vault.generate_secret("api-key".to_string());
    assert_eq!(again.err(), Some(Error::AlreadyExists));
}

#[test]
fn generate_secret_rejects_an_empty_name() {
    let (mut vault, _record) = fresh_vault("pw", "vault");
    assert_eq!(
        vault.generate_secret(String::new()).err(),
        Some(Error::EmptyName)
    );
}

#[test]
fn fresh_salts_are_not_left_zeroed() {
    let (vault, _record) = fresh_vault("pw", "vault");
    assert_eq!(vault.pbkdf2_component.db_salt_component.len(), 128);
    assert!(vault.pbkdf2_component.db_salt_component.iter().any(|&b| b != 0));
}

#[test]
fn unicode_names_and_values_survive_a_reload() {
    let (mut vault, _record) = fresh_vault("pässwörd→🔒", "vault");
    let disk = vault
        .insert_password("héllo→世界".to_string(), "väl🔑ue".to_string())
        .unwrap();
    let locked = init(disk.as_slice()).unwrap();
    let unlocked = attempt_unlock(locked, "pässwörd→🔒").ok().unwrap();
    assert_eq!(unlocked.retrieve_password("héllo→世界").unwrap(), "väl🔑ue");
}

#[test]
fn collection_lists_vaults_and_finds_names_by_id() {
    let mut collection = VaultCollection::default();
    collection.set_vaults(vec!["alpha".to_string(), "beta".to_string()]);
    assert_eq!(collection.vaults.len(), 2);
    assert_eq!(collection.find_vault_name(1), Some("beta".to_string()));
    assert_eq!(collection.find_vault_name(7), None);
}

#[test]
fn collection_clean_closes_the_open_vault() {
    let (vault, _record) = fresh_vault("pw", "vault");
    let mut collection = VaultCollection::default();
    collection.open_vault = Some(ancrypt::commands::OpenVault {
        vault,
        name: "vault".to_string(),
    });
    collection.clean();
    assert!(collection.open_vault.is_none());
}

#[test]
fn error_descriptions_are_distinct_for_authentication_and_corruption() {
    assert_ne!(
        Error::WrongPassword.describe(),
        Error::CorruptOrIncompatibleStore.describe()
    );
    assert_ne!(
        Error::WrongPassword.describe(),
        Error::DecryptionFailure.describe()
    );
}

#[test]
fn insert_rejects_empty_name_and_empty_secret() {
    let (mut vault, _record) = fresh_vault("pw", "vault");
    assert_eq!(
        vault.insert_password(String::new(), "value".to_string()).err(),
        Some(Error::EmptyName)
    );
    assert_eq!(
        vault.insert_password("name".to_string(), String::new()).err(),
        Some(Error::EmptyPassword)
    );
    assert!(vault.list_password().is_empty());
}

#[test]
fn insert_at_exhausted_nonce_counter_refuses_and_rolls_back() {
    let (mut vault, _record) = fresh_vault("pw", "vault");
    vault.insert_password("kept".to_string(), "value".to_string()).unwrap();
    let ciphertext_before = vault.pbkdf2_component.encrypted_passwords.data.clone();
    vault.pbkdf2_component.encrypted_passwords.nonce_sequence.index = u64::MAX;
    let r = vault.insert_password("new".to_string(), "value".to_string());
    assert_eq!(r.err(), Some(Error::NonceExhausted));
    assert_eq!(vault.list_password(), vec!["kept".to_string()]);
    assert_eq!(vault.pbkdf2_component.encrypted_passwords.data, ciphertext_before);
}

#[test]
fn vault_results_carry_success_and_message() {
    let ok = ancrypt::commands::VaultResult::ok();
    assert!(ok.success);
    assert!(ok.message.is_none());
    let failed = ancrypt::commands::VaultResult::failure("incorrect password".to_string());
    assert!(!failed.success);
    assert_eq!(failed.message.as_deref(), Some("incorrect password"));
}

#[test]
fn generated_secret_accepts_a_one_character_name() {
    let (mut vault, _record) = fresh_vault("pw", "vault");
    let (value, _disk) = vault.generate_secret("k".to_string()).unwrap();
    assert_eq!(value.chars().count(), 18);
    assert_eq!(vault.retrieve_password("k").unwrap(), value);
}

#[test]
fn descriptions_follow_the_variant() {
    assert_eq!(Error::WrongPassword.describe(), "incorrect password");
    assert_eq!(
        Error::CorruptOrIncompatibleStore.describe(),
        "incompatible or corrupted store"
    );
    assert_eq!(Error::DecryptionFailure.describe(), "decryption failed");
}
