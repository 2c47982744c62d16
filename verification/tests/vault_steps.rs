use arka::crypto::{decrypt, seal_with_nonce, EncryptedSecret, EncryptionKey};
use arka::store::PasswordRecord;
use arka::vault::{
    backup_payload, check_backup_version, check_credential_input, decrypt_record, decrypt_records,
    open_backup, seal_backup, stage_backup_rows, staged_rows, VaultBackupEntry,
    BACKUP_FORMAT_VERSION,
};
use arka::ArkaError;

fn key() -> EncryptionKey {
    EncryptionKey::from_key_bytes([11u8; 32])
}

fn record(id: i64, title: &str, password: &str, url: Option<&str>) -> PasswordRecord {
    PasswordRecord {
        id,
        title: title.into(),
        username: "alice".into(),
        category: "مالی".into(),
        website_url: url.map(str::to_string),
        note: None,
        encrypted_password: seal_with_nonce(&key(), password, [id as u8; 12]).unwrap(),
        created_at: 10,
        updated_at: 20,
    }
}

#[test]
fn decrypt_record_copies_metadata() {
    let e = decrypt_record(&key(), &record(1, "Bank", "hunter2", Some("bank.com"))).unwrap();
    assert_eq!(e.id, 1);
    assert_eq!(e.title, "Bank");
    assert_eq!(e.category, "مالی");
    assert_eq!(e.password, "hunter2");
    assert_eq!(e.website_url, "bank.com");
    assert_eq!(e.note, "");
    assert_eq!((e.created_at, e.updated_at), (10, 20));
}

#[test]
fn wrong_key_is_authentication_failure() {
    let wrong = EncryptionKey::from_key_bytes([12u8; 32]);
    let records = vec![record(1, "Site", "secret", None)];
    assert!(matches!(decrypt_records(&wrong, &records), Err(ArkaError::AuthenticationFailed)));
}

#[test]
fn credential_input_order() {
    let f = |r: Result<(), ArkaError>| match r {
        Err(ArkaError::EmptyField { field }) => field,
        other => panic!("unexpected {other:?}"),
    };
    assert_eq!(f(check_credential_input(" ", " ", " ")), "master_password");
    assert_eq!(f(check_credential_input("m", "   ", "")), "title");
    assert_eq!(f(check_credential_input("m", "t", "")), "password");
    assert!(check_credential_input("m", "t", "p").is_ok());
}

#[test]
fn backup_roundtrip_restores_credentials() {
    let records = vec![record(1, "Bank", "hunter2", Some(" bank.com ")), record(2, "Mail", "p@ss", None)];
    let payload = backup_payload(&key(), &records).unwrap();
    assert_eq!(payload.version, BACKUP_FORMAT_VERSION);
    assert_eq!(payload.entries[0].password, "hunter2");
    let sealed = seal_backup(&key(), "{\"version\":2}").unwrap();
    assert_eq!(open_backup(&key(), sealed).unwrap(), "{\"version\":2}");
    let rows = stage_backup_rows(&key(), &payload.entries).unwrap();
    assert_eq!(rows.len(), 2);
    assert_eq!(rows[0].title, "Bank");
    assert_eq!(rows[0].website_url.as_deref(), Some("bank.com"));
    assert_eq!(rows[1].website_url, None);
    assert_eq!(decrypt(&key(), &rows[0].encrypted_password).unwrap(), "hunter2");
    assert_eq!(decrypt(&key(), &rows[1].encrypted_password).unwrap(), "p@ss");
    let store_rows = staged_rows(&rows, 99);
    assert_eq!(store_rows[1].title, "Mail");
    assert_eq!(store_rows[0].created_at, 99);
    assert_eq!(store_rows[0].website_url, Some("bank.com"));
    assert_eq!(store_rows[1].note, None);
}

#[test]
fn backup_import_rejects_bad_input() {
    assert!(matches!(open_backup(&key(), vec![]), Err(ArkaError::InvalidCiphertext)));
    assert!(matches!(open_backup(&key(), vec![1, 2, 3]), Err(ArkaError::InvalidCiphertext)));
    assert!(matches!(open_backup(&key(), vec![0u8; 28]), Err(ArkaError::InvalidCiphertext)));
    assert!(matches!(open_backup(&key(), vec![0u8; 40]), Err(ArkaError::AuthenticationFailed)));
    assert!(check_backup_version(1).is_ok());
    assert!(check_backup_version(2).is_ok());
    match check_backup_version(3) {
        Err(ArkaError::CorruptVault { message }) => {
            assert_eq!(message, "unsupported backup version 3 (expected 1 or 2)")
        }
        other => panic!("unexpected {other:?}"),
    }
    let entries = vec![VaultBackupEntry {
        title: "T".into(),
        username: " ".into(),
        category: String::new(),
        password: "p".into(),
        website_url: String::new(),
        note: String::new(),
    }];
    assert!(matches!(stage_backup_rows(&key(), &entries), Err(ArkaError::EmptyField { field }) if field == "username"));
    let _ = EncryptedSecret::from(vec![0u8]);
}
