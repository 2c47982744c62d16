use arka::crypto::{EncryptedSecret, KdfParams, KdfSalt};
use arka::store::{
    decode_kdf_salt, kdf_params_for, kdf_params_or_legacy, optional_metadata, plan_kdf_salt, provisioned_salt,
    require_kdf_salt, require_non_empty, require_row_affected, validate_insert, validate_rows,
    SaltPlan, StagedPasswordRow,
};
use arka::ArkaError;

fn field_of(err: ArkaError) -> String {
    match err {
        ArkaError::EmptyField { field } => field,
        other => panic!("unexpected error: {other:?}"),
    }
}

#[test]
fn insert_rejects_empty_blob_first_failing_field() {
    let empty = EncryptedSecret::from(vec![]);
    let blob = EncryptedSecret::from(vec![1]);
    assert_eq!(field_of(validate_insert("Site", "user", &empty).unwrap_err()), "encrypted_password");
    assert_eq!(field_of(validate_insert(" ", "user", &blob).unwrap_err()), "title");
    assert_eq!(field_of(validate_insert("Site", "\t", &empty).unwrap_err()), "username");
    assert!(validate_insert("Site", "user", &blob).is_ok());
}

#[test]
fn staged_rows_are_all_checked_before_writing() {
    let good = EncryptedSecret::from(vec![1]);
    let bad = EncryptedSecret::from(vec![2]);
    let rows = vec![
        StagedPasswordRow {
            title: "Keep",
            username: "user",
            category: "",
            website_url: None,
            note: None,
            encrypted_password: &good,
            created_at: 1,
            updated_at: 1,
        },
        StagedPasswordRow {
            title: "",
            username: "user",
            category: "",
            website_url: None,
            note: None,
            encrypted_password: &bad,
            created_at: 1,
            updated_at: 1,
        },
    ];
    assert!(matches!(validate_rows(&rows), Err(ArkaError::EmptyField { field }) if field == "title"));
    assert!(validate_rows(&rows[..1].iter().map(|r| StagedPasswordRow { ..*r }).collect()).is_ok());
}

#[test]
fn optional_metadata_trims_or_drops() {
    assert_eq!(optional_metadata("  proton.me \n"), Some("proton.me"));
    assert_eq!(optional_metadata(" \t "), None);
    assert_eq!(optional_metadata(""), None);
    assert_eq!(optional_metadata("note"), Some("note"));
}

#[test]
fn require_non_empty_names_field() {
    assert!(require_non_empty("x", "title").is_ok());
    assert_eq!(field_of(require_non_empty("\u{3000}", "db_path").unwrap_err()), "db_path");
}

#[test]
fn salt_must_be_sixteen_bytes() {
    let s = decode_kdf_salt(vec![7u8; 16]).unwrap().unwrap();
    assert_eq!(s.as_bytes(), &[7u8; 16]);
    match decode_kdf_salt(vec![1, 2, 3]) {
        Err(ArkaError::CorruptVault { message }) => {
            assert_eq!(message, "expected 16-byte KDF salt, found 3")
        }
        other => panic!("unexpected: {other:?}"),
    }
}

#[test]
fn missing_row_names_the_id() {
    assert!(require_row_affected(1, 5).is_ok());
    match require_row_affected(0, 42) {
        Err(ArkaError::CorruptVault { message }) => assert_eq!(message, "password entry 42 not found"),
        other => panic!("unexpected: {other:?}"),
    }
    match require_row_affected(0, -7) {
        Err(ArkaError::CorruptVault { message }) => assert_eq!(message, "password entry -7 not found"),
        other => panic!("unexpected: {other:?}"),
    }
}

#[test]
fn params_fall_back_to_legacy() {
    assert_eq!(kdf_params_or_legacy(None), KdfParams::legacy());
    assert_eq!(kdf_params_or_legacy(Some(KdfParams::mobile())), KdfParams::mobile());
}

#[test]
fn android_pins_mobile_params_for_empty_vaults() {
    let stored = KdfParams { m_cost_kib: 4096, t_cost: 2, p_cost: 1 };
    assert_eq!(kdf_params_for(Some(stored), true, true), (stored, false));
    assert_eq!(kdf_params_for(None, true, true), (KdfParams::mobile(), true));
    assert_eq!(kdf_params_for(None, true, false), (KdfParams::legacy(), false));
    assert_eq!(kdf_params_for(None, false, true), (KdfParams::legacy(), false));
    assert_eq!(KdfParams::new_vault_for(true), KdfParams::mobile());
    assert_eq!(KdfParams::new_vault_for(false), KdfParams::new_vault());
}

#[test]
fn salt_presence_rules() {
    let salt = KdfSalt::from_bytes([9u8; 16]);
    assert_eq!(require_kdf_salt(Some(salt)).unwrap(), salt);
    assert!(matches!(require_kdf_salt(None), Err(ArkaError::CorruptVault { message }) if message == "KDF salt missing from vault metadata"));
    assert!(matches!(provisioned_salt(None), Err(ArkaError::CorruptVault { message }) if message == "KDF salt missing after provisioning"));
    match plan_kdf_salt(Some(salt), true).unwrap() {
        SaltPlan::Existing(s) => assert_eq!(s, salt),
        SaltPlan::Provision(..) => panic!("stored salt must be kept"),
    }
    match plan_kdf_salt(None, false).unwrap() {
        SaltPlan::Provision(_, params) => assert_eq!(params, KdfParams::legacy()),
        SaltPlan::Existing(_) => panic!("missing salt must be provisioned"),
    }
    match plan_kdf_salt(None, true).unwrap() {
        SaltPlan::Provision(_, params) => assert_eq!(params, KdfParams::mobile()),
        SaltPlan::Existing(_) => panic!("missing salt must be provisioned"),
    }
}

#[test]
fn error_messages() {
    assert_eq!(ArkaError::EmptyField { field: "title".into() }.message(), "title must not be empty");
    assert_eq!(ArkaError::database_failure().message(), "database error: database operation failed");
    assert_eq!(ArkaError::RandomnessUnavailable.message(), "OS randomness unavailable");
}
