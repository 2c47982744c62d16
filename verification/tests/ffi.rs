use arka::ffi::{check_ffi_text, session_key_from_bytes, ArkaFfiStatus};
use arka::ArkaError;

#[test]
fn randomness_unavailable_maps_to_dedicated_status() {
    assert_eq!(
        ArkaFfiStatus::from(ArkaError::RandomnessUnavailable),
        ArkaFfiStatus::RandomnessUnavailable
    );
}

#[test]
fn errors_map_to_statuses() {
    assert_eq!(ArkaFfiStatus::from(ArkaError::VaultNotInitialized), ArkaFfiStatus::VaultNotInitialized);
    assert_eq!(ArkaFfiStatus::from(ArkaError::AuthenticationFailed), ArkaFfiStatus::AuthenticationFailed);
    assert_eq!(
        ArkaFfiStatus::from(ArkaError::Database { message: "x".into() }),
        ArkaFfiStatus::Database
    );
    assert_eq!(
        ArkaFfiStatus::from(ArkaError::CorruptVault { message: "x".into() }),
        ArkaFfiStatus::CorruptVault
    );
    assert_eq!(
        ArkaFfiStatus::from(ArkaError::EmptyField { field: "title".into() }),
        ArkaFfiStatus::EmptyField
    );
    assert_eq!(ArkaFfiStatus::from(ArkaError::InvalidUtf8), ArkaFfiStatus::Other);
    assert_eq!(ArkaFfiStatus::from(ArkaError::LockPoisoned), ArkaFfiStatus::Other);
}

#[test]
fn status_codes_roundtrip() {
    let all = [
        ArkaFfiStatus::Success,
        ArkaFfiStatus::InvalidInput,
        ArkaFfiStatus::VaultNotInitialized,
        ArkaFfiStatus::AuthenticationFailed,
        ArkaFfiStatus::Database,
        ArkaFfiStatus::CorruptVault,
        ArkaFfiStatus::EmptyField,
        ArkaFfiStatus::RandomnessUnavailable,
        ArkaFfiStatus::Other,
    ];
    let codes = [0, 1, 2, 3, 4, 5, 6, 7, 99];
    for (s, c) in all.iter().zip(codes.iter()) {
        assert_eq!(s.code(), *c);
        assert_eq!(ArkaFfiStatus::from_code(*c), *s);
    }
    assert_eq!(ArkaFfiStatus::from_code(42), ArkaFfiStatus::Other);
    assert_eq!(ArkaFfiStatus::from_code(-1), ArkaFfiStatus::Other);
}

#[test]
fn blank_ffi_text_is_empty_field() {
    assert_eq!(check_ffi_text("  \t"), Err(ArkaFfiStatus::EmptyField));
    assert_eq!(check_ffi_text(" x "), Ok(()));
}

#[test]
fn session_key_must_be_thirty_two_bytes() {
    let bytes: Vec<u8> = (0u8..32).collect();
    assert_eq!(session_key_from_bytes(&bytes).unwrap().to_vec(), bytes);
    assert_eq!(session_key_from_bytes(&bytes[..31]), Err(ArkaFfiStatus::InvalidInput));
    assert_eq!(session_key_from_bytes(&[0u8; 33]), Err(ArkaFfiStatus::InvalidInput));
    assert_eq!(session_key_from_bytes(&[]), Err(ArkaFfiStatus::InvalidInput));
}
