use arka::crypto::{derive_key, EncryptionKey, KdfParams, KdfSalt};
use arka::session::{require_session_path, ActiveVault, InitStep};
use arka::ArkaError;

#[test]
fn empty_slot_needs_a_session() {
    let slot = ActiveVault::empty();
    assert!(matches!(slot.cached_key("master"), Err(ArkaError::VaultNotInitialized)));
    assert!(matches!(slot.active_key(), Err(ArkaError::VaultNotInitialized)));
    assert!(matches!(slot.init_database("/a.db"), InitStep::OpenNew));
    assert_eq!(slot.db_path(), None);
}

#[test]
fn same_path_is_already_open_and_keeps_key() {
    let mut slot = ActiveVault::empty();
    slot.open_session("/a.db".to_string());
    let key = EncryptionKey::from_key_bytes([3u8; 32]);
    slot.remember_unlock("master", &key);
    assert!(matches!(slot.init_database("/a.db"), InitStep::AlreadyOpen));
    assert!(matches!(slot.init_database("/b.db"), InitStep::OpenNew));
    let cached = slot.cached_key("master").unwrap().unwrap();
    assert_eq!(cached.as_bytes(), &[3u8; 32]);
    assert!(slot.cached_key("other").unwrap().is_none());
}

#[test]
fn lock_clears_the_session() {
    let mut slot = ActiveVault::empty();
    slot.open_session("/a.db".to_string());
    slot.remember_unlock("master", &EncryptionKey::from_key_bytes([1u8; 32]));
    slot.lock_vault();
    assert!(matches!(slot.cached_key("master"), Err(ArkaError::VaultNotInitialized)));
    assert_eq!(slot.db_path(), None);
}

#[test]
fn installed_key_becomes_active() {
    let mut slot = ActiveVault::empty();
    assert!(matches!(slot.install_session_key("/a.db", [5u8; 32]), Err(ArkaError::VaultNotInitialized)));
    slot.open_session("/a.db".to_string());
    assert!(slot.active_key().is_err());
    assert!(matches!(
        slot.install_session_key("/b.db", [5u8; 32]),
        Err(ArkaError::CorruptVault { message }) if message == "db_path does not match the active vault session"
    ));
    slot.install_session_key("/a.db", [5u8; 32]).unwrap();
    assert_eq!(slot.active_key().unwrap().as_bytes(), &[5u8; 32]);
    assert!(slot.cached_key("master").unwrap().is_none());
}

#[test]
fn session_path_must_match() {
    assert!(require_session_path("/a.db", "/a.db").is_ok());
    assert!(matches!(require_session_path("/a.db", "/wrong/path.db"), Err(ArkaError::CorruptVault { .. })));
}

#[test]
fn unlock_caches_the_derived_key() {
    let mut slot = ActiveVault::empty();
    slot.open_session("/a.db".to_string());
    let salt = KdfSalt::from_bytes([7u8; 16]);
    let params = KdfParams { m_cost_kib: 64, t_cost: 1, p_cost: 1 };
    let key = slot.unlock_with("master", &salt, &params).unwrap();
    let direct = derive_key("master", &salt, &params).unwrap();
    assert_eq!(key.as_bytes(), direct.as_bytes());
    let cached = slot.cached_key("master").unwrap().unwrap();
    assert_eq!(cached.as_bytes(), key.as_bytes());
    assert!(slot.cached_key("other").unwrap().is_none());
}

#[test]
fn failed_unlock_leaves_the_slot() {
    let mut slot = ActiveVault::empty();
    slot.open_session("/a.db".to_string());
    let salt = KdfSalt::from_bytes([7u8; 16]);
    let bad = KdfParams { m_cost_kib: 64, t_cost: 0, p_cost: 1 };
    assert!(matches!(slot.unlock_with("master", &salt, &bad), Err(ArkaError::KeyDerivationFailed)));
    assert!(slot.cached_key("master").unwrap().is_none());
}

#[test]
fn fast_path_key_is_cached_under_sentinel_tag() {
    let mut slot = ActiveVault::empty();
    assert!(matches!(slot.cached_key_under(&[0xFA; 32]), Err(ArkaError::VaultNotInitialized)));
    slot.open_session("/a.db".to_string());
    assert!(slot.cached_key_under(&[0xFA; 32]).unwrap().is_none());
    slot.install_session_key("/a.db", [9u8; 32]).unwrap();
    let cached = slot.cached_key_under(&[0xFA; 32]).unwrap().unwrap();
    assert_eq!(cached.as_bytes(), &[9u8; 32]);
    assert!(slot.cached_key_under(&[0u8; 32]).unwrap().is_none());
}
