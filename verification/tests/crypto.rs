use aes_gcm::aead::{Aead, KeyInit};
use arka::crypto::{
    decrypt, derive_key, encrypt, frame_blob, generate_salt, plaintext_of, seal_with_nonce, EncryptedSecret, EncryptionKey,
    KdfParams, KdfSalt, ARGON2_M_COST_KIB, ARGON2_P_COST, ARGON2_T_COST, NONCE_SIZE,
};
use arka::ArkaError;

#[test]
fn argon2_params_are_pinned_to_owasp_values() {
    assert_eq!(ARGON2_M_COST_KIB, 65_536);
    assert_eq!(ARGON2_T_COST, 3);
    assert_eq!(ARGON2_P_COST, 4);
    assert!(ARGON2_M_COST_KIB >= ARGON2_P_COST * 8);
}

#[test]
fn derive_key_is_stable_for_fixed_inputs() -> Result<(), ArkaError> {
    let salt = generate_salt()?;
    let params = KdfParams::legacy();
    let a = derive_key("master-password", &salt, &params)?;
    let b = derive_key("master-password", &salt, &params)?;
    assert_eq!(a.as_bytes(), b.as_bytes());
    Ok(())
}

#[test]
fn encrypt_decrypt_roundtrip() -> Result<(), ArkaError> {
    let salt = generate_salt()?;
    let key = derive_key("Arka!Master#2026", &salt, &KdfParams::legacy())?;
    let secret = "vault-entry: github / user@example.com";

    let encrypted = encrypt(&key, secret)?;
    assert!(encrypted.as_bytes().len() > NONCE_SIZE);
    assert_ne!(encrypted.as_bytes(), secret.as_bytes());

    let opened = decrypt(&key, &encrypted)?;
    assert_eq!(opened.as_str(), secret);
    Ok(())
}

#[test]
fn encrypt_uses_unique_nonces() -> Result<(), ArkaError> {
    let salt = generate_salt()?;
    let key = derive_key("nonce-uniqueness", &salt, &KdfParams::legacy())?;
    let a = encrypt(&key, "same plaintext")?;
    let b = encrypt(&key, "same plaintext")?;
    assert_ne!(
        &a.as_bytes()[..NONCE_SIZE],
        &b.as_bytes()[..NONCE_SIZE],
        "each encryption must draw a fresh nonce under the same key"
    );
    Ok(())
}

#[test]
fn decrypt_rejects_wrong_key() -> Result<(), ArkaError> {
    let salt = generate_salt()?;
    let key = derive_key("correct-password", &salt, &KdfParams::legacy())?;
    let wrong = derive_key("wrong-password", &salt, &KdfParams::legacy())?;
    let encrypted = encrypt(&key, "secret payload")?;

    assert!(matches!(
        decrypt(&wrong, &encrypted),
        Err(ArkaError::AuthenticationFailed)
    ));
    Ok(())
}

fn fixed_key(byte: u8) -> EncryptionKey {
    EncryptionKey::from_key_bytes([byte; 32])
}

#[test]
fn sealed_blob_is_nonce_ciphertext_and_tag() {
    let key = fixed_key(7);
    let nonce = [3u8; 12];
    let sealed = seal_with_nonce(&key, "hunter2", nonce).unwrap();
    let bytes = sealed.as_bytes();
    assert_eq!(bytes.len(), 12 + "hunter2".len() + 16);
    assert_eq!(&bytes[..12], &nonce);
    assert_ne!(&bytes[12..12 + 7], "hunter2".as_bytes());
    assert_eq!(decrypt(&key, &sealed).unwrap(), "hunter2");
}

#[test]
fn seal_with_nonce_is_deterministic() {
    let key = fixed_key(9);
    let a = seal_with_nonce(&key, "same", [1u8; 12]).unwrap();
    let b = seal_with_nonce(&key, "same", [1u8; 12]).unwrap();
    let c = seal_with_nonce(&key, "same", [2u8; 12]).unwrap();
    assert_eq!(a, b);
    assert_ne!(a, c);
}

#[test]
fn decrypt_rejects_short_blob() {
    let key = fixed_key(1);
    let blob = EncryptedSecret::from(vec![0u8; 27]);
    assert!(matches!(decrypt(&key, &blob), Err(ArkaError::InvalidCiphertext)));
}

#[test]
fn empty_plaintext_roundtrips() {
    let key = fixed_key(5);
    let sealed = seal_with_nonce(&key, "", [0u8; 12]).unwrap();
    assert_eq!(sealed.as_bytes().len(), 28);
    assert_eq!(decrypt(&key, &sealed).unwrap(), "");
    let fresh = encrypt(&key, "").unwrap();
    assert_eq!(decrypt(&key, &fresh).unwrap(), "");
}

#[test]
fn tampered_blob_fails_authentication() {
    let key = fixed_key(4);
    let mut bytes = seal_with_nonce(&key, "secret", [8u8; 12]).unwrap().into_bytes();
    bytes[13] ^= 0x01;
    let blob = EncryptedSecret::from(bytes);
    assert!(matches!(decrypt(&key, &blob), Err(ArkaError::AuthenticationFailed)));
}

#[test]
fn non_utf8_plaintext_is_invalid_utf8() {
    let key_bytes = [6u8; 32];
    let nonce = [2u8; 12];
    let cipher = aes_gcm::Aes256Gcm::new(&key_bytes.into());
    let ct = cipher.encrypt(&nonce.into(), &[0xffu8, 0xfe][..]).unwrap();
    let mut blob = nonce.to_vec();
    blob.extend_from_slice(&ct);
    let key = EncryptionKey::from_key_bytes(key_bytes);
    assert!(matches!(
        decrypt(&key, &EncryptedSecret::from(blob)),
        Err(ArkaError::InvalidUtf8)
    ));
}

#[test]
fn derive_key_rejects_invalid_params() {
    let salt = KdfSalt::from_bytes([1u8; 16]);
    let bad = [
        KdfParams { m_cost_kib: 7, t_cost: 1, p_cost: 1 },
        KdfParams { m_cost_kib: 64, t_cost: 0, p_cost: 1 },
        KdfParams { m_cost_kib: 64, t_cost: 1, p_cost: 0 },
        KdfParams { m_cost_kib: 31, t_cost: 1, p_cost: 4 },
    ];
    for params in bad {
        assert!(matches!(
            derive_key("pw", &salt, &params),
            Err(ArkaError::KeyDerivationFailed)
        ));
    }
}

#[test]
fn derive_key_depends_on_password_and_salt() {
    let params = KdfParams { m_cost_kib: 64, t_cost: 1, p_cost: 1 };
    let s1 = KdfSalt::from_bytes([1u8; 16]);
    let s2 = KdfSalt::from_bytes([2u8; 16]);
    let a = derive_key("pw", &s1, &params).unwrap();
    let b = derive_key("pw", &s2, &params).unwrap();
    let c = derive_key("pw2", &s1, &params).unwrap();
    assert_ne!(a.as_bytes(), b.as_bytes());
    assert_ne!(a.as_bytes(), c.as_bytes());
    assert_ne!(a.as_bytes(), &[0u8; 32]);
}

#[test]
fn kdf_parameter_sets() {
    assert_eq!(
        KdfParams::legacy(),
        KdfParams { m_cost_kib: 65_536, t_cost: 3, p_cost: 4 }
    );
    assert_eq!(
        KdfParams::mobile(),
        KdfParams { m_cost_kib: 19_456, t_cost: 3, p_cost: 1 }
    );
    assert_eq!(KdfParams::new_vault(), KdfParams::legacy());
}

#[test]
fn salts_are_sixteen_fresh_bytes() {
    let a = generate_salt().unwrap();
    let b = generate_salt().unwrap();
    assert_eq!(a.as_bytes().len(), 16);
    assert_ne!(a.as_bytes(), b.as_bytes());
}

#[test]
fn blob_is_nonce_then_payload() {
    let blob = frame_blob([7u8; 12], vec![1, 2, 3]);
    let mut expected = vec![7u8; 12];
    expected.extend_from_slice(&[1, 2, 3]);
    assert_eq!(blob.as_bytes(), expected.as_slice());
}

#[test]
fn opened_payload_decodes_or_fails() {
    assert_eq!(plaintext_of(Some("گاو".as_bytes().to_vec())).unwrap(), "گاو");
    assert!(matches!(plaintext_of(Some(vec![0xff, 0xfe])), Err(ArkaError::InvalidUtf8)));
    assert!(matches!(plaintext_of(None), Err(ArkaError::AuthenticationFailed)));
}

#[test]
fn twenty_eight_byte_blobs_open_only_as_the_empty_seal() {
    let key = fixed_key(6);
    // A 28-byte blob that is no seal under the key: too short for anything else.
    let junk = EncryptedSecret::from(vec![0u8; 28]);
    assert!(matches!(decrypt(&key, &junk), Err(ArkaError::InvalidCiphertext)));
    // The seal of "" under another key: its tag fails, still InvalidCiphertext.
    let other = seal_with_nonce(&fixed_key(7), "", [1u8; 12]).unwrap();
    assert_eq!(other.as_bytes().len(), 28);
    assert!(matches!(decrypt(&key, &other), Err(ArkaError::InvalidCiphertext)));
    // The seal of "" under this key opens.
    let empty = seal_with_nonce(&key, "", [1u8; 12]).unwrap();
    assert_eq!(decrypt(&key, &empty).unwrap(), "");
    // From 29 bytes a failed tag is an authentication failure.
    let longer = seal_with_nonce(&fixed_key(7), "x", [1u8; 12]).unwrap();
    assert_eq!(longer.as_bytes().len(), 29);
    assert!(matches!(decrypt(&key, &longer), Err(ArkaError::AuthenticationFailed)));
}
