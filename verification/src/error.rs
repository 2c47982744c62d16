//! Unified error surface for the vault core.
use vstd::prelude::*;

use crate::text::concat2;

verus! {

/// Operational and security-relevant failures across crypto, storage, and API layers.
#[derive(Debug, Clone, PartialEq, Eq)]
pub enum ArkaError {
    /// Argon2id could not produce a key (misconfiguration or library failure).
    KeyDerivationFailed,
    /// AES-GCM authentication failed: wrong master password, tampering, or corrupt blob.
    AuthenticationFailed,
    /// Plaintext could not be sealed with the derived key.
    EncryptionFailed,
    /// Stored blob is too short to contain a nonce or is otherwise malformed.
    InvalidCiphertext,
    /// Decrypted bytes are not valid UTF-8.
    InvalidUtf8,
    /// A required string field was empty or whitespace-only.
    EmptyField { field: String },
    /// A vault operation was invoked before a vault session was opened.
    VaultNotInitialized,
    /// SQLite or schema operation failed.
    Database { message: String },
    /// Vault metadata is missing or inconsistent.
    CorruptVault { message: String },
    /// Process-global vault mutex was poisoned after a panicking thread.
    LockPoisoned,
    /// OS CSPRNG refused entropy.
    RandomnessUnavailable,
}

impl ArkaError {
    /// The `EmptyField` error naming `field`.
    pub fn empty_field(field: &str) -> (r: ArkaError)
        ensures
            r matches ArkaError::EmptyField { field: f } && f@ == field@,
    {
        ArkaError::EmptyField { field: field.to_owned() }
    }

    /// The storage failure every SQLite error maps to.
    pub fn database_failure() -> (r: ArkaError)
        ensures
            r matches ArkaError::Database { message } && message@ == "database operation failed"@,
    {
        ArkaError::Database { message: String::from_str("database operation failed") }
    }

    /// `CorruptVault` with `message`.
    pub fn corrupt(message: String) -> (r: ArkaError)
        ensures
            r == (ArkaError::CorruptVault { message }),
    {
        ArkaError::CorruptVault { message }
    }

    /// The user-facing description of the error.
    pub fn message(&self) -> (r: String)
        ensures
            r@ == display_text(*self),
    {
        match self {
            ArkaError::KeyDerivationFailed => String::from_str("key derivation failed"),
            ArkaError::AuthenticationFailed => String::from_str(
                "authentication failed: wrong master password or corrupt entry",
            ),
            ArkaError::EncryptionFailed => String::from_str("encryption failed"),
            ArkaError::InvalidCiphertext => String::from_str("invalid ciphertext layout"),
            ArkaError::InvalidUtf8 => String::from_str("decrypted secret is not valid UTF-8"),
            ArkaError::EmptyField { field } => concat2(field.as_str(), " must not be empty"),
            ArkaError::VaultNotInitialized => String::from_str(
                "vault not initialized; call init_database first",
            ),
            ArkaError::Database { message } => concat2("database error: ", message.as_str()),
            ArkaError::CorruptVault { message } => concat2("corrupt vault: ", message.as_str()),
            ArkaError::LockPoisoned => String::from_str("vault lock poisoned"),
            ArkaError::RandomnessUnavailable => String::from_str("OS randomness unavailable"),
        }
    }
}

/// The text that describes `e` to a user.
pub open spec fn display_text(e: ArkaError) -> Seq<char> {
    match e {
        ArkaError::KeyDerivationFailed => "key derivation failed"@,
        ArkaError::AuthenticationFailed => "authentication failed: wrong master password or corrupt entry"@,
        ArkaError::EncryptionFailed => "encryption failed"@,
        ArkaError::InvalidCiphertext => "invalid ciphertext layout"@,
        ArkaError::InvalidUtf8 => "decrypted secret is not valid UTF-8"@,
        ArkaError::EmptyField { field } => field@ + " must not be empty"@,
        ArkaError::VaultNotInitialized => "vault not initialized; call init_database first"@,
        ArkaError::Database { message } => "database error: "@ + message@,
        ArkaError::CorruptVault { message } => "corrupt vault: "@ + message@,
        ArkaError::LockPoisoned => "vault lock poisoned"@,
        ArkaError::RandomnessUnavailable => "OS randomness unavailable"@,
    }
}

} // verus!
