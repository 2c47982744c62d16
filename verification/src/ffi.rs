//! Status codes reported across the C/JNI boundary.
use vstd::prelude::*;

use crate::crypto::KEY_SIZE;
use crate::error::ArkaError;
use crate::text::{blank, chars_of, is_blank};

verus! {

/// FFI status codes, stable across Kotlin and Rust releases (see [`ArkaFfiStatus::code`]).
#[derive(Clone, Copy, Debug, PartialEq, Eq, Structural)]
pub enum ArkaFfiStatus {
    /// The call succeeded (code 0).
    Success,
    InvalidInput,
    VaultNotInitialized,
    AuthenticationFailed,
    Database,
    CorruptVault,
    EmptyField,
    /// OS CSPRNG refused entropy; vault salt/nonce generation cannot proceed safely.
    RandomnessUnavailable,
    Other,
}

/// The numeric code of each status.
pub open spec fn status_code(s: ArkaFfiStatus) -> i32 {
    match s {
        ArkaFfiStatus::Success => 0,
        ArkaFfiStatus::InvalidInput => 1,
        ArkaFfiStatus::VaultNotInitialized => 2,
        ArkaFfiStatus::AuthenticationFailed => 3,
        ArkaFfiStatus::Database => 4,
        ArkaFfiStatus::CorruptVault => 5,
        ArkaFfiStatus::EmptyField => 6,
        ArkaFfiStatus::RandomnessUnavailable => 7,
        ArkaFfiStatus::Other => 99,
    }
}

/// The status a stored code stands for; unknown codes read as `Other`.
pub open spec fn status_of_code(code: i32) -> ArkaFfiStatus {
    if code == 0 {
        ArkaFfiStatus::Success
    } else if code == 1 {
        ArkaFfiStatus::InvalidInput
    } else if code == 2 {
        ArkaFfiStatus::VaultNotInitialized
    } else if code == 3 {
        ArkaFfiStatus::AuthenticationFailed
    } else if code == 4 {
        ArkaFfiStatus::Database
    } else if code == 5 {
        ArkaFfiStatus::CorruptVault
    } else if code == 6 {
        ArkaFfiStatus::EmptyField
    } else if code == 7 {
        ArkaFfiStatus::RandomnessUnavailable
    } else {
        ArkaFfiStatus::Other
    }
}

/// The status each error is reported as.
pub open spec fn status_of_error(e: ArkaError) -> ArkaFfiStatus {
    match e {
        ArkaError::VaultNotInitialized => ArkaFfiStatus::VaultNotInitialized,
        ArkaError::AuthenticationFailed => ArkaFfiStatus::AuthenticationFailed,
        ArkaError::Database { .. } => ArkaFfiStatus::Database,
        ArkaError::CorruptVault { .. } => ArkaFfiStatus::CorruptVault,
        ArkaError::EmptyField { .. } => ArkaFfiStatus::EmptyField,
        ArkaError::RandomnessUnavailable => ArkaFfiStatus::RandomnessUnavailable,
        _ => ArkaFfiStatus::Other,
    }
}

impl ArkaFfiStatus {
    /// The numeric code of the status.
    pub fn code(self) -> (r: i32)
        ensures
            r == status_code(self),
    {
        match self {
            ArkaFfiStatus::Success => 0,
            ArkaFfiStatus::InvalidInput => 1,
            ArkaFfiStatus::VaultNotInitialized => 2,
            ArkaFfiStatus::AuthenticationFailed => 3,
            ArkaFfiStatus::Database => 4,
            ArkaFfiStatus::CorruptVault => 5,
            ArkaFfiStatus::EmptyField => 6,
            ArkaFfiStatus::RandomnessUnavailable => 7,
            ArkaFfiStatus::Other => 99,
        }
    }

    /// The status a recorded code stands for; unknown codes read as `Other`.
    pub fn from_code(code: i32) -> (r: ArkaFfiStatus)
        ensures
            r == status_of_code(code),
    {
        match code {
            0 => ArkaFfiStatus::Success,
            1 => ArkaFfiStatus::InvalidInput,
            2 => ArkaFfiStatus::VaultNotInitialized,
            3 => ArkaFfiStatus::AuthenticationFailed,
            4 => ArkaFfiStatus::Database,
            5 => ArkaFfiStatus::CorruptVault,
            6 => ArkaFfiStatus::EmptyField,
            7 => ArkaFfiStatus::RandomnessUnavailable,
            _ => ArkaFfiStatus::Other,
        }
    }

    /// The status an error is reported as.
    pub fn of_error(err: &ArkaError) -> (r: ArkaFfiStatus)
        ensures
            r == status_of_error(*err),
    {
        match err {
            ArkaError::VaultNotInitialized => ArkaFfiStatus::VaultNotInitialized,
            ArkaError::AuthenticationFailed => ArkaFfiStatus::AuthenticationFailed,
            ArkaError::Database { .. } => ArkaFfiStatus::Database,
            ArkaError::CorruptVault { .. } => ArkaFfiStatus::CorruptVault,
            ArkaError::EmptyField { .. } => ArkaFfiStatus::EmptyField,
            ArkaError::RandomnessUnavailable => ArkaFfiStatus::RandomnessUnavailable,
            _ => ArkaFfiStatus::Other,
        }
    }
}

impl From<ArkaError> for ArkaFfiStatus {
    fn from(err: ArkaError) -> (r: ArkaFfiStatus) {
        ArkaFfiStatus::of_error(&err)
    }
}

impl vstd::std_specs::convert::FromSpecImpl<ArkaError> for ArkaFfiStatus {
    open spec fn obeys_from_spec() -> bool {
        true
    }

    open spec fn from_spec(err: ArkaError) -> ArkaFfiStatus {
        status_of_error(err)
    }
}

/// A code read back decodes to the status that was recorded.
pub proof fn lemma_status_code_roundtrip(s: ArkaFfiStatus)
    ensures
        status_of_code(status_code(s)) == s,
{
}

/// Checks a string handed across the boundary: a blank one is `EmptyField`.
pub fn check_ffi_text(text: &str) -> (r: Result<(), ArkaFfiStatus>)
    ensures
        match r {
            Ok(()) => !is_blank(text@),
            Err(s) => is_blank(text@) && s == ArkaFfiStatus::EmptyField,
        },
{
    if blank(&chars_of(text)) {
        return Err(ArkaFfiStatus::EmptyField);
    }
    Ok(())
}

/// Reads a session key handed across the boundary: exactly 32 bytes, else `InvalidInput`.
pub fn session_key_from_bytes(bytes: &[u8]) -> (r: Result<[u8; 32], ArkaFfiStatus>)
    ensures
        match r {
            Ok(k) => bytes@.len() == KEY_SIZE && k@ == bytes@,
            Err(s) => bytes@.len() != KEY_SIZE && s == ArkaFfiStatus::InvalidInput,
        },
{
    if bytes.len() != KEY_SIZE {
        return Err(ArkaFfiStatus::InvalidInput);
    }
    let mut key = [0u8; 32];
    let mut i: usize = 0;
    while i < 32
        invariant
            bytes@.len() == 32,
            i <= 32,
            forall|j: int| 0 <= j < i ==> key@[j] == bytes@[j],
        decreases 32 - i,
    {
        key.set(i, bytes[i]);
        i = i + 1;
    }
    assert(key@ =~= bytes@);
    Ok(key)
}

} // verus!
