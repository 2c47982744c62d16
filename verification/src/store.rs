//! Rules of the encrypted credential store.
//!
//! The store keeps opaque blobs produced by [`crate::crypto`] and never sees plaintext
//! passwords. The SQL itself runs outside this crate; here stand the row types and
//! the checks that decide what may be written and how stored values are read back.
use vstd::prelude::*;

use crate::crypto::{EncryptedSecret, KdfParams, KdfSalt, SALT_SIZE};
use crate::error::ArkaError;
use crate::text::{
    blank, chars_of, concat3, decimal, decimal_string, is_blank, signed_decimal,
    signed_decimal_string, trim, trim_bounds,
};

verus! {

/// Row returned from disk; the password field remains encrypted.
#[derive(Debug, Clone, PartialEq, Eq)]
pub struct PasswordRecord {
    pub id: i64,
    pub title: String,
    pub username: String,
    pub category: String,
    pub website_url: Option<String>,
    pub note: Option<String>,
    pub encrypted_password: EncryptedSecret,
    pub created_at: i64,
    pub updated_at: i64,
}

/// One credential row staged for atomic vault restore.
pub struct StagedPasswordRow<'a> {
    pub title: &'a str,
    pub username: &'a str,
    pub category: &'a str,
    pub website_url: Option<&'a str>,
    pub note: Option<&'a str>,
    pub encrypted_password: &'a EncryptedSecret,
    pub created_at: i64,
    pub updated_at: i64,
}

/// `value` is blank, so a required field holding it is rejected as `EmptyField(field)`.
pub open spec fn empty_field_error(e: ArkaError, field: Seq<char>) -> bool {
    e matches ArkaError::EmptyField { field: f } && f@ == field
}

/// `e` is `CorruptVault` carrying the message `msg`.
pub open spec fn corrupt_error(e: ArkaError, msg: Seq<char>) -> bool {
    e matches ArkaError::CorruptVault { message } && message@ == msg
}

/// `e` is the error a failed check `check` reports.
pub open spec fn check_error(e: ArkaError, check: Option<Seq<char>>) -> bool {
    check matches Some(f) && empty_field_error(e, f)
}

/// Rejects a blank `value` with `EmptyField(field)`.
pub fn require_non_empty(value: &str, field: &str) -> (r: Result<(), ArkaError>)
    ensures
        match r {
            Ok(()) => !is_blank(value@),
            Err(e) => is_blank(value@) && empty_field_error(e, field@),
        },
{
    if blank(&chars_of(value)) {
        return Err(ArkaError::empty_field(field));
    }
    Ok(())
}

/// The outcome of [`validate_insert`]: the first failing check, in order title,
/// username, blob.
pub open spec fn insert_check(title: Seq<char>, username: Seq<char>, blob: Seq<u8>) -> Option<
    Seq<char>,
> {
    if is_blank(title) {
        Some("title"@)
    } else if is_blank(username) {
        Some("username"@)
    } else if blob.len() == 0 {
        Some("encrypted_password"@)
    } else {
        None
    }
}

/// Checks a row before it is written: a non-blank title and username and a non-empty
/// blob. The error names the first failing field.
pub fn validate_insert(title: &str, username: &str, encrypted_password: &EncryptedSecret) -> (r:
    Result<(), ArkaError>)
    ensures
        match insert_check(title@, username@, encrypted_password@) {
            None => r is Ok,
            Some(f) => (r matches Err(e) && empty_field_error(e, f)),
        },
{
    require_non_empty(title, "title")?;
    require_non_empty(username, "username")?;
    if encrypted_password.as_bytes().len() == 0 {
        return Err(ArkaError::empty_field("encrypted_password"));
    }
    Ok(())
}

/// Checks every staged row, in order, before any is written; the error is that of the
/// first row that fails.
pub fn validate_rows(rows: &Vec<StagedPasswordRow<'_>>) -> (r: Result<(), ArkaError>)
    ensures
        r is Ok <==> forall|i: int| 0 <= i < rows@.len() ==> insert_check(
            #[trigger] rows@[i].title@,
            rows@[i].username@,
            rows@[i].encrypted_password@,
        ) is None,
        r matches Err(e) ==> exists|i: int|
            0 <= i < rows@.len() && (forall|j: int| 0 <= j < i ==> insert_check(
                #[trigger] rows@[j].title@,
                rows@[j].username@,
                rows@[j].encrypted_password@,
            ) is None) && check_error(e, #[trigger] insert_check(
                rows@[i].title@,
                rows@[i].username@,
                rows@[i].encrypted_password@,
            )),
{
    let mut i: usize = 0;
    while i < rows.len()
        invariant
            i <= rows.len(),
            forall|j: int| 0 <= j < i ==> insert_check(
                #[trigger] rows@[j].title@,
                rows@[j].username@,
                rows@[j].encrypted_password@,
            ) is None,
        decreases rows.len() - i,
    {
        let row = &rows[i];
        match validate_insert(row.title, row.username, row.encrypted_password) {
            Ok(()) => {},
            Err(e) => {
                return Err(e);
            },
        }
        i = i + 1;
    }
    Ok(())
}

/// Optional metadata normalised before persistence: the trimmed text, or `None`
/// when it is blank.
pub fn optional_metadata(value: &str) -> (r: Option<&str>)
    ensures
        match r {
            None => is_blank(value@),
            Some(t) => !is_blank(value@) && t@ == trim(value@),
        },
{
    let chars = chars_of(value);
    let (lo, hi) = trim_bounds(&chars);
    if lo == hi {
        None
    } else {
        Some(value.substring_char(lo, hi))
    }
}

/// The message of the `CorruptVault` error for a salt of `len` bytes.
pub open spec fn salt_length_message(len: nat) -> Seq<char> {
    "expected 16-byte KDF salt, found "@ + decimal(len) + ""@
}

/// Reads a stored KDF salt, which must be exactly 16 bytes.
pub fn decode_kdf_salt(bytes: Vec<u8>) -> (r: Result<Option<KdfSalt>, ArkaError>)
    ensures
        match r {
            Ok(Some(s)) => bytes@.len() == SALT_SIZE && s@ == bytes@,
            Ok(None) => false,
            Err(e) => bytes@.len() != SALT_SIZE && corrupt_error(e, salt_length_message(bytes@.len())),
        },
{
    if bytes.len() != SALT_SIZE {
        let found = decimal_string(bytes.len() as u64);
        let message = concat3("expected 16-byte KDF salt, found ", found.as_str(), "");
        return Err(ArkaError::corrupt(message));
    }
    let mut salt = [0u8; 16];
    let mut i: usize = 0;
    while i < 16
        invariant
            bytes@.len() == 16,
            i <= 16,
            forall|j: int| 0 <= j < i ==> salt@[j] == bytes@[j],
        decreases 16 - i,
    {
        salt.set(i, bytes[i]);
        i = i + 1;
    }
    assert(salt@ =~= bytes@);
    Ok(Some(KdfSalt::from_bytes(salt)))
}

/// The message of the `CorruptVault` error for an unknown row id.
pub open spec fn missing_row_message(id: int) -> Seq<char> {
    "password entry "@ + signed_decimal(id) + " not found"@
}

/// An update or delete that touched no row names an unknown id.
pub fn require_row_affected(changed: usize, id: i64) -> (r: Result<(), ArkaError>)
    ensures
        match r {
            Ok(()) => changed != 0,
            Err(e) => changed == 0 && corrupt_error(e, missing_row_message(id as int)),
        },
{
    if changed == 0 {
        let id_text = signed_decimal_string(id);
        return Err(ArkaError::corrupt(concat3("password entry ", id_text.as_str(), " not found")));
    }
    Ok(())
}

/// Stored KDF parameters, or the legacy desktop parameters when none were stored.
pub fn kdf_params_or_legacy(stored: Option<KdfParams>) -> (r: KdfParams)
    ensures
        r == match stored {
            Some(p) => p,
            None => KdfParams::spec_legacy(),
        },
{
    match stored {
        Some(p) => p,
        None => KdfParams::legacy(),
    }
}

/// The KDF parameters that unlock a vault, and whether they must be written first:
/// the stored ones; on Android, for an empty vault without stored parameters, the
/// mobile parameters, to be persisted (so the first unlock does not allocate 64 MiB);
/// otherwise the legacy desktop parameters.
pub fn kdf_params_for(stored: Option<KdfParams>, android: bool, vault_empty: bool) -> (r: (
    KdfParams,
    bool,
))
    ensures
        r == match stored {
            Some(p) => (p, false),
            None => if android && vault_empty {
                (KdfParams::spec_mobile(), true)
            } else {
                (KdfParams::spec_legacy(), false)
            },
        },
{
    match stored {
        Some(p) => (p, false),
        None => if android && vault_empty {
            (KdfParams::mobile(), true)
        } else {
            (KdfParams::legacy(), false)
        },
    }
}

/// The salt read from the vault metadata, or `CorruptVault` when the vault predates it.
pub fn require_kdf_salt(stored: Option<KdfSalt>) -> (r: Result<KdfSalt, ArkaError>)
    ensures
        match r {
            Ok(s) => stored == Some(s),
            Err(e) => stored is None && corrupt_error(e, "KDF salt missing from vault metadata"@),
        },
{
    match stored {
        Some(s) => Ok(s),
        None => Err(ArkaError::corrupt(String::from_str("KDF salt missing from vault metadata"))),
    }
}

/// What [`crate::store`]'s salt provisioning does next: keep the stored salt, or
/// write a fresh salt with the parameters for new vaults.
pub enum SaltPlan {
    Existing(KdfSalt),
    Provision(KdfSalt, KdfParams),
}

/// Returns the persisted salt, or draws a fresh one (with the parameters for new
/// vaults on the platform: mobile on Android, desktop elsewhere) for first-time
/// provisioning.
pub fn plan_kdf_salt(stored: Option<KdfSalt>, android: bool) -> (r: Result<SaltPlan, ArkaError>)
    ensures
        match r {
            Ok(SaltPlan::Existing(s)) => stored == Some(s),
            Ok(SaltPlan::Provision(_, p)) => stored is None && p == if android {
                KdfParams::spec_mobile()
            } else {
                KdfParams::spec_legacy()
            },
            Err(e) => stored is None && e is RandomnessUnavailable,
        },
{
    match stored {
        Some(s) => Ok(SaltPlan::Existing(s)),
        None => {
            let salt = crate::crypto::generate_salt()?;
            Ok(SaltPlan::Provision(salt, KdfParams::new_vault_for(android)))
        },
    }
}

/// The salt read back after provisioning, or `CorruptVault` when it is still missing.
pub fn provisioned_salt(stored: Option<KdfSalt>) -> (r: Result<KdfSalt, ArkaError>)
    ensures
        match r {
            Ok(s) => stored == Some(s),
            Err(e) => stored is None && corrupt_error(e, "KDF salt missing after provisioning"@),
        },
{
    match stored {
        Some(s) => Ok(s),
        None => Err(ArkaError::corrupt(String::from_str("KDF salt missing after provisioning"))),
    }
}

} // verus!
