//! Vault session rules and the steps that open, seal, export and restore credentials.
use vstd::prelude::*;
use vstd::utf8::encode_utf8;

use crate::crypto::{
    decrypt, encrypt, opened_text, sealed_blob, EncryptedSecret, EncryptionKey, GCM_MAX_PLAINTEXT,
    GCM_TAG_SIZE, NONCE_SIZE,
};
use crate::error::ArkaError;
use crate::store::{
    check_error, corrupt_error, empty_field_error, optional_metadata, require_non_empty, PasswordRecord,
    StagedPasswordRow,
};
use crate::text::{concat3, decimal, decimal_string, is_blank, lemma_trim_normal, trim};

verus! {

/// Cleartext credential returned after successful decryption.
#[derive(Debug, Clone, PartialEq, Eq)]
pub struct DecryptedPasswordEntry {
    pub id: i64,
    pub title: String,
    pub username: String,
    pub category: String,
    pub password: String,
    pub website_url: String,
    pub note: String,
    pub created_at: i64,
    pub updated_at: i64,
}

impl DecryptedPasswordEntry {
    /// A field-for-field copy.
    pub fn duplicate(&self) -> (r: DecryptedPasswordEntry)
        ensures
            r == *self,
    {
        DecryptedPasswordEntry {
            id: self.id,
            title: self.title.clone(),
            username: self.username.clone(),
            category: self.category.clone(),
            password: self.password.clone(),
            website_url: self.website_url.clone(),
            note: self.note.clone(),
            created_at: self.created_at,
            updated_at: self.updated_at,
        }
    }
}

/// The text of an optional column, empty when absent (`unwrap_or_default`).
pub open spec fn text_or_empty(o: Option<String>) -> Seq<char> {
    match o {
        Some(s) => s@,
        None => Seq::empty(),
    }
}

/// `e` is `record` with its password opened to `password`.
pub open spec fn is_decrypted_record(
    e: DecryptedPasswordEntry,
    record: PasswordRecord,
    password: Seq<char>,
) -> bool {
    &&& e.id == record.id
    &&& e.title@ == record.title@
    &&& e.username@ == record.username@
    &&& e.category@ == record.category@
    &&& e.password@ == password
    &&& e.website_url@ == text_or_empty(record.website_url)
    &&& e.note@ == text_or_empty(record.note)
    &&& e.created_at == record.created_at
    &&& e.updated_at == record.updated_at
}

/// The text of an optional column, copied.
fn text_or_default(o: &Option<String>) -> (r: String)
    ensures
        r@ == text_or_empty(*o),
{
    match o {
        Some(s) => s.clone(),
        None => String::new(),
    }
}

/// Opens the password of one stored row. A row whose blob sealed a password under
/// this key reads back that password.
pub fn decrypt_record(key: &EncryptionKey, record: &PasswordRecord) -> (r: Result<
    DecryptedPasswordEntry,
    ArkaError,
>)
    ensures
        match opened_text(key@, record.encrypted_password@) {
            Ok(p) => r matches Ok(e) && is_decrypted_record(e, *record, p),
            Err(err) => r == Err::<DecryptedPasswordEntry, ArkaError>(err),
        },
        forall|nonce: Seq<u8>, text: Seq<char>|
            nonce.len() == NONCE_SIZE && encode_utf8(text).len() <= GCM_MAX_PLAINTEXT
                && record.encrypted_password@.len() == NONCE_SIZE + encode_utf8(text).len()
                + GCM_TAG_SIZE && record.encrypted_password@ == #[trigger] sealed_blob(
                key@,
                nonce,
                encode_utf8(text),
            ) ==> (r matches Ok(e) && e.password@ == text),
{
    let password = decrypt(key, &record.encrypted_password)?;
    Ok(
        DecryptedPasswordEntry {
            id: record.id,
            title: record.title.clone(),
            username: record.username.clone(),
            category: record.category.clone(),
            password,
            website_url: text_or_default(&record.website_url),
            note: text_or_default(&record.note),
            created_at: record.created_at,
            updated_at: record.updated_at,
        },
    )
}

/// Opens every stored row, in order; the first row that fails decides the error.
pub fn decrypt_records(key: &EncryptionKey, records: &Vec<PasswordRecord>) -> (r: Result<
    Vec<DecryptedPasswordEntry>,
    ArkaError,
>)
    ensures
        match r {
            Ok(v) => v@.len() == records@.len() && forall|i: int|
                0 <= i < records@.len() ==> #[trigger] opened_text(
                    key@,
                    records@[i].encrypted_password@,
                ) == Ok::<Seq<char>, ArkaError>(v@[i].password@) && is_decrypted_record(
                    v@[i],
                    records@[i],
                    v@[i].password@,
                ),
            Err(e) => exists|i: int|
                0 <= i < records@.len() && (forall|j: int|
                    0 <= j < i ==> #[trigger] opened_text(key@, records@[j].encrypted_password@) is Ok)
                    && #[trigger] opened_text(key@, records@[i].encrypted_password@) == Err::<
                    Seq<char>,
                    ArkaError,
                >(e),
        },
{
    let mut out: Vec<DecryptedPasswordEntry> = Vec::new();
    let mut i: usize = 0;
    while i < records.len()
        invariant
            i <= records.len(),
            out@.len() == i,
            forall|j: int|
                0 <= j < i ==> #[trigger] opened_text(key@, records@[j].encrypted_password@) == Ok::<
                    Seq<char>,
                    ArkaError,
                >(out@[j].password@) && is_decrypted_record(out@[j], records@[j], out@[j].password@),
        decreases records.len() - i,
    {
        match decrypt_record(key, &records[i]) {
            Ok(e) => {
                out.push(e);
            },
            Err(err) => {
                assert(forall|j: int| 0 <= j < i ==> #[trigger] opened_text(key@, records@[j].encrypted_password@) is Ok);
                return Err(err);
            },
        }
        i = i + 1;
    }
    Ok(out)
}

/// Checks the inputs of adding or updating a credential, in the order master
/// password, title, password; each must be non-blank.
pub fn check_credential_input(master_password: &str, title: &str, password: &str) -> (r: Result<
    (),
    ArkaError,
>)
    ensures
        match r {
            Ok(()) => !is_blank(master_password@) && !is_blank(title@) && !is_blank(password@),
            Err(e) => if is_blank(master_password@) {
                empty_field_error(e, "master_password"@)
            } else if is_blank(title@) {
                empty_field_error(e, "title"@)
            } else {
                is_blank(password@) && empty_field_error(e, "password"@)
            },
        },
{
    require_non_empty(master_password, "master_password")?;
    require_non_empty(title, "title")?;
    require_non_empty(password, "password")?;
    Ok(())
}

/// Backup format written by this version.
pub const BACKUP_FORMAT_VERSION: u32 = 2;

/// One credential of a backup, in clear text.
#[derive(Debug, Clone, PartialEq, Eq)]
pub struct VaultBackupEntry {
    pub title: String,
    pub username: String,
    pub category: String,
    pub password: String,
    pub website_url: String,
    pub note: String,
}

/// The clear-text backup document.
#[derive(Debug, Clone, PartialEq, Eq)]
pub struct VaultBackupPayload {
    pub version: u32,
    pub entries: Vec<VaultBackupEntry>,
}

/// `b` is the backup form of `record` with its password opened to `password`.
pub open spec fn is_backup_of(b: VaultBackupEntry, record: PasswordRecord, password: Seq<char>) -> bool {
    &&& b.title@ == record.title@
    &&& b.username@ == record.username@
    &&& b.category@ == record.category@
    &&& b.password@ == password
    &&& b.website_url@ == text_or_empty(record.website_url)
    &&& b.note@ == text_or_empty(record.note)
}

/// The backup document of the stored rows: every row with its password opened, in
/// order, under format version 2; the first row that fails to open decides the error.
pub fn backup_payload(key: &EncryptionKey, records: &Vec<PasswordRecord>) -> (r: Result<
    VaultBackupPayload,
    ArkaError,
>)
    ensures
        match r {
            Ok(p) => p.version == BACKUP_FORMAT_VERSION && p.entries@.len() == records@.len()
                && forall|i: int|
                0 <= i < records@.len() ==> #[trigger] opened_text(
                    key@,
                    records@[i].encrypted_password@,
                ) == Ok::<Seq<char>, ArkaError>(p.entries@[i].password@) && is_backup_of(
                    p.entries@[i],
                    records@[i],
                    p.entries@[i].password@,
                ),
            Err(e) => exists|i: int|
                0 <= i < records@.len() && (forall|j: int|
                    0 <= j < i ==> #[trigger] opened_text(key@, records@[j].encrypted_password@) is Ok)
                    && #[trigger] opened_text(key@, records@[i].encrypted_password@) == Err::<
                    Seq<char>,
                    ArkaError,
                >(e),
        },
{
    let mut entries: Vec<VaultBackupEntry> = Vec::new();
    let mut i: usize = 0;
    while i < records.len()
        invariant
            i <= records.len(),
            entries@.len() == i,
            forall|j: int|
                0 <= j < i ==> #[trigger] opened_text(key@, records@[j].encrypted_password@) == Ok::<
                    Seq<char>,
                    ArkaError,
                >(entries@[j].password@) && is_backup_of(entries@[j], records@[j], entries@[j].password@),
        decreases records.len() - i,
    {
        let record = &records[i];
        let password = match decrypt(key, &record.encrypted_password) {
            Ok(p) => p,
            Err(err) => {
                assert(forall|j: int| 0 <= j < i ==> #[trigger] opened_text(key@, records@[j].encrypted_password@) is Ok);
                return Err(err);
            },
        };
        entries.push(
            VaultBackupEntry {
                title: record.title.clone(),
                username: record.username.clone(),
                category: record.category.clone(),
                password,
                website_url: text_or_default(&record.website_url),
                note: text_or_default(&record.note),
            },
        );
        i = i + 1;
    }
    Ok(VaultBackupPayload { version: BACKUP_FORMAT_VERSION, entries })
}

/// Seals the serialized backup document under the session key.
pub fn seal_backup(key: &EncryptionKey, json: &str) -> (r: Result<Vec<u8>, ArkaError>)
    ensures
        match r {
            Ok(b) => b@.len() == 12 + encode_utf8(json@).len() + 16 && b@ == sealed_blob(
                key@,
                b@.take(12),
                encode_utf8(json@),
            ),
            Err(e) => e is RandomnessUnavailable || e is EncryptionFailed,
        },
        r is Ok ==> encode_utf8(json@).len() <= GCM_MAX_PLAINTEXT,
{
    let sealed = encrypt(key, json)?;
    Ok(sealed.into_bytes())
}

/// Opens an encrypted backup to its serialized document; an empty blob is
/// `InvalidCiphertext`. A blob that [`seal_backup`] made from a document
/// under this key opens to that document.
pub fn open_backup(key: &EncryptionKey, bytes: Vec<u8>) -> (r: Result<String, ArkaError>)
    ensures
        match r {
            Ok(s) => opened_text(key@, bytes@) == Ok::<Seq<char>, ArkaError>(s@),
            Err(e) => (bytes@.len() == 0 && e is InvalidCiphertext) || (bytes@.len() > 0
                && opened_text(key@, bytes@) == Err::<Seq<char>, ArkaError>(e)),
        },
        forall|nonce: Seq<u8>, text: Seq<char>|
            nonce.len() == NONCE_SIZE && encode_utf8(text).len() <= GCM_MAX_PLAINTEXT
                && bytes@.len() == NONCE_SIZE + encode_utf8(text).len() + GCM_TAG_SIZE
                && bytes@ == #[trigger] sealed_blob(key@, nonce, encode_utf8(text)) ==> (r matches Ok(
                s,
            ) && s@ == text),
{
    if bytes.len() == 0 {
        return Err(ArkaError::InvalidCiphertext);
    }
    let secret = EncryptedSecret::from_vec(bytes);
    decrypt(key, &secret)
}

/// The message for a backup of an unsupported format version.
pub open spec fn version_message(version: nat) -> Seq<char> {
    "unsupported backup version "@ + decimal(version) + " (expected 1 or 2)"@
}

/// Accepts backup format versions 1 and 2.
pub fn check_backup_version(version: u32) -> (r: Result<(), ArkaError>)
    ensures
        match r {
            Ok(()) => version == 1 || version == 2,
            Err(e) => version != 1 && version != 2 && corrupt_error(e, version_message(version as nat)),
        },
{
    if version != BACKUP_FORMAT_VERSION && version != 1 {
        let v = decimal_string(version as u64);
        return Err(ArkaError::corrupt(concat3("unsupported backup version ", v.as_str(), " (expected 1 or 2)")));
    }
    Ok(())
}

/// One backup credential sealed and normalised for the store.
#[derive(Debug, Clone, PartialEq, Eq)]
pub struct StagedImport {
    pub title: String,
    pub username: String,
    pub category: String,
    pub website_url: Option<String>,
    pub note: Option<String>,
    pub encrypted_password: EncryptedSecret,
}

/// The first failing check of a backup entry: title, username, password must be non-blank.
pub open spec fn import_check(b: VaultBackupEntry) -> Option<Seq<char>> {
    if is_blank(b.title@) {
        Some("title"@)
    } else if is_blank(b.username@) {
        Some("username"@)
    } else if is_blank(b.password@) {
        Some("password"@)
    } else {
        None
    }
}

/// Optional metadata as stored: `None` when blank, else the trimmed text.
pub open spec fn stored_metadata(text: Seq<char>) -> Option<Seq<char>> {
    if is_blank(text) {
        None
    } else {
        Some(trim(text))
    }
}

/// The view of an optional string.
pub open spec fn opt_view(o: Option<String>) -> Option<Seq<char>> {
    match o {
        Some(s) => Some(s@),
        None => None,
    }
}

/// The view of an optional borrowed string.
pub open spec fn opt_str_view(o: Option<&str>) -> Option<Seq<char>> {
    match o {
        Some(s) => Some(s@),
        None => None,
    }
}

/// `row` is `b` staged: same text fields, normalised metadata, and the password
/// sealed under `key` with the nonce the blob starts with.
pub open spec fn is_staged_from(row: StagedImport, b: VaultBackupEntry, key: Seq<u8>) -> bool {
    &&& row.title@ == b.title@
    &&& row.username@ == b.username@
    &&& row.category@ == b.category@
    &&& opt_view(row.website_url) == stored_metadata(b.website_url@)
    &&& opt_view(row.note) == stored_metadata(b.note@)
    &&& row.encrypted_password@.len() == 12 + encode_utf8(b.password@).len() + 16
    &&& row.encrypted_password@ == sealed_blob(
        key,
        row.encrypted_password@.take(12),
        encode_utf8(b.password@),
    )
}

/// Optional metadata as an owned string.
fn stored_metadata_string(text: &str) -> (r: Option<String>)
    ensures
        opt_view(r) == stored_metadata(text@),
{
    match optional_metadata(text) {
        Some(t) => Some(t.to_owned()),
        None => None,
    }
}

/// Checks and seals every backup credential, in order. A blank title, username or
/// password is `EmptyField` naming it; sealing fails only for lack of randomness or an
/// oversized password. The first failing entry decides the error.
pub fn stage_backup_rows(key: &EncryptionKey, entries: &Vec<VaultBackupEntry>) -> (r: Result<
    Vec<StagedImport>,
    ArkaError,
>)
    ensures
        match r {
            Ok(rows) => rows@.len() == entries@.len() && forall|i: int|
                0 <= i < entries@.len() ==> import_check(#[trigger] entries@[i]) is None
                    && is_staged_from(rows@[i], entries@[i], key@),
            Err(e) => exists|i: int|
                0 <= i < entries@.len() && (forall|j: int|
                    0 <= j < i ==> import_check(#[trigger] entries@[j]) is None) && (check_error(
                    e,
                    import_check(#[trigger] entries@[i]),
                ) || (import_check(entries@[i]) is None && (e is RandomnessUnavailable
                    || e is EncryptionFailed))),
        },
{
    let mut rows: Vec<StagedImport> = Vec::new();
    let mut i: usize = 0;
    while i < entries.len()
        invariant
            i <= entries.len(),
            rows@.len() == i,
            forall|j: int|
                0 <= j < i ==> import_check(#[trigger] entries@[j]) is None && is_staged_from(
                    rows@[j],
                    entries@[j],
                    key@,
                ),
        decreases entries.len() - i,
    {
        let entry = &entries[i];
        let checked = check_backup_entry(entry);
        if checked.is_err() {
            assert(forall|j: int| 0 <= j < i ==> import_check(#[trigger] entries@[j]) is None);
            return Err(checked.unwrap_err());
        }
        let encrypted = match encrypt(key, entry.password.as_str()) {
            Ok(s) => s,
            Err(err) => {
                assert(forall|j: int| 0 <= j < i ==> import_check(#[trigger] entries@[j]) is None);
                return Err(err);
            },
        };
        rows.push(
            StagedImport {
                title: entry.title.clone(),
                username: entry.username.clone(),
                category: entry.category.clone(),
                website_url: stored_metadata_string(entry.website_url.as_str()),
                note: stored_metadata_string(entry.note.as_str()),
                encrypted_password: encrypted,
            },
        );
        i = i + 1;
    }
    Ok(rows)
}

/// The checks of one backup entry.
fn check_backup_entry(entry: &VaultBackupEntry) -> (r: Result<(), ArkaError>)
    ensures
        match import_check(*entry) {
            None => r is Ok,
            Some(f) => (r matches Err(e) && empty_field_error(e, f)),
        },
{
    require_non_empty(entry.title.as_str(), "title")?;
    require_non_empty(entry.username.as_str(), "username")?;
    require_non_empty(entry.password.as_str(), "password")?;
    Ok(())
}

/// Borrowed store rows for the staged credentials, stamped with `now`.
pub fn staged_rows<'a>(rows: &'a Vec<StagedImport>, now: i64) -> (r: Vec<StagedPasswordRow<'a>>)
    ensures
        r@.len() == rows@.len(),
        forall|i: int|
            0 <= i < rows@.len() ==> {
                let s = #[trigger] r@[i];
                &&& s.title@ == rows@[i].title@
                &&& s.username@ == rows@[i].username@
                &&& s.category@ == rows@[i].category@
                &&& opt_str_view(s.website_url) == opt_view(rows@[i].website_url)
                &&& opt_str_view(s.note) == opt_view(rows@[i].note)
                &&& s.encrypted_password@ == rows@[i].encrypted_password@
                &&& s.created_at == now
                &&& s.updated_at == now
            },
{
    let mut out: Vec<StagedPasswordRow<'a>> = Vec::new();
    let mut i: usize = 0;
    while i < rows.len()
        invariant
            i <= rows.len(),
            out@.len() == i,
            forall|j: int|
                0 <= j < i ==> {
                    let s = #[trigger] out@[j];
                    &&& s.title@ == rows@[j].title@
                    &&& s.username@ == rows@[j].username@
                    &&& s.category@ == rows@[j].category@
                    &&& opt_str_view(s.website_url) == opt_view(rows@[j].website_url)
                    &&& opt_str_view(s.note) == opt_view(rows@[j].note)
                    &&& s.encrypted_password@ == rows@[j].encrypted_password@
                    &&& s.created_at == now
                    &&& s.updated_at == now
                },
        decreases rows.len() - i,
    {
        let row = &rows[i];
        out.push(
            StagedPasswordRow {
                title: row.title.as_str(),
                username: row.username.as_str(),
                category: row.category.as_str(),
                website_url: match &row.website_url {
                    Some(u) => Some(u.as_str()),
                    None => None,
                },
                note: match &row.note {
                    Some(n) => Some(n.as_str()),
                    None => None,
                },
                encrypted_password: &row.encrypted_password,
                created_at: now,
                updated_at: now,
            },
        );
        i = i + 1;
    }
    out
}

/// Optional metadata in the form the store keeps it: absent, or text that is not
/// blank and has no surrounding whitespace.
pub open spec fn is_stored_form(o: Option<Seq<char>>) -> bool {
    match o {
        None => true,
        Some(t) => !is_blank(t) && trim(t) == t,
    }
}

/// Normalising metadata always yields the stored form, so a value written through
/// `optional_metadata` is already in it.
pub proof fn lemma_stored_metadata_form(text: Seq<char>)
    ensures
        is_stored_form(stored_metadata(text)),
{
    if !is_blank(text) {
        lemma_trim_normal(text);
    }
}

/// Restoring a backup gives back what was exported: a row staged from the backup
/// form of a stored record has the record's title, username, category, website and
/// note, and seals the record's password.
pub proof fn lemma_backup_roundtrip(
    record: PasswordRecord,
    password: Seq<char>,
    b: VaultBackupEntry,
    row: StagedImport,
    key: Seq<u8>,
)
    requires
        is_stored_form(opt_view(record.website_url)),
        is_stored_form(opt_view(record.note)),
        is_backup_of(b, record, password),
        is_staged_from(row, b, key),
    ensures
        row.title@ == record.title@,
        row.username@ == record.username@,
        row.category@ == record.category@,
        opt_view(row.website_url) == opt_view(record.website_url),
        opt_view(row.note) == opt_view(record.note),
        row.encrypted_password@ == sealed_blob(
            key,
            row.encrypted_password@.take(12),
            encode_utf8(password),
        ),
{
}

} // verus!
