//! The process-wide vault session: which vault file is open and which key unlocks it.
//!
//! The session caches the key derived for a master password (tagged by the SHA-256
//! of the password) so that repeated calls in one unlocked process do not repeat
//! Argon2id, and it can be primed directly with a sealed session key (the autofill
//! fast path). The mutex that guards it and the database handle live with the caller.
use vstd::prelude::*;
use vstd::utf8::encode_utf8;

use crate::crypto::{argon2id_key, derive_key, EncryptionKey, KdfParams, KdfSalt};
use crate::error::ArkaError;
use crate::text::{chars_eq, chars_of};
use sha2::Digest;

verus! {

/// SHA-256 of `data`.
pub uninterp spec fn sha256_digest(data: Seq<u8>) -> Seq<u8>;

/// Calls `sha2::Sha256::digest`. Claimed: the result is `sha256_digest` of the input.
#[verifier::external_body]
fn sha256(data: &[u8]) -> (r: [u8; 32])
    ensures
        r@ == sha256_digest(data@),
{
    sha2::Sha256::digest(data).into()
}

/// The tag under which a key derived from `master` is cached: SHA-256 of its UTF-8 bytes.
pub open spec fn master_tag_of(master: Seq<char>) -> Seq<u8> {
    sha256_digest(encode_utf8(master))
}

/// The tag of a key installed through the fast path (32 bytes of `0xFA`).
pub open spec fn fast_unlock_tag() -> Seq<u8> {
    Seq::new(32, |i: int| 0xFAu8)
}

/// SHA-256 of the master password's UTF-8 bytes.
fn master_tag(master_password: &str) -> (r: [u8; 32])
    ensures
        r@ == master_tag_of(master_password@),
{
    sha256(master_password.as_bytes())
}

/// The fast-path sentinel tag.
fn fast_tag() -> (r: [u8; 32])
    ensures
        r@ == fast_unlock_tag(),
{
    let r = [0xFAu8; 32];
    assert(r@ =~= fast_unlock_tag());
    r
}

/// A key cached for the session with the tag of the secret that produced it.
pub struct CachedUnlock {
    master_tag: [u8; 32],
    key: EncryptionKey,
}

/// An open vault: its file path and the cached unlock, if any.
pub struct SessionState {
    db_path: String,
    unlock: Option<CachedUnlock>,
}

/// The session slot: empty, or the open vault.
pub struct ActiveVault {
    session: Option<SessionState>,
}

/// What the slot holds: the open vault's path and its cached `(tag, key)`.
pub closed spec fn session_model(s: SessionState) -> (Seq<char>, Option<(Seq<u8>, Seq<u8>)>) {
    (s.db_path@, match s.unlock {
        Some(c) => Some((c.master_tag@, c.key@)),
        None => None,
    })
}

impl View for ActiveVault {
    type V = Option<(Seq<char>, Option<(Seq<u8>, Seq<u8>)>)>;

    closed spec fn view(&self) -> Self::V {
        match self.session {
            Some(s) => Some(session_model(s)),
            None => None,
        }
    }
}

/// The slot after opening the vault at `path`: no key cached yet.
pub open spec fn opened(path: Seq<char>) -> Option<(Seq<char>, Option<(Seq<u8>, Seq<u8>)>)> {
    Some((path, None))
}

/// The slot after caching `key` under `tag`.
pub open spec fn with_unlock(
    v: Option<(Seq<char>, Option<(Seq<u8>, Seq<u8>)>)>,
    tag: Seq<u8>,
    key: Seq<u8>,
) -> Option<(Seq<char>, Option<(Seq<u8>, Seq<u8>)>)> {
    match v {
        Some((p, _)) => Some((p, Some((tag, key)))),
        None => None,
    }
}

/// The key cached under `tag`, if any.
pub open spec fn cached_under(
    v: Option<(Seq<char>, Option<(Seq<u8>, Seq<u8>)>)>,
    tag: Seq<u8>,
) -> Option<Seq<u8>> {
    match v {
        Some((_, Some((t, k)))) => if t == tag {
            Some(k)
        } else {
            None
        },
        _ => None,
    }
}

/// The key cached for `master`, if the cache holds one under its tag.
pub open spec fn cached_key_for(
    v: Option<(Seq<char>, Option<(Seq<u8>, Seq<u8>)>)>,
    master: Seq<char>,
) -> Option<Seq<u8>> {
    cached_under(v, master_tag_of(master))
}

/// The key the session holds, whatever produced it.
pub open spec fn active_key_of(v: Option<(Seq<char>, Option<(Seq<u8>, Seq<u8>)>)>) -> Option<
    Seq<u8>,
> {
    match v {
        Some((_, Some((_, k)))) => Some(k),
        _ => None,
    }
}

/// The slot holds the vault at `path`.
pub open spec fn is_open_at(v: Option<(Seq<char>, Option<(Seq<u8>, Seq<u8>)>)>, path: Seq<char>) -> bool {
    v matches Some((p, _)) && p == path
}

/// `e` is the error for a `db_path` that is not the open vault's.
pub open spec fn path_mismatch_error(e: ArkaError) -> bool {
    e matches ArkaError::CorruptVault { message } && message@
        == "db_path does not match the active vault session"@
}

/// What `init_database` does for a path: nothing when that vault is already open.
pub enum InitStep {
    AlreadyOpen,
    OpenNew,
}

/// Rejects a `db_path` that is not the open vault's path.
pub fn require_session_path(session_path: &str, db_path: &str) -> (r: Result<(), ArkaError>)
    ensures
        match r {
            Ok(()) => session_path@ == db_path@,
            Err(e) => session_path@ != db_path@ && path_mismatch_error(e),
        },
{
    if !chars_eq(&chars_of(session_path), &chars_of(db_path)) {
        return Err(
            ArkaError::corrupt(String::from_str("db_path does not match the active vault session")),
        );
    }
    Ok(())
}

impl ActiveVault {
    /// No vault open.
    pub fn empty() -> (r: ActiveVault)
        ensures
            r@ is None,
    {
        ActiveVault { session: None }
    }

    /// The open vault's path.
    pub fn db_path(&self) -> (r: Option<&str>)
        ensures
            match r {
                Some(p) => is_open_at(self@, p@),
                None => self@ is None,
            },
    {
        match &self.session {
            Some(s) => Some(s.db_path.as_str()),
            None => None,
        }
    }

    /// Whether `init_database(db_path)` must open the vault: not when the vault at the
    /// same path is already open (its cached unlock key is then kept).
    pub fn init_database(&self, db_path: &str) -> (r: InitStep)
        ensures
            (r is AlreadyOpen) <==> is_open_at(self@, db_path@),
    {
        match &self.session {
            Some(s) => {
                if chars_eq(&chars_of(s.db_path.as_str()), &chars_of(db_path)) {
                    InitStep::AlreadyOpen
                } else {
                    InitStep::OpenNew
                }
            },
            None => InitStep::OpenNew,
        }
    }

    /// Registers the vault at `db_path` as the open one, with no key cached.
    pub fn open_session(&mut self, db_path: String)
        ensures
            final(self)@ == opened(db_path@),
    {
        self.session = Some(SessionState { db_path, unlock: None });
    }

    /// Drops the session so the derived key is released.
    pub fn lock_vault(&mut self)
        ensures
            final(self)@ is None,
    {
        self.session = None;
    }

    /// The key cached for `master_password`, if any; `VaultNotInitialized` when no
    /// vault is open.
    pub fn cached_key(&self, master_password: &str) -> (r: Result<Option<EncryptionKey>, ArkaError>)
        ensures
            match r {
                Ok(Some(k)) => self@ is Some && cached_key_for(self@, master_password@) == Some(k@),
                Ok(None) => self@ is Some && cached_key_for(self@, master_password@) is None,
                Err(e) => self@ is None && e is VaultNotInitialized,
            },
    {
        let tag = master_tag(master_password);
        self.cached_key_under(&tag)
    }

    /// The key cached under `tag`, if any; `VaultNotInitialized` when no vault is open.
    pub fn cached_key_under(&self, tag: &[u8; 32]) -> (r: Result<Option<EncryptionKey>, ArkaError>)
        ensures
            match r {
                Ok(Some(k)) => self@ is Some && cached_under(self@, tag@) == Some(k@),
                Ok(None) => self@ is Some && cached_under(self@, tag@) is None,
                Err(e) => self@ is None && e is VaultNotInitialized,
            },
    {
        match &self.session {
            None => Err(ArkaError::VaultNotInitialized),
            Some(s) => match &s.unlock {
                Some(c) => {
                    let mut i: usize = 0;
                    let mut same = true;
                    while i < 32
                        invariant
                            i <= 32,
                            same == (forall|j: int| 0 <= j < i ==> tag@[j] == c.master_tag@[j]),
                        decreases 32 - i,
                    {
                        if tag[i] != c.master_tag[i] {
                            same = false;
                        }
                        i = i + 1;
                    }
                    proof {
                        if same {
                            assert(tag@ =~= c.master_tag@);
                        }
                    }
                    if same {
                        Ok(Some(c.key.duplicate()))
                    } else {
                        Ok(None)
                    }
                },
                None => Ok(None),
            },
        }
    }

    /// Caches `key` as the key of `master_password` for the open vault.
    pub fn remember_unlock(&mut self, master_password: &str, key: &EncryptionKey)
        ensures
            final(self)@ == with_unlock(old(self)@, master_tag_of(master_password@), key@),
    {
        let tag = master_tag(master_password);
        match &mut self.session {
            Some(s) => {
                s.unlock = Some(CachedUnlock { master_tag: tag, key: key.duplicate() });
            },
            None => {},
        }
    }

    /// Derives the key of `master_password` from the vault's salt and Argon2id
    /// parameters and caches it under the password's tag. Derivation failure leaves
    /// the slot as it was.
    pub fn unlock_with(&mut self, master_password: &str, salt: &KdfSalt, params: &KdfParams) -> (r:
        Result<EncryptionKey, ArkaError>)
        ensures
            match r {
                Ok(k) => k@ == argon2id_key(
                    encode_utf8(master_password@),
                    salt@,
                    params.m_cost_kib,
                    params.t_cost,
                    params.p_cost,
                ) && final(self)@ == with_unlock(old(self)@, master_tag_of(master_password@), k@),
                Err(e) => e is KeyDerivationFailed && final(self)@ == old(self)@,
            },
    {
        match derive_key(master_password, salt, params) {
            Ok(key) => {
                self.remember_unlock(master_password, &key);
                Ok(key)
            },
            Err(e) => Err(e),
        }
    }

    /// The key of the open vault, however it was obtained; `VaultNotInitialized` when
    /// no vault is open or no key is held.
    pub fn active_key(&self) -> (r: Result<EncryptionKey, ArkaError>)
        ensures
            match r {
                Ok(k) => active_key_of(self@) == Some(k@),
                Err(e) => active_key_of(self@) is None && e is VaultNotInitialized,
            },
    {
        match &self.session {
            Some(s) => match &s.unlock {
                Some(c) => Ok(c.key.duplicate()),
                None => Err(ArkaError::VaultNotInitialized),
            },
            None => Err(ArkaError::VaultNotInitialized),
        }
    }

    /// Installs a previously sealed session key for the vault at `db_path` (no
    /// Argon2id): `VaultNotInitialized` when no vault is open, `CorruptVault` when
    /// another vault is.
    pub fn install_session_key(&mut self, db_path: &str, key_bytes: [u8; 32]) -> (r: Result<
        (),
        ArkaError,
    >)
        ensures
            match r {
                Ok(()) => is_open_at(old(self)@, db_path@) && final(self)@ == with_unlock(
                    old(self)@,
                    fast_unlock_tag(),
                    key_bytes@,
                ),
                Err(e) => final(self)@ == old(self)@ && ((old(self)@ is None
                    && e is VaultNotInitialized) || (old(self)@ is Some && !is_open_at(
                    old(self)@,
                    db_path@,
                ) && path_mismatch_error(e))),
            },
    {
        match &mut self.session {
            None => Err(ArkaError::VaultNotInitialized),
            Some(s) => {
                require_session_path(s.db_path.as_str(), db_path)?;
                s.unlock = Some(
                    CachedUnlock {
                        master_tag: fast_tag(),
                        key: EncryptionKey::from_key_bytes(key_bytes),
                    },
                );
                Ok(())
            },
        }
    }
}

/// A key cached for a master password is what the session gives back for that
/// password, until the session changes.
pub proof fn lemma_cached_key_roundtrip(
    v: Option<(Seq<char>, Option<(Seq<u8>, Seq<u8>)>)>,
    master: Seq<char>,
    key: Seq<u8>,
)
    requires
        v is Some,
    ensures
        cached_key_for(with_unlock(v, master_tag_of(master), key), master) == Some(key),
        active_key_of(with_unlock(v, master_tag_of(master), key)) == Some(key),
{
}

/// A key installed through the fast path is the session's active key.
pub proof fn lemma_installed_key_is_active(
    v: Option<(Seq<char>, Option<(Seq<u8>, Seq<u8>)>)>,
    key: Seq<u8>,
)
    requires
        v is Some,
    ensures
        active_key_of(with_unlock(v, fast_unlock_tag(), key)) == Some(key),
{
}

/// A freshly opened vault holds no key: every unlock goes through key derivation.
pub proof fn lemma_opened_vault_has_no_key(path: Seq<char>, master: Seq<char>)
    ensures
        cached_key_for(opened(path), master) is None,
        active_key_of(opened(path)) is None,
{
}

/// Initialising a vault that is already open is a no-op: once `open_session` has
/// opened `path`, the slot stays open at `path` whatever key is cached later, so
/// `init_database(path)` answers `AlreadyOpen` and the session and its cached key are
/// kept; a different path is not open, so it gets a new session with no key.
pub proof fn lemma_init_database_idempotent(
    path: Seq<char>,
    other: Seq<char>,
    tag: Seq<u8>,
    key: Seq<u8>,
    master: Seq<char>,
)
    requires
        other != path,
    ensures
        is_open_at(opened(path), path),
        is_open_at(with_unlock(opened(path), tag, key), path),
        cached_key_for(with_unlock(opened(path), master_tag_of(master), key), master) == Some(key),
        !is_open_at(with_unlock(opened(path), tag, key), other),
        cached_key_for(opened(other), master) is None,
{
}

/// A locked (empty) slot holds no key for any password.
pub proof fn lemma_locked_vault_has_no_key(master: Seq<char>)
    ensures
        cached_key_for(None, master) is None,
        active_key_of(None) is None,
{
}

} // verus!
