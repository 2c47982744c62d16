//! Cryptographic primitives for the offline vault.
//!
//! A master password is stretched with Argon2id into a 256-bit [`EncryptionKey`];
//! entry passwords are sealed with AES-256-GCM under that key. Each sealed blob is
//! `nonce (12 B) || ciphertext || tag (16 B)`.
use vstd::prelude::*;
use vstd::utf8::*;

use crate::error::ArkaError;
use aes_gcm::aead::{Aead, KeyInit};
use rand::TryRng;

verus! {

broadcast use vstd::utf8::encode_utf8_decode_utf8, vstd::utf8::encode_utf8_valid_utf8;

/// Length of keys derived for AES-256 (256 bits).
pub const KEY_SIZE: usize = 32;

/// Salt length for Argon2id (128 bits).
pub const SALT_SIZE: usize = 16;

/// GCM nonce size (96 bits).
pub const NONCE_SIZE: usize = 12;

/// Pinned Argon2id memory cost: 64 MiB in 1 KiB blocks (legacy / desktop).
pub const ARGON2_M_COST_KIB: u32 = 65_536;

/// Pinned Argon2id time cost (iterations).
pub const ARGON2_T_COST: u32 = 3;

/// Pinned Argon2id parallelism.
pub const ARGON2_P_COST: u32 = 4;

/// GCM authentication tag size (128 bits).
pub const GCM_TAG_SIZE: usize = 16;

/// Byte length of the seal of an empty plaintext: the nonce and the tag, no
/// ciphertext bytes. Shorter blobs cannot be seals at all.
pub const SEALED_EMPTY_LEN: usize = 28;

/// Minimum byte length of an [`EncryptedSecret`] that seals a non-empty plaintext:
/// nonce, at least one ciphertext byte, tag. A blob of exactly [`SEALED_EMPTY_LEN`]
/// bytes is accepted only as the seal of an empty plaintext.
pub const MIN_ENCRYPTED_LEN: usize = 29;

/// Longest plaintext AES-GCM accepts, in bytes (2^36 - 32).
pub const GCM_MAX_PLAINTEXT: u64 = 68_719_476_704;

/// Argon2id parameters persisted per vault.
#[derive(Clone, Copy, Debug, PartialEq, Eq, Structural)]
pub struct KdfParams {
    pub m_cost_kib: u32,
    pub t_cost: u32,
    pub p_cost: u32,
}

impl KdfParams {
    /// The OWASP desktop parameters, also used for vaults created before per-vault KDF metadata.
    pub open spec fn spec_legacy() -> KdfParams {
        KdfParams { m_cost_kib: ARGON2_M_COST_KIB, t_cost: ARGON2_T_COST, p_cost: ARGON2_P_COST }
    }

    /// Lower memory footprint for constrained mobile devices.
    pub open spec fn spec_mobile() -> KdfParams {
        KdfParams { m_cost_kib: 19_456, t_cost: 3, p_cost: 1 }
    }

    /// The OWASP desktop parameters, also used for vaults created before per-vault KDF metadata.
    pub fn legacy() -> (r: KdfParams)
        ensures
            r == KdfParams::spec_legacy(),
    {
        KdfParams { m_cost_kib: ARGON2_M_COST_KIB, t_cost: ARGON2_T_COST, p_cost: ARGON2_P_COST }
    }

    /// Lower memory footprint for constrained mobile devices.
    pub fn mobile() -> (r: KdfParams)
        ensures
            r == KdfParams::spec_mobile(),
    {
        KdfParams { m_cost_kib: 19_456, t_cost: 3, p_cost: 1 }
    }

    /// Parameters written into new vault metadata on a desktop platform.
    pub fn new_vault() -> (r: KdfParams)
        ensures
            r == KdfParams::spec_legacy(),
    {
        KdfParams::legacy()
    }

    /// Parameters written into new vault metadata: the mobile parameters on Android,
    /// the desktop parameters elsewhere.
    pub fn new_vault_for(android: bool) -> (r: KdfParams)
        ensures
            r == if android {
                KdfParams::spec_mobile()
            } else {
                KdfParams::spec_legacy()
            },
    {
        if android {
            KdfParams::mobile()
        } else {
            KdfParams::legacy()
        }
    }
}

/// A 256-bit key derived from the master password.
pub struct EncryptionKey {
    bytes: [u8; 32],
}

/// Per-vault salt persisted in the vault metadata.
#[derive(Clone, Copy, Debug, PartialEq, Eq)]
pub struct KdfSalt {
    bytes: [u8; 16],
}

/// Ciphertext sealed with AES-256-GCM, including the prepended nonce and the tag.
#[derive(Clone, Debug, PartialEq, Eq)]
pub struct EncryptedSecret {
    bytes: Vec<u8>,
}

impl View for EncryptionKey {
    type V = Seq<u8>;

    closed spec fn view(&self) -> Seq<u8> {
        self.bytes@
    }
}

impl View for KdfSalt {
    type V = Seq<u8>;

    closed spec fn view(&self) -> Seq<u8> {
        self.bytes@
    }
}

impl View for EncryptedSecret {
    type V = Seq<u8>;

    closed spec fn view(&self) -> Seq<u8> {
        self.bytes@
    }
}

impl EncryptionKey {
    pub fn as_bytes(&self) -> (r: &[u8; 32])
        ensures
            r@ == self@,
    {
        &self.bytes
    }

    pub fn from_key_bytes(bytes: [u8; 32]) -> (r: EncryptionKey)
        ensures
            r@ == bytes@,
    {
        EncryptionKey { bytes }
    }

    /// A second handle on the same key bytes.
    pub fn duplicate(&self) -> (r: EncryptionKey)
        ensures
            r@ == self@,
    {
        EncryptionKey { bytes: self.bytes }
    }

    pub proof fn lemma_len(&self)
        ensures
            self@.len() == 32,
    {
    }
}

impl KdfSalt {
    pub fn from_bytes(bytes: [u8; 16]) -> (r: KdfSalt)
        ensures
            r@ == bytes@,
    {
        KdfSalt { bytes }
    }

    pub fn as_bytes(&self) -> (r: &[u8; 16])
        ensures
            r@ == self@,
    {
        &self.bytes
    }

    pub proof fn lemma_len(&self)
        ensures
            self@.len() == 16,
    {
    }
}

impl EncryptedSecret {
    pub fn as_bytes(&self) -> (r: &[u8])
        ensures
            r@ == self@,
    {
        self.bytes.as_slice()
    }

    pub fn into_bytes(self) -> (r: Vec<u8>)
        ensures
            r@ == self@,
    {
        self.bytes
    }

    /// Wraps raw blob bytes (as read back from storage).
    pub fn from_vec(bytes: Vec<u8>) -> (r: EncryptedSecret)
        ensures
            r@ == bytes@,
    {
        EncryptedSecret { bytes }
    }

    /// A copy of the blob.
    pub fn duplicate(&self) -> (r: EncryptedSecret)
        ensures
            r@ == self@,
    {
        EncryptedSecret { bytes: self.bytes.clone() }
    }
}

impl From<Vec<u8>> for EncryptedSecret {
    fn from(bytes: Vec<u8>) -> (r: EncryptedSecret)
        ensures
            r@ == bytes@,
    {
        EncryptedSecret { bytes }
    }
}

impl vstd::std_specs::convert::FromSpecImpl<Vec<u8>> for EncryptedSecret {
    open spec fn obeys_from_spec() -> bool {
        true
    }

    closed spec fn from_spec(v: Vec<u8>) -> EncryptedSecret {
        EncryptedSecret { bytes: v }
    }
}

/// A blob built with `From<Vec<u8>>` holds exactly the given bytes.
pub proof fn lemma_from_bytes(v: Vec<u8>)
    ensures
        <EncryptedSecret as vstd::std_specs::convert::FromSpec<Vec<u8>>>::from_spec(v)@ == v@,
{
}

// ---------------------------------------------------------------------------
// Argon2id
// ---------------------------------------------------------------------------

/// Declares `argon2::Error` for use in signatures; its contents stay opaque.
#[verifier::external_type_specification]
#[verifier::external_body]
pub struct ExArgon2Error(argon2::Error);

/// The 32-byte Argon2id (version 0x13) output for `password` and `salt` under the
/// memory, time and parallelism costs `m_cost`, `t_cost`, `p_cost`.
pub uninterp spec fn argon2id_key(
    password: Seq<u8>,
    salt: Seq<u8>,
    m_cost: u32,
    t_cost: u32,
    p_cost: u32,
) -> Seq<u8>;

/// The cost triples that `argon2::Params::new` accepts: `p_cost` in `1..=2^24-1`,
/// `t_cost >= 1` and `m_cost >= 8 * p_cost`.
pub open spec fn argon2_params_valid(m_cost: u32, t_cost: u32, p_cost: u32) -> bool {
    &&& 1 <= p_cost <= 0xFF_FFFF
    &&& t_cost >= 1
    &&& m_cost >= 8 * p_cost
}

/// Calls `argon2::Params::new(m, t, p, Some(32))`, `argon2::Argon2::new` with
/// Argon2id / version 0x13, and `Argon2::hash_password_into` into a 32-byte buffer.
/// Claimed: invalid costs, a password longer than 2^32-1 bytes or a salt outside
/// 8..=2^32-1 bytes give `Err`; an `Ok` holds `argon2id_key` of the inputs. Not claimed:
/// success on valid inputs, since the block allocation can fail with `OutOfMemory`.
#[verifier::external_body]
fn argon2id_hash(password: &[u8], salt: &[u8], m_cost: u32, t_cost: u32, p_cost: u32) -> (res: Result<[u8; 32], argon2::Error>)
    ensures
        !argon2_params_valid(m_cost, t_cost, p_cost) || password@.len() > 0xFFFF_FFFF
            || salt@.len() < 8 || salt@.len() > 0xFFFF_FFFF ==> res is Err,
        res matches Ok(k) ==> k@ == argon2id_key(password@, salt@, m_cost, t_cost, p_cost),
{
    let params = argon2::Params::new(m_cost, t_cost, p_cost, Some(32))?;
    let kdf = argon2::Argon2::new(argon2::Algorithm::Argon2id, argon2::Version::V0x13, params);
    let mut out = [0u8; 32];
    kdf.hash_password_into(password, salt, &mut out)?;
    Ok(out)
}

/// Stretches a master password into an [`EncryptionKey`] with the vault's Argon2id parameters.
///
/// A key, when one is returned, is the Argon2id output for the UTF-8 bytes of the
/// password; any failure is `KeyDerivationFailed`.
pub fn derive_key(master_password: &str, salt: &KdfSalt, params: &KdfParams) -> (r: Result<EncryptionKey, ArkaError>)
    ensures
        match r {
            Ok(k) => k@ == argon2id_key(
                encode_utf8(master_password@),
                salt@,
                params.m_cost_kib,
                params.t_cost,
                params.p_cost,
            ),
            Err(e) => e is KeyDerivationFailed,
        },
        !argon2_params_valid(params.m_cost_kib, params.t_cost, params.p_cost)
            || encode_utf8(master_password@).len() > 0xFFFF_FFFF ==> r is Err,
{
    let pw = master_password.as_bytes();
    let salt_bytes = salt.as_bytes();
    proof {
        salt.lemma_len();
    }
    match argon2id_hash(pw, salt_bytes, params.m_cost_kib, params.t_cost, params.p_cost) {
        Ok(k) => Ok(EncryptionKey::from_key_bytes(k)),
        Err(_) => Err(ArkaError::KeyDerivationFailed),
    }
}

/// Key derivation is a function of its inputs: two keys derived from the same
/// password, salt and parameters are the same key.
pub proof fn lemma_derive_key_deterministic(
    master: Seq<char>,
    salt: Seq<u8>,
    params: KdfParams,
    k1: Seq<u8>,
    k2: Seq<u8>,
)
    requires
        k1 == argon2id_key(encode_utf8(master), salt, params.m_cost_kib, params.t_cost, params.p_cost),
        k2 == argon2id_key(encode_utf8(master), salt, params.m_cost_kib, params.t_cost, params.p_cost),
    ensures
        k1 == k2,
{
}

// ---------------------------------------------------------------------------
// AES-256-GCM
// ---------------------------------------------------------------------------

/// Declares `aes_gcm::Error` for use in signatures; its contents stay opaque.
#[verifier::external_type_specification]
#[verifier::external_body]
pub struct ExAeadError(aes_gcm::Error);

/// AES-256-GCM ciphertext followed by its 16-byte tag, for `key`, the 96-bit
/// `nonce`, `plaintext` and empty associated data.
pub uninterp spec fn aes256gcm_seal(key: Seq<u8>, nonce: Seq<u8>, plaintext: Seq<u8>) -> Seq<u8>;

/// AES-256-GCM opening of `ciphertext || tag` under `key` and `nonce`: the plaintext
/// when the tag authenticates, `None` otherwise.
pub uninterp spec fn aes256gcm_open(key: Seq<u8>, nonce: Seq<u8>, sealed: Seq<u8>) -> Option<
    Seq<u8>,
>;

/// Calls `Aes256Gcm::new` on `key` and `Aead::encrypt` with `nonce` and `plaintext`.
/// Claimed: it succeeds exactly when the plaintext is at most 2^36-32 bytes (the
/// `P_MAX` check of `encrypt_inout_detached`), and returns `aes256gcm_seal` of its
/// inputs, which is the plaintext length plus the 16-byte tag.
#[verifier::external_body]
fn aes256gcm_encrypt(key: &[u8; 32], nonce: &[u8; 12], plaintext: &[u8]) -> (res: Result<Vec<u8>, aes_gcm::Error>)
    ensures
        res is Ok <==> plaintext@.len() <= GCM_MAX_PLAINTEXT,
        res matches Ok(c) ==> c@ == aes256gcm_seal(key@, nonce@, plaintext@) && c@.len()
            == plaintext@.len() + 16,
{
    let cipher = aes_gcm::Aes256Gcm::new(&(*key).into());
    cipher.encrypt(&(*nonce).into(), plaintext)
}

/// Calls `Aes256Gcm::new` on `key` and `Aead::decrypt` with `nonce` and `sealed`.
/// Claimed: the result is `aes256gcm_open` of its inputs, and (AEAD correctness) a
/// blob that `aes256gcm_seal` produced under the same key and nonce from a plaintext
/// of at most 2^36-32 bytes opens to that plaintext.
#[verifier::external_body]
fn aes256gcm_decrypt(key: &[u8; 32], nonce: &[u8], sealed: &[u8]) -> (res: Result<Vec<u8>, aes_gcm::Error>)
    requires
        nonce@.len() == 12,
    ensures
        match res {
            Ok(p) => aes256gcm_open(key@, nonce@, sealed@) == Some(p@),
            Err(_) => aes256gcm_open(key@, nonce@, sealed@) is None,
        },
        (exists|p: Seq<u8>|
            p.len() <= GCM_MAX_PLAINTEXT && #[trigger] aes256gcm_seal(key@, nonce@, p) == sealed@)
            ==> res is Ok,
        res matches Ok(q) ==> forall|p: Seq<u8>|
            p.len() <= GCM_MAX_PLAINTEXT && #[trigger] aes256gcm_seal(key@, nonce@, p) == sealed@
                ==> q@ == p,
{
    let cipher = aes_gcm::Aes256Gcm::new(&(*key).into());
    let n: [u8; 12] = nonce.try_into().unwrap();
    cipher.decrypt(&n.into(), sealed)
}

/// Calls `String::from_utf8`. Claimed: it succeeds exactly on valid UTF-8, with the
/// decoded characters.
#[verifier::external_body]
fn string_from_utf8(bytes: Vec<u8>) -> (res: Option<String>)
    ensures
        res is Some <==> valid_utf8(bytes@),
        res matches Some(s) ==> s@ == decode_utf8(bytes@),
{
    String::from_utf8(bytes).ok()
}

/// The blob `nonce || aes256gcm_seal(key, nonce, plaintext)`.
pub open spec fn sealed_blob(key: Seq<u8>, nonce: Seq<u8>, plaintext: Seq<u8>) -> Seq<u8> {
    nonce + aes256gcm_seal(key, nonce, plaintext)
}

/// What [`decrypt`] yields for the blob `blob` under `key`.
pub open spec fn opened_text(key: Seq<u8>, blob: Seq<u8>) -> Result<Seq<char>, ArkaError> {
    if blob.len() < SEALED_EMPTY_LEN {
        Err(ArkaError::InvalidCiphertext)
    } else {
        match aes256gcm_open(key, blob.take(12), blob.skip(12)) {
            None => if blob.len() < MIN_ENCRYPTED_LEN {
                Err(ArkaError::InvalidCiphertext)
            } else {
                Err(ArkaError::AuthenticationFailed)
            },
            Some(p) => if valid_utf8(p) {
                Ok(decode_utf8(p))
            } else {
                Err(ArkaError::InvalidUtf8)
            },
        }
    }
}

/// Seals UTF-8 `plaintext` under `key` with the given `nonce`, returning the
/// nonce-prefixed ciphertext.
pub fn seal_with_nonce(key: &EncryptionKey, plaintext: &str, nonce: [u8; 12]) -> (r: Result<EncryptedSecret, ArkaError>)
    ensures
        match r {
            Ok(s) => s@ == sealed_blob(key@, nonce@, encode_utf8(plaintext@)) && s@.len()
                == NONCE_SIZE + encode_utf8(plaintext@).len() + GCM_TAG_SIZE,
            Err(e) => e is EncryptionFailed,
        },
        r is Ok <==> encode_utf8(plaintext@).len() <= GCM_MAX_PLAINTEXT,
{
    let bytes = plaintext.as_bytes();
    match aes256gcm_encrypt(key.as_bytes(), &nonce, bytes) {
        Ok(payload) => Ok(frame_blob(nonce, payload)),
        Err(_) => Err(ArkaError::EncryptionFailed),
    }
}

/// The stored blob layout: the nonce followed by the sealed payload (ciphertext and tag).
pub fn frame_blob(nonce: [u8; 12], payload: Vec<u8>) -> (r: EncryptedSecret)
    ensures
        r@ == nonce@ + payload@,
{
    let mut payload = payload;
    let mut output: Vec<u8> = Vec::new();
    let mut i: usize = 0;
    while i < 12
        invariant
            i <= 12,
            output@ == nonce@.take(i as int),
        decreases 12 - i,
    {
        output.push(nonce[i]);
        i = i + 1;
        assert(output@ =~= nonce@.take(i as int));
    }
    assert(nonce@.take(12) =~= nonce@);
    output.append(&mut payload);
    EncryptedSecret { bytes: output }
}

/// Seals UTF-8 `plaintext` under `key` with a fresh nonce from the OS CSPRNG.
///
/// The blob's first 12 bytes are the nonce that was drawn; the rest is the
/// AES-256-GCM ciphertext and tag of the plaintext's UTF-8 bytes under it.
pub fn encrypt(key: &EncryptionKey, plaintext: &str) -> (r: Result<EncryptedSecret, ArkaError>)
    ensures
        match r {
            Ok(s) => s@.len() == NONCE_SIZE + encode_utf8(plaintext@).len() + GCM_TAG_SIZE
                && s@ == sealed_blob(key@, s@.take(12), encode_utf8(plaintext@)),
            Err(e) => e is RandomnessUnavailable || (e is EncryptionFailed && encode_utf8(
                plaintext@,
            ).len() > GCM_MAX_PLAINTEXT),
        },
        r is Ok ==> encode_utf8(plaintext@).len() <= GCM_MAX_PLAINTEXT,
{
    let nonce = random_nonce()?;
    let r = seal_with_nonce(key, plaintext, nonce);
    proof {
        if r is Ok {
            assert(r->Ok_0@.take(12) =~= nonce@);
        }
    }
    r
}

/// Splits a blob into its nonce and sealed payload, rejecting blobs too short to
/// hold a nonce and the tag.
fn split_encrypted(data: &[u8]) -> (r: Result<(&[u8], &[u8]), ArkaError>)
    ensures
        match r {
            Ok((n, c)) => data@.len() >= SEALED_EMPTY_LEN && n@ == data@.take(12) && c@
                == data@.skip(12),
            Err(e) => e is InvalidCiphertext && data@.len() < SEALED_EMPTY_LEN,
        },
{
    if data.len() < SEALED_EMPTY_LEN {
        return Err(ArkaError::InvalidCiphertext);
    }
    let n = vstd::slice::slice_subrange(data, 0, 12);
    let c = vstd::slice::slice_subrange(data, 12, data.len());
    Ok((n, c))
}

/// Opens an [`EncryptedSecret`] produced by [`encrypt`] or [`seal_with_nonce`].
///
/// Blobs shorter than 28 bytes are `InvalidCiphertext`; a 28-byte blob is opened as
/// the seal of an empty plaintext and is `InvalidCiphertext` when its tag fails; from
/// 29 bytes a failed tag check is `AuthenticationFailed`. Plaintext that is not UTF-8
/// is `InvalidUtf8`. A blob that sealed a plaintext under this key opens to that
/// plaintext.
pub fn decrypt(key: &EncryptionKey, secret: &EncryptedSecret) -> (r: Result<String, ArkaError>)
    ensures
        match r {
            Ok(s) => opened_text(key@, secret@) == Ok::<Seq<char>, ArkaError>(s@),
            Err(e) => opened_text(key@, secret@) == Err::<Seq<char>, ArkaError>(e),
        },
        forall|nonce: Seq<u8>, text: Seq<char>|
            nonce.len() == NONCE_SIZE && encode_utf8(text).len() <= GCM_MAX_PLAINTEXT
                && secret@.len() == NONCE_SIZE + encode_utf8(text).len() + GCM_TAG_SIZE
                && secret@ == #[trigger] sealed_blob(key@, nonce, encode_utf8(text)) ==> (r matches Ok(
                s,
            ) && s@ == text),
{
    let (nonce, sealed) = split_encrypted(secret.as_bytes())?;
    let opened = aes256gcm_decrypt(key.as_bytes(), nonce, sealed);
    proof {
        assert forall|n: Seq<u8>, text: Seq<char>|
            n.len() == NONCE_SIZE && encode_utf8(text).len() <= GCM_MAX_PLAINTEXT
                && secret@ == #[trigger] sealed_blob(key@, n, encode_utf8(text)) implies (
        aes256gcm_seal(key@, nonce@, encode_utf8(text)) == sealed@ && n == nonce@) by {
            let b = sealed_blob(key@, n, encode_utf8(text));
            assert(b.take(12) =~= n);
            assert(b.skip(12) =~= aes256gcm_seal(key@, n, encode_utf8(text)));
        }
    }
    match opened {
        Ok(p) => plaintext_of(Some(p)),
        Err(_) => {
            if secret.as_bytes().len() < MIN_ENCRYPTED_LEN {
                Err(ArkaError::InvalidCiphertext)
            } else {
                plaintext_of(None)
            }
        },
    }
}

/// The text of an opened payload: `AuthenticationFailed` when the tag did not
/// authenticate (`None`), `InvalidUtf8` when the bytes are not UTF-8.
pub fn plaintext_of(opened: Option<Vec<u8>>) -> (r: Result<String, ArkaError>)
    ensures
        match opened {
            None => r == Err::<String, ArkaError>(ArkaError::AuthenticationFailed),
            Some(p) => if valid_utf8(p@) {
                r matches Ok(s) && s@ == decode_utf8(p@)
            } else {
                r == Err::<String, ArkaError>(ArkaError::InvalidUtf8)
            },
        },
{
    match opened {
        Some(p) => match string_from_utf8(p) {
            Some(s) => Ok(s),
            None => Err(ArkaError::InvalidUtf8),
        },
        None => Err(ArkaError::AuthenticationFailed),
    }
}

// ---------------------------------------------------------------------------
// OS randomness
// ---------------------------------------------------------------------------

/// Declares `getrandom::Error` for use in signatures; its contents stay opaque.
#[verifier::external_type_specification]
#[verifier::external_body]
pub struct ExGetrandomError(getrandom::Error);

/// Calls `getrandom::fill`. Claimed: the buffer keeps its length; its new bytes are
/// whatever the OS gave, so nothing is claimed of them.
#[verifier::external_body]
fn getrandom_fill(buf: &mut [u8]) -> (res: Result<(), getrandom::Error>)
    ensures
        final(buf)@.len() == old(buf)@.len(),
{
    getrandom::fill(buf)
}

/// Calls `TryRng::try_fill_bytes` on `rand::rngs::SysRng`. Claimed: the buffer keeps
/// its length.
#[verifier::external_body]
fn sys_rng_fill(buf: &mut [u8]) -> (res: Result<(), getrandom::Error>)
    ensures
        final(buf)@.len() == old(buf)@.len(),
{
    rand::rngs::SysRng.try_fill_bytes(buf)
}

/// Fills `buf` from the OS CSPRNG, falling back to `SysRng` when `getrandom` fails.
pub fn fill_os_random(buf: &mut [u8]) -> (r: Result<(), ArkaError>)
    ensures
        final(buf)@.len() == old(buf)@.len(),
        match r {
            Ok(()) => true,
            Err(e) => e is RandomnessUnavailable,
        },
{
    if getrandom_fill(buf).is_ok() {
        return Ok(());
    }
    match sys_rng_fill(buf) {
        Ok(()) => Ok(()),
        Err(_) => Err(ArkaError::RandomnessUnavailable),
    }
}

/// Twelve random bytes for a GCM nonce.
fn random_nonce() -> (r: Result<[u8; 12], ArkaError>)
    ensures
        r matches Err(e) ==> e is RandomnessUnavailable,
{
    let mut buf = [0u8; 12];
    fill_os_random(&mut buf)?;
    Ok(buf)
}

/// Sixteen random bytes for a KDF salt.
fn random_salt_bytes() -> (r: Result<[u8; 16], ArkaError>)
    ensures
        r matches Err(e) ==> e is RandomnessUnavailable,
{
    let mut buf = [0u8; 16];
    fill_os_random(&mut buf)?;
    Ok(buf)
}

/// Thirty-two random bytes (a generator seed).
pub fn random_seed() -> (r: Result<[u8; 32], ArkaError>)
    ensures
        r matches Err(e) ==> e is RandomnessUnavailable,
{
    let mut buf = [0u8; 32];
    fill_os_random(&mut buf)?;
    Ok(buf)
}

/// Draws a fresh salt from the OS CSPRNG for first-time vault provisioning.
pub fn generate_salt() -> (r: Result<KdfSalt, ArkaError>)
    ensures
        r matches Err(e) ==> e is RandomnessUnavailable,
{
    let bytes = random_salt_bytes()?;
    Ok(KdfSalt::from_bytes(bytes))
}

} // verus!
