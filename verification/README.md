# arka

The core of the Arka offline password vault, written in Verus: Argon2id key
derivation, AES-256-GCM sealing of entry passwords, password generation, the
vault security audit, autofill candidate matching, the unlock-key cache of the
vault session and the encrypted backup format. Each function states its
behaviour in `requires`/`ensures` and Verus proves it. Where a result rests on
OS randomness (nonces, salts, generated passwords), the contract says what holds
of every draw, and a separate public function fixes the result for given draws
(`seal_with_nonce`, `assemble_password`).

- `src/` — the verified library. Calls into `argon2`, `aes-gcm`, `getrandom`,
  `rand` and `sha2` go through small trusted wrappers whose contracts are
  documented where they are declared.
- `app/` — ordinary Rust around the library: the SQLite store, the
  process-wide session slot (master passwords and backup JSON are wiped with
  `zeroize` after use), the floating-point audit score and entropy estimate,
  JSON encoding, and the C and JNI exports.
- `tests/` — tests of the library on concrete values.
