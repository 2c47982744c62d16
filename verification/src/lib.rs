//! Verified core of the Arka offline password vault: key derivation and
//! sealing of secrets, password generation and audit, autofill matching,
//! and the validation and session rules that guard the encrypted store.
use vstd::prelude::*;

pub mod error;
pub mod text;
pub mod crypto;
pub mod generator;
pub mod vault;
pub mod audit;
pub mod autofill;
pub mod store;
pub mod session;
pub mod ffi;

pub use error::ArkaError;

verus! {
}
