//! Cryptographic core of a local secret store.
//!
//! A named vault maps secret names to secret values and is protected at rest
//! by a single master password.  The crate covers master-password key
//! derivation and verification, the authenticated-encryption envelope that
//! seals the secret map with nonce-uniqueness bookkeeping, the vault
//! lifecycle state machine, and the deterministic on-disk record codec.
//! File, clipboard and UI plumbing live outside this crate; the functions
//! here exchange plain byte vectors with their host.

pub mod codec;
pub mod commands;
pub mod encrypted_password;
pub mod errors;
pub mod master_password;
pub mod rng;
pub mod vault;
pub mod wipe;
