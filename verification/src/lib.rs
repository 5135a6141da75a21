//! A local encrypted state store.
//!
//! The store persists an opaque application-state blob under authenticated
//! encryption (AES-256-GCM), manages the lifecycle of the single 32-byte
//! symmetric key across two backends (an OS credential vault and an on-disk
//! fallback key file), and produces separately signed, tamper-evident
//! backups (HMAC-SHA256 over nonce and ciphertext).
//!
//! Disk and vault input/output stay outside this crate: the store operates
//! on an explicit [`state::StoreState`] value that holds the bytes of the
//! data file, the key file and the vault entry, and the surrounding
//! application keeps that value in sync with the real backends.

pub mod errors;
pub mod bytes;
pub mod crypto;
pub mod envelope;
pub mod codec;
pub mod signer;
pub mod wire;
pub mod state;
pub mod keys;
pub mod store;
pub mod stats;
