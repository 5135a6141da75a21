//! Error kinds of the store.

use vstd::prelude::*;

verus! {

/// Everything the store can fail with, kept deliberately coarse: callers
/// only branch on the kind, never on message text.
///
/// `Authentication` covers both a failed AEAD tag and a failed backup
/// signature; tampering and a wrong key are intentionally not distinguished.
#[derive(Clone, Copy, Debug, PartialEq, Eq, Structural)]
pub enum StoreError {
    /// The application data directory could not be located.
    PathResolution,
    /// A read, write or directory creation failed.
    Io,
    /// Malformed envelope text or malformed base64.
    Codec,
    /// The envelope carries an unsupported version.
    Version,
    /// A load found ciphertext but no resolvable key.
    KeyMissing,
    /// The fallback key file decodes to something other than 32 bytes.
    KeyCorrupt,
    /// AEAD tag or backup signature verification failed.
    Authentication,
}

impl StoreError {
    /// A short description, for the surrounding application's logs.
    pub fn message(&self) -> &'static str {
        match self {
            StoreError::PathResolution => "failed to resolve app data dir",
            StoreError::Io => "read or write failed",
            StoreError::Codec => "malformed envelope or base64",
            StoreError::Version => "unsupported data version",
            StoreError::KeyMissing => "no resolvable key for existing data",
            StoreError::KeyCorrupt => "fallback key has invalid length",
            StoreError::Authentication => "decrypt failed (tampered or wrong key)",
        }
    }
}

} // verus!
