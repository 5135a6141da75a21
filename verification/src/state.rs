//! The store's view of its persistent backends, as an explicit value.
//!
//! The surrounding application reads the real data file, key file and
//! vault entry into a [`StoreState`], hands it to the store's operations,
//! and writes whatever they changed back out. Disk and vault input/output
//! thus stay outside the verified library, while every decision about the
//! backends' contents is made — and proved — here.

use vstd::prelude::*;

verus! {

/// What the three backends hold. `None` means the file does not exist, or
/// (for the vault) that the entry is absent or the vault inaccessible —
/// vault failures are soft and indistinguishable from absence.
pub struct StoreState {
    /// Bytes of the local data file (`app_data.enc.json`).
    pub data_file: Option<Vec<u8>>,
    /// Bytes of the fallback key file (`key_fallback.b64`).
    pub key_file: Option<Vec<u8>>,
    /// The credential-vault secret: base64 text of the key.
    pub vault: Option<Vec<u8>>,
}

/// The mathematical value of a [`StoreState`].
pub struct StoreStateView {
    pub data_file: Option<Seq<u8>>,
    pub key_file: Option<Seq<u8>>,
    pub vault: Option<Seq<u8>>,
}

impl View for StoreState {
    type V = StoreStateView;

    open spec fn view(&self) -> StoreStateView {
        StoreStateView {
            data_file: match self.data_file {
                Some(b) => Some(b@),
                None => None,
            },
            key_file: match self.key_file {
                Some(b) => Some(b@),
                None => None,
            },
            vault: match self.vault {
                Some(b) => Some(b@),
                None => None,
            },
        }
    }
}

impl StoreState {
    /// A state in which nothing exists yet: first run.
    pub fn new() -> (r: StoreState)
        ensures
            r@.data_file is None,
            r@.key_file is None,
            r@.vault is None,
    {
        StoreState { data_file: None, key_file: None, vault: None }
    }
}

} // verus!
