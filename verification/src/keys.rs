//! The key manager: one 32-byte symmetric key, resolved from two backends
//! — the credential vault first, then the fallback key file — with
//! best-effort mirroring so that future lookups are backend-agnostic.
//!
//! Vault problems (absence, malformed or wrong-length secret) are soft:
//! they read as "no key there". Key-file corruption is hard: a file that
//! exists but does not decode to exactly 32 bytes surfaces as
//! `KeyCorrupt`, because working with a malformed key would silently
//! desynchronize future encrypt/decrypt pairs.

use vstd::prelude::*;
use vstd::string::StringSliceAdditionalSpecFns;
use crate::bytes::{trim_bytes, trim_spec, ws_byte};
use crate::crypto::{b64_decode, b64_encode, b64_of, random_bytes};
use crate::errors::StoreError;
use crate::state::{StoreState, StoreStateView};

verus! {

/// The vault holds exactly the base64 of the 32-byte key `k`.
pub open spec fn vault_holds(s: StoreStateView, k: Seq<u8>) -> bool {
    k.len() == 32 && s.vault == Some(b64_of(k))
}

/// No 32-byte key can be read from the vault: absent, malformed base64,
/// or a secret of the wrong length. All of these are soft misses.
pub open spec fn vault_miss(s: StoreStateView) -> bool {
    forall|k: Seq<u8>| !vault_holds(s, k)
}

/// The key file exists and, after trimming surrounding whitespace, holds
/// exactly the base64 of the 32-byte key `k`.
pub open spec fn key_file_holds(s: StoreStateView, k: Seq<u8>) -> bool {
    k.len() == 32 && (s.key_file matches Some(f) && trim_spec(f) == b64_of(k))
}

/// The key file exists but no 32-byte key can be read from it: hard
/// corruption.
pub open spec fn key_file_corrupt(s: StoreStateView) -> bool {
    s.key_file is Some && (forall|k: Seq<u8>| !key_file_holds(s, k))
}

/// The resolution policy: the vault wins; the key file only speaks when
/// the vault yields nothing.
pub open spec fn resolves_to(s: StoreStateView, k: Seq<u8>) -> bool {
    vault_holds(s, k) || (vault_miss(s) && key_file_holds(s, k))
}

/// Neither backend has anything: no vault key and no key file at all.
pub open spec fn no_key(s: StoreStateView) -> bool {
    vault_miss(s) && s.key_file is None
}

/// Both backends hold the key `k`.
pub open spec fn backends_hold(s: StoreStateView, k: Seq<u8>) -> bool {
    vault_holds(s, k) && key_file_holds(s, k)
}

/// Look the key up without ever creating one, vault first, and mirror a
/// key found in only one backend into the other.
///
/// Used by the load path, where fabricating a fresh key would make
/// existing ciphertext silently undecryptable.
pub fn get_existing_key(store: &mut StoreState) -> (r: Result<Option<Vec<u8>>, StoreError>)
    ensures
        final(store)@.data_file == old(store)@.data_file,
        r matches Ok(Some(k)) ==> k@.len() == 32 && resolves_to(old(store)@, k@)
            && backends_hold(final(store)@, k@),
        forall|k: Seq<u8>|
            resolves_to(old(store)@, k) ==> r is Ok && r->Ok_0 is Some && r->Ok_0->0@ == k,
        r matches Ok(None) ==> no_key(old(store)@) && final(store)@ == old(store)@,
        no_key(old(store)@) ==> r is Ok && r->Ok_0 is None,
        r is Err <==> vault_miss(old(store)@) && key_file_corrupt(old(store)@),
        r is Err ==> r->Err_0 == StoreError::KeyCorrupt && final(store)@ == old(store)@,
{
    let vault_key: Option<Vec<u8>> = match &store.vault {
        Some(v) => match b64_decode(v.as_slice()) {
            Some(k) => if k.len() == 32 {
                Some(k)
            } else {
                None
            },
            None => None,
        },
        None => None,
    };
    match vault_key {
        Some(k) => {
            proof {
                assert(vault_holds(old(store)@, k@));
                assert forall|k2: Seq<u8>| resolves_to(old(store)@, k2) implies k2 == k@ by {
                    if vault_holds(old(store)@, k2) {
                        assert(old(store)@.vault->0 == b64_of(k2));
                    }
                }
            }
            // Mirror the vault's key into the fallback file.
            let encoded = b64_encode(k.as_slice());
            proof {
                assert(forall|i: int|
                    0 <= i < encoded@.len() ==> !ws_byte(#[trigger] encoded@[i]));
                crate::bytes::lemma_trim_of_clean(encoded@);
            }
            store.key_file = Some(encoded);
            Ok(Some(k))
        },
        None => {
            proof {
                assert forall|k2: Seq<u8>| !vault_holds(old(store)@, k2) by {
                    if vault_holds(old(store)@, k2) {
                        assert(old(store)@.vault->0 == b64_of(k2));
                        assert(false);
                    }
                }
            }
            let trimmed = match &store.key_file {
                None => {
                    return Ok(None);
                },
                Some(f) => trim_bytes(f.as_slice()),
            };
            let decoded = b64_decode(trimmed.as_slice());
            proof {
                if decoded is None {
                    assert forall|k2: Seq<u8>| !key_file_holds(old(store)@, k2) by {
                        if key_file_holds(old(store)@, k2) {
                            assert(trimmed@ == b64_of(k2));
                            assert(false);
                        }
                    }
                }
            }
            let k = match decoded {
                Some(k) => k,
                None => {
                    return Err(StoreError::KeyCorrupt);
                },
            };
            proof {
                assert forall|k2: Seq<u8>| key_file_holds(old(store)@, k2) implies k2 == k@ by {
                    assert(trimmed@ == b64_of(k2));
                }
            }
            if k.len() != 32 {
                proof {
                    assert forall|k2: Seq<u8>| !key_file_holds(old(store)@, k2) by {
                        if key_file_holds(old(store)@, k2) {
                            assert(k2 == k@);
                        }
                    }
                }
                return Err(StoreError::KeyCorrupt);
            }
            proof {
                assert(key_file_holds(old(store)@, k@));
            }
            // Mirror the file's key into the vault.
            store.vault = Some(b64_encode(k.as_slice()));
            Ok(Some(k))
        },
    }
}

/// Resolve the key as [`get_existing_key`] does, but generate, persist and
/// return a fresh random 32-byte key when neither backend has one.
pub fn get_or_create_key(store: &mut StoreState) -> (r: Result<Vec<u8>, StoreError>)
    ensures
        final(store)@.data_file == old(store)@.data_file,
        r matches Ok(k) ==> k@.len() == 32 && backends_hold(final(store)@, k@),
        forall|k: Seq<u8>| resolves_to(old(store)@, k) ==> r is Ok && r->Ok_0@ == k,
        no_key(old(store)@) ==> r is Ok,
        r is Err <==> vault_miss(old(store)@) && key_file_corrupt(old(store)@),
        r is Err ==> r->Err_0 == StoreError::KeyCorrupt && final(store)@ == old(store)@,
{
    match get_existing_key(store) {
        Err(e) => Err(e),
        Ok(Some(k)) => Ok(k),
        Ok(None) => {
            let k = random_bytes(32);
            let for_file = b64_encode(k.as_slice());
            proof {
                assert(forall|i: int|
                    0 <= i < for_file@.len() ==> !ws_byte(#[trigger] for_file@[i]));
                crate::bytes::lemma_trim_of_clean(for_file@);
            }
            store.key_file = Some(for_file);
            store.vault = Some(b64_encode(k.as_slice()));
            Ok(k)
        },
    }
}

/// Best-effort removal of the key from both backends.
pub fn delete_key(store: &mut StoreState)
    ensures
        final(store)@.data_file == old(store)@.data_file,
        final(store)@.key_file is None,
        final(store)@.vault is None,
        no_key(final(store)@),
{
    store.vault = None;
    store.key_file = None;
}


/// The vault service name: the application's bundle identifier, or a
/// fixed default when it is unset or blank.
pub fn service_name(bundle_id: &str) -> (r: String)
    ensures
        trim_spec(bundle_id.spec_bytes()).len() == 0 ==> r@ == "com.todo-app.app"@,
        trim_spec(bundle_id.spec_bytes()).len() != 0 ==> r@ == bundle_id@,
{
    let trimmed = trim_bytes(bundle_id.as_bytes());
    if trimmed.len() == 0 {
        "com.todo-app.app".to_owned()
    } else {
        bundle_id.to_owned()
    }
}

} // verus!
