//! The storage facade: the four operations the application sees — load,
//! save, export, import — and the hard reset, all over an explicit
//! [`StoreState`].

use vstd::prelude::*;
use crate::codec::{b64_decodes_to_len, decode, encode, valid_b64};
use crate::crypto::{b64_of, gcm_ct_of, is_b64_byte, GCM_MAX_PLAINTEXT_LEN};
use crate::envelope::{is_encryption_of, EnvelopeView, SUPPORTED_VERSION};
use crate::errors::StoreError;
use crate::keys::{
    backends_hold, delete_key, get_existing_key, get_or_create_key, key_file_corrupt, no_key,
    resolves_to, vault_miss,
};
use crate::signer::{encode_signed, has_valid_signature, verify};
use crate::state::{StoreState, StoreStateView};
use crate::wire::{
    is_content, json_of, lemma_parse_backup_json, lemma_parse_local_json, parse_envelope,
    parse_envelope_spec, serialize_envelope,
};

verus! {

/// The data file holds an envelope that parses back, carries no signature,
/// and faithfully encrypts `pt` under `k`.
pub open spec fn stored_blob(s: StoreStateView, k: Seq<u8>, pt: Seq<u8>) -> bool {
    exists|e: EnvelopeView|
        is_encryption_of(e, k, pt) && e.hmac_b64 is None && s.data_file == Some(json_of(e, false))
            && parse_envelope_spec(json_of(e, false)) == Some(e)
}

/// `file` is a backup: it parses back to an envelope that faithfully
/// encrypts `pt` under `k` and carries a valid signature under `k`.
pub open spec fn valid_backup(file: Seq<u8>, k: Seq<u8>, pt: Seq<u8>) -> bool {
    exists|e: EnvelopeView|
        is_encryption_of(e, k, pt) && has_valid_signature(e, k) && file == json_of(e, true)
            && parse_envelope_spec(file) == Some(e)
}

/// The blob `pt` is what the data file of `old_s` holds, decrypted under
/// a key that `old_s` resolved and both backends of `new_s` now hold.
pub open spec fn loaded_from(old_s: StoreStateView, new_s: StoreStateView, pt: Seq<u8>) -> bool {
    old_s.data_file is Some && (exists|k: Seq<u8>, e: EnvelopeView|
        resolves_to(old_s, k) && backends_hold(new_s, k) && parse_envelope_spec(
            old_s.data_file->0,
        ) == Some(e) && #[trigger] is_encryption_of(e, k, pt))
}

/// Load and decrypt the state blob, or report that none exists yet.
///
/// A missing data file is `Ok(None)` — the first run. An existing file
/// with no resolvable key is `KeyMissing`: fabricating a key here would
/// make the stored ciphertext permanently undecryptable. Parse, version,
/// key and decryption errors propagate; a data file that the store saved
/// under a key the backends still resolve always loads back to exactly
/// the saved blob.
pub fn load_encrypted(store: &mut StoreState) -> (r: Result<Option<Vec<u8>>, StoreError>)
    ensures
        final(store)@.data_file == old(store)@.data_file,
        old(store)@.data_file is None ==> (r matches Ok(None)) && final(store)@ == old(store)@,
        (r matches Ok(None)) ==> old(store)@.data_file is None && final(store)@ == old(store)@,
        (old(store)@.data_file matches Some(b) && parse_envelope_spec(b) is None) ==> r is Err
            && r->Err_0 == StoreError::Codec && final(store)@ == old(store)@,
        (old(store)@.data_file matches Some(b) && parse_envelope_spec(b) matches Some(e) && e.v
            != SUPPORTED_VERSION) ==> r is Err && r->Err_0 == StoreError::Version
            && final(store)@ == old(store)@,
        (old(store)@.data_file matches Some(b) && parse_envelope_spec(b) matches Some(e) && e.v
            == SUPPORTED_VERSION && no_key(old(store)@)) ==> r is Err && r->Err_0
            == StoreError::KeyMissing && final(store)@ == old(store)@,
        (old(store)@.data_file matches Some(b) && parse_envelope_spec(b) matches Some(e) && e.v
            == SUPPORTED_VERSION && vault_miss(old(store)@) && key_file_corrupt(old(store)@))
            ==> r is Err && r->Err_0 == StoreError::KeyCorrupt && final(store)@ == old(store)@,
        forall|k: Seq<u8>, pt: Seq<u8>, e: EnvelopeView|
            (old(store)@.data_file matches Some(b) && parse_envelope_spec(b) == Some(e)
                && resolves_to(old(store)@, k) && #[trigger] is_encryption_of(e, k, pt)
                && pt.len() <= GCM_MAX_PLAINTEXT_LEN) ==> r is Ok && r->Ok_0 is Some
                && r->Ok_0->0@ == pt,
        r matches Ok(Some(pt)) ==> loaded_from(old(store)@, final(store)@, pt@),
        r is Err ==> r->Err_0 == StoreError::Codec || r->Err_0 == StoreError::Version
            || r->Err_0 == StoreError::KeyMissing || r->Err_0 == StoreError::KeyCorrupt
            || r->Err_0 == StoreError::Authentication,
{
    let env = match &store.data_file {
        None => {
            return Ok(None);
        },
        Some(bytes) => match parse_envelope(bytes.as_slice()) {
            Ok(e) => e,
            Err(err) => {
                return Err(err);
            },
        },
    };
    if env.v != SUPPORTED_VERSION {
        return Err(StoreError::Version);
    }
    let key = match get_existing_key(store) {
        Err(err) => {
            return Err(err);
        },
        Ok(None) => {
            return Err(StoreError::KeyMissing);
        },
        Ok(Some(k)) => k,
    };
    match decode(&env, key.as_slice()) {
        Ok(pt) => {
            proof {
                assert(loaded_from(old(store)@, final(store)@, pt@)) by {
                    assert(resolves_to(old(store)@, key@) && backends_hold(final(store)@, key@)
                        && parse_envelope_spec(old(store)@.data_file->0) == Some(env@)
                        && is_encryption_of(env@, key@, pt@));
                }
            }
            Ok(Some(pt))
        },
        Err(err) => Err(err),
    }
}

/// Encrypt the blob under the resolved (or freshly created) key and
/// replace the data file with the compact envelope.
///
/// On success the data file holds an envelope that parses back and
/// decrypts to exactly `plaintext` under a key both backends now hold —
/// which is what makes a later [`load_encrypted`] return the blob.
pub fn save_encrypted(store: &mut StoreState, plaintext: &[u8]) -> (r: Result<(), StoreError>)
    requires
        plaintext@.len() <= GCM_MAX_PLAINTEXT_LEN,
    ensures
        r is Err <==> vault_miss(old(store)@) && key_file_corrupt(old(store)@),
        r is Err ==> r->Err_0 == StoreError::KeyCorrupt && final(store)@ == old(store)@,
        forall|k: Seq<u8>|
            resolves_to(old(store)@, k) ==> r is Ok && backends_hold(final(store)@, k)
                && stored_blob(final(store)@, k, plaintext@),
        r is Ok ==> exists|k: Seq<u8>|
            k.len() == 32 && backends_hold(final(store)@, k)
                && stored_blob(final(store)@, k, plaintext@),
{
    let key = match get_or_create_key(store) {
        Ok(k) => k,
        Err(err) => {
            return Err(err);
        },
    };
    let env = encode(plaintext, key.as_slice());
    let bytes = serialize_envelope(&env, false);
    proof {
        assert forall|i: int| 0 <= i < env@.nonce_b64.len() implies is_content(
            #[trigger] env@.nonce_b64[i],
        ) by {
            assert(is_b64_byte(env@.nonce_b64[i]));
        }
        assert forall|i: int| 0 <= i < env@.ct_b64.len() implies is_content(
            #[trigger] env@.ct_b64[i],
        ) by {
            assert(is_b64_byte(env@.ct_b64[i]));
        }
        lemma_parse_local_json(env@);
    }
    store.data_file = Some(bytes);
    proof {
        assert(stored_blob(final(store)@, key@, plaintext@)) by {
            assert(is_encryption_of(env@, key@, plaintext@) && env@.hmac_b64 is None
                && final(store)@.data_file == Some(json_of(env@, false))
                && parse_envelope_spec(json_of(env@, false)) == Some(env@));
        }
    }
    Ok(())
}

/// Encrypt and additionally sign the blob, yielding the pretty-printed
/// backup file bytes for the caller to write wherever the user chose.
/// The store's own data file is untouched.
pub fn export_backup(store: &mut StoreState, plaintext: &[u8]) -> (r: Result<Vec<u8>, StoreError>)
    requires
        plaintext@.len() <= GCM_MAX_PLAINTEXT_LEN,
    ensures
        final(store)@.data_file == old(store)@.data_file,
        r is Err <==> vault_miss(old(store)@) && key_file_corrupt(old(store)@),
        r is Err ==> r->Err_0 == StoreError::KeyCorrupt && final(store)@ == old(store)@,
        forall|k: Seq<u8>|
            resolves_to(old(store)@, k) ==> r is Ok && backends_hold(final(store)@, k)
                && valid_backup(r->Ok_0@, k, plaintext@),
        r matches Ok(file) ==> exists|k: Seq<u8>|
            k.len() == 32 && backends_hold(final(store)@, k)
                && valid_backup(file@, k, plaintext@),
{
    let key = match get_or_create_key(store) {
        Ok(k) => k,
        Err(err) => {
            return Err(err);
        },
    };
    let env = encode_signed(plaintext, key.as_slice());
    let bytes = serialize_envelope(&env, true);
    proof {
        assert forall|i: int| 0 <= i < env@.nonce_b64.len() implies is_content(
            #[trigger] env@.nonce_b64[i],
        ) by {
            assert(is_b64_byte(env@.nonce_b64[i]));
        }
        assert forall|i: int| 0 <= i < env@.ct_b64.len() implies is_content(
            #[trigger] env@.ct_b64[i],
        ) by {
            assert(is_b64_byte(env@.ct_b64[i]));
        }
        assert forall|i: int| 0 <= i < env@.hmac_b64->0.len() implies is_content(
            #[trigger] env@.hmac_b64->0[i],
        ) by {
            assert(is_b64_byte(env@.hmac_b64->0[i]));
        }
        lemma_parse_backup_json(env@);
        assert(valid_backup(bytes@, key@, plaintext@)) by {
            assert(is_encryption_of(env@, key@, plaintext@) && has_valid_signature(env@, key@)
                && bytes@ == json_of(env@, true) && parse_envelope_spec(bytes@) == Some(env@));
        }
    }
    Ok(bytes)
}

/// Verify a backup file's signature, then decrypt it.
///
/// Verification runs strictly before decryption: a missing signature is
/// corruption, and a signature that does not match the recomputed HMAC is
/// `Authentication`, before any decryption is attempted. A backup that
/// [`export_backup`] produced under a key the backends still resolve
/// always imports back to exactly the exported blob. The data file is
/// untouched: the caller re-persists the imported state through
/// [`save_encrypted`].
pub fn import_backup(store: &mut StoreState, file: &[u8]) -> (r: Result<Vec<u8>, StoreError>)
    ensures
        final(store)@.data_file == old(store)@.data_file,
        parse_envelope_spec(file@) is None ==> r is Err && r->Err_0 == StoreError::Codec
            && final(store)@ == old(store)@,
        (parse_envelope_spec(file@) matches Some(e) && e.v != SUPPORTED_VERSION) ==> r is Err
            && r->Err_0 == StoreError::Version && final(store)@ == old(store)@,
        (parse_envelope_spec(file@) matches Some(e) && e.v == SUPPORTED_VERSION
            && vault_miss(old(store)@) && key_file_corrupt(old(store)@)) ==> r is Err
            && r->Err_0 == StoreError::KeyCorrupt,
        forall|k: Seq<u8>, pt: Seq<u8>, e: EnvelopeView|
            (parse_envelope_spec(file@) == Some(e) && resolves_to(old(store)@, k)
                && #[trigger] is_encryption_of(e, k, pt) && has_valid_signature(e, k)
                && pt.len() <= GCM_MAX_PLAINTEXT_LEN) ==> r is Ok && r->Ok_0@ == pt,
        forall|k: Seq<u8>, e: EnvelopeView|
            (parse_envelope_spec(file@) == Some(e) && e.v == SUPPORTED_VERSION
                && resolves_to(old(store)@, k) && !(#[trigger] has_valid_signature(e, k))
                && valid_b64(e.nonce_b64) && valid_b64(e.ct_b64)
                && b64_decodes_to_len(e.nonce_b64, 12) && (e.hmac_b64 matches Some(h)
                ==> valid_b64(h))) ==> r is Err && r->Err_0 == StoreError::Authentication,
        forall|k: Seq<u8>, e: EnvelopeView, nonce: Seq<u8>|
            #![trigger has_valid_signature(e, k), b64_of(nonce)]
            (parse_envelope_spec(file@) == Some(e) && e.v == SUPPORTED_VERSION
                && resolves_to(old(store)@, k) && has_valid_signature(e, k) && nonce.len() == 12
                && e.nonce_b64 == b64_of(nonce) && (forall|pt: Seq<u8>|
                e.ct_b64 != b64_of(gcm_ct_of(k, nonce, pt)))) ==> r is Err && r->Err_0
                == StoreError::Authentication,
        r matches Ok(pt) ==> exists|k: Seq<u8>, e: EnvelopeView|
            parse_envelope_spec(file@) == Some(e) && e.v == SUPPORTED_VERSION
                && backends_hold(final(store)@, k) && has_valid_signature(e, k)
                && is_encryption_of(e, k, pt@),
        r is Err ==> r->Err_0 == StoreError::Codec || r->Err_0 == StoreError::Version
            || r->Err_0 == StoreError::KeyCorrupt || r->Err_0 == StoreError::Authentication,
{
    let env = match parse_envelope(file) {
        Ok(e) => e,
        Err(err) => {
            return Err(err);
        },
    };
    if env.v != SUPPORTED_VERSION {
        return Err(StoreError::Version);
    }
    let key = match get_or_create_key(store) {
        Ok(k) => k,
        Err(err) => {
            return Err(err);
        },
    };
    match verify(&env, key.as_slice()) {
        Ok(()) => {},
        Err(err) => {
            return Err(err);
        },
    }
    match decode(&env, key.as_slice()) {
        Ok(pt) => Ok(pt),
        Err(err) => Err(err),
    }
}

/// Hard wipe: delete the data file and remove the key from both
/// backends. Old backups become permanently undecryptable — by design. A
/// later save starts over with a freshly generated key.
pub fn reset(store: &mut StoreState)
    ensures
        final(store)@.data_file is None,
        final(store)@.key_file is None,
        final(store)@.vault is None,
        no_key(final(store)@),
{
    store.data_file = None;
    delete_key(store);
}


// --- Laws tying the operations together. ---

/// Key persistence: the state a successful save leaves behind still
/// resolves the key it used, and its data file parses to an envelope that
/// encrypts exactly the saved blob — which is precisely the antecedent of
/// [`load_encrypted`]'s success clause, so a load after any number of
/// restarts returns the identical blob.
pub proof fn lemma_save_then_load(s: StoreStateView, k: Seq<u8>, pt: Seq<u8>)
    requires
        backends_hold(s, k),
        stored_blob(s, k, pt),
    ensures
        s.data_file is Some,
        resolves_to(s, k),
        exists|e: EnvelopeView|
            parse_envelope_spec(s.data_file->0) == Some(e) && #[trigger] is_encryption_of(
                e,
                k,
                pt,
            ),
{
    let e = choose|e: EnvelopeView|
        is_encryption_of(e, k, pt) && e.hmac_b64 is None && s.data_file == Some(
            json_of(e, false),
        ) && #[trigger] parse_envelope_spec(json_of(e, false)) == Some(e);
    assert(parse_envelope_spec(s.data_file->0) == Some(e) && is_encryption_of(e, k, pt));
}

/// Backup round trip: a backup file a successful export produced under a
/// key the backends resolve parses to a signed envelope encrypting exactly
/// the exported blob — which is precisely the antecedent of
/// [`import_backup`]'s success clause, so importing it returns the blob.
pub proof fn lemma_export_then_import(s: StoreStateView, file: Seq<u8>, k: Seq<u8>, pt: Seq<u8>)
    requires
        resolves_to(s, k),
        valid_backup(file, k, pt),
    ensures
        exists|e: EnvelopeView|
            parse_envelope_spec(file) == Some(e) && has_valid_signature(e, k)
                && #[trigger] is_encryption_of(e, k, pt),
{
    let e = choose|e: EnvelopeView|
        is_encryption_of(e, k, pt) && has_valid_signature(e, k) && file == json_of(e, true)
            && #[trigger] parse_envelope_spec(file) == Some(e);
    assert(parse_envelope_spec(file) == Some(e) && has_valid_signature(e, k)
        && is_encryption_of(e, k, pt));
}

/// Reset completeness: after a reset nothing exists, so a load reports no
/// data, the key backends are empty, and nothing stops a later save from
/// creating a fresh key.
pub proof fn lemma_reset_starts_over(s: StoreStateView)
    requires
        s.data_file is None,
        no_key(s),
    ensures
        !(vault_miss(s) && key_file_corrupt(s)),
{
}

} // verus!
