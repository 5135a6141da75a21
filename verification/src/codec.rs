//! The envelope codec: AES-256-GCM encryption into an [`Envelope`] and
//! authenticated decryption out of one.

use vstd::prelude::*;
use crate::crypto::{
    aead_decrypt, aead_encrypt, b64_decode, b64_encode, b64_of, gcm_ct_of, is_b64_byte,
    random_bytes, GCM_MAX_PLAINTEXT_LEN,
};
use crate::envelope::{encodes_payload, is_encryption_of, Envelope, SUPPORTED_VERSION};
use crate::errors::StoreError;

verus! {

/// `s` is the base64 encoding of some byte sequence.
pub open spec fn valid_b64(s: Seq<u8>) -> bool {
    exists|d: Seq<u8>| s == b64_of(d)
}

/// `s` is the base64 encoding of some byte sequence of length `n`.
pub open spec fn b64_decodes_to_len(s: Seq<u8>, n: nat) -> bool {
    exists|d: Seq<u8>| s == b64_of(d) && d.len() == n
}

/// Encrypt `pt` under `key` into a fresh envelope: a newly drawn random
/// 12-byte nonce, the AES-256-GCM ciphertext, supported version, no
/// signature. Which nonce was drawn is not promised — only that the
/// envelope is a faithful encryption of `pt` under it.
pub fn encode(pt: &[u8], key: &[u8]) -> (r: Envelope)
    requires
        key@.len() == 32,
        pt@.len() <= GCM_MAX_PLAINTEXT_LEN,
    ensures
        r@.v == SUPPORTED_VERSION,
        r@.hmac_b64 is None,
        is_encryption_of(r@, key@, pt@),
        forall|i: int| 0 <= i < r@.nonce_b64.len() ==> is_b64_byte(#[trigger] r@.nonce_b64[i]),
        forall|i: int| 0 <= i < r@.ct_b64.len() ==> is_b64_byte(#[trigger] r@.ct_b64[i]),
{
    let nonce = random_bytes(12);
    let ct = aead_encrypt(key, nonce.as_slice(), pt);
    let env = Envelope {
        v: SUPPORTED_VERSION,
        nonce_b64: b64_encode(nonce.as_slice()),
        ct_b64: b64_encode(ct.as_slice()),
        hmac_b64: None,
    };
    proof {
        assert(is_encryption_of(env@, key@, pt@)) by {
            assert(encodes_payload(env@, key@, nonce@, pt@));
        }
    }
    env
}

/// Decrypt an envelope under `key`.
///
/// The version gate runs before anything else; base64 and nonce-length
/// problems are `Codec`; a ciphertext that is not exactly an AES-256-GCM
/// encryption under the key and the envelope's nonce is `Authentication`,
/// and no partial plaintext is ever returned. An envelope that faithfully
/// encrypts some `pt` always decodes to exactly `pt` — together with
/// `encode`'s contract, decoding an encoding gives the plaintext back.
pub fn decode(env: &Envelope, key: &[u8]) -> (r: Result<Vec<u8>, StoreError>)
    requires
        key@.len() == 32,
    ensures
        env@.v != SUPPORTED_VERSION ==> r is Err && r->Err_0 == StoreError::Version,
        env@.v == SUPPORTED_VERSION && !(valid_b64(env@.nonce_b64) && valid_b64(env@.ct_b64)
            && b64_decodes_to_len(env@.nonce_b64, 12)) ==> r is Err && r->Err_0
            == StoreError::Codec,
        r matches Ok(pt) ==> env@.v == SUPPORTED_VERSION && is_encryption_of(env@, key@, pt@),
        forall|nonce: Seq<u8>, pt: Seq<u8>|
            encodes_payload(env@, key@, nonce, pt) && pt.len() <= GCM_MAX_PLAINTEXT_LEN
                ==> r is Ok && r->Ok_0@ == pt,
        forall|nonce: Seq<u8>|
            env@.v == SUPPORTED_VERSION && nonce.len() == 12 && env@.nonce_b64 == b64_of(nonce)
                && valid_b64(env@.ct_b64)
                && (forall|pt: Seq<u8>| env@.ct_b64 != b64_of(gcm_ct_of(key@, nonce, pt)))
                ==> r is Err && r->Err_0 == StoreError::Authentication,
        r is Err ==> (r->Err_0 == StoreError::Version || r->Err_0 == StoreError::Codec
            || r->Err_0 == StoreError::Authentication),
{
    if env.v != SUPPORTED_VERSION {
        return Err(StoreError::Version);
    }
    let nonce = match b64_decode(env.nonce_b64.as_slice()) {
        Some(n) => n,
        None => {
            return Err(StoreError::Codec);
        },
    };
    let ct = match b64_decode(env.ct_b64.as_slice()) {
        Some(c) => c,
        None => {
            return Err(StoreError::Codec);
        },
    };
    if nonce.len() != 12 {
        return Err(StoreError::Codec);
    }
    match aead_decrypt(key, nonce.as_slice(), ct.as_slice()) {
        Some(pt) => {
            proof {
                assert(is_encryption_of(env@, key@, pt@)) by {
                    assert(encodes_payload(env@, key@, nonce@, pt@));
                }
            }
            Ok(pt)
        },
        None => Err(StoreError::Authentication),
    }
}

} // verus!
