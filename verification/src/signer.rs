//! The backup signer: an HMAC-SHA256 signature over nonce and ciphertext,
//! giving exported backups tamper evidence that is checked before any
//! decryption is attempted.

use vstd::prelude::*;
use crate::bytes::{bytes_eq, concat_bytes};
use crate::crypto::{
    aead_encrypt, b64_decode, b64_encode, b64_of, compute_hmac, hmac256_of, is_b64_byte,
    random_bytes, GCM_MAX_PLAINTEXT_LEN,
};
use crate::codec::{b64_decodes_to_len, valid_b64};
use crate::envelope::{encodes_payload, is_encryption_of, Envelope, EnvelopeView,
    SUPPORTED_VERSION};
use crate::errors::StoreError;

verus! {

/// The envelope's `hmac_b64` is exactly the base64 of the HMAC-SHA256 tag
/// over the concatenation of the envelope's decoded nonce and ciphertext
/// under `key`.
pub open spec fn has_valid_signature(e: EnvelopeView, key: Seq<u8>) -> bool {
    exists|n: Seq<u8>, c: Seq<u8>|
        n.len() == 12 && e.nonce_b64 == b64_of(n) && e.ct_b64 == b64_of(c)
            && e.hmac_b64 == Some(b64_of(hmac256_of(key, n + c)))
}

/// The backup signature for a nonce and a ciphertext: HMAC-SHA256 over
/// their concatenation.
pub fn sign(nonce: &[u8], ct: &[u8], key: &[u8]) -> (r: Vec<u8>)
    ensures
        r@ == hmac256_of(key@, nonce@ + ct@),
        r@.len() == 32,
{
    let signed_data = concat_bytes(nonce, ct);
    compute_hmac(key, signed_data.as_slice())
}

/// Check a backup envelope's signature under `key`, without decrypting.
///
/// A missing signature is a verification failure, never "unsigned is
/// fine"; so is a stored signature of the wrong length or one that does
/// not equal the recomputed HMAC over the envelope's nonce and ciphertext.
/// Malformed base64 anywhere, or a nonce of the wrong length, is `Codec`.
/// Verification succeeds exactly when the envelope carries a valid
/// signature.
pub fn verify(env: &Envelope, key: &[u8]) -> (r: Result<(), StoreError>)
    ensures
        r is Ok <==> has_valid_signature(env@, key@),
        env@.hmac_b64 is None ==> r is Err && r->Err_0 == StoreError::Authentication,
        (env@.hmac_b64 matches Some(h) && !(valid_b64(env@.nonce_b64) && valid_b64(env@.ct_b64)
            && valid_b64(h) && b64_decodes_to_len(env@.nonce_b64, 12))) ==> r is Err
            && r->Err_0 == StoreError::Codec,
        (env@.hmac_b64 matches Some(h) && valid_b64(env@.nonce_b64) && valid_b64(env@.ct_b64)
            && valid_b64(h) && b64_decodes_to_len(env@.nonce_b64, 12)
            && !has_valid_signature(env@, key@)) ==> r is Err && r->Err_0
            == StoreError::Authentication,
        r is Err ==> r->Err_0 == StoreError::Codec || r->Err_0 == StoreError::Authentication,
{
    let stored_b64 = match &env.hmac_b64 {
        Some(h) => h,
        None => {
            return Err(StoreError::Authentication);
        },
    };
    let nonce = match b64_decode(env.nonce_b64.as_slice()) {
        Some(n) => n,
        None => {
            return Err(StoreError::Codec);
        },
    };
    let ct = match b64_decode(env.ct_b64.as_slice()) {
        Some(c) => c,
        None => {
            return Err(StoreError::Codec);
        },
    };
    let stored = match b64_decode(stored_b64.as_slice()) {
        Some(m) => m,
        None => {
            return Err(StoreError::Codec);
        },
    };
    if nonce.len() != 12 {
        return Err(StoreError::Codec);
    }
    let expected = sign(nonce.as_slice(), ct.as_slice(), key);
    if bytes_eq(stored.as_slice(), expected.as_slice()) {
        proof {
            assert(has_valid_signature(env@, key@)) by {
                assert(env@.hmac_b64 == Some(b64_of(hmac256_of(key@, nonce@ + ct@))));
            }
        }
        Ok(())
    } else {
        Err(StoreError::Authentication)
    }
}


/// Encrypt `pt` under `key` into a fresh backup envelope: like
/// `codec::encode`, but with the mandatory HMAC-SHA256 signature over the
/// nonce and ciphertext.
pub fn encode_signed(pt: &[u8], key: &[u8]) -> (r: Envelope)
    requires
        key@.len() == 32,
        pt@.len() <= GCM_MAX_PLAINTEXT_LEN,
    ensures
        r@.v == SUPPORTED_VERSION,
        r@.hmac_b64 is Some,
        is_encryption_of(r@, key@, pt@),
        has_valid_signature(r@, key@),
        forall|i: int| 0 <= i < r@.nonce_b64.len() ==> is_b64_byte(#[trigger] r@.nonce_b64[i]),
        forall|i: int| 0 <= i < r@.ct_b64.len() ==> is_b64_byte(#[trigger] r@.ct_b64[i]),
        forall|i: int|
            0 <= i < r@.hmac_b64->0.len() ==> is_b64_byte(#[trigger] r@.hmac_b64->0[i]),
{
    let nonce = random_bytes(12);
    let ct = aead_encrypt(key, nonce.as_slice(), pt);
    let tag = sign(nonce.as_slice(), ct.as_slice(), key);
    let env = Envelope {
        v: SUPPORTED_VERSION,
        nonce_b64: b64_encode(nonce.as_slice()),
        ct_b64: b64_encode(ct.as_slice()),
        hmac_b64: Some(b64_encode(tag.as_slice())),
    };
    proof {
        assert(is_encryption_of(env@, key@, pt@)) by {
            assert(encodes_payload(env@, key@, nonce@, pt@));
        }
        assert(has_valid_signature(env@, key@)) by {
            assert(env@.nonce_b64 == b64_of(nonce@) && env@.ct_b64 == b64_of(ct@)
                && env@.hmac_b64 == Some(b64_of(hmac256_of(key@, nonce@ + ct@))));
        }
    }
    env
}

} // verus!
