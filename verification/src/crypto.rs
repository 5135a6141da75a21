//! Trusted boundary to the cryptographic primitives.
//!
//! Every call into an outside crate that the store's logic needs stands
//! here, behind a wrapper whose contract names what the call returns.
//! Base64 text, ciphertexts and MACs are deterministic functions of their
//! inputs, so each gets an uninterpreted name that the rest of the library
//! reasons over; random bytes get no name at all.

use vstd::prelude::*;
use aes_gcm::aead::Aead;
use aes_gcm::{Aes256Gcm, KeyInit};
use base64::Engine;
use hmac::{Hmac, KeyInit as MacKeyInit, Mac};
use rand::Rng;
use sha2::Sha256;

verus! {

/// The standard base64 encoding (RFC 4648, padded) of a byte sequence.
pub uninterp spec fn b64_of(b: Seq<u8>) -> Seq<u8>;

/// The AES-256-GCM ciphertext (tag appended) for a key, nonce and plaintext.
pub uninterp spec fn gcm_ct_of(key: Seq<u8>, nonce: Seq<u8>, pt: Seq<u8>) -> Seq<u8>;

/// The HMAC-SHA256 tag for a key and a message.
pub uninterp spec fn hmac256_of(key: Seq<u8>, data: Seq<u8>) -> Seq<u8>;

/// AES-GCM refuses plaintexts longer than this (its `P_MAX`).
pub const GCM_MAX_PLAINTEXT_LEN: u64 = 68719476704;

/// True of the bytes the standard base64 alphabet (with padding) uses.
pub open spec fn is_b64_byte(c: u8) -> bool {
    ||| 65 <= c <= 90  // A-Z
    ||| 97 <= c <= 122  // a-z
    ||| 48 <= c <= 57  // 0-9
    ||| c == 43  // +
    ||| c == 47  // /
    ||| c == 61  // =
}

/// Relies on `base64::engine::general_purpose::STANDARD.encode`: canonical
/// padded encoding over the standard alphabet, a function of the input
/// bytes alone; the output length is `4 * ceil(n / 3)`.
#[verifier::external_body]
pub(crate) fn b64_encode(b: &[u8]) -> (r: Vec<u8>)
    ensures
        r@ == b64_of(b@),
        r@.len() == 4 * ((b@.len() + 2) / 3),
        forall|i: int| 0 <= i < r@.len() ==> is_b64_byte(#[trigger] r@[i]),
{
    base64::engine::general_purpose::STANDARD.encode(b).into_bytes()
}

/// Relies on `base64::engine::general_purpose::STANDARD.decode`: it requires
/// canonical padding and rejects nonzero trailing bits, so it accepts exactly
/// the outputs of the encoder, and decoding the encoding of `d` yields `d`.
#[verifier::external_body]
pub(crate) fn b64_decode(s: &[u8]) -> (r: Option<Vec<u8>>)
    ensures
        forall|d: Seq<u8>| s@ == b64_of(d) ==> r is Some && r->0@ == d,
        r is Some ==> s@ == b64_of(r->0@),
{
    base64::engine::general_purpose::STANDARD.decode(s).ok()
}

/// Relies on `Aes256Gcm::encrypt` (the `aead::Aead` trait): deterministic in
/// key, nonce and plaintext, appends the 16-byte tag, and succeeds whenever
/// the plaintext is within `P_MAX`.
#[verifier::external_body]
pub(crate) fn aead_encrypt(key: &[u8], nonce: &[u8], pt: &[u8]) -> (r: Vec<u8>)
    requires
        key@.len() == 32,
        nonce@.len() == 12,
        pt@.len() <= GCM_MAX_PLAINTEXT_LEN,
    ensures
        r@ == gcm_ct_of(key@, nonce@, pt@),
        r@.len() == pt@.len() + 16,
{
    let cipher = Aes256Gcm::new_from_slice(key).expect("key length checked");
    let nonce = aes_gcm::Nonce::try_from(nonce).expect("nonce length checked");
    cipher.encrypt(&nonce, pt).expect("plaintext length checked")
}

/// Relies on `Aes256Gcm::decrypt`: it fails closed, returning plaintext only
/// when the tag over the whole ciphertext verifies, and it inverts
/// `Aes256Gcm::encrypt` for the same key and nonce.
#[verifier::external_body]
pub(crate) fn aead_decrypt(key: &[u8], nonce: &[u8], ct: &[u8]) -> (r: Option<Vec<u8>>)
    requires
        key@.len() == 32,
        nonce@.len() == 12,
    ensures
        r is Some ==> ct@ == gcm_ct_of(key@, nonce@, r->0@),
        forall|pt: Seq<u8>|
            ct@ == gcm_ct_of(key@, nonce@, pt) && pt.len() <= GCM_MAX_PLAINTEXT_LEN
                ==> r is Some && r->0@ == pt,
{
    let cipher = Aes256Gcm::new_from_slice(key).expect("key length checked");
    let nonce = aes_gcm::Nonce::try_from(nonce).expect("nonce length checked");
    cipher.decrypt(&nonce, ct).ok()
}

/// Relies on `Hmac::<Sha256>` (the `digest::Mac` trait): a 32-byte MAC that
/// is a function of the key and the message alone, and accepts keys of any
/// length.
#[verifier::external_body]
pub(crate) fn compute_hmac(key: &[u8], data: &[u8]) -> (r: Vec<u8>)
    ensures
        r@ == hmac256_of(key@, data@),
        r@.len() == 32,
{
    let mut mac = <Hmac<Sha256> as MacKeyInit>::new_from_slice(key).expect("HMAC accepts any key size");
    mac.update(data);
    mac.finalize().into_bytes().to_vec()
}

/// Relies on `rand::rng().fill_bytes` for fresh cryptographically secure
/// random bytes; nothing is assumed of the values themselves.
#[verifier::external_body]
pub(crate) fn random_bytes(n: usize) -> (r: Vec<u8>)
    ensures
        r@.len() == n,
{
    let mut buf = vec![0u8; n];
    rand::rng().fill_bytes(&mut buf);
    buf
}

} // verus!
