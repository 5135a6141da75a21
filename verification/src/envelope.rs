//! The versioned envelope that carries a nonce, a ciphertext and an
//! optional backup signature, all as base64 text.

use vstd::prelude::*;
use crate::crypto::{b64_of, gcm_ct_of};

verus! {

/// The one envelope version this store reads and writes.
pub const SUPPORTED_VERSION: u32 = 1;

/// The on-disk/in-transit container. The byte fields hold base64 text;
/// `hmac_b64` is present only on backup envelopes.
pub struct Envelope {
    pub v: u32,
    pub nonce_b64: Vec<u8>,
    pub ct_b64: Vec<u8>,
    pub hmac_b64: Option<Vec<u8>>,
}

/// The mathematical value of an [`Envelope`].
pub struct EnvelopeView {
    pub v: nat,
    pub nonce_b64: Seq<u8>,
    pub ct_b64: Seq<u8>,
    pub hmac_b64: Option<Seq<u8>>,
}

impl View for Envelope {
    type V = EnvelopeView;

    open spec fn view(&self) -> EnvelopeView {
        EnvelopeView {
            v: self.v as nat,
            nonce_b64: self.nonce_b64@,
            ct_b64: self.ct_b64@,
            hmac_b64: match self.hmac_b64 {
                Some(h) => Some(h@),
                None => None,
            },
        }
    }
}

/// The envelope `e` is a faithful encryption of `pt` under `key` with the
/// given `nonce`: supported version, 12-byte nonce, and a ciphertext that
/// is exactly the AES-256-GCM output. Says nothing about `hmac_b64`.
pub open spec fn encodes_payload(
    e: EnvelopeView,
    key: Seq<u8>,
    nonce: Seq<u8>,
    pt: Seq<u8>,
) -> bool {
    &&& e.v == SUPPORTED_VERSION
    &&& nonce.len() == 12
    &&& e.nonce_b64 == b64_of(nonce)
    &&& e.ct_b64 == b64_of(gcm_ct_of(key, nonce, pt))
}

/// The envelope `e` is a faithful encryption of `pt` under `key` with some
/// nonce.
pub open spec fn is_encryption_of(e: EnvelopeView, key: Seq<u8>, pt: Seq<u8>) -> bool {
    exists|nonce: Seq<u8>| encodes_payload(e, key, nonce, pt)
}

} // verus!
