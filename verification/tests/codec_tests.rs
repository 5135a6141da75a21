use base64::Engine;
use encstore::codec::{decode, encode};
use encstore::envelope::Envelope;
use encstore::errors::StoreError;
use encstore::signer::{encode_signed, sign, verify};
use encstore::wire::{parse_envelope, serialize_envelope};

fn key_a() -> Vec<u8> {
    vec![7u8; 32]
}

fn key_b() -> Vec<u8> {
    vec![8u8; 32]
}

fn b64(bytes: &[u8]) -> Vec<u8> {
    base64::engine::general_purpose::STANDARD.encode(bytes).into_bytes()
}

fn b64_decode(text: &[u8]) -> Vec<u8> {
    base64::engine::general_purpose::STANDARD.decode(text).unwrap()
}

#[test]
fn round_trip_simple() {
    let key = key_a();
    let env = encode(b"hello world", &key);
    assert_eq!(env.v, 1);
    assert!(env.hmac_b64.is_none());
    assert_eq!(decode(&env, &key).unwrap(), b"hello world");
}

#[test]
fn round_trip_empty_blob() {
    let key = key_a();
    let env = encode(b"", &key);
    assert_eq!(decode(&env, &key).unwrap(), b"");
}

#[test]
fn nonce_is_fresh_and_twelve_bytes() {
    let key = key_a();
    let e1 = encode(b"x", &key);
    let e2 = encode(b"x", &key);
    assert_eq!(b64_decode(&e1.nonce_b64).len(), 12);
    assert_ne!(e1.nonce_b64, e2.nonce_b64, "two encryptions must draw fresh nonces");
    assert_ne!(e1.ct_b64, e2.ct_b64);
}

#[test]
fn ciphertext_is_not_plaintext() {
    let key = key_a();
    let env = encode(b"attack at dawn", &key);
    let ct = b64_decode(&env.ct_b64);
    assert_eq!(ct.len(), 14 + 16, "ciphertext carries a 16-byte tag");
    assert_ne!(&ct[..14], b"attack at dawn".as_slice());
}

#[test]
fn wrong_key_is_authentication_error() {
    let env = encode(b"secret", &key_a());
    assert_eq!(decode(&env, &key_b()), Err(StoreError::Authentication));
}

#[test]
fn bit_flips_in_ciphertext_always_fail() {
    let key = key_a();
    let env = encode(b"payload", &key);
    let ct = b64_decode(&env.ct_b64);
    for byte_idx in 0..ct.len() {
        for bit in 0..8 {
            let mut tampered = ct.clone();
            tampered[byte_idx] ^= 1u8 << bit;
            let bad = Envelope {
                v: env.v,
                nonce_b64: env.nonce_b64.clone(),
                ct_b64: b64(&tampered),
                hmac_b64: None,
            };
            assert_eq!(decode(&bad, &key), Err(StoreError::Authentication));
        }
    }
}

#[test]
fn bit_flips_in_nonce_always_fail() {
    let key = key_a();
    let env = encode(b"payload", &key);
    let nonce = b64_decode(&env.nonce_b64);
    for byte_idx in 0..nonce.len() {
        for bit in 0..8 {
            let mut tampered = nonce.clone();
            tampered[byte_idx] ^= 1u8 << bit;
            let bad = Envelope {
                v: env.v,
                nonce_b64: b64(&tampered),
                ct_b64: env.ct_b64.clone(),
                hmac_b64: None,
            };
            assert_eq!(decode(&bad, &key), Err(StoreError::Authentication));
        }
    }
}

#[test]
fn version_gate_rejects_everything_else() {
    let key = key_a();
    let env = encode(b"data", &key);
    for v in [0u32, 2, 3, 255, u32::MAX] {
        let bad = Envelope {
            v,
            nonce_b64: env.nonce_b64.clone(),
            ct_b64: env.ct_b64.clone(),
            hmac_b64: None,
        };
        assert_eq!(decode(&bad, &key), Err(StoreError::Version));
    }
}

#[test]
fn malformed_base64_is_codec_error() {
    let key = key_a();
    let env = encode(b"data", &key);
    let bad_nonce = Envelope {
        v: 1,
        nonce_b64: b"%%%not-base64%%%".to_vec(),
        ct_b64: env.ct_b64.clone(),
        hmac_b64: None,
    };
    assert_eq!(decode(&bad_nonce, &key), Err(StoreError::Codec));
    let bad_nonce_len = Envelope {
        v: 1,
        nonce_b64: b64(b"short"),
        ct_b64: env.ct_b64.clone(),
        hmac_b64: None,
    };
    assert_eq!(decode(&bad_nonce_len, &key), Err(StoreError::Codec));
}

#[test]
fn signature_round_trip() {
    let key = key_a();
    let env = encode_signed(b"backup me", &key);
    assert!(env.hmac_b64.is_some());
    assert_eq!(verify(&env, &key), Ok(()));
    assert_eq!(decode(&env, &key).unwrap(), b"backup me");
}

#[test]
fn signature_matches_recomputed_hmac() {
    let key = key_a();
    let env = encode_signed(b"blob", &key);
    let nonce = b64_decode(&env.nonce_b64);
    let ct = b64_decode(&env.ct_b64);
    let tag = sign(&nonce, &ct, &key);
    assert_eq!(tag.len(), 32);
    assert_eq!(b64_decode(env.hmac_b64.as_ref().unwrap()), tag);
}

#[test]
fn missing_hmac_fails_verification() {
    let key = key_a();
    let env = encode(b"unsigned", &key);
    assert_eq!(verify(&env, &key), Err(StoreError::Authentication));
}

#[test]
fn wrong_length_hmac_fails_verification() {
    let key = key_a();
    let mut env = encode_signed(b"blob", &key);
    env.hmac_b64 = Some(b64(&[0u8; 31]));
    assert_eq!(verify(&env, &key), Err(StoreError::Authentication));
    env.hmac_b64 = Some(b64(b""));
    assert_eq!(verify(&env, &key), Err(StoreError::Authentication));
}

#[test]
fn mismatched_hmac_fails_verification() {
    let key = key_a();
    let mut env = encode_signed(b"blob", &key);
    let mut tag = b64_decode(env.hmac_b64.as_ref().unwrap());
    tag[0] ^= 1;
    env.hmac_b64 = Some(b64(&tag));
    assert_eq!(verify(&env, &key), Err(StoreError::Authentication));
}

#[test]
fn verification_under_wrong_key_fails() {
    let env = encode_signed(b"blob", &key_a());
    assert_eq!(verify(&env, &key_b()), Err(StoreError::Authentication));
}

#[test]
fn compact_serialization_matches_expected_layout() {
    let env = Envelope {
        v: 1,
        nonce_b64: b"QUFBQUFBQUFBQUFB".to_vec(),
        ct_b64: b"Y2lwaGVy".to_vec(),
        hmac_b64: None,
    };
    let bytes = serialize_envelope(&env, false);
    assert_eq!(
        String::from_utf8(bytes).unwrap(),
        "{\"v\":1,\"nonce_b64\":\"QUFBQUFBQUFBQUFB\",\"ct_b64\":\"Y2lwaGVy\",\"hmac_b64\":null}"
    );
}

#[test]
fn pretty_serialization_matches_expected_layout() {
    let env = Envelope {
        v: 1,
        nonce_b64: b"bm9uY2U=".to_vec(),
        ct_b64: b"Y3Q=".to_vec(),
        hmac_b64: Some(b"bWFj".to_vec()),
    };
    let bytes = serialize_envelope(&env, true);
    assert_eq!(
        String::from_utf8(bytes).unwrap(),
        "{\n  \"v\": 1,\n  \"nonce_b64\": \"bm9uY2U=\",\n  \"ct_b64\": \"Y3Q=\",\n  \"hmac_b64\": \"bWFj\"\n}"
    );
}

#[test]
fn parse_inverts_serialize() {
    let key = key_a();
    let env = encode_signed(b"round trip", &key);
    let bytes = serialize_envelope(&env, true);
    let back = parse_envelope(&bytes).unwrap();
    assert_eq!(back.v, env.v);
    assert_eq!(back.nonce_b64, env.nonce_b64);
    assert_eq!(back.ct_b64, env.ct_b64);
    assert_eq!(back.hmac_b64, env.hmac_b64);

    let local = encode(b"round trip", &key);
    let bytes = serialize_envelope(&local, false);
    let back = parse_envelope(&bytes).unwrap();
    assert_eq!(back.v, 1);
    assert_eq!(back.nonce_b64, local.nonce_b64);
    assert_eq!(back.ct_b64, local.ct_b64);
    assert_eq!(back.hmac_b64, None);
}

#[test]
fn parse_accepts_missing_hmac_member() {
    let doc = b"{\"v\":1,\"nonce_b64\":\"bm9uY2U=\",\"ct_b64\":\"Y3Q=\"}";
    let env = parse_envelope(doc).unwrap();
    assert_eq!(env.v, 1);
    assert_eq!(env.nonce_b64, b"bm9uY2U=".to_vec());
    assert_eq!(env.hmac_b64, None);
}

#[test]
fn parse_accepts_whitespace_and_large_versions() {
    let doc = b" { \"v\" : 42 , \"nonce_b64\" : \"\" , \"ct_b64\" : \"\" } ";
    let env = parse_envelope(doc).unwrap();
    assert_eq!(env.v, 42);
    assert_eq!(env.nonce_b64, b"".to_vec());
}

#[test]
fn parse_accepts_pretty_null_hmac() {
    let doc = b"{\n  \"v\": 1,\n  \"nonce_b64\": \"bg==\",\n  \"ct_b64\": \"Yw==\",\n  \"hmac_b64\": null\n}";
    let env = parse_envelope(doc).unwrap();
    assert_eq!(env.v, 1);
    assert_eq!(env.hmac_b64, None);
}

#[test]
fn parse_rejects_malformed_documents() {
    let cases: Vec<&[u8]> = vec![
        b"",
        b"{}",
        b"not json",
        b"{\"v\":1}",
        b"{\"v\":1,\"nonce_b64\":\"a\"}",
        b"{\"v\":,\"nonce_b64\":\"a\",\"ct_b64\":\"b\"}",
        b"{\"nonce_b64\":\"a\",\"ct_b64\":\"b\",\"v\":1}",
        b"{\"v\":1,\"nonce_b64\":\"a\",\"ct_b64\":\"b\"} trailing",
        b"{\"v\":99999999999999999999,\"nonce_b64\":\"a\",\"ct_b64\":\"b\"}",
        b"{\"v\":1,\"nonce_b64\":\"a\\\"b\",\"ct_b64\":\"c\"}",
    ];
    for doc in cases {
        assert_eq!(
            parse_envelope(doc).err(),
            Some(StoreError::Codec),
            "should reject {:?}",
            String::from_utf8_lossy(doc)
        );
    }
}

#[test]
fn error_messages_are_stable() {
    assert_eq!(StoreError::Version.message(), "unsupported data version");
    assert!(StoreError::Authentication.message().contains("tampered"));
}
