use base64::Engine;
use encstore::envelope::Envelope;
use encstore::errors::StoreError;
use encstore::signer::sign;
use encstore::wire::serialize_envelope;
use encstore::keys::{delete_key, get_existing_key, get_or_create_key, service_name};
use encstore::state::StoreState;
use encstore::store::{export_backup, import_backup, load_encrypted, reset, save_encrypted};

fn b64(bytes: &[u8]) -> Vec<u8> {
    base64::engine::general_purpose::STANDARD.encode(bytes).into_bytes()
}

/// A restart: the persistent backends survive, in-memory state does not.
fn restarted(store: &StoreState) -> StoreState {
    StoreState {
        data_file: store.data_file.clone(),
        key_file: store.key_file.clone(),
        vault: store.vault.clone(),
    }
}

#[test]
fn first_run_loads_nothing() {
    let mut store = StoreState::new();
    assert_eq!(load_encrypted(&mut store), Ok(None));
}

#[test]
fn save_then_load_round_trips() {
    let mut store = StoreState::new();
    save_encrypted(&mut store, b"state blob").unwrap();
    assert_eq!(load_encrypted(&mut store).unwrap(), Some(b"state blob".to_vec()));
}

#[test]
fn key_persists_across_restart() {
    let mut store = StoreState::new();
    save_encrypted(&mut store, b"persisted").unwrap();
    let key_before = get_or_create_key(&mut store).unwrap();

    let mut fresh = restarted(&store);
    let key_after = get_existing_key(&mut fresh).unwrap();
    assert_eq!(key_after, Some(key_before), "restart must resolve the identical key bytes");
    assert_eq!(load_encrypted(&mut fresh).unwrap(), Some(b"persisted".to_vec()));
}

#[test]
fn scenario_save_empty_tasks_blob() {
    let mut store = StoreState::new();
    save_encrypted(&mut store, b"{\"tasks\":[]}").unwrap();
    let file = String::from_utf8(store.data_file.clone().unwrap()).unwrap();
    assert!(file.contains("\"v\":1"), "data file must carry the envelope version");
    assert!(file.contains("\"nonce_b64\":\""));
    assert!(!file.contains("tasks"), "plaintext must not appear in the file");
    assert_eq!(load_encrypted(&mut store).unwrap(), Some(b"{\"tasks\":[]}".to_vec()));
}

#[test]
fn load_with_data_but_no_key_is_key_missing() {
    let mut store = StoreState::new();
    save_encrypted(&mut store, b"blob").unwrap();
    delete_key(&mut store);
    assert_eq!(load_encrypted(&mut store), Err(StoreError::KeyMissing));
}

#[test]
fn vault_is_preferred_and_mirrored() {
    let key1 = vec![1u8; 32];
    let key2 = vec![2u8; 32];
    let mut store = StoreState::new();
    store.vault = Some(b64(&key1));
    store.key_file = Some(b64(&key2));
    let got = get_existing_key(&mut store).unwrap().unwrap();
    assert_eq!(got, key1, "the vault wins over the fallback file");
    assert_eq!(store.key_file, Some(b64(&key1)), "the vault's key is mirrored into the file");
}

#[test]
fn fallback_file_is_used_and_mirrored_when_vault_is_empty() {
    let key = vec![3u8; 32];
    let mut store = StoreState::new();
    let mut padded = b"\n".to_vec();
    padded.extend_from_slice(&b64(&key));
    padded.extend_from_slice(b"\n");
    store.key_file = Some(padded);
    let got = get_existing_key(&mut store).unwrap().unwrap();
    assert_eq!(got, key, "surrounding whitespace in the key file is tolerated");
    assert_eq!(store.vault, Some(b64(&key)), "the file's key is mirrored into the vault");
}

#[test]
fn invalid_vault_secret_is_a_soft_miss() {
    let key = vec![4u8; 32];
    let mut store = StoreState::new();
    store.vault = Some(b"!!not base64!!".to_vec());
    store.key_file = Some(b64(&key));
    assert_eq!(get_existing_key(&mut store).unwrap(), Some(key));

    let mut store = StoreState::new();
    store.vault = Some(b64(&[9u8; 16]));
    assert_eq!(get_existing_key(&mut store).unwrap(), None, "wrong-length vault key reads as absent");
}

#[test]
fn corrupt_key_file_is_a_hard_failure() {
    let mut store = StoreState::new();
    store.key_file = Some(b"###".to_vec());
    assert_eq!(get_existing_key(&mut store), Err(StoreError::KeyCorrupt));

    let mut store = StoreState::new();
    store.key_file = Some(b64(&[5u8; 16]));
    assert_eq!(get_or_create_key(&mut store), Err(StoreError::KeyCorrupt));
    assert_eq!(save_encrypted(&mut store, b"x"), Err(StoreError::KeyCorrupt));
}

#[test]
fn valid_vault_shadows_a_corrupt_key_file() {
    let key = vec![6u8; 32];
    let mut store = StoreState::new();
    store.vault = Some(b64(&key));
    store.key_file = Some(b"garbage".to_vec());
    assert_eq!(get_existing_key(&mut store).unwrap(), Some(key.clone()));
    assert_eq!(store.key_file, Some(b64(&key)), "mirroring repairs the corrupt file");
}

#[test]
fn get_or_create_persists_a_fresh_key_in_both_backends() {
    let mut store = StoreState::new();
    let key = get_or_create_key(&mut store).unwrap();
    assert_eq!(key.len(), 32);
    assert_eq!(store.vault, Some(b64(&key)));
    assert_eq!(store.key_file, Some(b64(&key)));
    let again = get_or_create_key(&mut store).unwrap();
    assert_eq!(again, key);
}

#[test]
fn export_then_import_round_trips() {
    let mut store = StoreState::new();
    let file = export_backup(&mut store, b"backup payload").unwrap();
    assert!(store.data_file.is_none(), "export must not touch the data file");
    assert_eq!(import_backup(&mut store, &file).unwrap(), b"backup payload");
}

#[test]
fn exported_backup_is_pretty_printed_with_hmac() {
    let mut store = StoreState::new();
    let file = export_backup(&mut store, b"pretty").unwrap();
    let text = String::from_utf8(file).unwrap();
    assert!(text.starts_with("{\n  \"v\": 1,\n"));
    assert!(text.contains("\"hmac_b64\": \""));
    assert!(text.ends_with("\"\n}"));
}

#[test]
fn scenario_tampered_backup_is_rejected() {
    let mut store = StoreState::new();
    save_encrypted(&mut store, b"current state").unwrap();
    let file = export_backup(&mut store, b"current state").unwrap();
    let data_before = store.data_file.clone();

    // Mutate one character inside the ct_b64 value of the backup text.
    let text = String::from_utf8(file).unwrap();
    let marker = "\"ct_b64\": \"";
    let pos = text.find(marker).unwrap() + marker.len();
    let mut bytes = text.into_bytes();
    bytes[pos] = if bytes[pos] == b'A' { b'B' } else { b'A' };

    assert_eq!(import_backup(&mut store, &bytes), Err(StoreError::Authentication));
    assert_eq!(store.data_file, data_before, "a failed import leaves the state unchanged");
    assert_eq!(load_encrypted(&mut store).unwrap(), Some(b"current state".to_vec()));
}

#[test]
fn tampered_backup_hmac_is_rejected() {
    let mut store = StoreState::new();
    let file = export_backup(&mut store, b"x").unwrap();
    let text = String::from_utf8(file).unwrap();
    let marker = "\"hmac_b64\": \"";
    let pos = text.find(marker).unwrap() + marker.len();
    let mut bytes = text.into_bytes();
    bytes[pos] = if bytes[pos] == b'A' { b'B' } else { b'A' };
    assert_eq!(import_backup(&mut store, &bytes), Err(StoreError::Authentication));
}

#[test]
fn import_rejects_signed_but_undecryptable_backup() {
    // A backup whose HMAC verifies but whose ciphertext is no AES-GCM
    // encryption must still fail with Authentication, not import garbage.
    let key = vec![9u8; 32];
    let mut store = StoreState::new();
    store.key_file = Some(b64(&key));
    let nonce = [1u8; 12];
    let ct = [2u8; 24];
    let tag = sign(&nonce, &ct, &key);
    let env = Envelope {
        v: 1,
        nonce_b64: b64(&nonce),
        ct_b64: b64(&ct),
        hmac_b64: Some(b64(&tag)),
    };
    let file = serialize_envelope(&env, true);
    assert_eq!(import_backup(&mut store, &file), Err(StoreError::Authentication));
}

#[test]
fn import_rejects_unsupported_version() {
    let mut store = StoreState::new();
    let doc = b"{\"v\":2,\"nonce_b64\":\"a\",\"ct_b64\":\"b\",\"hmac_b64\":\"c\"}";
    assert_eq!(import_backup(&mut store, doc), Err(StoreError::Version));
}

#[test]
fn import_rejects_garbage() {
    let mut store = StoreState::new();
    assert_eq!(import_backup(&mut store, b"not a backup"), Err(StoreError::Codec));
}

#[test]
fn import_rejects_backup_without_hmac() {
    let mut store = StoreState::new();
    save_encrypted(&mut store, b"x").unwrap();
    let unsigned = store.data_file.clone().unwrap();
    assert_eq!(import_backup(&mut store, &unsigned), Err(StoreError::Authentication));
}

#[test]
fn scenario_reset_completeness() {
    let mut store = StoreState::new();
    save_encrypted(&mut store, b"about to vanish").unwrap();
    let old_key = get_or_create_key(&mut store).unwrap();

    reset(&mut store);
    assert_eq!(load_encrypted(&mut store), Ok(None));
    assert!(store.key_file.is_none());
    assert!(store.vault.is_none());

    save_encrypted(&mut store, b"fresh start").unwrap();
    let new_key = get_or_create_key(&mut store).unwrap();
    assert_ne!(new_key, old_key, "reset must lead to a freshly generated key");
    assert_eq!(load_encrypted(&mut store).unwrap(), Some(b"fresh start".to_vec()));
}

#[test]
fn version_gate_on_the_data_file() {
    let mut store = StoreState::new();
    save_encrypted(&mut store, b"x").unwrap();
    let text = String::from_utf8(store.data_file.clone().unwrap()).unwrap();
    let bumped = text.replace("{\"v\":1,", "{\"v\":7,");
    store.data_file = Some(bumped.into_bytes());
    assert_eq!(load_encrypted(&mut store), Err(StoreError::Version));
}

#[test]
fn corrupt_data_file_is_codec_error() {
    let mut store = StoreState::new();
    save_encrypted(&mut store, b"x").unwrap();
    store.data_file = Some(b"{{{{".to_vec());
    assert_eq!(load_encrypted(&mut store), Err(StoreError::Codec));
}

#[test]
fn service_name_defaults_when_blank() {
    assert_eq!(service_name(""), "com.todo-app.app");
    assert_eq!(service_name("   \n"), "com.todo-app.app");
    assert_eq!(service_name("org.example.todo"), "org.example.todo");
}
