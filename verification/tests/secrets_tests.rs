use github_importer::secrets::{
    machine_id_from, machine_id_vars, magic_bytes, open_vault, seal_fresh_vault, seal_vault, store_for,
    EncryptedFileVault, MemoryStore, SecretStore, NONCE_LEN, SALT_LEN,
};

#[test]
fn memory_store_persists_nothing() {
    let mut s = MemoryStore::default();
    assert!(!s.is_persistent());
    s.save("token").unwrap();
    assert_eq!(s.load().unwrap().as_deref(), Some("token"));
    s.clear().unwrap();
    assert_eq!(s.load().unwrap(), None);
}

#[test]
fn store_for_honours_the_remember_flag() {
    let dir = "/tmp/workspace";
    assert!(store_for(dir, true, None).is_persistent());
    assert!(!store_for(dir, false, None).is_persistent());
}

#[test]
fn round_trips_a_token() {
    let raw = seal_fresh_vault("ghp_secret_value", "github-importer\u{1f}host").unwrap();
    assert_eq!(open_vault(&raw, "github-importer\u{1f}host").unwrap(), "ghp_secret_value");
}

#[test]
fn a_wrong_passphrase_fails_to_decrypt() {
    let raw = seal_vault("token", "correct\u{1f}host", &[1u8; SALT_LEN], &[2u8; NONCE_LEN]).unwrap();
    let err = open_vault(&raw, "incorrect\u{1f}host").unwrap_err();
    assert!(err.contains("Could not unlock"), "{err}");
}

#[test]
fn tampering_with_the_ciphertext_is_detected() {
    let mut raw = seal_vault("token", "m", &[3u8; SALT_LEN], &[4u8; NONCE_LEN]).unwrap();
    let last = raw.len() - 1;
    raw[last] ^= 0xff;
    assert!(open_vault(&raw, "m").is_err(), "a modified ciphertext must not decrypt");
}

#[test]
fn tampering_with_the_header_is_detected() {
    let mut raw = seal_vault("token", "m", &[3u8; SALT_LEN], &[4u8; NONCE_LEN]).unwrap();
    raw[0] ^= 0xff;
    let err = open_vault(&raw, "m").unwrap_err();
    assert!(err.contains("not readable by this version"), "{err}");
}

#[test]
fn a_truncated_vault_file_is_rejected() {
    assert!(open_vault(b"short", "m").is_err());
}

#[test]
fn the_token_is_not_present_in_plaintext_on_disk() {
    let raw = seal_vault("ghp_verydistinctivetoken", "m", &[5u8; SALT_LEN], &[6u8; NONCE_LEN]).unwrap();
    assert!(!raw.windows(18).any(|w| w == b"ghp_verydistinctiv"));
    assert_eq!(&raw[..8], &magic_bytes()[..]);
    assert_eq!(raw.len(), 8 + SALT_LEN + NONCE_LEN + "ghp_verydistinctivetoken".len() + 16);
}

// ---------------------------------------------------------------------------

#[test]
fn the_key_material_binds_passphrase_and_machine() {
    let plain = EncryptedFileVault::new("/w", None);
    assert_eq!(plain.key_material("host|me"), "github-importer\u{1f}host|me");
    assert_eq!(plain.path(), "/w/secrets.vault");
    let guarded = EncryptedFileVault::new("/w", Some("pass".into()));
    assert_eq!(guarded.key_material("host"), "pass\u{1f}host");
}

#[test]
fn the_machine_id_joins_what_is_set() {
    assert_eq!(machine_id_vars(), vec!["COMPUTERNAME", "HOSTNAME", "USERNAME", "USER", "USERDOMAIN"]);
    assert_eq!(machine_id_from(&[None, Some("box".into()), Some("".into()), Some("me".into()), None]), "box|me");
    assert_eq!(machine_id_from(&[None, None]), "unknown-host");
}

#[test]
fn a_vault_opens_only_on_the_machine_that_sealed_it() {
    let v = EncryptedFileVault::new("/w", None);
    let raw = v.seal_token("ghp_x", "host-a").unwrap();
    assert_eq!(v.open_bytes(&raw, "host-a").unwrap(), "ghp_x");
    assert!(v.open_bytes(&raw, "host-b").unwrap_err().contains("Could not unlock"));
}

#[test]
fn the_right_passphrase_decrypts() {
    let raw = seal_vault("token", "correct\u{1f}host", &[7u8; SALT_LEN], &[8u8; NONCE_LEN]).unwrap();
    assert_eq!(open_vault(&raw, "correct\u{1f}host").unwrap(), "token");
}

#[test]
fn a_long_token_round_trips() {
    let token = "github_pat_".to_string() + &"x".repeat(500);
    let raw = seal_fresh_vault(&token, "m").unwrap();
    assert_eq!(open_vault(&raw, "m").unwrap(), token);
}

#[test]
fn each_save_uses_a_fresh_salt_and_nonce() {
    let first = seal_fresh_vault("same-token", "m").unwrap();
    let second = seal_fresh_vault("same-token", "m").unwrap();
    assert_ne!(first, second, "identical plaintext must not produce identical ciphertext");
}
