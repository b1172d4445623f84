use base64::Engine;
use passman::codec::{check_vault_fits, parse_vault, serialize_vault};
use passman::crypto::{decrypt_vault, encrypt_vault};
use passman::entry::{PasswordEntry, Vault};
use passman::secret::Secret;

fn sample_vault() -> Vault {
    let mut vault = Vault::new();
    vault
        .entries
        .push(PasswordEntry::new("email".to_string(), "me".to_string(), "hunter2".to_string()));
    vault
        .entries
        .push(PasswordEntry::new("bank".to_string(), "me2".to_string(), "s3cret".to_string()));
    vault
}

fn entries_equal(a: &Vault, b: &Vault) -> bool {
    a.entries.len() == b.entries.len()
        && a.entries.iter().zip(b.entries.iter()).all(|(x, y)| {
            x.name == y.name
                && x.username == y.username
                && x.password.expose() == y.password.expose()
        })
}

#[test]
fn encrypt_decrypt_round_trip() {
    let vault = sample_vault();
    let secret = Secret::from_str("Correct1!");
    let (salt, nonce, ciphertext) = encrypt_vault(&vault, &secret);
    let reopened = decrypt_vault(&secret, &ciphertext, &salt, &nonce).unwrap();
    assert!(entries_equal(&vault, &reopened));
}

#[test]
fn empty_vault_round_trip() {
    let vault = Vault::new();
    let secret = Secret::from_str("Correct1!");
    let (salt, nonce, ciphertext) = encrypt_vault(&vault, &secret);
    let reopened = decrypt_vault(&secret, &ciphertext, &salt, &nonce).unwrap();
    assert_eq!(reopened.entries.len(), 0);
}

#[test]
fn wrong_password_fails() {
    let vault = sample_vault();
    let secret = Secret::from_str("Correct1!");
    let (salt, nonce, ciphertext) = encrypt_vault(&vault, &secret);
    for wrong in ["Correct1", "correct1!", "Correct1!!", ""] {
        match decrypt_vault(&Secret::from_str(wrong), &ciphertext, &salt, &nonce) {
            Err(m) => assert_eq!(m, "Wrong vault password or corrupted vault"),
            Ok(_) => panic!("decryption accepted the wrong password"),
        }
    }
}

#[test]
fn tampering_any_byte_fails() {
    let vault = Vault::new();
    let secret = Secret::from_str("Correct1!");
    let (salt, nonce, ciphertext) = encrypt_vault(&vault, &secret);
    let engine = base64::engine::general_purpose::STANDARD;
    let salt_bytes = engine.decode(&salt).unwrap();
    let nonce_bytes = engine.decode(&nonce).unwrap();
    let ct_bytes = engine.decode(&ciphertext).unwrap();
    assert_eq!(salt_bytes.len(), 16);
    assert_eq!(nonce_bytes.len(), 12);

    // key derivation is deliberately slow, so sample the first, a middle
    // and the last byte of each part
    let picks = |len: usize| [0, len / 2, len - 1];
    for i in picks(salt_bytes.len()) {
        let mut tampered = salt_bytes.clone();
        tampered[i] ^= 0x01;
        let t = engine.encode(&tampered);
        assert!(decrypt_vault(&secret, &ciphertext, &t, &nonce).is_err());
    }
    for i in picks(nonce_bytes.len()) {
        let mut tampered = nonce_bytes.clone();
        tampered[i] ^= 0x01;
        let t = engine.encode(&tampered);
        assert!(decrypt_vault(&secret, &ciphertext, &salt, &t).is_err());
    }
    for i in picks(ct_bytes.len()) {
        let mut tampered = ct_bytes.clone();
        tampered[i] ^= 0x01;
        let t = engine.encode(&tampered);
        assert!(decrypt_vault(&secret, &t, &salt, &nonce).is_err());
    }
}

#[test]
fn malformed_text_fails() {
    let vault = Vault::new();
    let secret = Secret::from_str("Correct1!");
    let (salt, nonce, ciphertext) = encrypt_vault(&vault, &secret);
    // not base64 at all
    assert!(decrypt_vault(&secret, "!!!", &salt, &nonce).is_err());
    assert!(decrypt_vault(&secret, &ciphertext, "!!!", &nonce).is_err());
    assert!(decrypt_vault(&secret, &ciphertext, &salt, "!!!").is_err());
    // valid base64 of the wrong length
    let engine = base64::engine::general_purpose::STANDARD;
    let short = engine.encode([1u8, 2, 3]);
    assert!(decrypt_vault(&secret, &ciphertext, &short, &nonce).is_err());
    assert!(decrypt_vault(&secret, &ciphertext, &salt, &short).is_err());
}

#[test]
fn fresh_salt_and_nonce_every_call() {
    let vault = Vault::new();
    let secret = Secret::from_str("Correct1!");
    let (salt1, nonce1, ct1) = encrypt_vault(&vault, &secret);
    let (salt2, nonce2, ct2) = encrypt_vault(&vault, &secret);
    assert_ne!(salt1, salt2);
    assert_ne!(nonce1, nonce2);
    assert_ne!(ct1, ct2);
}

#[test]
fn ciphertext_is_sealed_not_plain() {
    let vault = sample_vault();
    let secret = Secret::from_str("Correct1!");
    let serialized = serialize_vault(&vault);
    let (_, _, ciphertext) = encrypt_vault(&vault, &secret);
    let engine = base64::engine::general_purpose::STANDARD;
    let ct_bytes = engine.decode(&ciphertext).unwrap();
    // a 16-byte tag rides on the plaintext, and the sealed body differs
    assert_eq!(ct_bytes.len(), serialized.len() + 16);
    assert_ne!(&ct_bytes[..serialized.len()], serialized.as_slice());
    // the cleartext password never appears in the sealed bytes
    let needle = b"hunter2";
    assert!(!ct_bytes.windows(needle.len()).any(|w| w == needle));
}

#[test]
fn canonical_bytes_of_empty_vault() {
    let vault = Vault::new();
    assert_eq!(serialize_vault(&vault), vec![0u8, 0, 0, 0]);
}

#[test]
fn canonical_bytes_of_one_entry() {
    let mut vault = Vault::new();
    vault
        .entries
        .push(PasswordEntry::new("ab".to_string(), "c".to_string(), "de".to_string()));
    let bytes = serialize_vault(&vault);
    let expected: Vec<u8> = vec![
        1, 0, 0, 0, // one entry
        2, 0, 0, 0, b'a', b'b', // name
        1, 0, 0, 0, b'c', // username
        2, 0, 0, 0, b'd', b'e', // password
    ];
    assert_eq!(bytes, expected);
}

#[test]
fn parse_inverts_serialize() {
    let vault = sample_vault();
    let bytes = serialize_vault(&vault);
    let reparsed = parse_vault(&bytes).unwrap();
    assert!(entries_equal(&vault, &reparsed));
}

#[test]
fn parse_rejects_trailing_bytes() {
    let vault = sample_vault();
    let mut bytes = serialize_vault(&vault);
    bytes.push(0);
    assert!(parse_vault(&bytes).is_none());
}

#[test]
fn parse_rejects_truncation_and_bad_utf8() {
    let vault = sample_vault();
    let bytes = serialize_vault(&vault);
    assert!(parse_vault(&bytes[..bytes.len() - 1]).is_none());
    assert!(parse_vault(&[]).is_none());
    assert!(parse_vault(&[1, 0, 0, 0]).is_none());
    // one field whose bytes are not UTF-8
    let bad: Vec<u8> = vec![
        1, 0, 0, 0, // one entry
        1, 0, 0, 0, 0xff, // name bytes invalid
        0, 0, 0, 0, // username
        0, 0, 0, 0, // password
    ];
    assert!(parse_vault(&bad).is_none());
}

#[test]
fn unicode_fields_survive_the_codec() {
    let mut vault = Vault::new();
    vault.entries.push(PasswordEntry::new(
        "caf\u{e9}".to_string(),
        "\u{1f512} user".to_string(),
        "p\u{e4}ssw\u{f6}rd".to_string(),
    ));
    let bytes = serialize_vault(&vault);
    let reparsed = parse_vault(&bytes).unwrap();
    assert!(entries_equal(&vault, &reparsed));
}

#[test]
fn vault_fits_accepts_ordinary_vaults() {
    assert!(check_vault_fits(&Vault::new()));
    assert!(check_vault_fits(&sample_vault()));
}
