use ai_step_gen_suite::credentials::{decrypt_api_key, encrypt_api_key, EncryptedPayload};

/// "AIzaSyDummyKeyContent" sealed under "my-secure-passphrase" with salt
/// 00..0f and nonce 64..6f (PBKDF2-HMAC-SHA512, 600 000 rounds, AES-256-GCM).
fn known_payload() -> EncryptedPayload {
    EncryptedPayload {
        ciphertext: "cd8ee8272cb0878e50bffc6640bdaea56ba872132731ff303d03d289e43acf07e7640070bc".to_string(),
        nonce: "6465666768696a6b6c6d6e6f".to_string(),
        salt: "000102030405060708090a0b0c0d0e0f".to_string(),
    }
}

#[test]
fn sealing_hides_the_key() {
    let api_key = "AIzaSyDummyKeyContent";
    let encrypted = encrypt_api_key("my-secure-passphrase", api_key).expect("Encryption should succeed");
    assert_ne!(encrypted.ciphertext, api_key);
    assert_ne!(encrypted.salt, "");
    assert_ne!(encrypted.nonce, "");
}

#[test]
fn known_payload_opens_with_its_passphrase() {
    let decrypted = decrypt_api_key("my-secure-passphrase", &known_payload()).expect("Decryption should succeed");
    assert_eq!(decrypted, "AIzaSyDummyKeyContent");
}

#[test]
fn upper_case_hex_opens_too() {
    let p = known_payload();
    let upper = EncryptedPayload {
        ciphertext: p.ciphertext.to_uppercase(),
        nonce: p.nonce.to_uppercase(),
        salt: p.salt.to_uppercase(),
    };
    assert_eq!(decrypt_api_key("my-secure-passphrase", &upper).unwrap(), "AIzaSyDummyKeyContent");
}

#[test]
fn known_payload_does_not_open_with_another_passphrase() {
    assert!(decrypt_api_key("wrong-passphrase", &known_payload()).is_err());
}

#[test]
fn sealed_parts_are_lower_case_hex_of_fixed_sizes() {
    let encrypted = encrypt_api_key("pass", "key-1").unwrap();
    assert_eq!(encrypted.salt.len(), 32);
    assert_eq!(encrypted.nonce.len(), 24);
    // 5 bytes of key text plus the 16-byte tag.
    assert_eq!(encrypted.ciphertext.len(), 2 * (5 + 16));
    for part in [&encrypted.salt, &encrypted.nonce, &encrypted.ciphertext] {
        assert!(part.chars().all(|c| c.is_ascii_digit() || ('a'..='f').contains(&c)));
    }
}

#[test]
fn bad_encodings_are_reported_per_part() {
    let good = EncryptedPayload {
        ciphertext: "00".repeat(17),
        nonce: "0A".repeat(12),
        salt: "ff".repeat(16),
    };
    let bad_salt = EncryptedPayload { salt: "zz".into(), ..good.clone() };
    assert!(decrypt_api_key("p", &bad_salt).unwrap_err().starts_with("Invalid salt encoding: "));
    let bad_nonce = EncryptedPayload { nonce: "abc".into(), ..good.clone() };
    assert!(decrypt_api_key("p", &bad_nonce).unwrap_err().starts_with("Invalid nonce encoding: "));
    let bad_ct = EncryptedPayload { ciphertext: "0g".into(), ..good.clone() };
    assert!(decrypt_api_key("p", &bad_ct).unwrap_err().starts_with("Invalid ciphertext encoding: "));
}

#[test]
fn tampered_ciphertext_does_not_open() {
    let tampered = EncryptedPayload {
        ciphertext: "00".repeat(17),
        nonce: "0A".repeat(12),
        salt: "ff".repeat(16),
    };
    assert!(decrypt_api_key("p", &tampered)
        .unwrap_err()
        .starts_with("Decryption failed (possibly incorrect passphrase): "));
}
