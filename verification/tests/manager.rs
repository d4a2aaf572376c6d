use base64::Engine;
use dotenvage::{SecretManager, SecretsError, ValueKind, VarMap};

#[test]
fn test_encrypt_decrypt_roundtrip() {
    let manager = SecretManager::generate().expect("failed to generate manager");
    let plaintext = "sk_live_abc123";
    let encrypted = manager.encrypt_value(plaintext).expect("encryption failed");
    assert!(SecretManager::is_encrypted(&encrypted));
    let decrypted = manager
        .decrypt_value(&encrypted)
        .expect("decryption failed");
    assert_eq!(plaintext, decrypted);
}

#[test]
fn test_decrypt_unencrypted_value() {
    let manager = SecretManager::generate().expect("failed to generate manager");
    let plaintext = "not_encrypted";
    let result = manager
        .decrypt_value(plaintext)
        .expect("decrypt should pass through");
    assert_eq!(plaintext, result);
}

#[test]
fn round_trip_keeps_every_character() {
    let manager = SecretManager::generate().unwrap();
    for plaintext in ["", " ", "a=b", "line\nbreak", "caf\u{e9} \u{1F512}", "ENC[AGE:b64:x]"] {
        let sealed = manager.encrypt_value(plaintext).unwrap();
        assert_ne!(sealed, plaintext);
        assert_eq!(manager.decrypt_value(&sealed).unwrap(), plaintext);
    }
}

#[test]
fn encrypted_value_has_the_compact_shape() {
    let manager = SecretManager::generate().unwrap();
    let sealed = manager.encrypt_value("secret").unwrap();
    assert!(sealed.starts_with("ENC[AGE:b64:"));
    assert!(sealed.ends_with(']'));
    assert_eq!(SecretManager::classify(&sealed), ValueKind::Envelope);
    let inner = &sealed["ENC[AGE:b64:".len()..sealed.len() - 1];
    let bytes = base64::engine::general_purpose::STANDARD
        .decode(inner)
        .expect("payload is standard base64");
    assert!(bytes.starts_with(b"age-encryption.org/v1"));
    let identity: age::x25519::Identity = manager.identity_string().parse().unwrap();
    assert_eq!(age::decrypt(&identity, &bytes).unwrap(), b"secret");
}

#[test]
fn two_encryptions_differ_and_both_decrypt() {
    let manager = SecretManager::generate().unwrap();
    let a = manager.encrypt_value("same").unwrap();
    let b = manager.encrypt_value("same").unwrap();
    assert_ne!(a, b);
    assert_eq!(manager.decrypt_value(&a).unwrap(), "same");
    assert_eq!(manager.decrypt_value(&b).unwrap(), "same");
}

#[test]
fn detection_goes_by_the_trimmed_prefix() {
    assert!(SecretManager::is_encrypted("ENC[AGE:b64:YWdl]"));
    assert!(SecretManager::is_encrypted("  ENC[AGE:b64:YWdl]\n"));
    assert!(SecretManager::is_encrypted("ENC[AGE:b64:"));
    assert!(SecretManager::is_encrypted("-----BEGIN AGE ENCRYPTED FILE-----\nabc"));
    assert!(!SecretManager::is_encrypted("plaintext"));
    assert!(!SecretManager::is_encrypted(""));
    assert!(!SecretManager::is_encrypted("enc[age:b64:YWdl]"));
    assert!(!SecretManager::is_encrypted("x ENC[AGE:b64:YWdl]"));
}

#[test]
fn classify_tells_the_three_kinds_apart() {
    assert_eq!(SecretManager::classify("hello"), ValueKind::Plain);
    assert_eq!(SecretManager::classify(""), ValueKind::Plain);
    assert_eq!(SecretManager::classify("ENC[AGE:b64:]"), ValueKind::Envelope);
    assert_eq!(SecretManager::classify(" ENC[AGE:b64:abc] "), ValueKind::Envelope);
    assert_eq!(SecretManager::classify("ENC[AGE:b64:abc"), ValueKind::Plain);
    assert_eq!(
        SecretManager::classify("-----BEGIN AGE ENCRYPTED FILE-----"),
        ValueKind::LegacyArmor
    );
}

#[test]
fn tag_without_closing_bracket_passes_through() {
    let manager = SecretManager::generate().unwrap();
    assert_eq!(manager.decrypt_value("ENC[AGE:b64:abc").unwrap(), "ENC[AGE:b64:abc");
}

#[test]
fn plaintext_is_handed_back_untrimmed() {
    let manager = SecretManager::generate().unwrap();
    assert_eq!(manager.decrypt_value("  padded  ").unwrap(), "  padded  ");
    assert_eq!(manager.decrypt_value("").unwrap(), "");
}

#[test]
fn corrupted_base64_is_a_decryption_error() {
    let manager = SecretManager::generate().unwrap();
    let err = manager.decrypt_value("ENC[AGE:b64:!!!not-base64!!!]").unwrap_err();
    match &err {
        SecretsError::DecryptionFailed(m) => assert!(m.starts_with("invalid base64: ")),
        other => panic!("unexpected error: {:?}", other),
    }
    assert!(err.to_string().starts_with("decryption failed: invalid base64: "));
}

#[test]
fn corrupted_payload_is_a_decryption_error() {
    let manager = SecretManager::generate().unwrap();
    let sealed = manager.encrypt_value("payload").unwrap();
    let inner = &sealed["ENC[AGE:b64:".len()..sealed.len() - 1];
    let mut bytes = base64::engine::general_purpose::STANDARD.decode(inner).unwrap();
    let last = bytes.len() - 1;
    bytes[last] ^= 0x01;
    let broken = format!(
        "ENC[AGE:b64:{}]",
        base64::engine::general_purpose::STANDARD.encode(&bytes)
    );
    assert!(matches!(
        manager.decrypt_value(&broken),
        Err(SecretsError::DecryptionFailed(_))
    ));
    let garbage = format!(
        "ENC[AGE:b64:{}]",
        base64::engine::general_purpose::STANDARD.encode(b"not an age file")
    );
    assert!(matches!(
        manager.decrypt_value(&garbage),
        Err(SecretsError::DecryptionFailed(_))
    ));
}

#[test]
fn wrong_key_is_a_decryption_error() {
    let ours = SecretManager::generate().unwrap();
    let theirs = SecretManager::generate().unwrap();
    let sealed = theirs.encrypt_value("not for us").unwrap();
    assert!(matches!(
        ours.decrypt_value(&sealed),
        Err(SecretsError::DecryptionFailed(_))
    ));
}

#[test]
fn plaintext_that_is_not_utf8_is_a_decryption_error() {
    let manager = SecretManager::generate().unwrap();
    let identity: age::x25519::Identity = manager.identity_string().parse().unwrap();
    let bytes = age::encrypt(&identity.to_public(), &[0xff, 0xfe, 0xfd]).unwrap();
    let value = format!(
        "ENC[AGE:b64:{}]",
        base64::engine::general_purpose::STANDARD.encode(&bytes)
    );
    assert!(matches!(
        manager.decrypt_value(&value),
        Err(SecretsError::DecryptionFailed(_))
    ));
}

#[test]
fn envelope_made_by_age_itself_decrypts() {
    let manager = SecretManager::generate().unwrap();
    let identity: age::x25519::Identity = manager.identity_string().parse().unwrap();
    let bytes = age::encrypt(&identity.to_public(), "made elsewhere".as_bytes()).unwrap();
    let value = format!(
        " ENC[AGE:b64:{}] ",
        base64::engine::general_purpose::STANDARD.encode(&bytes)
    );
    assert_eq!(manager.decrypt_value(&value).unwrap(), "made elsewhere");
}

#[test]
fn legacy_armor_decrypts() {
    let manager = SecretManager::generate().unwrap();
    let identity: age::x25519::Identity = manager.identity_string().parse().unwrap();
    let armored = age::encrypt_and_armor(&identity.to_public(), b"legacy value").unwrap();
    assert!(armored.starts_with("-----BEGIN AGE ENCRYPTED FILE-----"));
    assert!(SecretManager::is_encrypted(&armored));
    assert_eq!(SecretManager::classify(&armored), ValueKind::LegacyArmor);
    assert_eq!(manager.decrypt_value(&armored).unwrap(), "legacy value");
    let other = SecretManager::generate().unwrap();
    assert!(matches!(
        other.decrypt_value(&armored),
        Err(SecretsError::DecryptionFailed(_))
    ));
    assert!(matches!(
        manager.decrypt_value("-----BEGIN AGE ENCRYPTED FILE-----\nbroken"),
        Err(SecretsError::DecryptionFailed(_))
    ));
}

#[test]
fn public_key_is_the_recipient_of_the_identity() {
    let manager = SecretManager::generate().unwrap();
    let public = manager.public_key_string();
    assert!(public.starts_with("age1"));
    assert_eq!(public, manager.public_key());
    let identity: age::x25519::Identity = manager.identity_string().parse().unwrap();
    assert_eq!(public, identity.to_public().to_string());
    assert_ne!(public, manager.identity_string());
}

#[test]
fn identity_string_spells_the_secret_key() {
    let manager = SecretManager::generate().unwrap();
    let text = manager.identity_string();
    assert!(text.starts_with("AGE-SECRET-KEY-1"));
    let again = SecretManager::from_identity(&text).unwrap();
    let sealed = manager.encrypt_value("shared").unwrap();
    assert_eq!(again.decrypt_value(&sealed).unwrap(), "shared");
    assert_eq!(again.public_key_string(), manager.public_key_string());
}

#[test]
fn clone_keeps_the_identity() {
    let manager = SecretManager::generate().unwrap();
    let copy = manager.clone();
    let sealed = manager.encrypt_value("v").unwrap();
    assert_eq!(copy.decrypt_value(&sealed).unwrap(), "v");
}

#[test]
fn from_identity_refuses_what_is_no_identity() {
    for text in ["", "not a key", "age1qqqq", "AGE-SECRET-KEY-1"] {
        match SecretManager::from_identity(text) {
            Err(SecretsError::KeyLoadFailed(m)) => assert!(m.starts_with("parse key: ")),
            Err(other) => panic!("unexpected error: {:?}", other),
            Ok(_) => panic!("accepted {:?}", text),
        }
    }
}

fn view(pairs: &[(&str, &str)]) -> VarMap {
    let mut m = VarMap::new();
    for (k, v) in pairs {
        m.insert(k.to_string(), v.to_string());
    }
    m
}

#[test]
fn load_key_without_any_source_fails() {
    match SecretManager::load_key(&VarMap::new(), None) {
        Err(SecretsError::KeyLoadFailed(m)) => assert_eq!(
            m,
            "no key found (DOTENVAGE_AGE_KEY, AGE_KEY, EKG_AGE_KEY, or default key file)"
        ),
        _ => panic!("expected KeyLoadFailed"),
    }
    assert!(matches!(
        SecretManager::new(&VarMap::new(), None),
        Err(SecretsError::KeyLoadFailed(_))
    ));
}

#[test]
fn load_key_takes_sources_in_priority_order() {
    let a = SecretManager::generate().unwrap();
    let b = SecretManager::generate().unwrap();
    let c = SecretManager::generate().unwrap();
    let d = SecretManager::generate().unwrap();
    let (ka, kb, kc, kd) = (
        a.identity_string(),
        b.identity_string(),
        c.identity_string(),
        d.identity_string(),
    );
    let all = view(&[("EKG_AGE_KEY", &kc), ("AGE_KEY", &kb), ("DOTENVAGE_AGE_KEY", &ka)]);
    let got = SecretManager::load_key(&all, Some(&kd)).unwrap();
    assert_eq!(got.identity_string(), ka);
    let two = view(&[("EKG_AGE_KEY", &kc), ("AGE_KEY", &kb)]);
    assert_eq!(SecretManager::load_key(&two, Some(&kd)).unwrap().identity_string(), kb);
    let one = view(&[("EKG_AGE_KEY", &kc)]);
    assert_eq!(SecretManager::load_key(&one, Some(&kd)).unwrap().identity_string(), kc);
    assert_eq!(
        SecretManager::load_key(&VarMap::new(), Some(&kd)).unwrap().identity_string(),
        kd
    );
}

#[test]
fn load_key_passes_over_sources_that_spell_no_identity() {
    let good = SecretManager::generate().unwrap().identity_string();
    let env = view(&[("DOTENVAGE_AGE_KEY", "garbage"), ("AGE_KEY", ""), ("EKG_AGE_KEY", &good)]);
    assert_eq!(SecretManager::load_key(&env, None).unwrap().identity_string(), good);
    let bad = view(&[("DOTENVAGE_AGE_KEY", "garbage")]);
    match SecretManager::load_key(&bad, Some("also garbage")) {
        Err(SecretsError::KeyLoadFailed(m)) => assert!(m.starts_with("parse key: ")),
        _ => panic!("expected KeyLoadFailed"),
    }
}

#[test]
fn error_text_names_the_kind() {
    assert_eq!(
        SecretsError::KeyLoadFailed("x".into()).to_string(),
        "key load failed: x"
    );
    assert_eq!(
        SecretsError::KeySaveFailed("x".into()).to_string(),
        "key save failed: x"
    );
    assert_eq!(
        SecretsError::EncryptionFailed("x".into()).to_string(),
        "encryption failed: x"
    );
    assert_eq!(
        SecretsError::DecryptionFailed("x".into()).to_string(),
        "decryption failed: x"
    );
    assert_eq!(
        SecretsError::EnvFileReadFailed { path: "p".into(), reason: "r".into() }.to_string(),
        "env file read failed for p: r"
    );
    assert_eq!(
        SecretsError::EnvFileParseFailed { path: "p".into(), reason: "r".into() }.to_string(),
        "env file parse failed for p: r"
    );
    assert_eq!(
        SecretsError::EnvVarNotFound { key: "K".into() }.to_string(),
        "env var not found: K"
    );
}

#[test]
fn wrap_sealed_frames_whatever_the_cipher_gave() {
    let framed = SecretManager::wrap_sealed(Ok(vec![0x61, 0x67, 0x65])).unwrap();
    assert_eq!(framed, "ENC[AGE:b64:YWdl]");
    assert_eq!(SecretManager::wrap_sealed(Ok(vec![])).unwrap(), "ENC[AGE:b64:]");
    assert_eq!(SecretManager::wrap_sealed(Ok(vec![0xff])).unwrap(), "ENC[AGE:b64:/w==]");
    match SecretManager::wrap_sealed(Err("cipher said no".into())) {
        Err(SecretsError::EncryptionFailed(m)) => assert_eq!(m, "cipher said no"),
        _ => panic!("expected EncryptionFailed"),
    }
}

#[test]
fn unwrap_opened_reads_bytes_as_utf8() {
    assert_eq!(
        SecretManager::unwrap_opened(Ok("caf\u{e9}".as_bytes().to_vec())).unwrap(),
        "caf\u{e9}"
    );
    assert_eq!(SecretManager::unwrap_opened(Ok(vec![])).unwrap(), "");
    assert!(matches!(
        SecretManager::unwrap_opened(Ok(vec![0xc3])),
        Err(SecretsError::DecryptionFailed(_))
    ));
    match SecretManager::unwrap_opened(Err("no matching keys".into())) {
        Err(SecretsError::DecryptionFailed(m)) => assert_eq!(m, "no matching keys"),
        _ => panic!("expected DecryptionFailed"),
    }
}

#[test]
fn altered_payload_never_passes_through() {
    let manager = SecretManager::generate().unwrap();
    let sealed = manager.encrypt_value("payload").unwrap();
    let inner = &sealed["ENC[AGE:b64:".len()..sealed.len() - 1];
    let mut altered = Vec::new();
    altered.push("ENC[AGE:b64:AAAA]".to_string());
    altered.push("ENC[AGE:b64:]".to_string());
    altered.push(format!("ENC[AGE:b64:{}]", &inner[..inner.len() / 2]));
    altered.push(format!("ENC[AGE:b64:{}]", &inner[..inner.len() - 4]));
    altered.push(format!("ENC[AGE:b64:{}AAAA]", inner.trim_end_matches('=')));
    let mut flipped: Vec<char> = inner.chars().collect();
    let at = flipped.len() / 2;
    flipped[at] = if flipped[at] == 'A' { 'B' } else { 'A' };
    altered.push(format!("ENC[AGE:b64:{}]", flipped.into_iter().collect::<String>()));
    for value in altered {
        match manager.decrypt_value(&value) {
            Err(SecretsError::DecryptionFailed(_)) => {}
            Ok(text) => panic!("{:?} decrypted to {:?}", value, text),
            Err(other) => panic!("unexpected error: {:?}", other),
        }
    }
}
