use dotenvage::{EnvLoader, FileEntry, FileRead, SecretManager, VarMap};

fn view(pairs: &[(&str, &str)]) -> VarMap {
    let mut m = VarMap::new();
    for (k, v) in pairs {
        m.insert(k.to_string(), v.to_string());
    }
    m
}

fn file(name: &str, text: &str) -> FileEntry {
    FileEntry {
        name: name.to_string(),
        path: name.to_string(),
        read: FileRead::Text(text.to_string()),
    }
}

#[test]
fn age_key_name_from_env() {
    let manager = SecretManager::generate().unwrap();
    let key_file = manager.identity_string();
    let env = view(&[
        ("XDG_STATE_HOME", "/tmp/state"),
        ("AGE_KEY_NAME", "myproject/myapp/test"),
    ]);
    let loaded_manager = SecretManager::load_key(&env, Some(&key_file)).unwrap();
    let plaintext = "test-secret-123";
    let encrypted = manager.encrypt_value(plaintext).unwrap();
    let decrypted = loaded_manager.decrypt_value(&encrypted).unwrap();
    assert_eq!(plaintext, decrypted);
    assert_eq!(
        SecretManager::default_key_path(&env, false, false),
        "/tmp/state/myproject/myapp/test.key"
    );
}

#[test]
fn age_key_name_default_to_cargo_pkg_name() {
    let env = view(&[("XDG_STATE_HOME", "/tmp/state")]);
    assert_eq!(
        SecretManager::default_key_path(&env, false, false),
        "/tmp/state/dotenvage/dotenvage.key"
    );
}

#[test]
fn age_key_name_with_env_loader() {
    let manager = SecretManager::generate().unwrap();
    let encrypted_value = manager.encrypt_value("supersecret").unwrap();
    let env_file = file(
        ".env",
        &format!("AGE_KEY_NAME=testapp\nAPI_KEY={}", encrypted_value),
    );
    let loader = EnvLoader::with_manager(manager);
    let vars = loader.load_env_file(&env_file).unwrap();
    assert_eq!(vars.get("AGE_KEY_NAME"), Some(&"testapp".to_string()));
    assert_eq!(vars.get("API_KEY"), Some(&"supersecret".to_string()));
    assert_eq!(
        SecretManager::discover_key_name(&vec![env_file]).as_deref(),
        Some("testapp")
    );
}

#[test]
fn age_key_name_priority_order() {
    let manager1 = SecretManager::generate().unwrap();
    let manager2 = SecretManager::generate().unwrap();
    let key1 = manager1.identity_string();
    let env = view(&[
        ("AGE_KEY", key1.trim()),
        ("AGE_KEY_NAME", "project2"),
        ("XDG_STATE_HOME", "/tmp/state"),
    ]);
    let loaded = SecretManager::load_key(&env, Some(&manager2.identity_string())).unwrap();
    let plaintext = "test-123";
    let encrypted = manager1.encrypt_value(plaintext).unwrap();
    let decrypted = loaded.decrypt_value(&encrypted).unwrap();
    assert_eq!(plaintext, decrypted);
    assert!(
        loaded
            .decrypt_value(&manager2.encrypt_value(plaintext).unwrap())
            .is_err()
            || loaded
                .decrypt_value(&manager2.encrypt_value(plaintext).unwrap())
                .unwrap()
                != plaintext
    );
}

#[test]
fn age_key_name_empty_string_uses_default() {
    let env = view(&[("XDG_STATE_HOME", "/tmp/state"), ("AGE_KEY_NAME", "   ")]);
    assert_eq!(
        SecretManager::default_key_path(&env, false, false),
        "/tmp/state/dotenvage/dotenvage.key"
    );
    assert_eq!(SecretManager::key_name(&env), "dotenvage/dotenvage");
}

#[test]
fn key_base_falls_back_from_state_to_config_to_home() {
    assert_eq!(
        SecretManager::default_key_path(
            &view(&[("XDG_STATE_HOME", ""), ("XDG_CONFIG_HOME", "/cfg/"), ("HOME", "/home/a")]),
            true,
            true
        ),
        "/cfg/dotenvage/dotenvage.key"
    );
    let home = view(&[("HOME", "/home/a")]);
    assert_eq!(
        SecretManager::default_key_path(&home, false, false),
        "/home/a/.local/state/dotenvage/dotenvage.key"
    );
    assert_eq!(
        SecretManager::default_key_path(&home, true, true),
        "/home/a/.local/state/dotenvage/dotenvage.key"
    );
    assert_eq!(
        SecretManager::default_key_path(&home, false, true),
        "/home/a/.config/dotenvage/dotenvage.key"
    );
    assert_eq!(
        SecretManager::default_key_path(&view(&[]), false, true),
        "./dotenvage/dotenvage.key"
    );
    assert_eq!(
        SecretManager::default_key_path(&view(&[("HOME", "")]), false, false),
        ".local/state/dotenvage/dotenvage.key"
    );
}

#[test]
fn key_name_is_discovered_from_base_then_local() {
    let both = vec![
        file(".env.local", "AGE_KEY_NAME=from_local\n"),
        file(".ENV", "AGE_KEY_NAME = from_base \n"),
    ];
    assert_eq!(SecretManager::discover_key_name(&both).as_deref(), Some("from_base"));
    let local = vec![file(".env", "OTHER=1\n"), file(".env.local", "AGE_KEY_NAME=from_local\n")];
    assert_eq!(SecretManager::discover_key_name(&local).as_deref(), Some("from_local"));
    let blank = vec![file(".env", "AGE_KEY_NAME=\n")];
    assert_eq!(SecretManager::discover_key_name(&blank), None);
    let unreadable = vec![FileEntry {
        name: ".env".into(),
        path: ".env".into(),
        read: FileRead::Failed("gone".into()),
    }];
    assert_eq!(SecretManager::discover_key_name(&unreadable), None);
    assert_eq!(SecretManager::discover_key_name(&Vec::new()), None);
}

#[test]
fn loader_new_takes_the_identity_from_the_view() {
    let manager = SecretManager::generate().unwrap();
    let env = view(&[("DOTENVAGE_AGE_KEY", &manager.identity_string())]);
    let loader = EnvLoader::new(&env, None).unwrap();
    let sealed = manager.encrypt_value("x").unwrap();
    assert_eq!(loader.secrets().decrypt_value(&sealed).unwrap(), "x");
    assert!(EnvLoader::new(&VarMap::new(), None).is_err());
}
