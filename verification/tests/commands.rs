use dotenvage::commands::{
    decrypt_for_edit, display_value, dump_keys, dump_vars, encrypt_selected, encrypted_among,
    env_file_text, find_last, get_value, join_lines, list_entry_line, parse_pair, section_head,
    select_keys, set_value, sorted_keys,
};
use dotenvage::{CommandError, DumpOptions, SecretManager, VarMap};

fn view(pairs: &[(&str, &str)]) -> VarMap {
    let mut m = VarMap::new();
    for (k, v) in pairs {
        m.insert(k.to_string(), v.to_string());
    }
    m
}

fn strings(v: &[&str]) -> Vec<String> {
    v.iter().map(|s| s.to_string()).collect()
}

fn plain() -> DumpOptions {
    DumpOptions { bash: false, make: false, make_eval: false, export: false }
}

#[test]
fn keys_are_sorted_by_name() {
    let m = view(&[("b", "1"), ("B", "2"), ("a", "3"), ("C", "4"), ("", "5")]);
    assert_eq!(sorted_keys(&m), vec!["", "B", "C", "a", "b"]);
    assert_eq!(sorted_keys(&VarMap::new()), Vec::<String>::new());
}

#[test]
fn selection_of_keys_to_encrypt() {
    let m = view(&[("PORT", "1"), ("API_TOKEN", "t"), ("NAME", "n"), ("db_password", "p")]);
    assert_eq!(
        select_keys(&m, Some(strings(&["X", "PORT"])), false).unwrap(),
        vec!["X", "PORT"]
    );
    assert_eq!(select_keys(&m, Some(Vec::new()), true).unwrap(), Vec::<String>::new());
    assert_eq!(select_keys(&m, None, true).unwrap(), vec!["API_TOKEN", "db_password"]);
    match select_keys(&m, None, false) {
        Err(e @ CommandError::NothingSelected) => {
            assert_eq!(e.to_string(), "Either --keys or --auto must be specified")
        }
        _ => panic!("expected NothingSelected"),
    }
}

#[test]
fn encrypting_selected_keys() {
    let manager = SecretManager::generate().unwrap();
    let already = manager.encrypt_value("old").unwrap();
    let m = view(&[("A", "plain a"), ("B", &already), ("C", "plain c"), ("D", "")]);
    let keys = strings(&["C", "B", "MISSING", "C", "D"]);
    let (out, changed) = encrypt_selected(&manager, m, &keys).unwrap();
    assert_eq!(changed, vec!["C", "D"]);
    assert_eq!(out.keys(), vec!["A", "B", "C", "D"]);
    assert_eq!(out.get("A").unwrap(), "plain a");
    assert_eq!(out.get("B").unwrap(), &already);
    assert!(SecretManager::is_encrypted(out.get("C").unwrap()));
    assert_eq!(manager.decrypt_value(out.get("C").unwrap()).unwrap(), "plain c");
    assert_eq!(manager.decrypt_value(out.get("D").unwrap()).unwrap(), "");
    assert_eq!(encrypted_among(&out, &keys), vec!["C", "B", "C", "D"]);
    assert_eq!(encrypted_among(&out, &strings(&["A", "MISSING"])), Vec::<String>::new());
}

#[test]
fn decrypting_for_an_edit_and_sealing_again() {
    let manager = SecretManager::generate().unwrap();
    let a = manager.encrypt_value("secret a").unwrap();
    let c = manager.encrypt_value("secret c").unwrap();
    let m = view(&[("A", &a), ("B", "plain"), ("C", &c)]);
    let (open, sealed) = decrypt_for_edit(&manager, &m).unwrap();
    assert_eq!(sealed, vec!["A", "C"]);
    assert_eq!(open.get("A").unwrap(), "secret a");
    assert_eq!(open.get("B").unwrap(), "plain");
    assert_eq!(open.get("C").unwrap(), "secret c");
    let mut edited = open.duplicate();
    edited.insert("A".into(), "changed".into());
    let (back, changed) = encrypt_selected(&manager, edited, &sealed).unwrap();
    assert_eq!(changed, vec!["A", "C"]);
    assert_eq!(back.get("B").unwrap(), "plain");
    assert_eq!(manager.decrypt_value(back.get("A").unwrap()).unwrap(), "changed");
    assert_eq!(manager.decrypt_value(back.get("C").unwrap()).unwrap(), "secret c");
}

#[test]
fn decrypting_for_an_edit_fails_on_a_foreign_value() {
    let manager = SecretManager::generate().unwrap();
    let other = SecretManager::generate().unwrap();
    let foreign = other.encrypt_value("x").unwrap();
    let m = view(&[("OK", "1"), ("FOREIGN", &foreign)]);
    match decrypt_for_edit(&manager, &m) {
        Err(e @ CommandError::DecryptFailed { .. }) => {
            assert_eq!(e.to_string(), "Failed to decrypt FOREIGN")
        }
        _ => panic!("expected DecryptFailed"),
    }
}

#[test]
fn pairs_are_cut_at_the_first_equals() {
    assert_eq!(parse_pair("K=v").unwrap(), ("K".to_string(), "v".to_string()));
    assert_eq!(parse_pair("K=a=b").unwrap(), ("K".to_string(), "a=b".to_string()));
    assert_eq!(parse_pair(" K = v ").unwrap(), (" K ".to_string(), " v ".to_string()));
    assert_eq!(parse_pair("=").unwrap(), (String::new(), String::new()));
    match parse_pair("no equals") {
        Err(e @ CommandError::InvalidPair) => assert_eq!(e.to_string(), "Invalid KEY=VALUE format"),
        _ => panic!("expected InvalidPair"),
    }
    assert!(parse_pair("").is_err());
}

#[test]
fn setting_a_value_encrypts_sensitive_names() {
    let manager = SecretManager::generate().unwrap();
    let mut m = view(&[("PORT", "1")]);
    assert_eq!(set_value(&manager, &mut m, "PORT", "8080").unwrap(), false);
    assert_eq!(m.get("PORT").unwrap(), "8080");
    assert_eq!(set_value(&manager, &mut m, "API_TOKEN", "tok").unwrap(), true);
    assert_eq!(manager.decrypt_value(m.get("API_TOKEN").unwrap()).unwrap(), "tok");
    assert_ne!(m.get("API_TOKEN").unwrap(), "tok");
    let sealed = manager.encrypt_value("given").unwrap();
    assert_eq!(set_value(&manager, &mut m, "NOTE", &sealed).unwrap(), true);
    assert_eq!(m.get("NOTE").unwrap(), &sealed);
    assert_eq!(m.keys(), vec!["PORT", "API_TOKEN", "NOTE"]);
}

#[test]
fn the_last_file_that_holds_a_key_decides() {
    let manager = SecretManager::generate().unwrap();
    let sealed = manager.encrypt_value("deep").unwrap();
    let files = vec![
        view(&[("A", "1"), ("B", "1")]),
        view(&[("A", "2"), ("S", &sealed)]),
        view(&[("C", "3")]),
    ];
    assert_eq!(find_last(&files, "A").as_deref(), Some("2"));
    assert_eq!(find_last(&files, "B").as_deref(), Some("1"));
    assert_eq!(find_last(&files, "C").as_deref(), Some("3"));
    assert_eq!(find_last(&files, "D"), None);
    assert_eq!(find_last(&Vec::new(), "A"), None);
    assert_eq!(get_value(&manager, &files, "A").unwrap(), "2");
    assert_eq!(get_value(&manager, &files, "S").unwrap(), "deep");
    match get_value(&manager, &files, "D") {
        Err(e @ CommandError::KeyNotFound { .. }) => {
            assert_eq!(e.to_string(), "Key 'D' not found in any .env* file")
        }
        _ => panic!("expected KeyNotFound"),
    }
    let stranger = SecretManager::generate().unwrap();
    assert!(matches!(
        get_value(&stranger, &files, "S"),
        Err(CommandError::DecryptFailed { .. })
    ));
}

#[test]
fn what_is_shown_for_a_value() {
    let manager = SecretManager::generate().unwrap();
    let sealed = manager.encrypt_value("hidden").unwrap();
    assert_eq!(display_value(&manager, "plain"), "plain");
    assert_eq!(display_value(&manager, &sealed), "hidden");
    assert_eq!(display_value(&manager, "ENC[AGE:b64:???]"), "<decryption failed>");
    assert_eq!(display_value(&manager, "ENC[AGE:b64:unclosed"), "ENC[AGE:b64:unclosed");
}

#[test]
fn list_lines() {
    let manager = SecretManager::generate().unwrap();
    let sealed = manager.encrypt_value("hidden").unwrap();
    assert_eq!(list_entry_line(&manager, "K", "v", true, true), "K = v");
    assert_eq!(list_entry_line(&manager, "K", &sealed, true, true), "K = hidden");
    assert_eq!(list_entry_line(&manager, "K", "v", true, false), "   K = v");
    assert_eq!(
        list_entry_line(&manager, "K", &sealed, true, false),
        "\u{1F512} K = hidden"
    );
    assert_eq!(list_entry_line(&manager, "K", "v", false, true), "K");
    assert_eq!(list_entry_line(&manager, "K", &sealed, false, true), "K");
    assert_eq!(list_entry_line(&manager, "K", "v", false, false), "   K");
    assert_eq!(list_entry_line(&manager, "K", &sealed, false, false), "\u{1F512} K");
}

#[test]
fn dumping_variables() {
    let manager = SecretManager::generate().unwrap();
    let sealed = manager.encrypt_value("hid den").unwrap();
    let m = view(&[("Z", "last"), ("AGE_KEY", "never"), ("S", &sealed), ("A", "")]);
    assert_eq!(
        dump_vars(&manager, &m, plain()).unwrap(),
        vec!["A=\"\"", "S=\"hid den\"", "Z=last"]
    );
    assert_eq!(
        dump_keys(&manager, &m, &strings(&["Z", "NOPE", "AGE_KEY", "Z"]), plain()).unwrap(),
        vec!["Z=last", "Z=last"]
    );
    let make = DumpOptions { bash: false, make: true, make_eval: false, export: true };
    assert_eq!(
        dump_vars(&manager, &m, make).unwrap(),
        vec!["export A := ", "export S := hid den", "export Z := last"]
    );
    let stranger = SecretManager::generate().unwrap();
    match dump_vars(&stranger, &m, plain()) {
        Err(e @ CommandError::DecryptFailed { .. }) => {
            assert_eq!(e.to_string(), "Failed to decrypt S")
        }
        _ => panic!("expected DecryptFailed"),
    }
    assert_eq!(dump_vars(&manager, &VarMap::new(), plain()).unwrap(), Vec::<String>::new());
}

#[test]
fn section_heads() {
    assert_eq!(section_head(".env", true, plain()), vec!["# .env"]);
    assert_eq!(section_head(".env.local", false, plain()), vec!["", "# .env.local"]);
    let make = DumpOptions { bash: false, make: true, make_eval: false, export: false };
    assert_eq!(section_head(".env", true, make), Vec::<String>::new());
    assert_eq!(section_head(".env", false, make), Vec::<String>::new());
    let eval = DumpOptions { bash: true, make: false, make_eval: true, export: false };
    assert_eq!(section_head(".env", false, eval), Vec::<String>::new());
}

#[test]
fn text_of_an_environment_file() {
    let m = view(&[("B", "two words"), ("A", "1"), ("C", "say \"x\" $y")]);
    assert_eq!(
        env_file_text(&m),
        "A=1\nB=\"two words\"\nC=\"say \\\"x\\\" $y\"\n"
    );
    assert_eq!(env_file_text(&VarMap::new()), "");
    assert_eq!(join_lines(&strings(&["a", "", "b"])), "a\n\nb\n");
    assert_eq!(join_lines(&Vec::new()), "");
}

#[test]
fn encrypt_failure_names_the_key() {
    let e = CommandError::EncryptFailed {
        key: "TOKEN".into(),
        cause: dotenvage::SecretsError::EncryptionFailed("x".into()),
    };
    assert_eq!(e.to_string(), "Failed to encrypt TOKEN");
}
