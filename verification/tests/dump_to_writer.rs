use dotenvage::{EnvLoader, FileEntry, FileRead, SecretManager, VarMap};

fn dir(files: &[(&str, &str)]) -> Vec<FileEntry> {
    files
        .iter()
        .map(|(n, text)| FileEntry {
            name: n.to_string(),
            path: n.to_string(),
            read: FileRead::Text(text.to_string()),
        })
        .collect()
}

#[test]
fn test_dump_to_writer_basic() {
    let files = dir(&[
        (".env", "VAR1=value1\nVAR2=value2"),
        (".env.local", "VAR3=value3\nVAR1=overridden"),
    ]);
    let manager = SecretManager::generate().unwrap();
    let loader = EnvLoader::with_manager(manager);
    let output = loader.dump_to_string_from_dir(&VarMap::new(), &files).unwrap();
    assert!(output.contains("VAR1=overridden"));
    assert!(output.contains("VAR2=value2"));
    assert!(output.contains("VAR3=value3"));
    let lines: Vec<&str> = output.lines().collect();
    assert_eq!(lines[0], "VAR1=overridden");
    assert_eq!(lines[1], "VAR2=value2");
    assert_eq!(lines[2], "VAR3=value3");
    assert_eq!(output, "VAR1=overridden\nVAR2=value2\nVAR3=value3\n");
}

#[test]
fn test_dump_to_writer_filters_age_keys() {
    let files = dir(&[(
        ".env",
        "VAR1=value1\nDOTENVAGE_AGE_KEY=secret_key\nAGE_KEY=another_key\nVAR2=value2\nEKG_AGE_KEY=ekg_key\nAGE_KEY_NAME=mykey\nPROJECT_AGE_KEY_NAME=project_key",
    )]);
    let manager = SecretManager::generate().unwrap();
    let loader = EnvLoader::with_manager(manager);
    let output = loader.dump_to_string_from_dir(&VarMap::new(), &files).unwrap();
    assert!(
        output.contains("VAR1=value1"),
        "Output should contain VAR1=value1"
    );
    assert!(
        output.contains("VAR2=value2"),
        "Output should contain VAR2=value2"
    );
    assert!(
        !output.contains("DOTENVAGE_AGE_KEY"),
        "Should not contain DOTENVAGE_AGE_KEY"
    );
    assert!(!output.contains("AGE_KEY="), "Should not contain AGE_KEY=");
    assert!(
        !output.contains("EKG_AGE_KEY"),
        "Should not contain EKG_AGE_KEY"
    );
    assert!(
        !output.contains("AGE_KEY_NAME"),
        "Should not contain AGE_KEY_NAME"
    );
    assert!(
        !output.contains("PROJECT_AGE_KEY_NAME"),
        "Should not contain PROJECT_AGE_KEY_NAME"
    );
}

#[test]
fn test_dump_to_writer_handles_encrypted_values() {
    let manager = SecretManager::generate().unwrap();
    let encrypted = manager.encrypt_value("secret_value").unwrap();
    let text = format!("VAR1=plain\nVAR2={}", encrypted);
    let files = dir(&[(".env", text.as_str())]);
    let loader = EnvLoader::with_manager(manager);
    let output = loader.dump_to_string_from_dir(&VarMap::new(), &files).unwrap();
    assert!(output.contains("VAR1=plain"));
    assert!(output.contains("VAR2=secret_value"));
    assert!(!output.contains("age:"));
}

#[test]
fn test_dump_to_writer_quotes_special_values() {
    let files = dir(&[(
        ".env",
        "VAR1=simple\nVAR2=has spaces\nVAR3=has\"quotes\nVAR4=\nVAR5=has=equals",
    )]);
    let manager = SecretManager::generate().unwrap();
    let loader = EnvLoader::with_manager(manager);
    let output = loader.dump_to_string_from_dir(&VarMap::new(), &files).unwrap();
    assert!(output.contains("VAR1=simple"));
    assert!(output.contains("VAR2=\"has spaces\""));
    assert!(output.contains("VAR3=\"has\\\"quotes\""));
    assert!(output.contains("VAR4=\"\""));
    assert!(output.contains("VAR5=\"has=equals\""));
}
