use dotenvage::{EnvLoader, FileEntry, FileRead, SecretManager, VarMap};

fn dir(files: &[(&str, &str)]) -> Vec<FileEntry> {
    files
        .iter()
        .map(|(n, text)| FileEntry {
            name: n.to_string(),
            path: format!("/tmp/x/{}", n),
            read: FileRead::Text(text.to_string()),
        })
        .collect()
}

#[test]
fn test_get_all_variable_names() {
    let manager = SecretManager::generate().unwrap();
    let files = dir(&[
        (".env", "DATABASE_URL=postgres://localhost\nPORT=3000\n"),
        (".env.local", "API_KEY=secret123\nDEBUG=true\n"),
    ]);
    let loader = EnvLoader::with_manager(manager);
    let variable_names = loader
        .get_all_variable_names_from_dir(&VarMap::new(), &files)
        .unwrap();
    assert_eq!(variable_names.len(), 4);
    assert!(variable_names.contains(&"DATABASE_URL".to_string()));
    assert!(variable_names.contains(&"PORT".to_string()));
    assert!(variable_names.contains(&"API_KEY".to_string()));
    assert!(variable_names.contains(&"DEBUG".to_string()));
}

#[test]
fn test_get_all_variable_names_with_duplicates() {
    let manager = SecretManager::generate().unwrap();
    let files = dir(&[
        (".env", "DATABASE_URL=base\nPORT=3000\n"),
        (".env.local", "DATABASE_URL=override\nAPI_KEY=secret\n"),
    ]);
    let loader = EnvLoader::with_manager(manager);
    let variable_names = loader
        .get_all_variable_names_from_dir(&VarMap::new(), &files)
        .unwrap();
    assert_eq!(variable_names.len(), 3);
    assert!(variable_names.contains(&"DATABASE_URL".to_string()));
    assert!(variable_names.contains(&"PORT".to_string()));
    assert!(variable_names.contains(&"API_KEY".to_string()));
    assert_eq!(
        variable_names
            .iter()
            .filter(|&name| name == "DATABASE_URL")
            .count(),
        1
    );
}

#[test]
fn test_get_all_variable_names_with_encrypted_values() {
    let manager = SecretManager::generate().unwrap();
    let encrypted_secret = manager.encrypt_value("my-secret-token").unwrap();
    let text = format!("PUBLIC_VAR=not-secret\nSECRET_TOKEN={}\n", encrypted_secret);
    let files = dir(&[(".env", text.as_str())]);
    let loader = EnvLoader::with_manager(manager);
    let variable_names = loader
        .get_all_variable_names_from_dir(&VarMap::new(), &files)
        .unwrap();
    assert_eq!(variable_names.len(), 2);
    assert!(variable_names.contains(&"PUBLIC_VAR".to_string()));
    assert!(variable_names.contains(&"SECRET_TOKEN".to_string()));
}

#[test]
fn test_get_all_variable_names_empty_directory() {
    let manager = SecretManager::generate().unwrap();
    let loader = EnvLoader::with_manager(manager);
    let variable_names = loader
        .get_all_variable_names_from_dir(&VarMap::new(), &Vec::new())
        .unwrap();
    assert_eq!(variable_names.len(), 0);
    assert_eq!(
        loader.get_all_variable_names(&VarMap::new(), &Vec::new()).unwrap().len(),
        0
    );
}
