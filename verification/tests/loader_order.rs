use dotenvage::{EnvLoader, FileEntry, FileRead, SecretManager, VarMap};

fn view(pairs: &[(&str, &str)]) -> VarMap {
    let mut m = VarMap::new();
    for (k, v) in pairs {
        m.insert(k.to_string(), v.to_string());
    }
    m
}

fn dir(names: &[&str]) -> Vec<FileEntry> {
    names
        .iter()
        .map(|n| FileEntry {
            name: n.to_string(),
            path: format!("/work/{}", n),
            read: FileRead::Text(String::new()),
        })
        .collect()
}

fn names(paths: Vec<String>) -> Vec<String> {
    paths
        .into_iter()
        .map(|p| p.rsplit('/').next().unwrap().to_string())
        .collect()
}

#[test]
fn order_no_env_uses_local() {
    let got = names(EnvLoader::resolve_env_paths(&view(&[]), &dir(&[".env", ".env.local"])));
    assert_eq!(got, vec![".env", ".env.local"]);
}

#[test]
fn order_env_prod() {
    let env = view(&[("DOTENVAGE_ENV", "prod")]);
    let got = names(EnvLoader::resolve_env_paths(&env, &dir(&[".env", ".env.prod"])));
    assert_eq!(got, vec![".env", ".env.prod"]);
}

#[test]
fn order_env_arch() {
    let env = view(&[("EKG_ENV", "prod"), ("DOTENVAGE_ARCH", "docker-s3")]);
    let files = dir(&[".env", ".env.prod", ".env.prod.docker-s3"]);
    let got = names(EnvLoader::resolve_env_paths(&env, &files));
    assert_eq!(got, vec![".env", ".env.prod", ".env.prod.docker-s3"]);
}

#[test]
fn order_user_and_arch() {
    let env = view(&[
        ("DOTENVAGE_ENV", "prod"),
        ("DOTENVAGE_ARCH", "docker-s3"),
        ("DOTENVAGE_USER", "alice"),
    ]);
    let files = dir(&[".env", ".env.prod", ".env.prod.alice", ".env.prod.docker-s3.alice"]);
    let got = names(EnvLoader::resolve_env_paths(&env, &files));
    assert_eq!(
        got,
        vec![".env", ".env.prod", ".env.prod.alice", ".env.prod.docker-s3.alice"]
    );
}

#[test]
fn order_github_pr_number() {
    let env = view(&[("GITHUB_EVENT_NAME", "pull_request"), ("PR_NUMBER", "123")]);
    let got = names(EnvLoader::resolve_env_paths(&env, &dir(&[".env", ".env.pr-123"])));
    assert_eq!(got, vec![".env", ".env.pr-123"]);
}

#[test]
fn order_github_ref_parsing() {
    let env = view(&[
        ("GITHUB_EVENT_NAME", "pull_request"),
        ("GITHUB_REF", "refs/pull/456/merge"),
    ]);
    let got = names(EnvLoader::resolve_env_paths(&env, &dir(&[".env", ".env.pr-456"])));
    assert_eq!(got, vec![".env", ".env.pr-456"]);
}

#[test]
fn ref_without_event_marker_selects_no_pr_file() {
    let env = view(&[("GITHUB_REF", "refs/pull/456/merge")]);
    assert_eq!(EnvLoader::resolve_pr_number(&env), None);
    let got = names(EnvLoader::resolve_env_paths(&env, &dir(&[".env", ".env.pr-456"])));
    assert_eq!(got, vec![".env"]);
    let pushed = view(&[
        ("GITHUB_EVENT_NAME", "push"),
        ("GITHUB_REF", "refs/pull/456/merge"),
        ("PR_NUMBER", "456"),
    ]);
    assert_eq!(EnvLoader::resolve_pr_number(&pushed), None);
    let got = names(EnvLoader::resolve_env_paths(&pushed, &dir(&[".env", ".env.pr-456"])));
    assert_eq!(got, vec![".env"]);
    let d = EnvLoader::resolve_dimensions(&env);
    assert_eq!(d.pr, None);
    assert_eq!(EnvLoader::candidate_names(&d), vec![".env", ".env.local"]);
}

#[test]
fn case_insensitive_and_separators() {
    let env = view(&[
        ("DOTENVAGE_ENV", "PrOd"),
        ("DOTENVAGE_ARCH", "DoCkEr-S3"),
        ("DOTENVAGE_USER", "AlIcE"),
    ]);
    let files = dir(&[".ENV", ".ENV.PROD", ".ENV.PROD.DOCKER-S3.ALICE"]);
    let got = names(EnvLoader::resolve_env_paths(&env, &files));
    assert_eq!(got, vec![".ENV", ".ENV.PROD", ".ENV.PROD.DOCKER-S3.ALICE"]);
}

#[test]
fn upper_case_file_answers_to_lower_case_candidate() {
    let files = dir(&["README", ".ENV.PROD", ".env.prod"]);
    assert_eq!(EnvLoader::find_file_case_insensitive(&files, ".env.prod"), Some(1));
    assert_eq!(EnvLoader::find_file_case_insensitive(&files, ".Env.Prod"), Some(1));
    assert_eq!(EnvLoader::find_file_case_insensitive(&files, ".env"), None);
    assert_eq!(EnvLoader::find_file_case_insensitive(&Vec::new(), ".env"), None);
}

#[test]
fn precedence_of_local_over_base() {
    let loader = EnvLoader::with_manager(SecretManager::generate().unwrap());
    let files = vec![
        FileEntry {
            name: ".env".into(),
            path: ".env".into(),
            read: FileRead::Text("A=1\nB=base\n".into()),
        },
        FileEntry {
            name: ".env.local".into(),
            path: ".env.local".into(),
            read: FileRead::Text("A=2\n".into()),
        },
    ];
    let (vars, order) = loader.collect_all_vars_from_dir(&view(&[]), &files).unwrap();
    assert_eq!(order, vec![".env", ".env.local"]);
    assert_eq!(vars.get("A").map(|s| s.as_str()), Some("2"));
    assert_eq!(vars.get("B").map(|s| s.as_str()), Some("base"));
    assert_eq!(vars.len(), 2);
}

#[test]
fn power_set_has_every_subset_in_counting_order() {
    let env = view(&[
        ("DOTENVAGE_ENV", "local"),
        ("DOTENVAGE_OS", "linux"),
        ("DOTENVAGE_ARCH", "amd64"),
        ("DOTENVAGE_USER", "alice"),
    ]);
    let d = EnvLoader::resolve_dimensions(&env);
    assert_eq!(
        EnvLoader::candidate_names(&d),
        vec![
            ".env",
            ".env.local",
            ".env.linux",
            ".env.local.linux",
            ".env.amd64",
            ".env.local.amd64",
            ".env.linux.amd64",
            ".env.local.linux.amd64",
            ".env.alice",
            ".env.local.alice",
            ".env.linux.alice",
            ".env.local.linux.alice",
            ".env.amd64.alice",
            ".env.local.amd64.alice",
            ".env.linux.amd64.alice",
            ".env.local.linux.amd64.alice",
        ]
    );
}

#[test]
fn power_set_with_all_five_axes_has_thirty_one_subsets() {
    let env = view(&[
        ("DOTENVAGE_ENV", "e"),
        ("DOTENVAGE_OS", "o"),
        ("DOTENVAGE_ARCH", "a"),
        ("DOTENVAGE_USER", "u"),
        ("DOTENVAGE_VARIANT", "v"),
        ("GITHUB_EVENT_NAME", "pull_request"),
        ("GITHUB_REF", "refs/pull/7/merge"),
    ]);
    let c = EnvLoader::candidate_names(&EnvLoader::resolve_dimensions(&env));
    assert_eq!(c.len(), 1 + 31 + 1);
    assert_eq!(c[0], ".env");
    assert_eq!(c[1], ".env.e");
    assert_eq!(c[16], ".env.v");
    assert_eq!(c[17], ".env.e.v");
    assert_eq!(c[31], ".env.e.o.a.u.v");
    assert_eq!(c[32], ".env.pr-7");
    let mut seen = c.clone();
    seen.sort();
    seen.dedup();
    assert_eq!(seen.len(), c.len());
}

#[test]
fn power_set_completeness_for_env_arch_user() {
    let env = view(&[
        ("DOTENVAGE_ENV", "prod"),
        ("DOTENVAGE_ARCH", "amd64"),
        ("DOTENVAGE_USER", "alice"),
    ]);
    let files = dir(&[".env.prod.amd64.alice", ".env.prod.alice", ".env.prod"]);
    let got = names(EnvLoader::resolve_env_paths(&env, &files));
    assert_eq!(got, vec![".env.prod", ".env.prod.alice", ".env.prod.amd64.alice"]);
    let d = EnvLoader::resolve_dimensions(&env);
    assert_eq!(
        EnvLoader::candidate_names(&d),
        vec![
            ".env",
            ".env.prod",
            ".env.amd64",
            ".env.prod.amd64",
            ".env.alice",
            ".env.prod.alice",
            ".env.amd64.alice",
            ".env.prod.amd64.alice",
        ]
    );
}

#[test]
fn unresolved_axes_give_no_candidates() {
    let d = EnvLoader::resolve_dimensions(&view(&[]));
    assert_eq!(d.env, "local");
    assert_eq!(d.os, None);
    assert_eq!(d.arch, None);
    assert_eq!(d.user, None);
    assert_eq!(d.variant, None);
    assert_eq!(d.pr, None);
    assert_eq!(EnvLoader::candidate_names(&d), vec![".env", ".env.local"]);
}

#[test]
fn pull_request_file_comes_last() {
    let env = view(&[
        ("DOTENVAGE_ENV", "ci"),
        ("GITHUB_EVENT_NAME", "pull_request_target"),
        ("GITHUB_REF", "refs/pull/9/head"),
    ]);
    let files = dir(&[".env.pr-9", ".env.ci", ".env"]);
    let got = names(EnvLoader::resolve_env_paths(&env, &files));
    assert_eq!(got, vec![".env", ".env.ci", ".env.pr-9"]);
}

#[test]
fn a_file_matched_by_two_candidates_is_listed_once() {
    let env = view(&[("DOTENVAGE_ENV", "x"), ("DOTENVAGE_USER", "X")]);
    let files = dir(&[".env", ".env.X"]);
    let d = EnvLoader::resolve_dimensions(&env);
    let c = EnvLoader::candidate_names(&d);
    assert_eq!(c, vec![".env", ".env.x", ".env.x", ".env.x.x"]);
    assert_eq!(EnvLoader::select_files(&files, &c), vec![0, 1]);
    assert_eq!(names(EnvLoader::resolve_env_paths(&env, &files)), vec![".env", ".env.X"]);
    assert_eq!(EnvLoader::resolve_env_files(&env, &files), vec![0, 1]);
}

#[test]
fn two_files_that_differ_in_case_only_first_is_taken() {
    let env = view(&[("DOTENVAGE_ENV", "prod")]);
    let files = dir(&[".ENV.PROD", ".env.prod", ".env"]);
    assert_eq!(names(EnvLoader::resolve_env_paths(&env, &files)), vec![".env", ".ENV.PROD"]);
}

#[test]
fn missing_files_are_skipped_silently() {
    let env = view(&[("DOTENVAGE_ENV", "prod"), ("DOTENVAGE_USER", "bob")]);
    assert_eq!(EnvLoader::resolve_env_paths(&env, &dir(&[])), Vec::<String>::new());
    assert_eq!(
        names(EnvLoader::resolve_env_paths(&env, &dir(&["unrelated", ".env.bob"]))),
        vec![".env.bob"]
    );
}
