//! Where the identity comes from.
//!
//! The identity is taken from the first source that spells one: the
//! variables `DOTENVAGE_AGE_KEY`, `AGE_KEY` and `EKG_AGE_KEY` of the
//! configuration view, in that order, and then the text of the key file. The
//! key file lies under a base directory chosen from the view, at a relative
//! name that the view may set with `AGE_KEY_NAME`.

use crate::candidates::{find_name, names_of, FileEntry, FileRead};
use crate::error::SecretsError;
use crate::loader::EnvLoader;
use crate::manager::{identity_valid, SecretManager};
use crate::parser::plain_vars;
use crate::text::{append_str, from_chars, to_chars, trim, trim_chars};
use crate::varmap::VarMap;
use vstd::prelude::*;

verus! {

/// The text of the variable `key` of the view, as a source of its own, where
/// the view holds it.
pub open spec fn variable_source(env: Map<Seq<char>, Seq<char>>, key: Seq<char>) -> Seq<
    Seq<char>,
> {
    if env.contains_key(key) {
        seq![env[key]]
    } else {
        Seq::empty()
    }
}

/// The view of an optional string slice.
pub open spec fn slice_of(s: Option<&str>) -> Option<Seq<char>> {
    match s {
        Some(t) => Some(t@),
        None => None,
    }
}

/// The sources that an identity may come from, in order of priority.
pub open spec fn identity_sources(env: Map<Seq<char>, Seq<char>>, key_file: Option<Seq<char>>)
    -> Seq<Seq<char>> {
    variable_source(env, "DOTENVAGE_AGE_KEY"@) + variable_source(env, "AGE_KEY"@)
        + variable_source(env, "EKG_AGE_KEY"@) + match key_file {
        Some(t) => seq![t],
        None => Seq::empty(),
    }
}

/// The first of `sources`, at or after `from`, that spells an identity.
pub open spec fn first_identity(sources: Seq<Seq<char>>, from: int) -> Option<Seq<char>>
    decreases sources.len() - from,
{
    if from < 0 || from >= sources.len() {
        None
    } else if identity_valid(sources[from]) {
        Some(sources[from])
    } else {
        first_identity(sources, from + 1)
    }
}

/// The message reported where there is no source at all.
pub open spec fn no_key_message() -> Seq<char> {
    "no key found (DOTENVAGE_AGE_KEY, AGE_KEY, EKG_AGE_KEY, or default key file)"@
}

/// The relative name of the key file, without its extension: the trimmed
/// value of `AGE_KEY_NAME` where the view sets one that is not blank, else
/// `dotenvage/dotenvage`.
pub open spec fn key_name_of(env: Map<Seq<char>, Seq<char>>) -> Seq<char> {
    if env.contains_key("AGE_KEY_NAME"@) && trim(env["AGE_KEY_NAME"@]).len() > 0 {
        trim(env["AGE_KEY_NAME"@])
    } else {
        "dotenvage/dotenvage"@
    }
}

/// `rest` below the directory `base`: joined with one `/`, unless `base` is
/// empty or ends with `/` already.
pub open spec fn below(base: Seq<char>, rest: Seq<char>) -> Seq<char> {
    if base.len() == 0 || base.last() == '/' {
        base + rest
    } else {
        base + "/"@ + rest
    }
}

/// Whether the view sets `key` to a value that is not empty.
pub open spec fn is_given(env: Map<Seq<char>, Seq<char>>, key: Seq<char>) -> bool {
    env.contains_key(key) && env[key].len() > 0
}

/// The directory that key files lie under: `XDG_STATE_HOME`, else
/// `XDG_CONFIG_HOME`, where set and not empty; else, below `HOME`,
/// `.local/state`, or `.config` where only the configuration directory
/// exists; else the working directory.
pub open spec fn key_base(
    env: Map<Seq<char>, Seq<char>>,
    state_exists: bool,
    config_exists: bool,
) -> Seq<char> {
    if is_given(env, "XDG_STATE_HOME"@) {
        env["XDG_STATE_HOME"@]
    } else if is_given(env, "XDG_CONFIG_HOME"@) {
        env["XDG_CONFIG_HOME"@]
    } else if env.contains_key("HOME"@) {
        if state_exists || !config_exists {
            below(env["HOME"@], ".local/state"@)
        } else {
            below(env["HOME"@], ".config"@)
        }
    } else {
        "."@
    }
}

/// The path of the key file.
pub open spec fn key_path(env: Map<Seq<char>, Seq<char>>, state_exists: bool, config_exists: bool)
    -> Seq<char> {
    below(key_base(env, state_exists, config_exists), key_name_of(env) + ".key"@)
}

/// The key name that one file reveals: the trimmed plaintext value that it
/// assigns to `AGE_KEY_NAME`, where it is not blank.
pub open spec fn key_name_in(read: FileRead) -> Option<Seq<char>> {
    match read {
        FileRead::Text(c) => {
            let plain = plain_vars(c@);
            if plain.contains_key("AGE_KEY_NAME"@) && trim(plain["AGE_KEY_NAME"@]).len() > 0 {
                Some(trim(plain["AGE_KEY_NAME"@]))
            } else {
                None
            }
        },
        FileRead::Failed(_) => None,
    }
}

/// The key name that the file answering to `name` reveals.
pub open spec fn key_name_from(dir: Seq<FileEntry>, name: Seq<char>) -> Option<Seq<char>> {
    match find_name(names_of(dir), name, 0) {
        Some(i) => if 0 <= i < dir.len() {
            key_name_in(dir[i].read)
        } else {
            None
        },
        None => None,
    }
}

/// The key name that the directory reveals: what `.env` gives, else what
/// `.env.local` gives.
pub open spec fn discovered_key_name(dir: Seq<FileEntry>) -> Option<Seq<char>> {
    match key_name_from(dir, ".env"@) {
        Some(n) => Some(n),
        None => key_name_from(dir, ".env.local"@),
    }
}

/// `rest` below the directory `base`.
fn join_below(base: &str, rest: &str) -> (r: Vec<char>)
    ensures
        r@ == below(base@, rest@),
{
    let mut out = to_chars(base);
    if out.len() > 0 && out[out.len() - 1] != '/' {
        append_str(&mut out, "/");
    }
    append_str(&mut out, rest);
    out
}

impl SecretManager {
    /// A manager for the first source that spells an identity: the
    /// variables `DOTENVAGE_AGE_KEY`, `AGE_KEY` and `EKG_AGE_KEY` of the view
    /// `env`, in that order, then the text of the key file. Fails with
    /// `KeyLoadFailed` exactly where no source spells one.
    pub fn load_key(env: &VarMap, key_file: Option<&str>) -> (r: Result<
        SecretManager,
        SecretsError,
    >)
        ensures
            match first_identity(identity_sources(env@, slice_of(key_file)), 0) {
                Some(k) => r matches Ok(m) && m.key() == k,
                None => r matches Err(SecretsError::KeyLoadFailed(m)) && (identity_sources(
                    env@,
                    slice_of(key_file),
                ).len() == 0 ==> m@ == no_key_message()),
            },
    {
        let mut sources: Vec<String> = Vec::new();
        let ghost all = identity_sources(env@, slice_of(key_file));
        match env.get("DOTENVAGE_AGE_KEY") {
            Some(v) => {
                sources.push(v.clone());
            },
            None => {},
        }
        match env.get("AGE_KEY") {
            Some(v) => {
                sources.push(v.clone());
            },
            None => {},
        }
        match env.get("EKG_AGE_KEY") {
            Some(v) => {
                sources.push(v.clone());
            },
            None => {},
        }
        match key_file {
            Some(t) => {
                sources.push(t.to_owned());
            },
            None => {},
        }
        assert(crate::candidates::texts(sources@) == all);
        let mut failure: Option<SecretsError> = None;
        let mut i: usize = 0;
        while i < sources.len()
            invariant
                i <= sources@.len(),
                crate::candidates::texts(sources@) == all,
                all == identity_sources(env@, slice_of(key_file)),
                first_identity(all, 0) == first_identity(all, i as int),
                i > 0 ==> failure matches Some(SecretsError::KeyLoadFailed(_)),
                i == 0 ==> failure is None,
            decreases sources.len() - i,
        {
            assert(all[i as int] == sources@[i as int]@);
            match SecretManager::from_identity(sources[i].as_str()) {
                Ok(m) => {
                    return Ok(m);
                },
                Err(e) => {
                    if failure.is_none() {
                        failure = Some(e);
                    }
                },
            }
            i += 1;
        }
        match failure {
            Some(e) => Err(e),
            None => Err(
                SecretsError::KeyLoadFailed(
                    "no key found (DOTENVAGE_AGE_KEY, AGE_KEY, EKG_AGE_KEY, or default key file)".to_owned(),
                ),
            ),
        }
    }

    /// A manager for the first source that spells an identity, as
    /// `load_key` finds it.
    pub fn new(env: &VarMap, key_file: Option<&str>) -> (r: Result<SecretManager, SecretsError>)
        ensures
            match first_identity(identity_sources(env@, slice_of(key_file)), 0) {
                Some(k) => r matches Ok(m) && m.key() == k,
                None => r matches Err(SecretsError::KeyLoadFailed(m)) && (identity_sources(
                    env@,
                    slice_of(key_file),
                ).len() == 0 ==> m@ == no_key_message()),
            },
    {
        SecretManager::load_key(env, key_file)
    }

    /// The relative name of the key file, without its extension.
    pub fn key_name(env: &VarMap) -> (r: String)
        ensures
            r@ == key_name_of(env@),
    {
        match env.get("AGE_KEY_NAME") {
            Some(v) => {
                let raw = to_chars(v.as_str());
                let name = trim_chars(raw.as_slice());
                if name.len() > 0 {
                    return from_chars(name.as_slice());
                }
            },
            None => {},
        }
        "dotenvage/dotenvage".to_owned()
    }

    /// The key name that the directory reveals, for a view that sets none:
    /// the plaintext `AGE_KEY_NAME` of `.env`, else that of `.env.local`.
    pub fn discover_key_name(dir: &Vec<FileEntry>) -> (r: Option<String>)
        ensures
            crate::dimension::text_of(r) == discovered_key_name(dir@),
    {
        match SecretManager::key_name_in_file(dir, ".env") {
            Some(n) => Some(n),
            None => SecretManager::key_name_in_file(dir, ".env.local"),
        }
    }

    /// The key name that the file answering to `name` reveals.
    fn key_name_in_file(dir: &Vec<FileEntry>, name: &str) -> (r: Option<String>)
        ensures
            crate::dimension::text_of(r) == key_name_from(dir@, name@),
    {
        match EnvLoader::find_file_case_insensitive(dir, name) {
            Some(i) => match &dir[i].read {
                FileRead::Text(c) => {
                    let plain = EnvLoader::plaintext_entries(c.as_str());
                    match plain.get("AGE_KEY_NAME") {
                        Some(v) => {
                            let raw = to_chars(v.as_str());
                            let found = trim_chars(raw.as_slice());
                            if found.len() > 0 {
                                Some(from_chars(found.as_slice()))
                            } else {
                                None
                            }
                        },
                        None => None,
                    }
                },
                FileRead::Failed(_) => None,
            },
            None => None,
        }
    }

    /// The path of the key file under the view `env`. `state_exists` and
    /// `config_exists` say whether the state and the configuration directory
    /// of this library exist below `HOME`.
    pub fn default_key_path(env: &VarMap, state_exists: bool, config_exists: bool) -> (r: String)
        ensures
            r@ == key_path(env@, state_exists, config_exists),
    {
        let name = SecretManager::key_name(env);
        let mut file = to_chars(name.as_str());
        append_str(&mut file, ".key");
        let rest = from_chars(file.as_slice());
        let base: Vec<char> = match SecretManager::given(env, "XDG_STATE_HOME") {
            Some(p) => to_chars(p.as_str()),
            None => match SecretManager::given(env, "XDG_CONFIG_HOME") {
                Some(p) => to_chars(p.as_str()),
                None => match env.get("HOME") {
                    Some(home) => {
                        if state_exists || !config_exists {
                            join_below(home.as_str(), ".local/state")
                        } else {
                            join_below(home.as_str(), ".config")
                        }
                    },
                    None => to_chars("."),
                },
            },
        };
        let base_text = from_chars(base.as_slice());
        let path = join_below(base_text.as_str(), rest.as_str());
        from_chars(path.as_slice())
    }

    /// The value of `key` in the view, where it is set and not empty.
    fn given<'a>(env: &'a VarMap, key: &str) -> (r: Option<&'a String>)
        ensures
            match r {
                Some(v) => is_given(env@, key@) && v@ == env@[key@],
                None => !is_given(env@, key@),
            },
    {
        match env.get(key) {
            Some(v) => {
                let n = v.as_str().unicode_len();
                if n > 0 {
                    Some(v)
                } else {
                    None
                }
            },
            None => None,
        }
    }
}

impl EnvLoader {
    /// A loader with the identity that `SecretManager::load_key` finds.
    pub fn new(env: &VarMap, key_file: Option<&str>) -> (r: Result<EnvLoader, SecretsError>)
        ensures
            match first_identity(identity_sources(env@, slice_of(key_file)), 0) {
                Some(k) => r matches Ok(l) && l.key() == k,
                None => r matches Err(SecretsError::KeyLoadFailed(m)) && (identity_sources(
                    env@,
                    slice_of(key_file),
                ).len() == 0 ==> m@ == no_key_message()),
            },
    {
        match SecretManager::load_key(env, key_file) {
            Ok(m) => Ok(EnvLoader::with_manager(m)),
            Err(e) => Err(e),
        }
    }
}

} // verus!
