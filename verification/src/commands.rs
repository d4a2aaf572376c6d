//! The decisions behind the commands that edit and show environment files:
//! which values to encrypt, what to show for a variable, in which order.
//!
//! Every function here works on variable maps that were read and parsed
//! elsewhere, and hands back what is to be written or printed.

use crate::candidates::{texts, FileEntry};
use crate::error::SecretsError;
use crate::format::{
    dump_line, dump_simple_var, dump_single_var, env_file_line, is_age_key_name,
    is_age_key_variable, simple_line, stored_line, DumpOptions,
};
use crate::loader::{loaded, reports, EnvLoader};
use crate::manager::{decrypted, encrypted, SecretManager};
use crate::order::{ascending, sort_names};
use crate::patterns::{is_sensitive, AutoDetectPatterns};
use crate::text::{
    append_str, chars_index_of, copy_range, from_chars, index_of, to_chars, uppercase_of,
};
use crate::varmap::VarMap;
use vstd::prelude::*;

verus! {

/// Why a command could not do its work.
#[derive(Debug)]
pub enum CommandError {
    /// Neither a list of keys nor detection by name was asked for.
    NothingSelected,
    /// An assignment without `=`.
    InvalidPair,
    /// The value of this key could not be encrypted.
    EncryptFailed {
        /// The key.
        key: String,
        /// What the cipher reported.
        cause: SecretsError,
    },
    /// The value of this key could not be decrypted.
    DecryptFailed {
        /// The key.
        key: String,
        /// What the cipher reported.
        cause: SecretsError,
    },
    /// No file holds this key.
    KeyNotFound {
        /// The key.
        key: String,
    },
}

impl CommandError {
    /// The text that describes this error.
    pub open spec fn text(&self) -> Seq<char> {
        match self {
            CommandError::NothingSelected => "Either --keys or --auto must be specified"@,
            CommandError::InvalidPair => "Invalid KEY=VALUE format"@,
            CommandError::EncryptFailed { key, cause } => "Failed to encrypt "@ + key@,
            CommandError::DecryptFailed { key, cause } => "Failed to decrypt "@ + key@,
            CommandError::KeyNotFound { key } => "Key '"@ + key@ + "' not found in any .env* file"@,
        }
    }

    /// The text that describes this error.
    pub fn to_string(&self) -> (r: String)
        ensures
            r@ == self.text(),
    {
        match self {
            CommandError::NothingSelected => "Either --keys or --auto must be specified".to_owned(),
            CommandError::InvalidPair => "Invalid KEY=VALUE format".to_owned(),
            CommandError::EncryptFailed { key, cause } => {
                let mut out = to_chars("Failed to encrypt ");
                append_str(&mut out, key.as_str());
                from_chars(out.as_slice())
            },
            CommandError::DecryptFailed { key, cause } => {
                let mut out = to_chars("Failed to decrypt ");
                append_str(&mut out, key.as_str());
                from_chars(out.as_slice())
            },
            CommandError::KeyNotFound { key } => {
                let mut out = to_chars("Key '");
                append_str(&mut out, key.as_str());
                append_str(&mut out, "' not found in any .env* file");
                from_chars(out.as_slice())
            },
        }
    }
}

/// Whether `names` lists the names of the map `m`, each once.
pub open spec fn lists(names: Seq<Seq<char>>, m: Map<Seq<char>, Seq<char>>) -> bool {
    &&& names.no_duplicates()
    &&& forall|i: int| 0 <= i < names.len() ==> m.contains_key(#[trigger] names[i])
    &&& forall|k: Seq<char>| #[trigger] m.contains_key(k) ==> names.contains(k)
}

/// A sequence with one more element holds what it held before, and that
/// element.
pub proof fn lemma_push_contains(s: Seq<Seq<char>>, x: Seq<char>, k: Seq<char>)
    ensures
        s.push(x).contains(k) <==> s.contains(k) || k == x,
{
    let t = s.push(x);
    if t.contains(k) {
        let i = choose|i: int| 0 <= i < t.len() && t[i] == k;
        if i < s.len() {
            assert(s[i] == k);
        }
    }
    if s.contains(k) {
        let i = choose|i: int| 0 <= i < s.len() && s[i] == k;
        assert(t[i] == k);
    }
    if k == x {
        assert(t[s.len() as int] == k);
    }
}

/// The first `n + 1` elements of a sequence hold what the first `n` hold,
/// and the element at `n`.
pub proof fn lemma_take_contains(s: Seq<Seq<char>>, n: int, k: Seq<char>)
    requires
        0 <= n < s.len(),
    ensures
        s.take(n + 1).contains(k) <==> s.take(n).contains(k) || k == s[n],
{
    assert(s.take(n + 1) == s.take(n).push(s[n]));
    lemma_push_contains(s.take(n), s[n], k);
}

/// The names of `vars`, each once, in ascending order.
pub fn sorted_keys(vars: &VarMap) -> (r: Vec<String>)
    ensures
        lists(texts(r@), vars@),
        ascending(texts(r@)),
{
    let keys = vars.keys();
    let ghost given = texts(keys@);
    let r = sort_names(keys);
    proof {
        let got = texts(r@);
        assert(given.no_duplicates());
        given.lemma_multiset_has_no_duplicates();
        got.lemma_multiset_has_no_duplicates_conv();
        assert forall|i: int| 0 <= i < got.len() implies vars@.contains_key(
            #[trigger] got[i],
        ) by {
            vstd::seq_lib::to_multiset_contains(got, got[i]);
            vstd::seq_lib::to_multiset_contains(given, got[i]);
            assert(got.contains(got[i]));
            let j = choose|j: int| 0 <= j < given.len() && given[j] == got[i];
            assert(given[j] == keys@[j]@);
        }
        assert forall|k: Seq<char>| #[trigger] vars@.contains_key(k) implies got.contains(k) by {
            let j = choose|j: int| 0 <= j < keys@.len() && (#[trigger] keys@[j])@ == k;
            assert(given[j] == k);
            assert(given.contains(k));
            vstd::seq_lib::to_multiset_contains(got, k);
            vstd::seq_lib::to_multiset_contains(given, k);
        }
    }
    r
}

/// Whether the variable `k` is to be sealed: the map holds it in plaintext
/// and `keys` names it.
pub open spec fn to_seal(old: Map<Seq<char>, Seq<char>>, keys: Seq<Seq<char>>, k: Seq<char>)
    -> bool {
    old.contains_key(k) && keys.contains(k) && !encrypted(old[k])
}

/// Whether `cur` is `old` with the variables to be sealed under `keys`
/// encrypted: each of them is in an encrypted form that decrypts, under
/// `identity`, to the value it had; every other variable is as it was.
pub open spec fn sealed_from(
    identity: Seq<char>,
    old: Map<Seq<char>, Seq<char>>,
    cur: Map<Seq<char>, Seq<char>>,
    keys: Seq<Seq<char>>,
) -> bool {
    &&& cur.dom() == old.dom()
    &&& forall|k: Seq<char>| #[trigger]
        old.contains_key(k) ==> if to_seal(old, keys, k) {
            encrypted(cur[k]) && decrypted(identity, cur[k]) == Some(old[k])
        } else {
            cur[k] == old[k]
        }
}

/// The names among `names` that pass the test for sensitive names, in
/// order.
pub open spec fn sensitive_among(names: Seq<Seq<char>>, upto: int) -> Seq<Seq<char>>
    decreases upto,
{
    if upto <= 0 || upto > names.len() {
        Seq::empty()
    } else if is_sensitive(uppercase_of(names[upto - 1])) {
        sensitive_among(names, upto - 1).push(names[upto - 1])
    } else {
        sensitive_among(names, upto - 1)
    }
}

/// The keys to encrypt: the keys asked for, where there are any; else, with
/// detection by name, the names of `vars` that are sensitive, in the order
/// of the map; else none, which is an error.
pub fn select_keys(vars: &VarMap, keys: Option<Vec<String>>, auto: bool) -> (r: Result<
    Vec<String>,
    CommandError,
>)
    ensures
        match keys {
            Some(asked) => r matches Ok(ks) && texts(ks@) == texts(asked@),
            None => if auto {
                r matches Ok(ks) && texts(ks@) == sensitive_among(
                    names_in_order(vars),
                    names_in_order(vars).len() as int,
                )
            } else {
                r matches Err(CommandError::NothingSelected)
            },
        },
{
    match keys {
        Some(asked) => Ok(asked),
        None => {
            if !auto {
                return Err(CommandError::NothingSelected);
            }
            let names = vars.keys();
            let ghost all = names_in_order(vars);
            assert(texts(names@) == all);
            let mut out: Vec<String> = Vec::new();
            let mut i: usize = 0;
            assert(texts(out@) == sensitive_among(all, 0));
            while i < names.len()
                invariant
                    i <= names@.len(),
                    texts(names@) == all,
                    texts(out@) == sensitive_among(all, i as int),
                decreases names.len() - i,
            {
                assert(all[i as int] == names@[i as int]@);
                let ghost before = texts(out@);
                if AutoDetectPatterns::should_encrypt(names[i].as_str()) {
                    out.push(names[i].clone());
                    assert(texts(out@) == before.push(names@[i as int]@));
                }
                i += 1;
            }
            Ok(out)
        },
    }
}

/// The names of a map in the order of first insertion.
pub open spec fn names_in_order(vars: &VarMap) -> Seq<Seq<char>> {
    Seq::new(vars.pairs().len(), |i: int| vars.pairs()[i].0)
}

/// Encrypts the plaintext values of the variables that `keys` names, and
/// leaves every other variable as it is. Gives the new map and the names of
/// the variables that were encrypted, each once. Fails with `EncryptFailed`
/// where the cipher fails on one of them.
pub fn encrypt_selected(manager: &SecretManager, vars: VarMap, keys: &Vec<String>) -> (r: Result<
    (VarMap, Vec<String>),
    CommandError,
>)
    ensures
        match r {
            Ok((out, changed)) => sealed_from(manager.key(), vars@, out@, texts(keys@)) && texts(
                changed@,
            ).no_duplicates() && forall|k: Seq<char>|
                texts(changed@).contains(k) <==> to_seal(vars@, texts(keys@), k),
            Err(e) => e matches CommandError::EncryptFailed { key, cause } && to_seal(
                vars@,
                texts(keys@),
                key@,
            ) && cause is EncryptionFailed,
        },
{
    let ghost old = vars@;
    let ghost all = texts(keys@);
    let ghost id = manager.key();
    let mut cur = vars;
    let mut changed: Vec<String> = Vec::new();
    let mut i: usize = 0;
    assert(all.take(0) == Seq::<Seq<char>>::empty());
    assert(texts(changed@) == Seq::<Seq<char>>::empty());
    while i < keys.len()
        invariant
            i <= keys@.len(),
            all == texts(keys@),
            id == manager.key(),
            old == vars@,
            sealed_from(id, old, cur@, all.take(i as int)),
            texts(changed@).no_duplicates(),
            forall|k: Seq<char>|
                texts(changed@).contains(k) <==> to_seal(old, all.take(i as int), k),
        decreases keys.len() - i,
    {
        let ghost done = all.take(i as int);
        let ghost next = all.take(i + 1);
        let ghost x = keys@[i as int]@;
        let ghost before = cur@;
        let ghost listed = texts(changed@);
        assert(all[i as int] == x);
        proof {
            assert forall|k: Seq<char>| next.contains(k) <==> done.contains(k) || k == x by {
                lemma_take_contains(all, i as int, k);
            }
        }
        let plain: Option<String> = match cur.get(keys[i].as_str()) {
            Some(value) => if SecretManager::is_encrypted(value.as_str()) {
                None
            } else {
                Some(value.clone())
            },
            None => None,
        };
        match plain {
            Some(value) => {
                assert(before[x] == value@ && !encrypted(before[x]));
                assert(old.contains_key(x));
                assert(!to_seal(old, done, x));
                assert(old[x] == before[x]);
                match manager.encrypt_value(value.as_str()) {
                    Ok(c) => {
                        cur.insert(keys[i].clone(), c);
                        changed.push(keys[i].clone());
                        proof {
                            assert(texts(changed@) == listed.push(x));
                            assert(!listed.contains(x));
                            assert(cur@.dom() =~= old.dom());
                            assert forall|k: Seq<char>|
                                texts(changed@).contains(k) <==> to_seal(old, next, k) by {
                                lemma_push_contains(listed, x, k);
                            }
                        }
                    },
                    Err(e) => {
                        proof {
                            assert(all.contains(x));
                        }
                        return Err(CommandError::EncryptFailed { key: keys[i].clone(), cause: e });
                    },
                }
            },
            None => {
                proof {
                    assert(!to_seal(old, next, x) || to_seal(old, done, x)) by {
                        if old.contains_key(x) && !encrypted(old[x]) && !done.contains(x) {
                            assert(before[x] == old[x]);
                        }
                    }
                }
            },
        }
        i += 1;
    }
    assert(all.take(keys@.len() as int) == all);
    Ok((cur, changed))
}

/// The names among the first `upto` of `keys` whose value in `m` is in an
/// encrypted form, in order.
pub open spec fn sealed_among(m: Map<Seq<char>, Seq<char>>, keys: Seq<Seq<char>>, upto: int) -> Seq<
    Seq<char>,
>
    decreases upto,
{
    if upto <= 0 || upto > keys.len() {
        Seq::empty()
    } else if m.contains_key(keys[upto - 1]) && encrypted(m[keys[upto - 1]]) {
        sealed_among(m, keys, upto - 1).push(keys[upto - 1])
    } else {
        sealed_among(m, keys, upto - 1)
    }
}

/// The names among `keys` whose value in `vars` is in an encrypted form, in
/// the order of `keys`.
pub fn encrypted_among(vars: &VarMap, keys: &Vec<String>) -> (r: Vec<String>)
    ensures
        texts(r@) == sealed_among(vars@, texts(keys@), keys@.len() as int),
{
    let ghost all = texts(keys@);
    let mut out: Vec<String> = Vec::new();
    let mut i: usize = 0;
    assert(texts(out@) == sealed_among(vars@, all, 0));
    while i < keys.len()
        invariant
            i <= keys@.len(),
            all == texts(keys@),
            texts(out@) == sealed_among(vars@, all, i as int),
        decreases keys.len() - i,
    {
        assert(all[i as int] == keys@[i as int]@);
        let ghost before = texts(out@);
        let sealed = match vars.get(keys[i].as_str()) {
            Some(v) => SecretManager::is_encrypted(v.as_str()),
            None => false,
        };
        if sealed {
            out.push(keys[i].clone());
            assert(texts(out@) == before.push(keys@[i as int]@));
        }
        i += 1;
    }
    out
}

/// Whether `cur` is `old` with every encrypted value decrypted under
/// `identity`, and every other value as it was.
pub open spec fn opened_from(
    identity: Seq<char>,
    old: Map<Seq<char>, Seq<char>>,
    cur: Map<Seq<char>, Seq<char>>,
) -> bool {
    &&& cur.dom() == old.dom()
    &&& forall|k: Seq<char>| #[trigger]
        old.contains_key(k) ==> if encrypted(old[k]) {
            decrypted(identity, old[k]) == Some(cur[k])
        } else {
            cur[k] == old[k]
        }
}

/// Decrypts every encrypted value of `vars`, for editing. Gives the map in
/// plaintext and the names of the variables that were encrypted, each once,
/// so that they can be encrypted again afterwards. Fails with
/// `DecryptFailed` where a value fails to decrypt.
pub fn decrypt_for_edit(manager: &SecretManager, vars: &VarMap) -> (r: Result<
    (VarMap, Vec<String>),
    CommandError,
>)
    ensures
        match r {
            Ok((out, sealed)) => opened_from(manager.key(), vars@, out@) && texts(
                sealed@,
            ).no_duplicates() && forall|k: Seq<char>|
                texts(sealed@).contains(k) <==> vars@.contains_key(k) && encrypted(vars@[k]),
            Err(e) => e matches CommandError::DecryptFailed { key, cause } && vars@.contains_key(
                key@,
            ) && encrypted(vars@[key@]) && decrypted(manager.key(), vars@[key@]) is None,
        },
{
    let names = vars.keys();
    let ghost all = texts(names@);
    let ghost id = manager.key();
    let ghost old = vars@;
    let mut out = VarMap::new();
    let mut sealed: Vec<String> = Vec::new();
    let mut i: usize = 0;
    assert(all.take(0) == Seq::<Seq<char>>::empty());
    assert(texts(sealed@) == Seq::<Seq<char>>::empty());
    assert(all.no_duplicates());
    while i < names.len()
        invariant
            i <= names@.len(),
            all == texts(names@),
            all.no_duplicates(),
            id == manager.key(),
            old == vars@,
            forall|j: int| 0 <= j < all.len() ==> old.contains_key(#[trigger] all[j]),
            forall|k: Seq<char>| out@.contains_key(k) <==> all.take(i as int).contains(k),
            forall|k: Seq<char>| #[trigger]
                out@.contains_key(k) ==> if encrypted(old[k]) {
                    decrypted(id, old[k]) == Some(out@[k])
                } else {
                    out@[k] == old[k]
                },
            texts(sealed@).no_duplicates(),
            forall|k: Seq<char>|
                texts(sealed@).contains(k) <==> all.take(i as int).contains(k) && encrypted(old[k]),
        decreases names.len() - i,
    {
        let ghost x = names@[i as int]@;
        let ghost done = all.take(i as int);
        let ghost next = all.take(i + 1);
        let ghost listed = texts(sealed@);
        assert(all[i as int] == x);
        proof {
            assert forall|k: Seq<char>| next.contains(k) <==> done.contains(k) || k == x by {
                lemma_take_contains(all, i as int, k);
            }
            if done.contains(x) {
                let j = choose|j: int| 0 <= j < done.len() && done[j] == x;
                assert(all[j] == x);
            }
        }
        match vars.get(names[i].as_str()) {
            Some(value) => {
                if SecretManager::is_encrypted(value.as_str()) {
                    match manager.decrypt_value(value.as_str()) {
                        Ok(p) => {
                            out.insert(names[i].clone(), p);
                            sealed.push(names[i].clone());
                            proof {
                                let now = texts(sealed@);
                                assert(now == listed.push(x));
                                assert(!done.contains(x));
                                assert(!listed.contains(x));
                                assert forall|a: int, b: int|
                                    0 <= a < now.len() && 0 <= b < now.len() && a
                                        != b implies now[a] != now[b] by {
                                    if a < listed.len() && b < listed.len() {
                                    } else if a < listed.len() {
                                        assert(listed.contains(listed[a]));
                                    } else {
                                        assert(listed.contains(listed[b]));
                                    }
                                }
                                assert forall|k: Seq<char>|
                                    now.contains(k) <==> next.contains(k) && encrypted(
                                        old[k],
                                    ) by {
                                    lemma_push_contains(listed, x, k);
                                }
                            }
                        },
                        Err(e) => {
                            return Err(
                                CommandError::DecryptFailed { key: names[i].clone(), cause: e },
                            );
                        },
                    }
                } else {
                    out.insert(names[i].clone(), value.clone());
                }
            },
            None => {},
        }
        i += 1;
    }
    proof {
        assert(all.take(names@.len() as int) == all);
        assert(out@.dom() =~= old.dom()) by {
            assert forall|k: Seq<char>| out@.contains_key(k) <==> old.contains_key(k) by {
                if old.contains_key(k) {
                    let j = choose|j: int| 0 <= j < names@.len() && (#[trigger] names@[j])@ == k;
                    assert(all[j] == k);
                }
                if all.contains(k) {
                    let j = choose|j: int| 0 <= j < all.len() && all[j] == k;
                }
            }
        }
        assert forall|k: Seq<char>|
            texts(sealed@).contains(k) <==> vars@.contains_key(k) && encrypted(vars@[k]) by {
            if vars@.contains_key(k) {
                let j = choose|j: int| 0 <= j < names@.len() && (#[trigger] names@[j])@ == k;
                assert(all[j] == k);
            }
            if all.contains(k) {
                let j = choose|j: int| 0 <= j < all.len() && all[j] == k;
            }
        }
    }
    Ok((out, sealed))
}

/// The key and value of an assignment written as `KEY=VALUE`: what stands
/// before its first `=`, and what stands after it.
pub open spec fn pair_of(pair: Seq<char>) -> Option<(Seq<char>, Seq<char>)> {
    match index_of(pair, '=') {
        Some(i) => Some((pair.take(i), pair.skip(i + 1))),
        None => None,
    }
}

/// The key and value of an assignment written as `KEY=VALUE`. Fails with
/// `InvalidPair` where it holds no `=`.
pub fn parse_pair(pair: &str) -> (r: Result<(String, String), CommandError>)
    ensures
        match pair_of(pair@) {
            Some((k, v)) => r matches Ok((key, value)) && key@ == k && value@ == v,
            None => r matches Err(CommandError::InvalidPair),
        },
{
    let p = to_chars(pair);
    match chars_index_of(p.as_slice(), '=') {
        Some(i) => {
            let left = copy_range(p.as_slice(), 0, i);
            let right = copy_range(p.as_slice(), i + 1, p.len());
            assert(left@ == p@.take(i as int));
            assert(right@ == p@.skip(i + 1));
            Ok((from_chars(left.as_slice()), from_chars(right.as_slice())))
        },
        None => Err(CommandError::InvalidPair),
    }
}

/// Sets `key` to `value` in `vars`, encrypted where the name is sensitive.
/// Tells whether what was stored is in an encrypted form. Fails with
/// `EncryptFailed`, and leaves the map as it was, where the cipher fails.
pub fn set_value(manager: &SecretManager, vars: &mut VarMap, key: &str, value: &str) -> (r: Result<
    bool,
    CommandError,
>)
    ensures
        match r {
            Ok(sealed) => final(vars)@.contains_key(key@) && final(vars)@ == old(vars)@.insert(
                key@,
                final(vars)@[key@],
            ) && sealed == encrypted(final(vars)@[key@]) && if is_sensitive(uppercase_of(key@)) {
                encrypted(final(vars)@[key@]) && decrypted(manager.key(), final(vars)@[key@])
                    == Some(value@)
            } else {
                final(vars)@[key@] == value@
            },
            Err(e) => e matches CommandError::EncryptFailed { key: k, cause } && k@ == key@
                && is_sensitive(uppercase_of(key@)) && final(vars)@ == old(vars)@,
        },
{
    let stored = if AutoDetectPatterns::should_encrypt(key) {
        match manager.encrypt_value(value) {
            Ok(c) => c,
            Err(e) => {
                return Err(CommandError::EncryptFailed { key: key.to_owned(), cause: e });
            },
        }
    } else {
        value.to_owned()
    };
    let sealed = SecretManager::is_encrypted(stored.as_str());
    vars.insert(key.to_owned(), stored);
    Ok(sealed)
}

/// The maps held by a vector of variable maps.
pub open spec fn maps_of(files: Seq<VarMap>) -> Seq<Map<Seq<char>, Seq<char>>> {
    Seq::new(files.len(), |i: int| files[i]@)
}

/// The value that the last of the first `upto` maps that hold `key` gives
/// it.
pub open spec fn last_value(maps: Seq<Map<Seq<char>, Seq<char>>>, key: Seq<char>, upto: int)
    -> Option<Seq<char>>
    decreases upto,
{
    if upto <= 0 || upto > maps.len() {
        None
    } else if maps[upto - 1].contains_key(key) {
        Some(maps[upto - 1][key])
    } else {
        last_value(maps, key, upto - 1)
    }
}

/// The value of `key` in the last of `files` that holds it: later files
/// override earlier ones.
pub fn find_last(files: &Vec<VarMap>, key: &str) -> (r: Option<String>)
    ensures
        crate::dimension::text_of(r) == last_value(maps_of(files@), key@, files@.len() as int),
{
    let ghost maps = maps_of(files@);
    let mut found: Option<String> = None;
    let mut i: usize = 0;
    while i < files.len()
        invariant
            i <= files@.len(),
            maps == maps_of(files@),
            crate::dimension::text_of(found) == last_value(maps, key@, i as int),
        decreases files.len() - i,
    {
        assert(maps[i as int] == files@[i as int]@);
        match files[i].get(key) {
            Some(v) => {
                found = Some(v.clone());
            },
            None => {},
        }
        i += 1;
    }
    found
}

/// The decrypted value of `key` in the last of `files` that holds it. Fails
/// with `KeyNotFound` where no file holds the key, and with `DecryptFailed`
/// where its value fails to decrypt.
pub fn get_value(manager: &SecretManager, files: &Vec<VarMap>, key: &str) -> (r: Result<
    String,
    CommandError,
>)
    ensures
        match last_value(maps_of(files@), key@, files@.len() as int) {
            Some(v) => match decrypted(manager.key(), v) {
                Some(p) => r matches Ok(s) && s@ == p,
                None => r matches Err(CommandError::DecryptFailed { key: k, cause }) && k@ == key@,
            },
            None => r matches Err(CommandError::KeyNotFound { key: k }) && k@ == key@,
        },
{
    match find_last(files, key) {
        Some(v) => match manager.decrypt_value(v.as_str()) {
            Ok(p) => Ok(p),
            Err(e) => Err(CommandError::DecryptFailed { key: key.to_owned(), cause: e }),
        },
        None => Err(CommandError::KeyNotFound { key: key.to_owned() }),
    }
}

/// What is shown for a value: the value itself where it is plaintext, what
/// it decrypts to where it is encrypted, and a placeholder where it fails to
/// decrypt.
pub open spec fn shown(identity: Seq<char>, value: Seq<char>) -> Seq<char> {
    if encrypted(value) {
        match decrypted(identity, value) {
            Some(p) => p,
            None => "<decryption failed>"@,
        }
    } else {
        value
    }
}

/// What is shown for `value`.
pub fn display_value(manager: &SecretManager, value: &str) -> (r: String)
    ensures
        r@ == shown(manager.key(), value@),
{
    if SecretManager::is_encrypted(value) {
        match manager.decrypt_value(value) {
            Ok(p) => p,
            Err(_) => "<decryption failed>".to_owned(),
        }
    } else {
        value.to_owned()
    }
}

/// The mark put before a variable in a list: a lock where its value is
/// encrypted, two blanks where it is not.
pub open spec fn lock_mark(sealed: bool) -> Seq<char> {
    if sealed {
        "\u{1F512}"@
    } else {
        "  "@
    }
}

/// One line of a list of variables: the name; before it, unless the list is
/// plain, the lock mark; after it, where values are shown, ` = ` and what is
/// shown for the value.
pub open spec fn list_line(
    identity: Seq<char>,
    key: Seq<char>,
    value: Seq<char>,
    verbose: bool,
    plain: bool,
) -> Seq<char> {
    let head = if plain {
        key
    } else {
        lock_mark(encrypted(value)) + " "@ + key
    };
    if verbose {
        head + " = "@ + shown(identity, value)
    } else {
        head
    }
}

/// One line of a list of variables.
pub fn list_entry_line(manager: &SecretManager, key: &str, value: &str, verbose: bool, plain: bool)
    -> (r: String)
    ensures
        r@ == list_line(manager.key(), key@, value@, verbose, plain),
{
    let mut out: Vec<char> = Vec::new();
    if !plain {
        if SecretManager::is_encrypted(value) {
            append_str(&mut out, "\u{1F512}");
        } else {
            append_str(&mut out, "  ");
        }
        append_str(&mut out, " ");
    }
    append_str(&mut out, key);
    assert(out@ == if plain {
        key@
    } else {
        lock_mark(encrypted(value@)) + " "@ + key@
    });
    if verbose {
        append_str(&mut out, " = ");
        let d = display_value(manager, value);
        append_str(&mut out, d.as_str());
    }
    from_chars(out.as_slice())
}

/// What dumping the first `upto` of `keys` gives: one line for each
/// variable that the map holds, in order, leaving out the variables that
/// carry the identity or name its key file; or the first key whose value
/// fails to decrypt.
pub open spec fn dumped(
    identity: Seq<char>,
    m: Map<Seq<char>, Seq<char>>,
    keys: Seq<Seq<char>>,
    upto: int,
    options: DumpOptions,
) -> Result<Seq<Seq<char>>, Seq<char>>
    decreases upto,
{
    if upto <= 0 || upto > keys.len() {
        Ok(Seq::empty())
    } else {
        let k = keys[upto - 1];
        match dumped(identity, m, keys, upto - 1, options) {
            Ok(lines) => if is_age_key_name(uppercase_of(k)) || !m.contains_key(k) {
                Ok(lines)
            } else {
                match decrypted(identity, m[k]) {
                    Some(p) => Ok(lines.push(dump_line(k, p, options))),
                    None => Err(k),
                }
            },
            Err(k) => Err(k),
        }
    }
}

/// Once a key has failed to decrypt, that failure is the outcome whatever
/// follows.
pub proof fn lemma_dumped_stops(
    identity: Seq<char>,
    m: Map<Seq<char>, Seq<char>>,
    keys: Seq<Seq<char>>,
    at: int,
    upto: int,
    options: DumpOptions,
)
    requires
        0 <= at <= upto <= keys.len(),
        dumped(identity, m, keys, at, options) is Err,
    ensures
        dumped(identity, m, keys, upto, options) == dumped(identity, m, keys, at, options),
    decreases upto - at,
{
    if at < upto {
        lemma_dumped_stops(identity, m, keys, at, upto - 1, options);
    }
}

/// The lines for the variables that `keys` names, in the order of `keys`,
/// values decrypted. Fails with `DecryptFailed` for the first key whose
/// value fails to decrypt.
pub fn dump_keys(manager: &SecretManager, vars: &VarMap, keys: &Vec<String>, options: DumpOptions)
    -> (r: Result<Vec<String>, CommandError>)
    ensures
        match dumped(manager.key(), vars@, texts(keys@), keys@.len() as int, options) {
            Ok(lines) => r matches Ok(out) && texts(out@) == lines,
            Err(k) => r matches Err(CommandError::DecryptFailed { key, cause }) && key@ == k,
        },
{
    let ghost all = texts(keys@);
    let ghost id = manager.key();
    let mut out: Vec<String> = Vec::new();
    let mut i: usize = 0;
    assert(texts(out@) == Seq::<Seq<char>>::empty());
    while i < keys.len()
        invariant
            i <= keys@.len(),
            all == texts(keys@),
            id == manager.key(),
            dumped(id, vars@, all, i as int, options) == Ok::<Seq<Seq<char>>, Seq<char>>(
                texts(out@),
            ),
        decreases keys.len() - i,
    {
        assert(all[i as int] == keys@[i as int]@);
        let ghost before = texts(out@);
        if !is_age_key_variable(keys[i].as_str()) {
            match vars.get(keys[i].as_str()) {
                Some(value) => match manager.decrypt_value(value.as_str()) {
                    Ok(p) => {
                        let line = dump_single_var(keys[i].as_str(), p.as_str(), options);
                        out.push(line);
                        assert(texts(out@) == before.push(line@));
                    },
                    Err(e) => {
                        proof {
                            assert(dumped(id, vars@, all, i + 1, options) == Err::<
                                Seq<Seq<char>>,
                                Seq<char>,
                            >(all[i as int]));
                            lemma_dumped_stops(id, vars@, all, i + 1, all.len() as int, options);
                        }
                        return Err(CommandError::DecryptFailed { key: keys[i].clone(), cause: e });
                    },
                },
                None => {},
            }
        }
        i += 1;
    }
    Ok(out)
}

/// The lines for all variables of `vars`, in ascending order of their
/// names, values decrypted, leaving out the variables that carry the
/// identity or name its key file.
pub fn dump_vars(manager: &SecretManager, vars: &VarMap, options: DumpOptions) -> (r: Result<
    Vec<String>,
    CommandError,
>)
    ensures
        exists|keys: Seq<Seq<char>>|
            lists(keys, vars@) && ascending(keys) && match #[trigger] dumped(
                manager.key(),
                vars@,
                keys,
                keys.len() as int,
                options,
            ) {
                Ok(lines) => r matches Ok(out) && texts(out@) == lines,
                Err(k) => r matches Err(CommandError::DecryptFailed { key, cause }) && key@ == k,
            },
{
    let keys = sorted_keys(vars);
    let r = dump_keys(manager, vars, &keys, options);
    proof {
        let ks = texts(keys@);
        assert(lists(ks, vars@) && ascending(ks) && match dumped(
            manager.key(),
            vars@,
            ks,
            ks.len() as int,
            options,
        ) {
            Ok(lines) => r matches Ok(out) && texts(out@) == lines,
            Err(k) => r matches Err(CommandError::DecryptFailed { key, cause }) && key@ == k,
        });
    }
    r
}

/// The lines that open the section of one file in a dump: for a makefile,
/// none; else a blank line, unless the section is the first, and a comment
/// with the file's path.
pub open spec fn section_open(path: Seq<char>, is_first: bool, options: DumpOptions) -> Seq<
    Seq<char>,
> {
    if options.make || options.make_eval {
        Seq::empty()
    } else if is_first {
        seq!["# "@ + path]
    } else {
        seq![""@, "# "@ + path]
    }
}

/// The lines that open the section of one file in a dump.
pub fn section_head(path: &str, is_first: bool, options: DumpOptions) -> (r: Vec<String>)
    ensures
        texts(r@) == section_open(path@, is_first, options),
{
    let mut r: Vec<String> = Vec::new();
    if options.make || options.make_eval {
        assert(texts(r@) == Seq::<Seq<char>>::empty());
        return r;
    }
    if !is_first {
        r.push("".to_owned());
    }
    let mut line = to_chars("# ");
    append_str(&mut line, path);
    r.push(from_chars(line.as_slice()));
    assert(texts(r@) == section_open(path@, is_first, options));
    r
}

/// The first `upto` of `lines`, each followed by a line feed.
pub open spec fn joined(lines: Seq<Seq<char>>, upto: int) -> Seq<char>
    decreases upto,
{
    if upto <= 0 || upto > lines.len() {
        Seq::empty()
    } else {
        joined(lines, upto - 1) + lines[upto - 1] + "\n"@
    }
}

/// The lines of an environment file that holds the variables of `m` named
/// by the first `upto` of `keys`, in order.
pub open spec fn stored_lines(m: Map<Seq<char>, Seq<char>>, keys: Seq<Seq<char>>, upto: int) -> Seq<
    Seq<char>,
>
    decreases upto,
{
    if upto <= 0 || upto > keys.len() {
        Seq::empty()
    } else if m.contains_key(keys[upto - 1]) {
        stored_lines(m, keys, upto - 1).push(stored_line(keys[upto - 1], m[keys[upto - 1]]))
    } else {
        stored_lines(m, keys, upto - 1)
    }
}

/// The lines of a plain dump of the variables of `m` named by the first
/// `upto` of `keys`, in order, leaving out the variables that carry the
/// identity or name its key file.
pub open spec fn plain_lines(m: Map<Seq<char>, Seq<char>>, keys: Seq<Seq<char>>, upto: int) -> Seq<
    Seq<char>,
>
    decreases upto,
{
    if upto <= 0 || upto > keys.len() {
        Seq::empty()
    } else if m.contains_key(keys[upto - 1]) && !is_age_key_name(uppercase_of(keys[upto - 1])) {
        plain_lines(m, keys, upto - 1).push(simple_line(keys[upto - 1], m[keys[upto - 1]], ""@))
    } else {
        plain_lines(m, keys, upto - 1)
    }
}

/// The text made of `lines`, each followed by a line feed.
pub fn join_lines(lines: &Vec<String>) -> (r: String)
    ensures
        r@ == joined(texts(lines@), lines@.len() as int),
{
    let ghost all = texts(lines@);
    let mut out: Vec<char> = Vec::new();
    let mut i: usize = 0;
    while i < lines.len()
        invariant
            i <= lines@.len(),
            all == texts(lines@),
            out@ == joined(all, i as int),
        decreases lines.len() - i,
    {
        assert(all[i as int] == lines@[i as int]@);
        append_str(&mut out, lines[i].as_str());
        append_str(&mut out, "\n");
        i += 1;
    }
    from_chars(out.as_slice())
}

/// The text of an environment file that holds the variables of `vars`: one
/// line for each, in ascending order of their names, each followed by a line
/// feed.
pub fn env_file_text(vars: &VarMap) -> (r: String)
    ensures
        exists|keys: Seq<Seq<char>>|
            lists(keys, vars@) && ascending(keys) && r@ == joined(
                #[trigger] stored_lines(vars@, keys, keys.len() as int),
                stored_lines(vars@, keys, keys.len() as int).len() as int,
            ),
{
    let keys = sorted_keys(vars);
    let ghost ks = texts(keys@);
    let mut lines: Vec<String> = Vec::new();
    let mut i: usize = 0;
    assert(texts(lines@) == stored_lines(vars@, ks, 0));
    while i < keys.len()
        invariant
            i <= keys@.len(),
            ks == texts(keys@),
            texts(lines@) == stored_lines(vars@, ks, i as int),
        decreases keys.len() - i,
    {
        assert(ks[i as int] == keys@[i as int]@);
        let ghost before = texts(lines@);
        match vars.get(keys[i].as_str()) {
            Some(value) => {
                let line = env_file_line(keys[i].as_str(), value.as_str());
                lines.push(line);
                assert(texts(lines@) == before.push(line@));
            },
            None => {},
        }
        i += 1;
    }
    let r = join_lines(&lines);
    proof {
        let all = stored_lines(vars@, ks, ks.len() as int);
        assert(texts(lines@) == all);
        assert(lists(ks, vars@) && ascending(ks) && r@ == joined(all, all.len() as int));
    }
    r
}

impl EnvLoader {
    /// The plain dump of a load of `dir` under the view `env`: one line for
    /// each merged variable, in ascending order of their names, each
    /// followed by a line feed, values quoted where an environment file
    /// needs it, leaving out the variables that carry the identity or name
    /// its key file.
    pub fn dump_to_string_from_dir(&self, env: &VarMap, dir: &Vec<FileEntry>) -> (r: Result<
        String,
        SecretsError,
    >)
        ensures
            match loaded(self.key(), env@, dir@) {
                Ok(end) => r matches Ok(text) && exists|keys: Seq<Seq<char>>|
                    lists(keys, end.merged) && ascending(keys) && text@ == joined(
                        #[trigger] plain_lines(end.merged, keys, keys.len() as int),
                        plain_lines(end.merged, keys, keys.len() as int).len() as int,
                    ),
                Err(f) => r matches Err(e) && reports(e, f, dir@),
            },
    {
        let vars = match self.collect_all_vars_from_dir(env, dir) {
            Ok((vars, _)) => vars,
            Err(e) => {
                return Err(e);
            },
        };
        let keys = sorted_keys(&vars);
        let ghost ks = texts(keys@);
        let mut lines: Vec<String> = Vec::new();
        let mut i: usize = 0;
        assert(texts(lines@) == plain_lines(vars@, ks, 0));
        while i < keys.len()
            invariant
                i <= keys@.len(),
                ks == texts(keys@),
                texts(lines@) == plain_lines(vars@, ks, i as int),
            decreases keys.len() - i,
        {
            assert(ks[i as int] == keys@[i as int]@);
            let ghost before = texts(lines@);
            if !is_age_key_variable(keys[i].as_str()) {
                match vars.get(keys[i].as_str()) {
                    Some(value) => {
                        let line = dump_simple_var(keys[i].as_str(), value.as_str(), "");
                        lines.push(line);
                        assert(texts(lines@) == before.push(line@));
                    },
                    None => {},
                }
            }
            i += 1;
        }
        let text = join_lines(&lines);
        proof {
            let all = plain_lines(vars@, ks, ks.len() as int);
            assert(texts(lines@) == all);
            assert(lists(ks, vars@) && ascending(ks) && text@ == joined(all, all.len() as int));
        }
        Ok(text)
    }
}

} // verus!
