//! Which variables are sensitive, going by their names.

use crate::text::{chars_contain, contains, to_chars, uppercase, uppercase_of};
use vstd::prelude::*;

verus! {

/// Decides by its name whether a variable should be kept encrypted.
pub struct AutoDetectPatterns;

/// The substrings that mark a name as sensitive.
pub open spec fn encrypt_patterns() -> Seq<Seq<char>> {
    seq![
        "TOKEN"@,
        "SECRET"@,
        "PASSWORD"@,
        "CREDENTIAL"@,
        "_KEY"@,
        "API_KEY"@,
        "PRIVATE_KEY"@,
    ]
}

/// The substrings that mark a name as never to be encrypted.
pub open spec fn never_encrypt() -> Seq<Seq<char>> {
    seq![
        "AWS_REGION"@,
        "FLY_PRIMARY_REGION"@,
        "PORT"@,
        "RUST_LOG"@,
        "DATABASE_NAME"@,
        "APP_NAME"@,
        "ENDPOINT_URL"@,
        "ORG"@,
        "PUBLIC_KEY"@,
        "PUB_KEY"@,
    ]
}

/// Whether `s` holds one of `patterns`.
pub open spec fn contains_any(s: Seq<char>, patterns: Seq<Seq<char>>) -> bool {
    exists|i: int| 0 <= i < patterns.len() && contains(s, #[trigger] patterns[i])
}

/// Whether an upper-case name is sensitive: it holds none of the substrings
/// that are never encrypted, and one of those that mark a secret.
pub open spec fn is_sensitive(upper: Seq<char>) -> bool {
    !contains_any(upper, never_encrypt()) && contains_any(upper, encrypt_patterns())
}

/// The patterns held by a vector of string slices.
pub open spec fn patterns_of(v: Seq<&'static str>) -> Seq<Seq<char>> {
    Seq::new(v.len(), |i: int| v[i]@)
}

/// Whether `s` holds one of `patterns`.
fn holds_any(s: &Vec<char>, patterns: &Vec<&'static str>) -> (r: bool)
    ensures
        r == contains_any(s@, patterns_of(patterns@)),
{
    let ghost pats = patterns_of(patterns@);
    let mut i: usize = 0;
    while i < patterns.len()
        invariant
            i <= patterns@.len(),
            pats == patterns_of(patterns@),
            forall|j: int| 0 <= j < i ==> !contains(s@, #[trigger] pats[j]),
        decreases patterns.len() - i,
    {
        let p = to_chars(patterns[i]);
        assert(pats[i as int] == p@);
        if chars_contain(s.as_slice(), p.as_slice()) {
            return true;
        }
        i += 1;
    }
    false
}

impl AutoDetectPatterns {
    /// The substrings that mark a name as sensitive.
    pub fn encrypt_patterns() -> (r: Vec<&'static str>)
        ensures
            patterns_of(r@) == encrypt_patterns(),
    {
        let r = vec!["TOKEN", "SECRET", "PASSWORD", "CREDENTIAL", "_KEY", "API_KEY", "PRIVATE_KEY"];
        assert(patterns_of(r@) =~= encrypt_patterns());
        r
    }

    /// The substrings that mark a name as never to be encrypted.
    pub fn never_encrypt() -> (r: Vec<&'static str>)
        ensures
            patterns_of(r@) == never_encrypt(),
    {
        let r = vec![
            "AWS_REGION",
            "FLY_PRIMARY_REGION",
            "PORT",
            "RUST_LOG",
            "DATABASE_NAME",
            "APP_NAME",
            "ENDPOINT_URL",
            "ORG",
            "PUBLIC_KEY",
            "PUB_KEY",
        ];
        assert(patterns_of(r@) =~= never_encrypt());
        r
    }

    /// Whether the upper-case name `upper` is sensitive.
    pub fn matches_upper(upper: &str) -> (r: bool)
        ensures
            r == is_sensitive(upper@),
    {
        let name = to_chars(upper);
        if holds_any(&name, &AutoDetectPatterns::never_encrypt()) {
            return false;
        }
        holds_any(&name, &AutoDetectPatterns::encrypt_patterns())
    }

    /// Whether a variable named `key` should be encrypted: its upper-case
    /// form holds none of the substrings that are never encrypted, and one
    /// of those that mark a secret.
    pub fn should_encrypt(key: &str) -> (r: bool)
        ensures
            r == is_sensitive(uppercase_of(key@)),
    {
        let upper = uppercase(key);
        AutoDetectPatterns::matches_upper(upper.as_str())
    }
}

} // verus!
