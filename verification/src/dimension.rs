//! Dimensions: the orthogonal axes (environment, operating system,
//! architecture, user, variant, pull-request number) whose values name the
//! overlay files.
//!
//! Each dimension has a prioritized table of sources. A source names a
//! variable of the configuration view and says whether its whole value is
//! taken or one piece of it. The first source that yields a value wins; a
//! variable that is unset or empty yields none. The value is then normalized
//! (aliases mapped to a canonical token) and lower-cased.

use crate::loader::EnvLoader;
use crate::text::{
    chars_field, chars_find, chars_leading_digits, chars_start_with, copy_range, field, find,
    from_chars, leading_digits, lowercase, lowercase_of, starts_with, str_eq, to_chars,
};
use crate::varmap::VarMap;
use vstd::prelude::*;

verus! {

/// The canonical CPU architectures.
#[derive(Debug, Clone, Copy, PartialEq, Eq, Structural)]
pub enum Arch {
    /// `amd64`, also written `x64` or `x86_64`.
    Amd64,
    /// `arm64`, also written `aarch64`.
    Arm64,
    /// `arm`, also written `armv7`, `armv7l` or `armhf`.
    Arm,
    /// `i386`, also written `i686` or `x86`.
    I386,
    /// `riscv64`, also written `riscv64gc`.
    Riscv64,
    /// `ppc64le`, also written `powerpc64le`.
    Ppc64le,
    /// `s390x`.
    S390x,
}

impl Arch {
    /// The canonical token of this architecture.
    pub open spec fn name(&self) -> Seq<char> {
        match self {
            Arch::Amd64 => "amd64"@,
            Arch::Arm64 => "arm64"@,
            Arch::Arm => "arm"@,
            Arch::I386 => "i386"@,
            Arch::Riscv64 => "riscv64"@,
            Arch::Ppc64le => "ppc64le"@,
            Arch::S390x => "s390x"@,
        }
    }

    /// The architecture that a lower-case token stands for.
    pub open spec fn of_token(s: Seq<char>) -> Option<Arch> {
        if s == "amd64"@ || s == "x64"@ || s == "x86_64"@ {
            Some(Arch::Amd64)
        } else if s == "arm64"@ || s == "aarch64"@ {
            Some(Arch::Arm64)
        } else if s == "arm"@ || s == "armv7"@ || s == "armv7l"@ || s == "armhf"@ {
            Some(Arch::Arm)
        } else if s == "i386"@ || s == "i686"@ || s == "x86"@ {
            Some(Arch::I386)
        } else if s == "riscv64"@ || s == "riscv64gc"@ {
            Some(Arch::Riscv64)
        } else if s == "ppc64le"@ || s == "powerpc64le"@ {
            Some(Arch::Ppc64le)
        } else if s == "s390x"@ {
            Some(Arch::S390x)
        } else {
            None
        }
    }

    /// The canonical token, as used in file names.
    pub fn as_str(&self) -> (r: &'static str)
        ensures
            r@ == self.name(),
    {
        match self {
            Arch::Amd64 => "amd64",
            Arch::Arm64 => "arm64",
            Arch::Arm => "arm",
            Arch::I386 => "i386",
            Arch::Riscv64 => "riscv64",
            Arch::Ppc64le => "ppc64le",
            Arch::S390x => "s390x",
        }
    }

    /// The architecture that the lower-case token `s` stands for.
    pub fn from_token(s: &str) -> (r: Option<Arch>)
        ensures
            r == Arch::of_token(s@),
    {
        if str_eq(s, "amd64") || str_eq(s, "x64") || str_eq(s, "x86_64") {
            Some(Arch::Amd64)
        } else if str_eq(s, "arm64") || str_eq(s, "aarch64") {
            Some(Arch::Arm64)
        } else if str_eq(s, "arm") || str_eq(s, "armv7") || str_eq(s, "armv7l") || str_eq(
            s,
            "armhf",
        ) {
            Some(Arch::Arm)
        } else if str_eq(s, "i386") || str_eq(s, "i686") || str_eq(s, "x86") {
            Some(Arch::I386)
        } else if str_eq(s, "riscv64") || str_eq(s, "riscv64gc") {
            Some(Arch::Riscv64)
        } else if str_eq(s, "ppc64le") || str_eq(s, "powerpc64le") {
            Some(Arch::Ppc64le)
        } else if str_eq(s, "s390x") {
            Some(Arch::S390x)
        } else {
            None
        }
    }

    /// The architecture that `s` stands for, whatever its letter case.
    pub fn from_str(s: &str) -> (r: Result<Arch, ()>)
        ensures
            r == match Arch::of_token(lowercase_of(s@)) {
                Some(a) => Ok::<Arch, ()>(a),
                None => Err::<Arch, ()>(()),
            },
    {
        let lower = lowercase(s);
        match Arch::from_token(lower.as_str()) {
            Some(a) => Ok(a),
            None => Err(()),
        }
    }
}

impl std::str::FromStr for Arch {
    type Err = ();

    /// The architecture that `s` stands for, whatever its letter case, as
    /// the inherent `from_str` gives it; this is what `str::parse` calls.
    fn from_str(s: &str) -> (r: Result<Arch, ()>)
        ensures
            r == match Arch::of_token(lowercase_of(s@)) {
                Some(a) => Ok::<Arch, ()>(a),
                None => Err::<Arch, ()>(()),
            },
    {
        Arch::from_str(s)
    }
}

/// The canonical operating systems.
#[derive(Debug, Clone, Copy, PartialEq, Eq, Structural)]
pub enum Os {
    /// `linux`.
    Linux,
    /// `macos`, also written `darwin` or `osx`.
    Macos,
    /// `windows`, also written `win32` or `win`.
    Windows,
    /// `freebsd`.
    Freebsd,
    /// `openbsd`.
    Openbsd,
    /// `netbsd`.
    Netbsd,
    /// `android`.
    Android,
    /// `ios`.
    Ios,
}

impl Os {
    /// The canonical token of this operating system.
    pub open spec fn name(&self) -> Seq<char> {
        match self {
            Os::Linux => "linux"@,
            Os::Macos => "macos"@,
            Os::Windows => "windows"@,
            Os::Freebsd => "freebsd"@,
            Os::Openbsd => "openbsd"@,
            Os::Netbsd => "netbsd"@,
            Os::Android => "android"@,
            Os::Ios => "ios"@,
        }
    }

    /// The operating system that a lower-case token stands for.
    pub open spec fn of_token(s: Seq<char>) -> Option<Os> {
        if s == "linux"@ {
            Some(Os::Linux)
        } else if s == "macos"@ || s == "darwin"@ || s == "osx"@ {
            Some(Os::Macos)
        } else if s == "windows"@ || s == "win32"@ || s == "win"@ {
            Some(Os::Windows)
        } else if s == "freebsd"@ {
            Some(Os::Freebsd)
        } else if s == "openbsd"@ {
            Some(Os::Openbsd)
        } else if s == "netbsd"@ {
            Some(Os::Netbsd)
        } else if s == "android"@ {
            Some(Os::Android)
        } else if s == "ios"@ {
            Some(Os::Ios)
        } else {
            None
        }
    }

    /// The canonical token, as used in file names.
    pub fn as_str(&self) -> (r: &'static str)
        ensures
            r@ == self.name(),
    {
        match self {
            Os::Linux => "linux",
            Os::Macos => "macos",
            Os::Windows => "windows",
            Os::Freebsd => "freebsd",
            Os::Openbsd => "openbsd",
            Os::Netbsd => "netbsd",
            Os::Android => "android",
            Os::Ios => "ios",
        }
    }

    /// The operating system that the lower-case token `s` stands for.
    pub fn from_token(s: &str) -> (r: Option<Os>)
        ensures
            r == Os::of_token(s@),
    {
        if str_eq(s, "linux") {
            Some(Os::Linux)
        } else if str_eq(s, "macos") || str_eq(s, "darwin") || str_eq(s, "osx") {
            Some(Os::Macos)
        } else if str_eq(s, "windows") || str_eq(s, "win32") || str_eq(s, "win") {
            Some(Os::Windows)
        } else if str_eq(s, "freebsd") {
            Some(Os::Freebsd)
        } else if str_eq(s, "openbsd") {
            Some(Os::Openbsd)
        } else if str_eq(s, "netbsd") {
            Some(Os::Netbsd)
        } else if str_eq(s, "android") {
            Some(Os::Android)
        } else if str_eq(s, "ios") {
            Some(Os::Ios)
        } else {
            None
        }
    }

    /// The operating system that `s` stands for, whatever its letter case.
    pub fn from_str(s: &str) -> (r: Result<Os, ()>)
        ensures
            r == match Os::of_token(lowercase_of(s@)) {
                Some(o) => Ok::<Os, ()>(o),
                None => Err::<Os, ()>(()),
            },
    {
        let lower = lowercase(s);
        match Os::from_token(lower.as_str()) {
            Some(o) => Ok(o),
            None => Err(()),
        }
    }
}

impl std::str::FromStr for Os {
    type Err = ();

    /// The operating system that `s` stands for, whatever its letter case,
    /// as the inherent `from_str` gives it; this is what `str::parse` calls.
    fn from_str(s: &str) -> (r: Result<Os, ()>)
        ensures
            r == match Os::of_token(lowercase_of(s@)) {
                Some(o) => Ok::<Os, ()>(o),
                None => Err::<Os, ()>(()),
            },
    {
        Os::from_str(s)
    }
}

/// What a source takes from its variable.
#[derive(Debug, Clone, Copy, PartialEq, Eq, Structural)]
pub enum Take {
    /// The whole value.
    Whole,
    /// One piece of the value cut at every occurrence of a separator,
    /// counted from zero.
    Piece(char, usize),
}

/// One source of a dimension: a variable of the configuration view and what
/// is taken from it.
pub struct Source {
    /// The variable's name.
    pub key: Seq<char>,
    /// What is taken from its value.
    pub take: Take,
}

/// The sources of the environment name, in order of priority.
pub open spec fn env_sources() -> Seq<Source> {
    seq![
        Source { key: "DOTENVAGE_ENV"@, take: Take::Whole },
        Source { key: "EKG_ENV"@, take: Take::Whole },
        Source { key: "VERCEL_ENV"@, take: Take::Whole },
        Source { key: "NODE_ENV"@, take: Take::Whole },
    ]
}

/// The sources of the operating system, in order of priority.
pub open spec fn os_sources() -> Seq<Source> {
    seq![
        Source { key: "DOTENVAGE_OS"@, take: Take::Whole },
        Source { key: "EKG_OS"@, take: Take::Whole },
        Source { key: "CARGO_CFG_TARGET_OS"@, take: Take::Whole },
        Source { key: "TARGET"@, take: Take::Piece('-', 2) },
        Source { key: "RUNNER_OS"@, take: Take::Whole },
    ]
}

/// The sources of the architecture, in order of priority.
pub open spec fn arch_sources() -> Seq<Source> {
    seq![
        Source { key: "DOTENVAGE_ARCH"@, take: Take::Whole },
        Source { key: "EKG_ARCH"@, take: Take::Whole },
        Source { key: "CARGO_CFG_TARGET_ARCH"@, take: Take::Whole },
        Source { key: "TARGET"@, take: Take::Piece('-', 0) },
        Source { key: "TARGETARCH"@, take: Take::Whole },
        Source { key: "TARGETPLATFORM"@, take: Take::Piece('/', 1) },
        Source { key: "RUNNER_ARCH"@, take: Take::Whole },
    ]
}

/// The sources of the user name, in order of priority.
pub open spec fn user_sources() -> Seq<Source> {
    seq![
        Source { key: "DOTENVAGE_USER"@, take: Take::Whole },
        Source { key: "EKG_USER"@, take: Take::Whole },
        Source { key: "GITHUB_ACTOR"@, take: Take::Whole },
        Source { key: "GITHUB_TRIGGERING_ACTOR"@, take: Take::Whole },
        Source { key: "GITHUB_REPOSITORY_OWNER"@, take: Take::Whole },
        Source { key: "USER"@, take: Take::Whole },
        Source { key: "USERNAME"@, take: Take::Whole },
    ]
}

/// The sources of the deployment variant, in order of priority.
pub open spec fn variant_sources() -> Seq<Source> {
    seq![
        Source { key: "DOTENVAGE_VARIANT"@, take: Take::Whole },
        Source { key: "EKG_VARIANT"@, take: Take::Whole },
        Source { key: "VARIANT"@, take: Take::Whole },
    ]
}

/// What the source `s` yields in the view `env`: nothing where its variable
/// is unset or empty, else the whole value or the piece asked for (nothing
/// where the value has too few pieces).
pub open spec fn read_source(env: Map<Seq<char>, Seq<char>>, s: Source) -> Option<Seq<char>> {
    if env.contains_key(s.key) && env[s.key].len() > 0 {
        match s.take {
            Take::Whole => Some(env[s.key]),
            Take::Piece(sep, n) => field(env[s.key], sep, n as nat),
        }
    } else {
        None
    }
}

/// What the first source of `table` that yields anything yields in `env`.
pub open spec fn first_value(env: Map<Seq<char>, Seq<char>>, table: Seq<Source>) -> Option<
    Seq<char>,
>
    decreases table.len(),
{
    if table.len() == 0 {
        None
    } else {
        match read_source(env, table[0]) {
            Some(v) => Some(v),
            None => first_value(env, table.drop_first()),
        }
    }
}

/// The canonical form of a raw architecture value: the token of the
/// architecture it is an alias of, else the value in lower case.
pub open spec fn canonical_arch(raw: Seq<char>) -> Seq<char> {
    match Arch::of_token(lowercase_of(raw)) {
        Some(a) => a.name(),
        None => lowercase_of(raw),
    }
}

/// The canonical form of a raw operating-system value: the token of the
/// system it is an alias of, else the value in lower case.
pub open spec fn canonical_os(raw: Seq<char>) -> Seq<char> {
    match Os::of_token(lowercase_of(raw)) {
        Some(o) => o.name(),
        None => lowercase_of(raw),
    }
}

/// Whether the view fixes the environment name, so that it does not fall
/// back to its default.
pub open spec fn env_is_set(env: Map<Seq<char>, Seq<char>>) -> bool {
    first_value(env, env_sources()) is Some
}

/// The environment name in the view `env`; `local` where no source yields
/// one.
pub open spec fn resolved_env(env: Map<Seq<char>, Seq<char>>) -> Seq<char> {
    match first_value(env, env_sources()) {
        Some(v) => lowercase_of(v),
        None => "local"@,
    }
}

/// The operating system in the view `env`.
pub open spec fn resolved_os(env: Map<Seq<char>, Seq<char>>) -> Option<Seq<char>> {
    match first_value(env, os_sources()) {
        Some(v) => Some(canonical_os(v)),
        None => None,
    }
}

/// The architecture in the view `env`.
pub open spec fn resolved_arch(env: Map<Seq<char>, Seq<char>>) -> Option<Seq<char>> {
    match first_value(env, arch_sources()) {
        Some(v) => Some(canonical_arch(v)),
        None => None,
    }
}

/// The user name in the view `env`.
pub open spec fn resolved_user(env: Map<Seq<char>, Seq<char>>) -> Option<Seq<char>> {
    match first_value(env, user_sources()) {
        Some(v) => Some(lowercase_of(v)),
        None => None,
    }
}

/// The deployment variant in the view `env`.
pub open spec fn resolved_variant(env: Map<Seq<char>, Seq<char>>) -> Option<Seq<char>> {
    match first_value(env, variant_sources()) {
        Some(v) => Some(lowercase_of(v)),
        None => None,
    }
}

/// Whether the view marks a pull-request context: `GITHUB_EVENT_NAME` is
/// set and begins with `pull_request`.
pub open spec fn in_pull_request(env: Map<Seq<char>, Seq<char>>) -> bool {
    env.contains_key("GITHUB_EVENT_NAME"@) && starts_with(
        env["GITHUB_EVENT_NAME"@],
        "pull_request"@,
    )
}

/// The pull-request number that the direct source gives: the value of
/// `PR_NUMBER`, where it is set and not empty.
pub open spec fn pr_direct(env: Map<Seq<char>, Seq<char>>) -> Option<Seq<char>> {
    if env.contains_key("PR_NUMBER"@) && env["PR_NUMBER"@].len() > 0 {
        Some(env["PR_NUMBER"@])
    } else {
        None
    }
}

/// The pull-request number that a ref string gives: the digits that follow
/// its first `/pull/`, where there is at least one.
pub open spec fn pr_from_ref(gref: Seq<char>) -> Option<Seq<char>> {
    match find(gref, "/pull/"@) {
        Some(i) => {
            let digits = leading_digits(gref.skip(i + "/pull/"@.len()));
            if digits.len() > 0 {
                Some(digits)
            } else {
                None
            }
        },
        None => None,
    }
}

/// The pull-request number in the view `env`. It resolves only inside a
/// pull-request context: where the event marker is missing there is none,
/// whatever else the view holds. Under the marker it is the value of
/// `PR_NUMBER`, else the digits after the first `/pull/` of `GITHUB_REF`.
pub open spec fn resolved_pr_number(env: Map<Seq<char>, Seq<char>>) -> Option<Seq<char>> {
    if !in_pull_request(env) {
        None
    } else {
        match pr_direct(env) {
            Some(n) => Some(n),
            None => if env.contains_key("GITHUB_REF"@) {
                pr_from_ref(env["GITHUB_REF"@])
            } else {
                None
            },
        }
    }
}

/// The pull-request number is gated: a view without the event marker
/// resolves to none, and so implies no pull-request file.
pub proof fn lemma_pr_number_is_gated(env: Map<Seq<char>, Seq<char>>)
    ensures
        !in_pull_request(env) ==> resolved_pr_number(env) is None,
        !env.contains_key("GITHUB_EVENT_NAME"@) ==> resolved_pr_number(env) is None,
        resolved_pr_number(env) is Some ==> in_pull_request(env) && (pr_direct(env) is Some
            || env.contains_key("GITHUB_REF"@)),
{
}

/// The view of an optional string.
pub open spec fn text_of(s: Option<String>) -> Option<Seq<char>> {
    match s {
        Some(t) => Some(t@),
        None => None,
    }
}

/// The view of an optional character vector.
pub open spec fn chars_of(s: Option<Vec<char>>) -> Option<Seq<char>> {
    match s {
        Some(t) => Some(t@),
        None => None,
    }
}

/// What the variable `key` yields under `take` in `env`.
fn read(env: &VarMap, key: &str, take: Take) -> (r: Option<Vec<char>>)
    ensures
        chars_of(r) == read_source(env@, Source { key: key@, take }),
{
    match env.get(key) {
        None => None,
        Some(v) => {
            let cs = to_chars(v.as_str());
            if cs.len() == 0 {
                None
            } else {
                match take {
                    Take::Whole => Some(cs),
                    Take::Piece(sep, n) => chars_field(cs.as_slice(), sep, n),
                }
            }
        },
    }
}

/// The raw environment name.
fn raw_env(env: &VarMap) -> (r: Option<Vec<char>>)
    ensures
        chars_of(r) == first_value(env@, env_sources()),
{
    let ghost t = env_sources();
    reveal_with_fuel(first_value, 5);
    assert(t.drop_first().drop_first().drop_first().drop_first().len() == 0);
    let a = read(env, "DOTENVAGE_ENV", Take::Whole);
    if a.is_some() {
        return a;
    }
    let a = read(env, "EKG_ENV", Take::Whole);
    if a.is_some() {
        return a;
    }
    let a = read(env, "VERCEL_ENV", Take::Whole);
    if a.is_some() {
        return a;
    }
    read(env, "NODE_ENV", Take::Whole)
}

/// The raw operating system.
fn raw_os(env: &VarMap) -> (r: Option<Vec<char>>)
    ensures
        chars_of(r) == first_value(env@, os_sources()),
{
    let ghost t = os_sources();
    reveal_with_fuel(first_value, 6);
    assert(t.drop_first().drop_first().drop_first().drop_first().drop_first().len() == 0);
    let a = read(env, "DOTENVAGE_OS", Take::Whole);
    if a.is_some() {
        return a;
    }
    let a = read(env, "EKG_OS", Take::Whole);
    if a.is_some() {
        return a;
    }
    let a = read(env, "CARGO_CFG_TARGET_OS", Take::Whole);
    if a.is_some() {
        return a;
    }
    let a = read(env, "TARGET", Take::Piece('-', 2));
    if a.is_some() {
        return a;
    }
    read(env, "RUNNER_OS", Take::Whole)
}

/// The raw architecture.
fn raw_arch(env: &VarMap) -> (r: Option<Vec<char>>)
    ensures
        chars_of(r) == first_value(env@, arch_sources()),
{
    let ghost t = arch_sources();
    reveal_with_fuel(first_value, 8);
    assert(t.drop_first().drop_first().drop_first().drop_first().drop_first().drop_first()
        .drop_first().len() == 0);
    let a = read(env, "DOTENVAGE_ARCH", Take::Whole);
    if a.is_some() {
        return a;
    }
    let a = read(env, "EKG_ARCH", Take::Whole);
    if a.is_some() {
        return a;
    }
    let a = read(env, "CARGO_CFG_TARGET_ARCH", Take::Whole);
    if a.is_some() {
        return a;
    }
    let a = read(env, "TARGET", Take::Piece('-', 0));
    if a.is_some() {
        return a;
    }
    let a = read(env, "TARGETARCH", Take::Whole);
    if a.is_some() {
        return a;
    }
    let a = read(env, "TARGETPLATFORM", Take::Piece('/', 1));
    if a.is_some() {
        return a;
    }
    read(env, "RUNNER_ARCH", Take::Whole)
}

/// The raw user name.
fn raw_user(env: &VarMap) -> (r: Option<Vec<char>>)
    ensures
        chars_of(r) == first_value(env@, user_sources()),
{
    let ghost t = user_sources();
    reveal_with_fuel(first_value, 8);
    assert(t.drop_first().drop_first().drop_first().drop_first().drop_first().drop_first()
        .drop_first().len() == 0);
    let a = read(env, "DOTENVAGE_USER", Take::Whole);
    if a.is_some() {
        return a;
    }
    let a = read(env, "EKG_USER", Take::Whole);
    if a.is_some() {
        return a;
    }
    let a = read(env, "GITHUB_ACTOR", Take::Whole);
    if a.is_some() {
        return a;
    }
    let a = read(env, "GITHUB_TRIGGERING_ACTOR", Take::Whole);
    if a.is_some() {
        return a;
    }
    let a = read(env, "GITHUB_REPOSITORY_OWNER", Take::Whole);
    if a.is_some() {
        return a;
    }
    let a = read(env, "USER", Take::Whole);
    if a.is_some() {
        return a;
    }
    read(env, "USERNAME", Take::Whole)
}

/// The raw deployment variant.
fn raw_variant(env: &VarMap) -> (r: Option<Vec<char>>)
    ensures
        chars_of(r) == first_value(env@, variant_sources()),
{
    let ghost t = variant_sources();
    reveal_with_fuel(first_value, 4);
    assert(t.drop_first().drop_first().drop_first().len() == 0);
    let a = read(env, "DOTENVAGE_VARIANT", Take::Whole);
    if a.is_some() {
        return a;
    }
    let a = read(env, "EKG_VARIANT", Take::Whole);
    if a.is_some() {
        return a;
    }
    read(env, "VARIANT", Take::Whole)
}

/// The lower-case form of `raw`.
fn lower_chars(raw: &Vec<char>) -> (r: String)
    ensures
        r@ == lowercase_of(raw@),
{
    let s = from_chars(raw.as_slice());
    lowercase(s.as_str())
}

impl EnvLoader {
    /// Whether the view fixes the environment name, so that it does not
    /// fall back to `local`.
    pub fn env_is_configured(env: &VarMap) -> (r: bool)
        ensures
            r == env_is_set(env@),
    {
        raw_env(env).is_some()
    }

    /// The environment name: the first of `DOTENVAGE_ENV`, `EKG_ENV`,
    /// `VERCEL_ENV` and `NODE_ENV` that is set and not empty, in lower case;
    /// `local` where none is.
    pub fn resolve_env(env: &VarMap) -> (r: String)
        ensures
            r@ == resolved_env(env@),
    {
        match raw_env(env) {
            Some(v) => lower_chars(&v),
            None => "local".to_owned(),
        }
    }

    /// The operating system: the first that its sources yield, as its
    /// canonical token where it is a known alias, else in lower case.
    pub fn resolve_os(env: &VarMap) -> (r: Option<String>)
        ensures
            text_of(r) == resolved_os(env@),
    {
        match raw_os(env) {
            Some(v) => {
                let lower = lower_chars(&v);
                match Os::from_token(lower.as_str()) {
                    Some(o) => Some(o.as_str().to_owned()),
                    None => Some(lower),
                }
            },
            None => None,
        }
    }

    /// The architecture: the first that its sources yield, as its canonical
    /// token where it is a known alias, else in lower case.
    pub fn resolve_arch(env: &VarMap) -> (r: Option<String>)
        ensures
            text_of(r) == resolved_arch(env@),
    {
        match raw_arch(env) {
            Some(v) => {
                let lower = lower_chars(&v);
                match Arch::from_token(lower.as_str()) {
                    Some(a) => Some(a.as_str().to_owned()),
                    None => Some(lower),
                }
            },
            None => None,
        }
    }

    /// The user name: the first that its sources yield, in lower case.
    pub fn resolve_user(env: &VarMap) -> (r: Option<String>)
        ensures
            text_of(r) == resolved_user(env@),
    {
        match raw_user(env) {
            Some(v) => Some(lower_chars(&v)),
            None => None,
        }
    }

    /// The deployment variant: the first that its sources yield, in lower
    /// case.
    pub fn resolve_variant(env: &VarMap) -> (r: Option<String>)
        ensures
            text_of(r) == resolved_variant(env@),
    {
        match raw_variant(env) {
            Some(v) => Some(lower_chars(&v)),
            None => None,
        }
    }

    /// The pull-request number. It resolves only inside a pull-request
    /// context, that is, where `GITHUB_EVENT_NAME` begins with
    /// `pull_request`; there it is the value of `PR_NUMBER`, where set and
    /// not empty, else the digits after the first `/pull/` of `GITHUB_REF`.
    /// Outside that context there is none.
    pub fn resolve_pr_number(env: &VarMap) -> (r: Option<String>)
        ensures
            text_of(r) == resolved_pr_number(env@),
    {
        let marker = to_chars("pull_request");
        let in_event = match env.get("GITHUB_EVENT_NAME") {
            Some(event) => {
                let e = to_chars(event.as_str());
                chars_start_with(e.as_slice(), marker.as_slice())
            },
            None => false,
        };
        if !in_event {
            return None;
        }
        match env.get("PR_NUMBER") {
            Some(pr) => {
                let p = to_chars(pr.as_str());
                if p.len() > 0 {
                    return Some(from_chars(p.as_slice()));
                }
            },
            None => {},
        }
        match env.get("GITHUB_REF") {
            Some(gref) => {
                let g = to_chars(gref.as_str());
                let pull = to_chars("/pull/");
                match chars_find(g.as_slice(), pull.as_slice()) {
                    Some(i) => {
                        let rest = copy_range(g.as_slice(), i + pull.len(), g.len());
                        assert(rest@ == g@.skip(i + "/pull/"@.len()));
                        let digits = chars_leading_digits(rest.as_slice());
                        if digits.len() > 0 {
                            Some(from_chars(digits.as_slice()))
                        } else {
                            None
                        }
                    },
                    None => None,
                }
            },
            None => None,
        }
    }
}

/// Whether one of the sources of `table` reads the variable `k`.
pub open spec fn table_reads(table: Seq<Source>, k: Seq<char>) -> bool {
    exists|i: int| 0 <= i < table.len() && (#[trigger] table[i]).key == k
}

/// Whether `k` is a dimension-configuration key: a variable that a source
/// of the environment, the operating system, the architecture, the user or
/// the variant reads. The pull-request number has no such key.
pub open spec fn is_dimension_key(k: Seq<char>) -> bool {
    table_reads(env_sources(), k) || table_reads(os_sources(), k) || table_reads(
        arch_sources(),
        k,
    ) || table_reads(user_sources(), k) || table_reads(variant_sources(), k)
}

/// A variable that no source of `table` reads has no part in what the table
/// yields.
pub proof fn lemma_first_value_ignores(
    env: Map<Seq<char>, Seq<char>>,
    table: Seq<Source>,
    k: Seq<char>,
    v: Seq<char>,
)
    requires
        !table_reads(table, k),
    ensures
        first_value(env.insert(k, v), table) == first_value(env, table),
    decreases table.len(),
{
    if table.len() > 0 {
        assert(table[0].key != k);
        let rest = table.drop_first();
        assert(!table_reads(rest, k)) by {
            if table_reads(rest, k) {
                let i = choose|i: int| 0 <= i < rest.len() && (#[trigger] rest[i]).key == k;
                assert(table[i + 1].key == k);
            }
        }
        lemma_first_value_ignores(env, rest, k, v);
    }
}

/// Only dimension-configuration keys configure dimensions: setting any
/// other variable leaves the environment, the operating system, the
/// architecture, the user and the variant as they were.
pub proof fn lemma_only_dimension_keys_count(
    env: Map<Seq<char>, Seq<char>>,
    k: Seq<char>,
    v: Seq<char>,
)
    requires
        !is_dimension_key(k),
    ensures
        env_is_set(env.insert(k, v)) == env_is_set(env),
        resolved_env(env.insert(k, v)) == resolved_env(env),
        resolved_os(env.insert(k, v)) == resolved_os(env),
        resolved_arch(env.insert(k, v)) == resolved_arch(env),
        resolved_user(env.insert(k, v)) == resolved_user(env),
        resolved_variant(env.insert(k, v)) == resolved_variant(env),
{
    lemma_first_value_ignores(env, env_sources(), k, v);
    lemma_first_value_ignores(env, os_sources(), k, v);
    lemma_first_value_ignores(env, arch_sources(), k, v);
    lemma_first_value_ignores(env, user_sources(), k, v);
    lemma_first_value_ignores(env, variant_sources(), k, v);
}

/// Canonical tokens never hold a separator: the token of an architecture or
/// of an operating system holds neither `.` nor `-`, so a file name built
/// from tokens splits at its separators in one way only.
pub proof fn lemma_tokens_hold_no_separator(a: Arch, o: Os)
    ensures
        !a.name().contains('.'),
        !a.name().contains('-'),
        !o.name().contains('.'),
        !o.name().contains('-'),
{
    reveal_strlit("amd64");
    reveal_strlit("arm64");
    reveal_strlit("arm");
    reveal_strlit("i386");
    reveal_strlit("riscv64");
    reveal_strlit("ppc64le");
    reveal_strlit("s390x");
    reveal_strlit("linux");
    reveal_strlit("macos");
    reveal_strlit("windows");
    reveal_strlit("freebsd");
    reveal_strlit("openbsd");
    reveal_strlit("netbsd");
    reveal_strlit("android");
    reveal_strlit("ios");
}

/// Whether `name` is one of `keys`.
fn reads_any(name: &str, keys: &Vec<&'static str>) -> (r: bool)
    ensures
        r == exists|i: int| 0 <= i < keys@.len() && (#[trigger] keys@[i])@ == name@,
{
    let mut i: usize = 0;
    while i < keys.len()
        invariant
            i <= keys@.len(),
            forall|j: int| 0 <= j < i ==> (#[trigger] keys@[j])@ != name@,
        decreases keys.len() - i,
    {
        if str_eq(keys[i], name) {
            return true;
        }
        i += 1;
    }
    false
}

impl EnvLoader {
    /// Whether `name` is a dimension-configuration key: a variable that a
    /// source of the environment, the operating system, the architecture,
    /// the user or the variant reads.
    pub fn is_dimension_configuration_key(name: &str) -> (r: bool)
        ensures
            r == is_dimension_key(name@),
    {
        let keys = vec![
            "DOTENVAGE_ENV",
            "EKG_ENV",
            "VERCEL_ENV",
            "NODE_ENV",
            "DOTENVAGE_OS",
            "EKG_OS",
            "CARGO_CFG_TARGET_OS",
            "TARGET",
            "RUNNER_OS",
            "DOTENVAGE_ARCH",
            "EKG_ARCH",
            "CARGO_CFG_TARGET_ARCH",
            "TARGETARCH",
            "TARGETPLATFORM",
            "RUNNER_ARCH",
            "DOTENVAGE_USER",
            "EKG_USER",
            "GITHUB_ACTOR",
            "GITHUB_TRIGGERING_ACTOR",
            "GITHUB_REPOSITORY_OWNER",
            "USER",
            "USERNAME",
            "DOTENVAGE_VARIANT",
            "EKG_VARIANT",
            "VARIANT",
        ];
        let r = reads_any(name, &keys);
        proof {
            let e = env_sources();
            let o = os_sources();
            let a = arch_sources();
            let u = user_sources();
            let v = variant_sources();
            if r {
                let i = choose|i: int| 0 <= i < keys@.len() && (#[trigger] keys@[i])@ == name@;
                if i < 4 {
                    assert(e[i].key == name@);
                } else if i < 9 {
                    assert(o[i - 4].key == name@);
                } else if i < 12 {
                    assert(a[i - 9].key == name@);
                } else if i < 15 {
                    assert(a[i - 8].key == name@);
                } else if i < 22 {
                    assert(u[i - 15].key == name@);
                } else {
                    assert(v[i - 22].key == name@);
                }
            }
            if table_reads(e, name@) {
                let i = choose|i: int| 0 <= i < e.len() && (#[trigger] e[i]).key == name@;
                assert(keys@[i]@ == name@);
            }
            if table_reads(o, name@) {
                let i = choose|i: int| 0 <= i < o.len() && (#[trigger] o[i]).key == name@;
                assert(keys@[i + 4]@ == name@);
            }
            if table_reads(a, name@) {
                let i = choose|i: int| 0 <= i < a.len() && (#[trigger] a[i]).key == name@;
                if i < 3 {
                    assert(keys@[i + 9]@ == name@);
                } else if i == 3 {
                    assert(keys@[7]@ == name@);
                } else {
                    assert(keys@[i + 8]@ == name@);
                }
            }
            if table_reads(u, name@) {
                let i = choose|i: int| 0 <= i < u.len() && (#[trigger] u[i]).key == name@;
                assert(keys@[i + 15]@ == name@);
            }
            if table_reads(v, name@) {
                let i = choose|i: int| 0 <= i < v.len() && (#[trigger] v[i]).key == name@;
                assert(keys@[i + 22]@ == name@);
            }
        }
        r
    }
}

} // verus!
