//! Candidate file names and their lookup in a directory.
//!
//! The resolved dimensions imply a list of candidate names: `.env` first,
//! then one name for every non-empty subset of the resolved axes (environment,
//! operating system, architecture, user, variant, in that order inside a
//! name), and the pull-request name last. A candidate is looked up in the
//! directory without regard to letter case; the files found, each once, in
//! the order of their first match, are the files to load.

use crate::dimension::{
    resolved_arch, resolved_env, resolved_os, resolved_pr_number, resolved_user,
    resolved_variant, text_of,
};
use crate::loader::EnvLoader;
use crate::text::{append_str, from_chars, lowercase, lowercase_of, str_eq, to_chars};
use crate::varmap::VarMap;
use vstd::prelude::*;

verus! {

/// The values of all dimensions, resolved in one pass.
pub struct Dimensions {
    /// The environment name.
    pub env: String,
    /// The operating system.
    pub os: Option<String>,
    /// The architecture.
    pub arch: Option<String>,
    /// The user name.
    pub user: Option<String>,
    /// The deployment variant.
    pub variant: Option<String>,
    /// The pull-request number.
    pub pr: Option<String>,
}

/// The values of all dimensions, as character sequences.
pub struct DimensionValues {
    /// The environment name.
    pub env: Seq<char>,
    /// The operating system.
    pub os: Option<Seq<char>>,
    /// The architecture.
    pub arch: Option<Seq<char>>,
    /// The user name.
    pub user: Option<Seq<char>>,
    /// The deployment variant.
    pub variant: Option<Seq<char>>,
    /// The pull-request number.
    pub pr: Option<Seq<char>>,
}

impl View for Dimensions {
    type V = DimensionValues;

    open spec fn view(&self) -> DimensionValues {
        DimensionValues {
            env: self.env@,
            os: text_of(self.os),
            arch: text_of(self.arch),
            user: text_of(self.user),
            variant: text_of(self.variant),
            pr: text_of(self.pr),
        }
    }
}

/// The dimensions as the view `env` resolves them.
pub open spec fn resolved_dimensions(env: Map<Seq<char>, Seq<char>>) -> DimensionValues {
    DimensionValues {
        env: resolved_env(env),
        os: resolved_os(env),
        arch: resolved_arch(env),
        user: resolved_user(env),
        variant: resolved_variant(env),
        pr: resolved_pr_number(env),
    }
}

/// The number of axes that take part in subset names.
pub open spec fn axes() -> int {
    5
}

/// The value of axis `i`: 0 is the environment, 1 the operating system, 2 the
/// architecture, 3 the user, 4 the variant.
pub open spec fn axis(d: DimensionValues, i: int) -> Option<Seq<char>> {
    if i == 0 {
        Some(d.env)
    } else if i == 1 {
        d.os
    } else if i == 2 {
        d.arch
    } else if i == 3 {
        d.user
    } else if i == 4 {
        d.variant
    } else {
        None
    }
}

/// The weight of axis `i` in a subset number.
pub open spec fn weight(i: int) -> int {
    if i == 0 {
        1
    } else if i == 1 {
        2
    } else if i == 2 {
        4
    } else if i == 3 {
        8
    } else {
        16
    }
}

/// Whether the subset numbered `mask` holds axis `i`.
pub open spec fn selects(mask: int, i: int) -> bool {
    (mask / weight(i)) % 2 == 1
}

/// Whether every axis of the subset numbered `mask` has a value.
pub open spec fn available(d: DimensionValues, mask: int) -> bool {
    &&& selects(mask, 1) ==> d.os is Some
    &&& selects(mask, 2) ==> d.arch is Some
    &&& selects(mask, 3) ==> d.user is Some
    &&& selects(mask, 4) ==> d.variant is Some
}

/// The part of a subset name that the axes from `i` on contribute: a dot and
/// the value, for each axis of the subset.
pub open spec fn name_tail(d: DimensionValues, mask: int, i: int) -> Seq<char>
    decreases axes() - i,
{
    if i < 0 || i >= axes() {
        Seq::empty()
    } else if selects(mask, i) && axis(d, i) is Some {
        "."@ + axis(d, i).unwrap() + name_tail(d, mask, i + 1)
    } else {
        name_tail(d, mask, i + 1)
    }
}

/// The file name of the subset numbered `mask`.
pub open spec fn subset_name(d: DimensionValues, mask: int) -> Seq<char> {
    ".env"@ + name_tail(d, mask, 0)
}

/// The names of the subsets numbered 1 up to, but not including, `upto`, in
/// that order, leaving out those with an axis that has no value.
pub open spec fn subset_names(d: DimensionValues, upto: int) -> Seq<Seq<char>>
    decreases upto,
{
    if upto <= 1 {
        Seq::empty()
    } else if available(d, upto - 1) {
        subset_names(d, upto - 1).push(subset_name(d, upto - 1))
    } else {
        subset_names(d, upto - 1)
    }
}

/// The name that the pull-request number implies, if there is one.
pub open spec fn pr_names(d: DimensionValues) -> Seq<Seq<char>> {
    match d.pr {
        Some(n) => seq![".env.pr-"@ + n],
        None => Seq::empty(),
    }
}

/// The candidate names that the dimensions imply, in order of precedence:
/// the base name, the subset names, the pull-request name.
pub open spec fn candidate_names(d: DimensionValues) -> Seq<Seq<char>> {
    seq![".env"@] + subset_names(d, 32) + pr_names(d)
}

/// Every non-empty subset of the axes whose values are all resolved has its
/// name among the first `upto - 1` subset names, where its number is below
/// `upto`.
pub proof fn lemma_subset_names_complete(d: DimensionValues, mask: int, upto: int)
    requires
        1 <= mask < upto,
        available(d, mask),
    ensures
        subset_names(d, upto).contains(subset_name(d, mask)),
    decreases upto,
{
    if mask == upto - 1 {
        let s = subset_names(d, upto);
        assert(s[s.len() - 1] == subset_name(d, mask));
    } else {
        lemma_subset_names_complete(d, mask, upto - 1);
        let prev = subset_names(d, upto - 1);
        let i = choose|i: int| 0 <= i < prev.len() && prev[i] == subset_name(d, mask);
        assert(subset_names(d, upto)[i] == subset_name(d, mask));
    }
}

/// Completeness of the power set: the name of every non-empty subset of the
/// axes whose values are all resolved is a candidate.
pub proof fn lemma_candidates_complete(d: DimensionValues, mask: int)
    requires
        1 <= mask < 32,
        available(d, mask),
    ensures
        candidate_names(d).contains(subset_name(d, mask)),
{
    lemma_subset_names_complete(d, mask, 32);
    let s = subset_names(d, 32);
    let i = choose|i: int| 0 <= i < s.len() && s[i] == subset_name(d, mask);
    assert(candidate_names(d)[i + 1] == s[i]);
}

/// The subset names come in the order of the subset numbers: of two subsets
/// whose values are all resolved, the one with the smaller number has its
/// name at a smaller offset.
pub proof fn lemma_subset_names_ordered(d: DimensionValues, a: int, b: int, upto: int)
    requires
        1 <= a < b < upto,
        available(d, a),
        available(d, b),
    ensures
        exists|i: int, j: int|
            0 <= i < j < subset_names(d, upto).len() && subset_names(d, upto)[i] == subset_name(
                d,
                a,
            ) && subset_names(d, upto)[j] == subset_name(d, b),
    decreases upto,
{
    let s = subset_names(d, upto);
    if b == upto - 1 {
        lemma_subset_names_complete(d, a, upto - 1);
        let prev = subset_names(d, upto - 1);
        let i = choose|i: int| 0 <= i < prev.len() && prev[i] == subset_name(d, a);
        assert(s[i] == subset_name(d, a));
        assert(s[s.len() - 1] == subset_name(d, b));
        assert(0 <= i < s.len() - 1 < s.len());
    } else {
        lemma_subset_names_ordered(d, a, b, upto - 1);
        let prev = subset_names(d, upto - 1);
        let (i, j) = choose|i: int, j: int|
            0 <= i < j < prev.len() && prev[i] == subset_name(d, a) && prev[j] == subset_name(
                d,
                b,
            );
        assert(s[i] == prev[i]);
        assert(s[j] == prev[j]);
    }
}

/// Precedence among candidates: the base name comes first, the
/// pull-request name, where there is one, comes last.
pub proof fn lemma_candidates_ends(d: DimensionValues)
    ensures
        candidate_names(d).len() >= 1,
        candidate_names(d)[0] == ".env"@,
        d.pr is Some ==> candidate_names(d).last() == ".env.pr-"@ + d.pr.unwrap(),
{
}

/// The name of the subset that holds one axis alone: the base name, a dot
/// and the value of the axis. Every axis that has a value has such a subset.
pub proof fn lemma_single_axis_name(d: DimensionValues, i: int)
    requires
        0 <= i < axes(),
        axis(d, i) is Some,
    ensures
        1 <= weight(i) < 32,
        available(d, weight(i)),
        subset_name(d, weight(i)) == ".env"@ + ("."@ + axis(d, i).unwrap()),
        candidate_names(d).contains(".env"@ + ("."@ + axis(d, i).unwrap())),
{
    let m = weight(i);
    let part = "."@ + axis(d, i).unwrap();
    assert(forall|j: int| 0 <= j < axes() ==> (selects(m, j) <==> j == i));
    assert(name_tail(d, m, 5) == Seq::<char>::empty());
    assert(name_tail(d, m, 4) == if i == 4 {
        part
    } else {
        Seq::<char>::empty()
    }) by {
        assert(part + Seq::<char>::empty() == part);
    }
    assert(name_tail(d, m, 3) == if i >= 3 {
        part
    } else {
        Seq::<char>::empty()
    }) by {
        assert(part + Seq::<char>::empty() == part);
    }
    assert(name_tail(d, m, 2) == if i >= 2 {
        part
    } else {
        Seq::<char>::empty()
    }) by {
        assert(part + Seq::<char>::empty() == part);
    }
    assert(name_tail(d, m, 1) == if i >= 1 {
        part
    } else {
        Seq::<char>::empty()
    }) by {
        assert(part + Seq::<char>::empty() == part);
    }
    assert(name_tail(d, m, 0) == part) by {
        assert(part + Seq::<char>::empty() == part);
    }
    lemma_candidates_complete(d, m);
}

/// What reading a file gave.
pub enum FileRead {
    /// The file's text.
    Text(String),
    /// The file could not be read, for the reason given.
    Failed(String),
}

/// One file of the directory that is loaded from.
pub struct FileEntry {
    /// The file's name inside the directory.
    pub name: String,
    /// The file's path, as it is reported.
    pub path: String,
    /// What reading the file gave.
    pub read: FileRead,
}

/// The names of the entries of a directory.
pub open spec fn names_of(dir: Seq<FileEntry>) -> Seq<Seq<char>> {
    Seq::new(dir.len(), |i: int| dir[i].name@)
}

/// Whether a file named `name` answers to the candidate `wanted`: their
/// lower-case forms are equal.
pub open spec fn answers(name: Seq<char>, wanted: Seq<char>) -> bool {
    lowercase_of(name) == lowercase_of(wanted)
}

/// The offset of the first of `names`, at or after `from`, that answers to
/// `wanted`.
pub open spec fn find_name(names: Seq<Seq<char>>, wanted: Seq<char>, from: int) -> Option<int>
    decreases names.len() - from,
{
    if from < 0 || from >= names.len() {
        None
    } else if answers(names[from], wanted) {
        Some(from)
    } else {
        find_name(names, wanted, from + 1)
    }
}

/// `find_name` gives the first name at or after `from` that answers, and
/// none only where none does.
pub proof fn lemma_find_name(names: Seq<Seq<char>>, wanted: Seq<char>, from: int)
    requires
        0 <= from,
    ensures
        match find_name(names, wanted, from) {
            Some(i) => from <= i < names.len() && answers(names[i], wanted) && forall|j: int|
                from <= j < i ==> !answers(#[trigger] names[j], wanted),
            None => forall|j: int|
                from <= j < names.len() ==> !answers(#[trigger] names[j], wanted),
        },
    decreases names.len() - from,
{
    if from < names.len() && !answers(names[from], wanted) {
        lemma_find_name(names, wanted, from + 1);
    }
}

/// The files that the candidates `cands` select among `names`: for each
/// candidate in turn, the first file that answers to it, unless an earlier
/// candidate selected that file already.
pub open spec fn select(names: Seq<Seq<char>>, cands: Seq<Seq<char>>) -> Seq<int>
    decreases cands.len(),
{
    if cands.len() == 0 {
        Seq::empty()
    } else {
        let before = select(names, cands.drop_last());
        match find_name(names, cands.last(), 0) {
            Some(i) => if before.contains(i) {
                before
            } else {
                before.push(i)
            },
            None => before,
        }
    }
}

/// No file is selected twice, and every selected offset lies in the
/// directory.
pub proof fn lemma_select_distinct(names: Seq<Seq<char>>, cands: Seq<Seq<char>>)
    ensures
        select(names, cands).no_duplicates(),
        forall|k: int|
            0 <= k < select(names, cands).len() ==> 0 <= #[trigger] select(names, cands)[k]
                < names.len(),
    decreases cands.len(),
{
    if cands.len() > 0 {
        lemma_select_distinct(names, cands.drop_last());
        lemma_find_name(names, cands.last(), 0);
    }
}

/// A file is selected exactly where it is the first to answer to some
/// candidate.
pub proof fn lemma_select_members(names: Seq<Seq<char>>, cands: Seq<Seq<char>>, i: int)
    ensures
        select(names, cands).contains(i) <==> exists|c: int|
            0 <= c < cands.len() && find_name(names, #[trigger] cands[c], 0) == Some(i),
    decreases cands.len(),
{
    if cands.len() > 0 {
        let init = cands.drop_last();
        let before = select(names, init);
        let now = select(names, cands);
        lemma_select_members(names, init, i);
        if now.contains(i) {
            if before.contains(i) {
                let c = choose|c: int|
                    0 <= c < init.len() && find_name(names, #[trigger] init[c], 0) == Some(i);
                assert(cands[c] == init[c]);
            } else {
                let k = choose|k: int| 0 <= k < now.len() && now[k] == i;
                assert(find_name(names, cands[cands.len() - 1], 0) == Some(i));
            }
        }
        if exists|c: int|
            0 <= c < cands.len() && find_name(names, #[trigger] cands[c], 0) == Some(i) {
            let c = choose|c: int|
                0 <= c < cands.len() && find_name(names, #[trigger] cands[c], 0) == Some(i);
            if c < cands.len() - 1 {
                assert(init[c] == cands[c]);
                assert(before.contains(i));
                let k = choose|k: int| 0 <= k < before.len() && before[k] == i;
                assert(now[k] == i);
            } else {
                if before.contains(i) {
                } else {
                    assert(now[now.len() - 1] == i);
                }
            }
        }
    }
}

/// The selection only grows as candidates are added at the end: what the
/// first candidates select keeps its place.
pub proof fn lemma_select_prefix(names: Seq<Seq<char>>, cands: Seq<Seq<char>>, n: int)
    requires
        0 <= n <= cands.len(),
    ensures
        select(names, cands.take(n)).len() <= select(names, cands).len(),
        select(names, cands.take(n)) == select(names, cands).take(
            select(names, cands.take(n)).len() as int,
        ),
    decreases cands.len(),
{
    if n == cands.len() {
        assert(cands.take(n) == cands);
        assert(select(names, cands).take(select(names, cands).len() as int) == select(
            names,
            cands,
        ));
    } else {
        let init = cands.drop_last();
        assert(init.take(n) == cands.take(n));
        lemma_select_prefix(names, init, n);
        let a = select(names, cands.take(n));
        let b = select(names, init);
        let c = select(names, cands);
        assert(b.take(a.len() as int) == c.take(a.len() as int));
    }
}

/// The offsets held by a vector of offsets.
pub open spec fn offsets(v: Seq<usize>) -> Seq<int> {
    Seq::new(v.len(), |k: int| v[k] as int)
}

/// Whether `v` holds `x`.
pub(crate) fn holds(v: &Vec<usize>, x: usize) -> (r: bool)
    ensures
        r == offsets(v@).contains(x as int),
{
    let mut i: usize = 0;
    while i < v.len()
        invariant
            i <= v@.len(),
            forall|k: int| 0 <= k < i ==> offsets(v@)[k] != x as int,
        decreases v.len() - i,
    {
        if v[i] == x {
            assert(offsets(v@)[i as int] == x as int);
            return true;
        }
        i += 1;
    }
    false
}

/// Appends a dot and `value` to `name`.
fn push_part(name: &mut Vec<char>, value: &str)
    ensures
        final(name)@ == old(name)@ + ("."@ + value@),
{
    append_str(name, ".");
    append_str(name, value);
    assert((old(name)@ + "."@) + value@ =~= old(name)@ + ("."@ + value@));
}

/// One step of `name_tail`: what axis `i` contributes, then the rest.
proof fn lemma_name_step(d: DimensionValues, mask: int, i: int, head: Seq<char>)
    requires
        0 <= i < axes(),
    ensures
        selects(mask, i) && axis(d, i) is Some ==> head + name_tail(d, mask, i) == (head + ("."@
            + axis(d, i).unwrap())) + name_tail(d, mask, i + 1),
        !selects(mask, i) ==> head + name_tail(d, mask, i) == head + name_tail(d, mask, i + 1),
{
    if selects(mask, i) && axis(d, i) is Some {
        let part = "."@ + axis(d, i).unwrap();
        let rest = name_tail(d, mask, i + 1);
        assert(name_tail(d, mask, i) == part + rest);
        assert(head + (part + rest) =~= (head + part) + rest);
    }
}

/// Appends to `name` what one axis contributes to a subset name. Gives
/// `false` where the subset holds the axis and the axis has no value.
fn push_axis(name: &mut Vec<char>, chosen: bool, value: &Option<String>) -> (ok: bool)
    ensures
        ok == (chosen ==> value is Some),
        ok && chosen ==> final(name)@ == old(name)@ + ("."@ + value.unwrap()@),
        !chosen ==> final(name)@ == old(name)@,
{
    if chosen {
        match value {
            Some(v) => {
                push_part(name, v.as_str());
                true
            },
            None => false,
        }
    } else {
        true
    }
}

/// The name of the subset numbered `mask`, where all its axes are resolved.
fn subset_file_name(d: &Dimensions, mask: usize) -> (r: Option<String>)
    requires
        1 <= mask < 32,
    ensures
        match r {
            Some(n) => available(d@, mask as int) && n@ == subset_name(d@, mask as int),
            None => !available(d@, mask as int),
        },
{
    let mut name: Vec<char> = to_chars(".env");
    let ghost dv = d@;
    let ghost m = mask as int;
    let ghost full = subset_name(dv, m);
    if mask % 2 == 1 {
        push_part(&mut name, d.env.as_str());
    }
    proof {
        lemma_name_step(dv, m, 0, ".env"@);
    }
    assert(name@ + name_tail(dv, m, 1) == full);
    let ghost n1 = name@;
    if !push_axis(&mut name, (mask / 2) % 2 == 1, &d.os) {
        return None;
    }
    proof {
        lemma_name_step(dv, m, 1, n1);
    }
    assert(name@ + name_tail(dv, m, 2) == full);
    let ghost n2 = name@;
    if !push_axis(&mut name, (mask / 4) % 2 == 1, &d.arch) {
        return None;
    }
    proof {
        lemma_name_step(dv, m, 2, n2);
    }
    assert(name@ + name_tail(dv, m, 3) == full);
    let ghost n3 = name@;
    if !push_axis(&mut name, (mask / 8) % 2 == 1, &d.user) {
        return None;
    }
    proof {
        lemma_name_step(dv, m, 3, n3);
    }
    assert(name@ + name_tail(dv, m, 4) == full);
    let ghost n4 = name@;
    if !push_axis(&mut name, (mask / 16) % 2 == 1, &d.variant) {
        return None;
    }
    proof {
        lemma_name_step(dv, m, 4, n4);
        assert(name_tail(dv, m, 5) == Seq::<char>::empty());
        assert(name@ + Seq::<char>::empty() == name@);
    }
    Some(from_chars(name.as_slice()))
}

/// The names held by a vector of strings.
pub open spec fn texts(v: Seq<String>) -> Seq<Seq<char>> {
    Seq::new(v.len(), |k: int| v[k]@)
}

impl EnvLoader {
    /// The offset of the first entry of `dir` that answers to `wanted`.
    pub fn find_file_case_insensitive(dir: &Vec<FileEntry>, wanted: &str) -> (r: Option<usize>)
        ensures
            match r {
                Some(i) => i < dir@.len() && find_name(names_of(dir@), wanted@, 0) == Some(i as int),
                None => find_name(names_of(dir@), wanted@, 0) is None,
            },
    {
        let target = lowercase(wanted);
        let ghost names = names_of(dir@);
        let mut i: usize = 0;
        while i < dir.len()
            invariant
                i <= dir@.len(),
                names == names_of(dir@),
                target@ == lowercase_of(wanted@),
                find_name(names, wanted@, 0) == find_name(names, wanted@, i as int),
            decreases dir.len() - i,
        {
            let lower = lowercase(dir[i].name.as_str());
            assert(names[i as int] == dir@[i as int].name@);
            if str_eq(lower.as_str(), target.as_str()) {
                return Some(i);
            }
            i += 1;
        }
        None
    }

    /// All dimensions, resolved against the view `env`.
    pub fn resolve_dimensions(env: &VarMap) -> (r: Dimensions)
        ensures
            r@ == resolved_dimensions(env@),
    {
        Dimensions {
            env: EnvLoader::resolve_env(env),
            os: EnvLoader::resolve_os(env),
            arch: EnvLoader::resolve_arch(env),
            user: EnvLoader::resolve_user(env),
            variant: EnvLoader::resolve_variant(env),
            pr: EnvLoader::resolve_pr_number(env),
        }
    }

    /// The candidate names that the dimensions imply, in order of
    /// precedence.
    pub fn candidate_names(d: &Dimensions) -> (r: Vec<String>)
        ensures
            texts(r@) == candidate_names(d@),
    {
        let mut r: Vec<String> = Vec::new();
        r.push(".env".to_owned());
        let ghost dv = d@;
        assert(texts(r@) == seq![".env"@] + subset_names(dv, 1));
        let mut mask: usize = 1;
        while mask < 32
            invariant
                1 <= mask <= 32,
                dv == d@,
                texts(r@) == seq![".env"@] + subset_names(dv, mask as int),
            decreases 32 - mask,
        {
            let ghost before = texts(r@);
            match subset_file_name(d, mask) {
                Some(n) => {
                    r.push(n);
                    assert(texts(r@) == before.push(n@));
                    assert(texts(r@) == seq![".env"@] + subset_names(dv, mask + 1));
                },
                None => {},
            }
            mask += 1;
        }
        let ghost before = texts(r@);
        match &d.pr {
            Some(n) => {
                let mut name = to_chars(".env.pr-");
                append_str(&mut name, n.as_str());
                let s = from_chars(name.as_slice());
                r.push(s);
                assert(texts(r@) == before.push(s@));
                assert(texts(r@) == before + pr_names(dv));
            },
            None => {
                assert(texts(r@) == before + pr_names(dv));
            },
        }
        r
    }

    /// The entries of `dir` that the candidates `cands` select, as offsets
    /// into `dir`: each file once, in the order of its first match.
    pub fn select_files(dir: &Vec<FileEntry>, cands: &Vec<String>) -> (r: Vec<usize>)
        ensures
            offsets(r@) == select(names_of(dir@), texts(cands@)),
            forall|k: int| 0 <= k < r@.len() ==> #[trigger] r@[k] < dir@.len(),
    {
        let mut r: Vec<usize> = Vec::new();
        let ghost names = names_of(dir@);
        let ghost all = texts(cands@);
        assert(all.take(0) == Seq::<Seq<char>>::empty());
        assert(offsets(r@) == Seq::<int>::empty());
        let mut c: usize = 0;
        while c < cands.len()
            invariant
                c <= cands@.len(),
                names == names_of(dir@),
                all == texts(cands@),
                offsets(r@) == select(names, all.take(c as int)),
                forall|k: int| 0 <= k < r@.len() ==> #[trigger] r@[k] < dir@.len(),
            decreases cands.len() - c,
        {
            let ghost before = offsets(r@);
            proof {
                let part = all.take(c + 1);
                assert(part.drop_last() == all.take(c as int));
                assert(part.last() == cands@[c as int]@);
            }
            match EnvLoader::find_file_case_insensitive(dir, cands[c].as_str()) {
                Some(i) => {
                    if !holds(&r, i) {
                        r.push(i);
                        assert(offsets(r@) == before.push(i as int));
                    }
                },
                None => {},
            }
            c += 1;
        }
        assert(all.take(cands@.len() as int) == all);
        r
    }

    /// The files of `dir` to load under the view `env`, as offsets into
    /// `dir`, in load order.
    pub fn resolve_env_files(env: &VarMap, dir: &Vec<FileEntry>) -> (r: Vec<usize>)
        ensures
            offsets(r@) == resolved_files(env@, dir@),
            forall|k: int| 0 <= k < r@.len() ==> #[trigger] r@[k] < dir@.len(),
    {
        let d = EnvLoader::resolve_dimensions(env);
        let cands = EnvLoader::candidate_names(&d);
        EnvLoader::select_files(dir, &cands)
    }

    /// The paths of the files of `dir` to load under the view `env`, in load
    /// order: later files override earlier ones.
    pub fn resolve_env_paths(env: &VarMap, dir: &Vec<FileEntry>) -> (r: Vec<String>)
        ensures
            r@.len() == resolved_files(env@, dir@).len(),
            forall|k: int|
                0 <= k < r@.len() ==> 0 <= resolved_files(env@, dir@)[k] < dir@.len() && (
                #[trigger] r@[k])@ == dir@[resolved_files(env@, dir@)[k]].path@,
    {
        let files = EnvLoader::resolve_env_files(env, dir);
        let mut r: Vec<String> = Vec::new();
        let mut k: usize = 0;
        while k < files.len()
            invariant
                k <= files@.len(),
                r@.len() == k,
                offsets(files@) == resolved_files(env@, dir@),
                forall|j: int| 0 <= j < files@.len() ==> #[trigger] files@[j] < dir@.len(),
                forall|j: int|
                    0 <= j < k ==> (#[trigger] r@[j])@ == dir@[resolved_files(
                        env@,
                        dir@,
                    )[j]].path@,
            decreases files.len() - k,
        {
            assert(offsets(files@)[k as int] == files@[k as int]);
            r.push(dir[files[k]].path.clone());
            k += 1;
        }
        assert forall|j: int| 0 <= j < r@.len() implies 0 <= #[trigger] resolved_files(
            env@,
            dir@,
        )[j] < dir@.len() by {
            assert(offsets(files@)[j] == files@[j]);
        }
        r
    }
}

/// The files of `dir` to load under the view `env`, as offsets into `dir`,
/// in load order.
pub open spec fn resolved_files(env: Map<Seq<char>, Seq<char>>, dir: Seq<FileEntry>) -> Seq<int> {
    select(names_of(dir), candidate_names(resolved_dimensions(env)))
}

} // verus!
