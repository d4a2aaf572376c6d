//! The dynamic discovery loader.
//!
//! Loading is a fixpoint loop. Each round resolves the dimensions, lists the
//! files that the candidates select, and loads the first of them that was not
//! loaded before; a round that finds none ends the load. A loaded file is
//! merged over what was loaded before it, and its plaintext variables may fix
//! dimensions that nothing has fixed so far, which can bring new files into
//! reach in the next round.
//!
//! The configuration view is never changed while files are discovered. What
//! files reveal about dimensions is kept beside it, and counts only for
//! dimensions that the view leaves open.

use crate::candidates::{
    axes, axis, candidate_names, find_name, holds, lemma_select_members, lemma_single_axis_name,
    names_of, offsets, select, DimensionValues, Dimensions, FileEntry, FileRead,
};
use crate::dimension::{
    env_is_set, resolved_arch, resolved_env, resolved_os, resolved_pr_number, resolved_user,
    resolved_variant, text_of,
};
use crate::error::SecretsError;
use crate::manager::{decrypted, SecretManager};
use crate::parser::{failure_head, file_vars, plain_vars, Assignment};
use crate::text::starts_with;
use crate::varmap::VarMap;
use vstd::prelude::*;

verus! {

/// What loaded files have revealed about the dimensions that the
/// configuration view leaves open.
pub struct Found {
    /// The environment name.
    pub env: Option<String>,
    /// The operating system.
    pub os: Option<String>,
    /// The architecture.
    pub arch: Option<String>,
    /// The user name.
    pub user: Option<String>,
    /// The deployment variant.
    pub variant: Option<String>,
}

/// What loaded files have revealed, as character sequences.
pub struct FoundValues {
    /// The environment name.
    pub env: Option<Seq<char>>,
    /// The operating system.
    pub os: Option<Seq<char>>,
    /// The architecture.
    pub arch: Option<Seq<char>>,
    /// The user name.
    pub user: Option<Seq<char>>,
    /// The deployment variant.
    pub variant: Option<Seq<char>>,
}

impl View for Found {
    type V = FoundValues;

    open spec fn view(&self) -> FoundValues {
        FoundValues {
            env: text_of(self.env),
            os: text_of(self.os),
            arch: text_of(self.arch),
            user: text_of(self.user),
            variant: text_of(self.variant),
        }
    }
}

/// Nothing revealed yet.
pub open spec fn nothing_found() -> FoundValues {
    FoundValues { env: None, os: None, arch: None, user: None, variant: None }
}

/// `first`, or `second` where `first` is none.
pub open spec fn or_else(first: Option<Seq<char>>, second: Option<Seq<char>>) -> Option<
    Seq<char>,
> {
    match first {
        Some(v) => Some(v),
        None => second,
    }
}

/// The dimensions in force: each as the view `ambient` resolves it, and,
/// where the view leaves it open, as files have revealed it. The environment
/// name falls back to `local`; the pull-request number comes from the view
/// alone.
pub open spec fn effective(ambient: Map<Seq<char>, Seq<char>>, found: FoundValues)
    -> DimensionValues {
    DimensionValues {
        env: if env_is_set(ambient) {
            resolved_env(ambient)
        } else {
            match found.env {
                Some(v) => v,
                None => "local"@,
            }
        },
        os: or_else(resolved_os(ambient), found.os),
        arch: or_else(resolved_arch(ambient), found.arch),
        user: or_else(resolved_user(ambient), found.user),
        variant: or_else(resolved_variant(ambient), found.variant),
        pr: resolved_pr_number(ambient),
    }
}

/// What is known of one dimension after a file with the plaintext value
/// `seen` was loaded: what was found before, if anything; nothing, where the
/// view fixes the dimension; else what the file shows.
pub open spec fn learn(fixed: bool, before: Option<Seq<char>>, seen: Option<Seq<char>>) -> Option<
    Seq<char>,
> {
    if before is Some || fixed {
        before
    } else {
        seen
    }
}

/// What is known of the dimensions after a file with the plaintext variables
/// `plain` was loaded. The file's variables are resolved like a view of
/// their own; what they give fills only dimensions that neither the view
/// `ambient` nor an earlier file has fixed.
pub open spec fn discover(
    ambient: Map<Seq<char>, Seq<char>>,
    found: FoundValues,
    plain: Map<Seq<char>, Seq<char>>,
) -> FoundValues {
    FoundValues {
        env: learn(
            env_is_set(ambient),
            found.env,
            if env_is_set(plain) {
                Some(resolved_env(plain))
            } else {
                None
            },
        ),
        os: learn(resolved_os(ambient) is Some, found.os, resolved_os(plain)),
        arch: learn(resolved_arch(ambient) is Some, found.arch, resolved_arch(plain)),
        user: learn(resolved_user(ambient) is Some, found.user, resolved_user(plain)),
        variant: learn(resolved_variant(ambient) is Some, found.variant, resolved_variant(plain)),
    }
}

/// The state of a load, as mathematical values.
pub struct LoadState {
    /// The variables merged so far.
    pub merged: Map<Seq<char>, Seq<char>>,
    /// The files loaded so far, as offsets into the directory, in load
    /// order.
    pub order: Seq<int>,
    /// What the loaded files have revealed about the dimensions.
    pub found: FoundValues,
}

/// Why a load failed.
pub enum LoadFailure {
    /// The file at this offset could not be read.
    Unreadable(int),
    /// In the file at this offset, this assignment's value failed to
    /// decrypt.
    Undecryptable(int, Assignment),
}

/// The state before anything is loaded.
pub open spec fn initial_state() -> LoadState {
    LoadState { merged: Map::empty(), order: Seq::empty(), found: nothing_found() }
}

/// The files in reach in the state `st`: what the candidates of the
/// dimensions in force select in the directory.
pub open spec fn in_reach(ambient: Map<Seq<char>, Seq<char>>, dir: Seq<FileEntry>, st: LoadState)
    -> Seq<int> {
    select(names_of(dir), candidate_names(effective(ambient, st.found)))
}

/// The first of `files`, at or after position `from`, that is not in
/// `order`.
pub open spec fn first_new(files: Seq<int>, order: Seq<int>, from: int) -> Option<int>
    decreases files.len() - from,
{
    if from < 0 || from >= files.len() {
        None
    } else if !order.contains(files[from]) {
        Some(files[from])
    } else {
        first_new(files, order, from + 1)
    }
}

/// The file to load next: the first file in reach that was not loaded
/// before.
pub open spec fn next_file(ambient: Map<Seq<char>, Seq<char>>, dir: Seq<FileEntry>, st: LoadState)
    -> Option<int> {
    first_new(in_reach(ambient, dir, st), st.order, 0)
}

/// The state after the file at offset `i` is loaded: its variables merged
/// over the earlier ones, the file appended to the load order, the dimensions
/// it reveals noted. A file that cannot be read or decrypted fails the load.
pub open spec fn absorb(
    identity: Seq<char>,
    ambient: Map<Seq<char>, Seq<char>>,
    dir: Seq<FileEntry>,
    st: LoadState,
    i: int,
) -> Result<LoadState, LoadFailure> {
    match dir[i].read {
        FileRead::Failed(_) => Err(LoadFailure::Unreadable(i)),
        FileRead::Text(c) => match file_vars(identity, c@) {
            Ok(vars) => Ok(
                LoadState {
                    merged: st.merged.union_prefer_right(vars),
                    order: st.order.push(i),
                    found: discover(ambient, st.found, plain_vars(c@)),
                },
            ),
            Err(a) => Err(LoadFailure::Undecryptable(i, a)),
        },
    }
}

/// The outcome of the load that continues from the state `st`: the state in
/// which no file in reach is new, or the first failure.
pub open spec fn run(
    identity: Seq<char>,
    ambient: Map<Seq<char>, Seq<char>>,
    dir: Seq<FileEntry>,
    st: LoadState,
) -> Result<LoadState, LoadFailure>
    decreases dir.len() - st.order.len(),
{
    match next_file(ambient, dir, st) {
        Some(i) => if st.order.len() < dir.len() {
            match absorb(identity, ambient, dir, st, i) {
                Ok(next) => run(identity, ambient, dir, next),
                Err(f) => Err(f),
            }
        } else {
            Ok(st)
        },
        None => Ok(st),
    }
}

/// The outcome of a load from the directory `dir` under the view `ambient`.
pub open spec fn loaded(
    identity: Seq<char>,
    ambient: Map<Seq<char>, Seq<char>>,
    dir: Seq<FileEntry>,
) -> Result<LoadState, LoadFailure> {
    run(identity, ambient, dir, initial_state())
}

/// Whether a load order is sound for a directory of `n` files: every offset
/// lies in the directory and none occurs twice.
pub open spec fn sound_order(order: Seq<int>, n: int) -> bool {
    order.no_duplicates() && forall|k: int| 0 <= k < order.len() ==> 0 <= #[trigger] order[k] < n
}

/// Whether the error `e` reports the failure `f`.
pub open spec fn reports(e: SecretsError, f: LoadFailure, dir: Seq<FileEntry>) -> bool {
    match f {
        LoadFailure::Unreadable(i) => e matches SecretsError::EnvFileReadFailed { path, reason }
            && path@ == dir[i].path@ && (dir[i].read matches FileRead::Failed(why) && reason@
            == why@),
        LoadFailure::Undecryptable(i, a) => e matches SecretsError::EnvFileParseFailed {
            path,
            reason,
        } && path@ == dir[i].path@ && starts_with(
            reason@,
            failure_head(a.line, a.key) + "decryption failed: "@,
        ),
    }
}

/// `first_new` gives a member of `files` that is not in `order`, and none
/// only where every file at or after `from` is in `order`.
pub proof fn lemma_first_new(files: Seq<int>, order: Seq<int>, from: int)
    requires
        0 <= from,
    ensures
        match first_new(files, order, from) {
            Some(i) => files.contains(i) && !order.contains(i),
            None => forall|k: int| from <= k < files.len() ==> order.contains(#[trigger] files[k]),
        },
    decreases files.len() - from,
{
    if from < files.len() && order.contains(files[from]) {
        lemma_first_new(files, order, from + 1);
    }
}

/// A sound order that misses some file of the directory is shorter than the
/// directory.
pub proof fn lemma_room(order: Seq<int>, n: int, i: int)
    requires
        sound_order(order, n),
        0 <= i < n,
        !order.contains(i),
    ensures
        order.len() < n,
{
    let all = vstd::set_lib::set_int_range(0, n);
    vstd::set_lib::lemma_int_range(0, n);
    let rest = all.remove(i);
    assert(order.to_set().subset_of(rest)) by {
        assert forall|x: int| order.to_set().contains(x) implies rest.contains(x) by {
            let k = choose|k: int| 0 <= k < order.len() && order[k] == x;
            assert(0 <= order[k] < n);
        }
    }
    vstd::set_lib::lemma_len_subset(order.to_set(), rest);
    order.unique_seq_to_set();
}

/// The file to load next lies in the directory and was not loaded before;
/// with it, a sound order stays sound and is not yet as long as the
/// directory.
pub proof fn lemma_next_file(ambient: Map<Seq<char>, Seq<char>>, dir: Seq<FileEntry>, st: LoadState)
    requires
        sound_order(st.order, dir.len() as int),
        next_file(ambient, dir, st) is Some,
    ensures
        0 <= next_file(ambient, dir, st).unwrap() < dir.len(),
        !st.order.contains(next_file(ambient, dir, st).unwrap()),
        st.order.len() < dir.len(),
        sound_order(st.order.push(next_file(ambient, dir, st).unwrap()), dir.len() as int),
{
    let files = in_reach(ambient, dir, st);
    let i = next_file(ambient, dir, st).unwrap();
    lemma_first_new(files, st.order, 0);
    crate::candidates::lemma_select_distinct(
        names_of(dir),
        candidate_names(effective(ambient, st.found)),
    );
    let k = choose|k: int| 0 <= k < files.len() && files[k] == i;
    assert(0 <= files[k] < dir.len());
    lemma_room(st.order, dir.len() as int, i);
    let longer = st.order.push(i);
    assert forall|a: int, b: int| 0 <= a < longer.len() && 0 <= b < longer.len() && a
        != b implies longer[a] != longer[b] by {
        if a < st.order.len() && b < st.order.len() {
        } else if a < st.order.len() {
            assert(st.order.contains(st.order[a]));
        } else {
            assert(st.order.contains(st.order[b]));
        }
    }
}

/// No double load: in every state that a load passes through from a sound
/// one, and so in its outcome, no file occurs twice in the load order, and
/// every file of the order lies in the directory.
pub proof fn lemma_no_double_load(
    identity: Seq<char>,
    ambient: Map<Seq<char>, Seq<char>>,
    dir: Seq<FileEntry>,
    st: LoadState,
)
    requires
        sound_order(st.order, dir.len() as int),
    ensures
        run(identity, ambient, dir, st) matches Ok(end) ==> sound_order(
            end.order,
            dir.len() as int,
        ),
    decreases dir.len() - st.order.len(),
{
    match next_file(ambient, dir, st) {
        Some(i) => {
            lemma_next_file(ambient, dir, st);
            match absorb(identity, ambient, dir, st, i) {
                Ok(next) => {
                    lemma_no_double_load(identity, ambient, dir, next);
                },
                Err(_) => {},
            }
        },
        None => {},
    }
}

/// Fixpoint: where a load from a sound state succeeds, no file in reach of
/// its outcome is new, so loading again from the outcome changes nothing.
pub proof fn lemma_fixpoint(
    identity: Seq<char>,
    ambient: Map<Seq<char>, Seq<char>>,
    dir: Seq<FileEntry>,
    st: LoadState,
)
    requires
        sound_order(st.order, dir.len() as int),
    ensures
        run(identity, ambient, dir, st) matches Ok(end) ==> next_file(ambient, dir, end) is None
            && run(identity, ambient, dir, end) == Ok::<LoadState, LoadFailure>(end),
    decreases dir.len() - st.order.len(),
{
    match next_file(ambient, dir, st) {
        Some(i) => {
            lemma_next_file(ambient, dir, st);
            match absorb(identity, ambient, dir, st, i) {
                Ok(next) => {
                    lemma_fixpoint(identity, ambient, dir, next);
                },
                Err(_) => {},
            }
        },
        None => {},
    }
}

/// The view wins: a dimension that the view `ambient` fixes has the view's
/// value in force, whatever files reveal.
pub proof fn lemma_view_wins(ambient: Map<Seq<char>, Seq<char>>, found: FoundValues)
    ensures
        env_is_set(ambient) ==> effective(ambient, found).env == resolved_env(ambient),
        resolved_os(ambient) is Some ==> effective(ambient, found).os == resolved_os(ambient),
        resolved_arch(ambient) is Some ==> effective(ambient, found).arch == resolved_arch(ambient),
        resolved_user(ambient) is Some ==> effective(ambient, found).user == resolved_user(ambient),
        resolved_variant(ambient) is Some ==> effective(ambient, found).variant
            == resolved_variant(ambient),
        effective(ambient, found).pr == resolved_pr_number(ambient),
{
}

/// The first file to reveal a dimension decides it: what was found before a
/// file was loaded is still what is found after it.
pub proof fn lemma_first_discovery_stays(
    ambient: Map<Seq<char>, Seq<char>>,
    found: FoundValues,
    plain: Map<Seq<char>, Seq<char>>,
)
    ensures
        found.env is Some ==> discover(ambient, found, plain).env == found.env,
        found.os is Some ==> discover(ambient, found, plain).os == found.os,
        found.arch is Some ==> discover(ambient, found, plain).arch == found.arch,
        found.user is Some ==> discover(ambient, found, plain).user == found.user,
        found.variant is Some ==> discover(ambient, found, plain).variant == found.variant,
{
}

/// Precedence: a file that is loaded overrides what was loaded before it.
/// After the file at `i` is absorbed, every variable it holds has the file's
/// value, and every other variable keeps the value it had.
pub proof fn lemma_later_file_overrides(
    identity: Seq<char>,
    ambient: Map<Seq<char>, Seq<char>>,
    dir: Seq<FileEntry>,
    st: LoadState,
    i: int,
    key: Seq<char>,
)
    requires
        absorb(identity, ambient, dir, st, i) is Ok,
    ensures
        dir[i].read matches FileRead::Text(c) && file_vars(identity, c@) matches Ok(vars) && ({
            let next = absorb(identity, ambient, dir, st, i)->Ok_0;
            &&& vars.contains_key(key) ==> next.merged.contains_key(key) && next.merged[key]
                == vars[key]
            &&& !vars.contains_key(key) ==> (next.merged.contains_key(key)
                <==> st.merged.contains_key(key))
            &&& !vars.contains_key(key) && st.merged.contains_key(key) ==> next.merged[key]
                == st.merged[key]
        }),
{
}

/// Discovery takes effect: a dimension that neither the view nor an earlier
/// file has fixed is in force, after a file that reveals it in plaintext was
/// loaded, with the value that the file gives it.
pub proof fn lemma_discovery_takes_effect(
    ambient: Map<Seq<char>, Seq<char>>,
    found: FoundValues,
    plain: Map<Seq<char>, Seq<char>>,
)
    ensures
        !env_is_set(ambient) && found.env is None && env_is_set(plain) ==> effective(
            ambient,
            discover(ambient, found, plain),
        ).env == resolved_env(plain),
        resolved_os(ambient) is None && found.os is None ==> effective(
            ambient,
            discover(ambient, found, plain),
        ).os == resolved_os(plain),
        resolved_arch(ambient) is None && found.arch is None ==> effective(
            ambient,
            discover(ambient, found, plain),
        ).arch == resolved_arch(plain),
        resolved_user(ambient) is None && found.user is None ==> effective(
            ambient,
            discover(ambient, found, plain),
        ).user == resolved_user(plain),
        resolved_variant(ambient) is None && found.variant is None ==> effective(
            ambient,
            discover(ambient, found, plain),
        ).variant == resolved_variant(plain),
{
}

/// The variables of the file at offset `i`, where it can be read and
/// decrypted; none otherwise.
pub open spec fn vars_of_file(identity: Seq<char>, dir: Seq<FileEntry>, i: int) -> Map<
    Seq<char>,
    Seq<char>,
> {
    match dir[i].read {
        FileRead::Text(c) => match file_vars(identity, c@) {
            Ok(vars) => vars,
            Err(_) => Map::empty(),
        },
        FileRead::Failed(_) => Map::empty(),
    }
}

/// The variables of the first `upto` files of `order`, merged in that order:
/// a later file overrides an earlier one.
pub open spec fn merge_in_order(
    identity: Seq<char>,
    dir: Seq<FileEntry>,
    order: Seq<int>,
    upto: int,
) -> Map<Seq<char>, Seq<char>>
    decreases upto,
{
    if upto <= 0 || upto > order.len() {
        Map::empty()
    } else {
        merge_in_order(identity, dir, order, upto - 1).union_prefer_right(
            vars_of_file(identity, dir, order[upto - 1]),
        )
    }
}

/// The merge of an order does not depend on what follows the files merged.
pub proof fn lemma_merge_prefix(
    identity: Seq<char>,
    dir: Seq<FileEntry>,
    order: Seq<int>,
    i: int,
    upto: int,
)
    requires
        0 <= upto <= order.len(),
    ensures
        merge_in_order(identity, dir, order.push(i), upto) == merge_in_order(
            identity,
            dir,
            order,
            upto,
        ),
    decreases upto,
{
    if upto > 0 {
        lemma_merge_prefix(identity, dir, order, i, upto - 1);
        assert(order.push(i)[upto - 1] == order[upto - 1]);
    }
}

/// Load order is precedence order: where a load succeeds, the merged map
/// is the merge, in load order, of the files loaded. For every variable it
/// holds the value from the last loaded file that assigns it, and it holds
/// no variable that no loaded file assigns.
pub proof fn lemma_merged_follows_order(
    identity: Seq<char>,
    ambient: Map<Seq<char>, Seq<char>>,
    dir: Seq<FileEntry>,
    st: LoadState,
)
    requires
        sound_order(st.order, dir.len() as int),
        st.merged == merge_in_order(identity, dir, st.order, st.order.len() as int),
    ensures
        run(identity, ambient, dir, st) matches Ok(end) ==> end.merged == merge_in_order(
            identity,
            dir,
            end.order,
            end.order.len() as int,
        ),
    decreases dir.len() - st.order.len(),
{
    match next_file(ambient, dir, st) {
        Some(i) => {
            lemma_next_file(ambient, dir, st);
            match absorb(identity, ambient, dir, st, i) {
                Ok(next) => {
                    lemma_merge_prefix(identity, dir, st.order, i, st.order.len() as int);
                    assert(next.order[next.order.len() - 1] == i);
                    lemma_merged_follows_order(identity, ambient, dir, next);
                },
                Err(_) => {},
            }
        },
        None => {},
    }
}

/// The outcome of a load from nothing: its order is sound, its merged map
/// is the merge of the files loaded in load order, and no file in reach is
/// left to load.
pub proof fn lemma_loaded(
    identity: Seq<char>,
    ambient: Map<Seq<char>, Seq<char>>,
    dir: Seq<FileEntry>,
)
    ensures
        loaded(identity, ambient, dir) matches Ok(end) ==> sound_order(
            end.order,
            dir.len() as int,
        ) && end.merged == merge_in_order(identity, dir, end.order, end.order.len() as int)
            && next_file(ambient, dir, end) is None,
{
    let start = initial_state();
    lemma_no_double_load(identity, ambient, dir, start);
    lemma_merged_follows_order(identity, ambient, dir, start);
    lemma_fixpoint(identity, ambient, dir, start);
}

/// Whether the view fixes axis `d`: 0 is the environment, 1 the operating
/// system, 2 the architecture, 3 the user, 4 the variant.
pub open spec fn fixed_by_view(ambient: Map<Seq<char>, Seq<char>>, d: int) -> bool {
    if d == 0 {
        env_is_set(ambient)
    } else if d == 1 {
        resolved_os(ambient) is Some
    } else if d == 2 {
        resolved_arch(ambient) is Some
    } else if d == 3 {
        resolved_user(ambient) is Some
    } else {
        resolved_variant(ambient) is Some
    }
}

/// What plaintext variables show of axis `d`, in canonical form.
pub open spec fn shown_of(plain: Map<Seq<char>, Seq<char>>, d: int) -> Option<Seq<char>> {
    if d == 0 {
        if env_is_set(plain) {
            Some(resolved_env(plain))
        } else {
            None
        }
    } else if d == 1 {
        resolved_os(plain)
    } else if d == 2 {
        resolved_arch(plain)
    } else if d == 3 {
        resolved_user(plain)
    } else {
        resolved_variant(plain)
    }
}

/// What files have revealed of axis `d`.
pub open spec fn found_of(found: FoundValues, d: int) -> Option<Seq<char>> {
    if d == 0 {
        found.env
    } else if d == 1 {
        found.os
    } else if d == 2 {
        found.arch
    } else if d == 3 {
        found.user
    } else {
        found.variant
    }
}

/// The plaintext variables of the file at offset `i`; none where the file
/// could not be read.
pub open spec fn plain_of_file(dir: Seq<FileEntry>, i: int) -> Map<Seq<char>, Seq<char>> {
    match dir[i].read {
        FileRead::Text(c) => plain_vars(c@),
        FileRead::Failed(_) => Map::empty(),
    }
}

/// What the first `upto` files of `order` reveal of the dimensions, taken in
/// that order: the first file to show an axis that the view leaves open
/// decides it.
pub open spec fn found_in_order(
    ambient: Map<Seq<char>, Seq<char>>,
    dir: Seq<FileEntry>,
    order: Seq<int>,
    upto: int,
) -> FoundValues
    decreases upto,
{
    if upto <= 0 || upto > order.len() {
        nothing_found()
    } else {
        discover(
            ambient,
            found_in_order(ambient, dir, order, upto - 1),
            plain_of_file(dir, order[upto - 1]),
        )
    }
}

/// What an order reveals does not depend on what follows the files taken.
pub proof fn lemma_found_prefix(
    ambient: Map<Seq<char>, Seq<char>>,
    dir: Seq<FileEntry>,
    order: Seq<int>,
    i: int,
    upto: int,
)
    requires
        0 <= upto <= order.len(),
    ensures
        found_in_order(ambient, dir, order.push(i), upto) == found_in_order(
            ambient,
            dir,
            order,
            upto,
        ),
    decreases upto,
{
    if upto > 0 {
        lemma_found_prefix(ambient, dir, order, i, upto - 1);
        assert(order.push(i)[upto - 1] == order[upto - 1]);
    }
}

/// Where a load succeeds, what it has found of the dimensions is what the
/// files loaded reveal, taken in load order.
pub proof fn lemma_found_follows_order(
    identity: Seq<char>,
    ambient: Map<Seq<char>, Seq<char>>,
    dir: Seq<FileEntry>,
    st: LoadState,
)
    requires
        sound_order(st.order, dir.len() as int),
        st.found == found_in_order(ambient, dir, st.order, st.order.len() as int),
    ensures
        run(identity, ambient, dir, st) matches Ok(end) ==> end.found == found_in_order(
            ambient,
            dir,
            end.order,
            end.order.len() as int,
        ),
    decreases dir.len() - st.order.len(),
{
    match next_file(ambient, dir, st) {
        Some(i) => {
            lemma_next_file(ambient, dir, st);
            match absorb(identity, ambient, dir, st, i) {
                Ok(next) => {
                    lemma_found_prefix(ambient, dir, st.order, i, st.order.len() as int);
                    assert(next.order[next.order.len() - 1] == i);
                    lemma_found_follows_order(identity, ambient, dir, next);
                },
                Err(_) => {},
            }
        },
        None => {},
    }
}

/// The first file of an order to show an axis that the view leaves open
/// decides it: among the first `upto` files, where the file at position `p`
/// shows axis `d` and none before it does, the value found is the one that
/// file shows.
pub proof fn lemma_first_reveal_decides(
    ambient: Map<Seq<char>, Seq<char>>,
    dir: Seq<FileEntry>,
    order: Seq<int>,
    upto: int,
    d: int,
    p: int,
)
    requires
        0 <= d < axes(),
        0 <= upto <= order.len(),
        0 <= p < order.len(),
        !fixed_by_view(ambient, d),
        shown_of(plain_of_file(dir, order[p]), d) is Some,
        forall|q: int| 0 <= q < p ==> shown_of(plain_of_file(dir, #[trigger] order[q]), d) is None,
    ensures
        found_of(found_in_order(ambient, dir, order, upto), d) == if upto <= p {
            None
        } else {
            shown_of(plain_of_file(dir, order[p]), d)
        },
    decreases upto,
{
    if upto > 0 {
        lemma_first_reveal_decides(ambient, dir, order, upto - 1, d, p);
        if upto - 1 < p {
            assert(shown_of(plain_of_file(dir, order[upto - 1]), d) is None);
        }
    }
}

/// Where a load succeeds, every file in reach of its outcome has been
/// loaded.
pub proof fn lemma_reach_is_loaded(
    identity: Seq<char>,
    ambient: Map<Seq<char>, Seq<char>>,
    dir: Seq<FileEntry>,
    f: int,
)
    ensures
        loaded(identity, ambient, dir) matches Ok(end) ==> (in_reach(ambient, dir, end).contains(f)
            ==> end.order.contains(f)),
{
    lemma_loaded(identity, ambient, dir);
    match loaded(identity, ambient, dir) {
        Ok(end) => {
            let files = in_reach(ambient, dir, end);
            lemma_first_new(files, end.order, 0);
            if files.contains(f) {
                let k = choose|k: int| 0 <= k < files.len() && files[k] == f;
                assert(end.order.contains(files[k]));
            }
        },
        Err(_) => {},
    }
}

/// Where a load succeeds, the file that answers first to a candidate of the
/// dimensions in force at its end has been loaded.
pub proof fn lemma_candidate_file_is_loaded(
    identity: Seq<char>,
    ambient: Map<Seq<char>, Seq<char>>,
    dir: Seq<FileEntry>,
    name: Seq<char>,
    f: int,
)
    requires
        find_name(names_of(dir), name, 0) == Some(f),
    ensures
        loaded(identity, ambient, dir) matches Ok(end) ==> (candidate_names(
            effective(ambient, end.found),
        ).contains(name) ==> end.order.contains(f)),
{
    match loaded(identity, ambient, dir) {
        Ok(end) => {
            let cands = candidate_names(effective(ambient, end.found));
            if cands.contains(name) {
                let c = choose|c: int| 0 <= c < cands.len() && cands[c] == name;
                assert(find_name(names_of(dir), cands[c], 0) == Some(f));
                lemma_select_members(names_of(dir), cands, f);
                lemma_reach_is_loaded(identity, ambient, dir, f);
            }
        },
        Err(_) => {},
    }
}

/// A file that is loaded is merged: among the first `upto` files of an
/// order, every variable of the file at position `p` is in the merge, with
/// that file's value unless a file after it holds the variable too.
pub proof fn lemma_loaded_file_is_merged(
    identity: Seq<char>,
    dir: Seq<FileEntry>,
    order: Seq<int>,
    upto: int,
    p: int,
    k: Seq<char>,
)
    requires
        0 <= p < upto <= order.len(),
        vars_of_file(identity, dir, order[p]).contains_key(k),
    ensures
        merge_in_order(identity, dir, order, upto).contains_key(k),
        (forall|q: int|
            p < q < upto ==> !vars_of_file(identity, dir, #[trigger] order[q]).contains_key(k))
            ==> merge_in_order(identity, dir, order, upto)[k] == vars_of_file(
            identity,
            dir,
            order[p],
        )[k],
    decreases upto,
{
    if upto - 1 > p {
        lemma_loaded_file_is_merged(identity, dir, order, upto - 1, p, k);
        if forall|q: int|
            p < q < upto ==> !vars_of_file(identity, dir, #[trigger] order[q]).contains_key(k) {
            assert(!vars_of_file(identity, dir, order[upto - 1]).contains_key(k));
        }
    }
}

/// Dynamic discovery: where a load succeeds and the view leaves axis `d`
/// open, the first loaded file to show the axis in plaintext brings the
/// file named by the value it shows into the load. That file, the first of
/// the directory to answer to `.env.` and the value, is in the load order,
/// and every variable it holds is in the merged map.
pub proof fn lemma_discovered_file_is_loaded(
    identity: Seq<char>,
    ambient: Map<Seq<char>, Seq<char>>,
    dir: Seq<FileEntry>,
    d: int,
    p: int,
    v: Seq<char>,
    f: int,
)
    requires
        0 <= d < axes(),
        !fixed_by_view(ambient, d),
        loaded(identity, ambient, dir) matches Ok(end) && 0 <= p < end.order.len() && shown_of(
            plain_of_file(dir, end.order[p]),
            d,
        ) == Some(v) && forall|q: int|
            0 <= q < p ==> shown_of(plain_of_file(dir, #[trigger] end.order[q]), d) is None,
        find_name(names_of(dir), ".env"@ + ("."@ + v), 0) == Some(f),
    ensures
        loaded(identity, ambient, dir) matches Ok(end) && axis(effective(ambient, end.found), d)
            == Some(v) && end.order.contains(f) && forall|k: Seq<char>|
            vars_of_file(identity, dir, f).contains_key(k) ==> #[trigger] end.merged.contains_key(
                k,
            ),
{
    let end = loaded(identity, ambient, dir)->Ok_0;
    let start = initial_state();
    lemma_loaded(identity, ambient, dir);
    lemma_found_follows_order(identity, ambient, dir, start);
    lemma_first_reveal_decides(ambient, dir, end.order, end.order.len() as int, d, p);
    let dims = effective(ambient, end.found);
    assert(found_of(end.found, d) == Some(v));
    assert(axis(dims, d) == Some(v));
    lemma_single_axis_name(dims, d);
    lemma_candidate_file_is_loaded(identity, ambient, dir, ".env"@ + ("."@ + v), f);
    let at = choose|at: int| 0 <= at < end.order.len() && end.order[at] == f;
    assert forall|k: Seq<char>| vars_of_file(identity, dir, f).contains_key(k) implies #[trigger]
        end.merged.contains_key(k) by {
        lemma_loaded_file_is_merged(identity, dir, end.order, end.order.len() as int, at, k);
    }
}

/// Loads layered `.env` files and decrypts their values.
pub struct EnvLoader {
    manager: SecretManager,
}

/// The state of a load in progress.
pub struct LoadProgress {
    merged: VarMap,
    order: Vec<usize>,
    found: Found,
}

impl View for LoadProgress {
    type V = LoadState;

    closed spec fn view(&self) -> LoadState {
        LoadState { merged: self.merged@, order: offsets(self.order@), found: self.found@ }
    }
}

/// A copy of an optional string.
fn copy_text(s: &Option<String>) -> (r: Option<String>)
    ensures
        text_of(r) == text_of(*s),
{
    match s {
        Some(t) => Some(t.clone()),
        None => None,
    }
}

/// `first`, or a copy of `second` where `first` is none.
fn first_or(first: Option<String>, second: &Option<String>) -> (r: Option<String>)
    ensures
        text_of(r) == or_else(text_of(first), text_of(*second)),
{
    match first {
        Some(v) => Some(v),
        None => copy_text(second),
    }
}

/// What is known of one dimension after a file was loaded.
fn learned(fixed: bool, before: Option<String>, seen: Option<String>) -> (r: Option<String>)
    ensures
        text_of(r) == learn(fixed, text_of(before), text_of(seen)),
{
    if before.is_some() || fixed {
        before
    } else {
        seen
    }
}

impl LoadProgress {
    /// The state before anything is loaded.
    pub fn new() -> (r: LoadProgress)
        ensures
            r@ == initial_state(),
    {
        let r = LoadProgress {
            merged: VarMap::new(),
            order: Vec::new(),
            found: Found { env: None, os: None, arch: None, user: None, variant: None },
        };
        assert(offsets(r.order@) == Seq::<int>::empty());
        r
    }

    /// The variables merged so far.
    pub fn merged(&self) -> (r: &VarMap)
        ensures
            r@ == self@.merged,
    {
        &self.merged
    }

    /// The files loaded so far, as offsets into the directory, in load
    /// order.
    pub fn order(&self) -> (r: &Vec<usize>)
        ensures
            offsets(r@) == self@.order,
    {
        &self.order
    }

    /// What the loaded files have revealed about the dimensions.
    pub fn found(&self) -> (r: &Found)
        ensures
            r@ == self@.found,
    {
        &self.found
    }
}

impl EnvLoader {
    /// The identity that values are decrypted under, in its serialized form.
    pub closed spec fn key(&self) -> Seq<char> {
        self.manager.key()
    }

    /// A loader that decrypts with `manager`.
    pub fn with_manager(manager: SecretManager) -> (r: EnvLoader)
        ensures
            r.key() == manager.key(),
    {
        EnvLoader { manager }
    }

    /// The manager that values are decrypted with.
    pub fn secrets(&self) -> (r: &SecretManager)
        ensures
            r.key() == self.key(),
    {
        &self.manager
    }

    /// The dimensions in force under the view `env`, given what files have
    /// revealed.
    pub fn effective_dimensions(env: &VarMap, found: &Found) -> (r: Dimensions)
        ensures
            r@ == effective(env@, found@),
    {
        let name = if EnvLoader::env_is_configured(env) {
            EnvLoader::resolve_env(env)
        } else {
            match &found.env {
                Some(v) => v.clone(),
                None => "local".to_owned(),
            }
        };
        Dimensions {
            env: name,
            os: first_or(EnvLoader::resolve_os(env), &found.os),
            arch: first_or(EnvLoader::resolve_arch(env), &found.arch),
            user: first_or(EnvLoader::resolve_user(env), &found.user),
            variant: first_or(EnvLoader::resolve_variant(env), &found.variant),
            pr: EnvLoader::resolve_pr_number(env),
        }
    }

    /// What is known of the dimensions after a file with the plaintext
    /// variables `plain` was loaded.
    pub fn discover_dimensions(env: &VarMap, found: Found, plain: &VarMap) -> (r: Found)
        ensures
            r@ == discover(env@, found@, plain@),
    {
        let seen_env = if EnvLoader::env_is_configured(plain) {
            Some(EnvLoader::resolve_env(plain))
        } else {
            None
        };
        let Found { env: e, os: o, arch: a, user: u, variant: v } = found;
        Found {
            env: learned(EnvLoader::env_is_configured(env), e, seen_env),
            os: learned(EnvLoader::resolve_os(env).is_some(), o, EnvLoader::resolve_os(plain)),
            arch: learned(
                EnvLoader::resolve_arch(env).is_some(),
                a,
                EnvLoader::resolve_arch(plain),
            ),
            user: learned(
                EnvLoader::resolve_user(env).is_some(),
                u,
                EnvLoader::resolve_user(plain),
            ),
            variant: learned(
                EnvLoader::resolve_variant(env).is_some(),
                v,
                EnvLoader::resolve_variant(plain),
            ),
        }
    }

    /// The file to load next, as an offset into `dir`: the first file in
    /// reach that was not loaded before. None ends the load.
    pub fn next_file(env: &VarMap, dir: &Vec<FileEntry>, progress: &LoadProgress) -> (r: Option<
        usize,
    >)
        ensures
            match r {
                Some(i) => i < dir@.len() && next_file(env@, dir@, progress@) == Some(i as int),
                None => next_file(env@, dir@, progress@) is None,
            },
    {
        let d = EnvLoader::effective_dimensions(env, &progress.found);
        let cands = EnvLoader::candidate_names(&d);
        let files = EnvLoader::select_files(dir, &cands);
        let ghost reach = in_reach(env@, dir@, progress@);
        let ghost order = progress@.order;
        let mut k: usize = 0;
        while k < files.len()
            invariant
                k <= files@.len(),
                offsets(files@) == reach,
                reach == in_reach(env@, dir@, progress@),
                order == progress@.order,
                order == offsets(progress.order@),
                forall|j: int| 0 <= j < files@.len() ==> #[trigger] files@[j] < dir@.len(),
                first_new(reach, order, 0) == first_new(reach, order, k as int),
            decreases files.len() - k,
        {
            assert(reach[k as int] == files@[k as int]);
            if !holds(&progress.order, files[k]) {
                return Some(files[k]);
            }
            k += 1;
        }
        None
    }

    /// The variables of one file with their values decrypted. Fails with
    /// `EnvFileReadFailed` where the file could not be read, and as
    /// `parse_and_decrypt` does where a value fails to decrypt.
    pub fn load_env_file(&self, file: &FileEntry) -> (r: Result<VarMap, SecretsError>)
        ensures
            match file.read {
                FileRead::Text(c) => match file_vars(self.key(), c@) {
                    Ok(m) => r matches Ok(v) && v@ == m,
                    Err(a) => r matches Err(SecretsError::EnvFileParseFailed { path, reason })
                        && path@ == file.path@ && starts_with(
                        reason@,
                        failure_head(a.line, a.key) + "decryption failed: "@,
                    ),
                },
                FileRead::Failed(why) => r matches Err(
                    SecretsError::EnvFileReadFailed { path, reason },
                ) && path@ == file.path@ && reason@ == why@,
            },
    {
        match &file.read {
            FileRead::Text(c) => self.parse_and_decrypt(c.as_str(), file.path.as_str()),
            FileRead::Failed(why) => Err(
                SecretsError::EnvFileReadFailed { path: file.path.clone(), reason: why.clone() },
            ),
        }
    }

    /// Loads the file at offset `i`: merges its variables over the earlier
    /// ones, appends it to the load order, and notes the dimensions that its
    /// plaintext variables reveal.
    pub fn absorb(&self, env: &VarMap, dir: &Vec<FileEntry>, progress: LoadProgress, i: usize) -> (r:
        Result<LoadProgress, SecretsError>)
        requires
            i < dir@.len(),
        ensures
            match absorb(self.key(), env@, dir@, progress@, i as int) {
                Ok(next) => r matches Ok(p) && p@ == next,
                Err(f) => r matches Err(e) && reports(e, f, dir@),
            },
    {
        let vars = match self.load_env_file(&dir[i]) {
            Ok(v) => v,
            Err(e) => {
                return Err(e);
            },
        };
        let LoadProgress { merged: m, order: o, found: f } = progress;
        let mut merged = m;
        let mut order = o;
        let ghost before = offsets(order@);
        merged.extend(&vars);
        order.push(i);
        assert(offsets(order@) == before.push(i as int));
        let found = match &dir[i].read {
            FileRead::Text(c) => {
                let plain = EnvLoader::plaintext_entries(c.as_str());
                EnvLoader::discover_dimensions(env, f, &plain)
            },
            FileRead::Failed(_) => f,
        };
        Ok(LoadProgress { merged, order, found })
    }

    /// Runs the load to its end and gives the final state.
    fn run_load(&self, env: &VarMap, dir: &Vec<FileEntry>) -> (r: Result<
        LoadProgress,
        SecretsError,
    >)
        ensures
            match loaded(self.key(), env@, dir@) {
                Ok(end) => r matches Ok(p) && p@ == end && sound_order(
                    end.order,
                    dir@.len() as int,
                ),
                Err(f) => r matches Err(e) && reports(e, f, dir@),
            },
    {
        let mut progress = LoadProgress::new();
        let ghost id = self.key();
        loop
            invariant
                id == self.key(),
                loaded(id, env@, dir@) == run(id, env@, dir@, progress@),
                sound_order(progress@.order, dir@.len() as int),
            decreases dir@.len() - progress@.order.len(),
        {
            match EnvLoader::next_file(env, dir, &progress) {
                Some(i) => {
                    proof {
                        lemma_next_file(env@, dir@, progress@);
                    }
                    match self.absorb(env, dir, progress, i) {
                        Ok(next) => {
                            progress = next;
                        },
                        Err(e) => {
                            return Err(e);
                        },
                    }
                },
                None => {
                    return Ok(progress);
                },
            }
        }
    }

    /// Loads the directory `dir` under the view `env`, without changing the
    /// view: the merged variables, and the paths of the files loaded, in load
    /// order. The merged map holds, for every variable, the value from the
    /// last loaded file that assigns it. Any file that cannot be read or
    /// decrypted fails the whole load.
    pub fn collect_all_vars_from_dir(&self, env: &VarMap, dir: &Vec<FileEntry>) -> (r: Result<
        (VarMap, Vec<String>),
        SecretsError,
    >)
        ensures
            match loaded(self.key(), env@, dir@) {
                Ok(end) => r matches Ok((vars, paths)) && vars@ == end.merged && paths@.len()
                    == end.order.len() && sound_order(end.order, dir@.len() as int) && forall|
                    k: int,
                |
                    0 <= k < paths@.len() ==> (#[trigger] paths@[k])@ == dir@[end.order[k]].path@,
                Err(f) => r matches Err(e) && reports(e, f, dir@),
            },
    {
        let progress = match self.run_load(env, dir) {
            Ok(p) => p,
            Err(e) => {
                return Err(e);
            },
        };
        let ghost end = progress@;
        let LoadProgress { merged, order, found: _ } = progress;
        let mut paths: Vec<String> = Vec::new();
        let mut k: usize = 0;
        while k < order.len()
            invariant
                k <= order@.len(),
                paths@.len() == k,
                offsets(order@) == end.order,
                sound_order(end.order, dir@.len() as int),
                forall|j: int| 0 <= j < k ==> (#[trigger] paths@[j])@ == dir@[end.order[j]].path@,
            decreases order.len() - k,
        {
            assert(end.order[k as int] == order@[k as int]);
            paths.push(dir[order[k]].path.clone());
            k += 1;
        }
        Ok((merged, paths))
    }

    /// Loads the directory `dir` under the view `env` and exports the merged
    /// variables into the view: every loaded variable is set to its merged
    /// value, every other variable of the view keeps its value. Where the
    /// load fails, the view is left as it was.
    pub fn load_from_dir(&self, env: &mut VarMap, dir: &Vec<FileEntry>) -> (r: Result<
        (),
        SecretsError,
    >)
        ensures
            match loaded(self.key(), old(env)@, dir@) {
                Ok(end) => r is Ok && final(env)@ == old(env)@.union_prefer_right(end.merged),
                Err(f) => r matches Err(e) && reports(e, f, dir@) && final(env)@ == old(env)@,
            },
    {
        match self.collect_all_vars_from_dir(env, dir) {
            Ok((vars, _)) => {
                env.extend(&vars);
                Ok(())
            },
            Err(e) => Err(e),
        }
    }

    /// Loads the directory `dir` under the view `env` and exports the merged
    /// variables into the view, as `load_from_dir` does.
    pub fn load(&self, env: &mut VarMap, dir: &Vec<FileEntry>) -> (r: Result<(), SecretsError>)
        ensures
            match loaded(self.key(), old(env)@, dir@) {
                Ok(end) => r is Ok && final(env)@ == old(env)@.union_prefer_right(end.merged),
                Err(f) => r matches Err(e) && reports(e, f, dir@) && final(env)@ == old(env)@,
            },
    {
        self.load_from_dir(env, dir)
    }

    /// The names of all variables that a load of `dir` under the view `env`
    /// gives, each once.
    pub fn get_all_variable_names_from_dir(&self, env: &VarMap, dir: &Vec<FileEntry>) -> (r:
        Result<Vec<String>, SecretsError>)
        ensures
            match loaded(self.key(), env@, dir@) {
                Ok(end) => r matches Ok(names) && names@.len() == end.merged.len() && (forall|
                    i: int,
                |
                    0 <= i < names@.len() ==> end.merged.contains_key((#[trigger] names@[i])@))
                    && (forall|i: int, j: int|
                    0 <= i < j < names@.len() ==> names@[i]@ != names@[j]@) && (forall|
                    k: Seq<char>,
                |
                    end.merged.contains_key(k) ==> exists|i: int|
                        0 <= i < names@.len() && (#[trigger] names@[i])@ == k),
                Err(f) => r matches Err(e) && reports(e, f, dir@),
            },
    {
        match self.collect_all_vars_from_dir(env, dir) {
            Ok((vars, _)) => Ok(vars.keys()),
            Err(e) => Err(e),
        }
    }

    /// The names of all variables that a load of `dir` under the view `env`
    /// gives, each once, as `get_all_variable_names_from_dir` does.
    pub fn get_all_variable_names(&self, env: &VarMap, dir: &Vec<FileEntry>) -> (r: Result<
        Vec<String>,
        SecretsError,
    >)
        ensures
            match loaded(self.key(), env@, dir@) {
                Ok(end) => r matches Ok(names) && names@.len() == end.merged.len() && (forall|
                    i: int,
                |
                    0 <= i < names@.len() ==> end.merged.contains_key((#[trigger] names@[i])@))
                    && (forall|i: int, j: int|
                    0 <= i < j < names@.len() ==> names@[i]@ != names@[j]@) && (forall|
                    k: Seq<char>,
                |
                    end.merged.contains_key(k) ==> exists|i: int|
                        0 <= i < names@.len() && (#[trigger] names@[i])@ == k),
                Err(f) => r matches Err(e) && reports(e, f, dir@),
            },
    {
        self.get_all_variable_names_from_dir(env, dir)
    }

    /// The value of the variable `key` in the view `env`, decrypted where it
    /// is encrypted. Fails with `EnvVarNotFound` where the view does not
    /// hold the variable, and with `DecryptionFailed` where its value fails
    /// to decrypt.
    pub fn get_var(&self, env: &VarMap, key: &str) -> (r: Result<String, SecretsError>)
        ensures
            match r {
                Ok(v) => env@.contains_key(key@) && decrypted(self.key(), env@[key@]) == Some(v@),
                Err(SecretsError::EnvVarNotFound { key: k }) => !env@.contains_key(key@) && k@
                    == key@,
                Err(e) => env@.contains_key(key@) && decrypted(self.key(), env@[key@]) is None
                    && e is DecryptionFailed,
            },
    {
        match env.get(key) {
            Some(value) => self.manager.decrypt_value(value.as_str()),
            None => Err(SecretsError::EnvVarNotFound { key: key.to_owned() }),
        }
    }

    /// The value of the variable `key` in the view `env`, decrypted where it
    /// is encrypted; `default` where the view does not hold it or its value
    /// fails to decrypt.
    pub fn get_var_or(&self, env: &VarMap, key: &str, default: &str) -> (r: String)
        ensures
            r@ == if env@.contains_key(key@) && decrypted(self.key(), env@[key@]) is Some {
                decrypted(self.key(), env@[key@]).unwrap()
            } else {
                default@
            },
    {
        match self.get_var(env, key) {
            Ok(v) => v,
            Err(_) => default.to_owned(),
        }
    }
}

} // verus!
