//! A map from variable names to values, used both for the merged result of a
//! load and for the configuration view that dimensions are resolved against.
//!
//! The map keeps one entry per name, in the order in which names were first
//! inserted. Its view is a `Map` from names to values.

use crate::text::str_eq;
use vstd::prelude::*;

verus! {

/// The map that a sequence of entries stands for: a later entry with the same
/// name replaces an earlier one.
pub open spec fn map_of(es: Seq<(Seq<char>, Seq<char>)>) -> Map<Seq<char>, Seq<char>>
    decreases es.len(),
{
    if es.len() == 0 {
        Map::empty()
    } else {
        map_of(es.drop_last()).insert(es.last().0, es.last().1)
    }
}

/// No name occurs twice in `es`.
pub open spec fn distinct_names(es: Seq<(Seq<char>, Seq<char>)>) -> bool {
    forall|i: int, j: int| 0 <= i < j < es.len() ==> es[i].0 != es[j].0
}

/// Whether some entry of `es` has the name `k`.
pub open spec fn has_name(es: Seq<(Seq<char>, Seq<char>)>, k: Seq<char>) -> bool {
    exists|i: int| 0 <= i < es.len() && #[trigger] es[i].0 == k
}

/// What `map_of` holds: exactly the names of `es`, and, where names are
/// distinct, each with the value of its entry.
pub proof fn lemma_map_of(es: Seq<(Seq<char>, Seq<char>)>)
    ensures
        map_of(es).dom().finite(),
        forall|k: Seq<char>| #[trigger] map_of(es).contains_key(k) <==> has_name(es, k),
        distinct_names(es) ==> map_of(es).dom().len() == es.len(),
        distinct_names(es) ==> forall|i: int|
            0 <= i < es.len() ==> map_of(es)[#[trigger] es[i].0] == es[i].1,
    decreases es.len(),
{
    if es.len() > 0 {
        let init = es.drop_last();
        let last = es.last();
        lemma_map_of(init);
        assert(map_of(es).dom() == map_of(init).dom().insert(last.0));
        assert forall|k: Seq<char>| #[trigger]
            map_of(es).contains_key(k) <==> has_name(es, k) by {
            if has_name(es, k) {
                let i = choose|i: int| 0 <= i < es.len() && #[trigger] es[i].0 == k;
                if i < es.len() - 1 {
                    assert(init[i].0 == k);
                    assert(has_name(init, k));
                }
            }
            if map_of(es).contains_key(k) {
                if k == last.0 {
                    assert(es[es.len() - 1].0 == k);
                } else {
                    assert(has_name(init, k));
                    let i = choose|i: int| 0 <= i < init.len() && #[trigger] init[i].0 == k;
                    assert(es[i].0 == k);
                }
            }
        }
        if distinct_names(es) {
            assert(distinct_names(init)) by {
                assert forall|i: int, j: int| 0 <= i < j < init.len() implies init[i].0
                    != init[j].0 by {
                    assert(es[i].0 != es[j].0);
                }
            }
            assert(!has_name(init, last.0)) by {
                if has_name(init, last.0) {
                    let i = choose|i: int| 0 <= i < init.len() && #[trigger] init[i].0 == last.0;
                    assert(es[i].0 != es[es.len() - 1].0);
                }
            }
            assert forall|i: int| 0 <= i < es.len() implies map_of(es)[#[trigger] es[i].0]
                == es[i].1 by {
                if i < es.len() - 1 {
                    assert(init[i].0 == es[i].0);
                    assert(es[i].0 != es[es.len() - 1].0);
                }
            }
        }
    }
}

/// The entry at `i` is in the map, with its value, where names are distinct.
pub proof fn lemma_map_of_at(es: Seq<(Seq<char>, Seq<char>)>, i: int)
    requires
        distinct_names(es),
        0 <= i < es.len(),
    ensures
        map_of(es).contains_key(es[i].0),
        map_of(es)[es[i].0] == es[i].1,
{
    lemma_map_of(es);
    assert(es[i].0 == es[i].0);
    assert(has_name(es, es[i].0));
}

/// A name that no entry has is not in the map.
pub proof fn lemma_map_of_absent(es: Seq<(Seq<char>, Seq<char>)>, k: Seq<char>)
    requires
        forall|i: int| 0 <= i < es.len() ==> es[i].0 != k,
    ensures
        !map_of(es).contains_key(k),
{
    lemma_map_of(es);
}

/// Replacing the value of the entry at `i` sets its name to the new value.
pub proof fn lemma_map_update(es: Seq<(Seq<char>, Seq<char>)>, i: int, v: Seq<char>)
    requires
        distinct_names(es),
        0 <= i < es.len(),
    ensures
        distinct_names(es.update(i, (es[i].0, v))),
        map_of(es.update(i, (es[i].0, v))) == map_of(es).insert(es[i].0, v),
    decreases es.len(),
{
    let k = es[i].0;
    let after = es.update(i, (k, v));
    assert(distinct_names(after)) by {
        assert forall|a: int, b: int| 0 <= a < b < after.len() implies after[a].0
            != after[b].0 by {
            assert(es[a].0 != es[b].0);
        }
    }
    lemma_map_of(es);
    lemma_map_of(after);
    assert forall|x: Seq<char>| map_of(after).contains_key(x) <==> map_of(es).insert(
        k,
        v,
    ).contains_key(x) by {
        if has_name(after, x) {
            let a = choose|a: int| 0 <= a < after.len() && #[trigger] after[a].0 == x;
            assert(es[a].0 == x);
        }
        if has_name(es, x) {
            let a = choose|a: int| 0 <= a < es.len() && #[trigger] es[a].0 == x;
            assert(after[a].0 == x);
        }
        if x == k {
            assert(after[i].0 == x);
        }
    }
    assert forall|x: Seq<char>| map_of(after).contains_key(x) implies map_of(after)[x]
        == map_of(es).insert(k, v)[x] by {
        let a = choose|a: int| 0 <= a < after.len() && #[trigger] after[a].0 == x;
        lemma_map_of_at(after, a);
        if a != i {
            assert(es[a].0 == x);
            lemma_map_of_at(es, a);
            if a < i {
                assert(es[a].0 != es[i].0);
            } else {
                assert(es[i].0 != es[a].0);
            }
        }
    }
    assert(map_of(after) =~= map_of(es).insert(k, v));
}

/// A map from variable names to values.
pub struct VarMap {
    entries: Vec<(String, String)>,
}

impl View for VarMap {
    type V = Map<Seq<char>, Seq<char>>;

    closed spec fn view(&self) -> Map<Seq<char>, Seq<char>> {
        map_of(self.pairs())
    }
}

impl VarMap {
    /// The entries as pairs of name and value, in the order in which the
    /// names were first inserted.
    pub closed spec fn pairs(&self) -> Seq<(Seq<char>, Seq<char>)> {
        Seq::new(self.entries@.len(), |i: int| (self.entries@[i].0@, self.entries@[i].1@))
    }

    #[verifier::type_invariant]
    spec fn names_are_distinct(&self) -> bool {
        distinct_names(self.pairs())
    }

    /// The view is the map of the entries, and no name occurs twice among
    /// them.
    pub proof fn lemma_pairs(&self)
        requires
            self.wf(),
        ensures
            self@ == map_of(self.pairs()),
            distinct_names(self.pairs()),
            self@.dom().finite(),
            self@.dom().len() == self.pairs().len(),
            forall|k: Seq<char>| #[trigger] self@.contains_key(k) <==> has_name(self.pairs(), k),
            forall|i: int|
                0 <= i < self.pairs().len() ==> self@[#[trigger] self.pairs()[i].0]
                    == self.pairs()[i].1,
    {
        lemma_map_of(self.pairs());
    }

    /// Holds of every `VarMap` that executable code can hold: no name occurs
    /// twice.
    pub closed spec fn wf(&self) -> bool {
        distinct_names(self.pairs())
    }

    /// An empty map.
    pub fn new() -> (r: VarMap)
        ensures
            r@ == Map::<Seq<char>, Seq<char>>::empty(),
            r.pairs() == Seq::<(Seq<char>, Seq<char>)>::empty(),
            r.wf(),
    {
        let r = VarMap { entries: Vec::new() };
        assert(r.pairs() == Seq::<(Seq<char>, Seq<char>)>::empty());
        r
    }

    /// The number of names.
    pub fn len(&self) -> (n: usize)
        ensures
            n == self@.len(),
            n == self.pairs().len(),
            self.wf(),
    {
        proof {
            use_type_invariant(self);
            lemma_map_of(self.pairs());
        }
        self.entries.len()
    }

    /// Whether the map holds no name.
    pub fn is_empty(&self) -> (r: bool)
        ensures
            r == (self@.len() == 0),
            self.wf(),
    {
        self.len() == 0
    }

    /// The position of the entry named `key`.
    fn position(&self, key: &str) -> (r: Option<usize>)
        ensures
            self.wf(),
            match r {
                Some(i) => i < self.pairs().len() && self.pairs()[i as int].0 == key@,
                None => !has_name(self.pairs(), key@),
            },
    {
        proof {
            use_type_invariant(self);
        }
        let mut i: usize = 0;
        while i < self.entries.len()
            invariant
                self.wf(),
                i <= self.entries@.len(),
                self.pairs().len() == self.entries@.len(),
                forall|j: int| 0 <= j < i ==> self.pairs()[j].0 != key@,
            decreases self.entries.len() - i,
        {
            if str_eq(self.entries[i].0.as_str(), key) {
                return Some(i);
            }
            i += 1;
        }
        None
    }

    /// The value of `key`, if the map holds it.
    pub fn get(&self, key: &str) -> (r: Option<&String>)
        ensures
            self.wf(),
            match r {
                Some(v) => self@.contains_key(key@) && v@ == self@[key@],
                None => !self@.contains_key(key@),
            },
    {
        proof {
            use_type_invariant(self);
        }
        match self.position(key) {
            Some(i) => {
                proof {
                    lemma_map_of_at(self.pairs(), i as int);
                }
                Some(&self.entries[i].1)
            },
            None => {
                proof {
                    lemma_map_of_absent(self.pairs(), key@);
                }
                None
            },
        }
    }

    /// Whether the map holds `key`.
    pub fn contains_key(&self, key: &str) -> (r: bool)
        ensures
            self.wf(),
            r == self@.contains_key(key@),
    {
        self.get(key).is_some()
    }

    /// The name of the `i`-th entry, in order of first insertion.
    pub fn name_at(&self, i: usize) -> (r: &String)
        requires
            i < self.pairs().len(),
        ensures
            r@ == self.pairs()[i as int].0,
    {
        &self.entries[i].0
    }

    /// The value of the `i`-th entry, in order of first insertion.
    pub fn value_at(&self, i: usize) -> (r: &String)
        requires
            i < self.pairs().len(),
        ensures
            r@ == self.pairs()[i as int].1,
    {
        &self.entries[i].1
    }

    /// Sets `key` to `value`. A name that the map already holds keeps its
    /// place among the entries; a new one goes to the end.
    pub fn insert(&mut self, key: String, value: String)
        ensures
            final(self)@ == old(self)@.insert(key@, value@),
            final(self).wf(),
            match index_of_name(old(self).pairs(), key@) {
                Some(i) => final(self).pairs() == old(self).pairs().update(i, (key@, value@)),
                None => final(self).pairs() == old(self).pairs().push((key@, value@)),
            },
    {
        proof {
            use_type_invariant(&*self);
            lemma_map_of(self.pairs());
        }
        let ghost before = self.pairs();
        let found = self.position(key.as_str());
        let mut taken = VarMap::new();
        std::mem::swap(self, &mut taken);
        let mut entries = taken.entries;
        assert(before == Seq::new(entries@.len(), |i: int| (entries@[i].0@, entries@[i].1@)));
        match found {
            Some(i) => {
                proof {
                    lemma_index_of_name(before, key@);
                }
                entries[i] = (key, value);
                proof {
                    let after = Seq::new(entries@.len(), |i: int| (entries@[i].0@, entries@[i].1@));
                    assert(after == before.update(i as int, (key@, value@)));
                    assert(distinct_names(after)) by {
                        assert forall|a: int, b: int| 0 <= a < b < after.len() implies after[a].0
                            != after[b].0 by {
                            assert(before[a].0 != before[b].0);
                        }
                    }
                    lemma_map_update(before, i as int, value@);
                }
                *self = VarMap { entries };
            },
            None => {
                proof {
                    lemma_index_of_name(before, key@);
                }
                entries.push((key, value));
                proof {
                    let after = Seq::new(entries@.len(), |i: int| (entries@[i].0@, entries@[i].1@));
                    assert(after == before.push((key@, value@)));
                    assert(after.drop_last() == before);
                    assert(distinct_names(after)) by {
                        assert forall|a: int, b: int| 0 <= a < b < after.len() implies after[a].0
                            != after[b].0 by {
                            if b < before.len() {
                                assert(before[a].0 != before[b].0);
                            } else {
                                assert(before[a].0 == after[a].0);
                            }
                        }
                    }
                }
                *self = VarMap { entries };
            },
        }
    }

    /// Sets every name of `other` to the value it has there; names that only
    /// `self` holds keep their value.
    pub fn extend(&mut self, other: &VarMap)
        ensures
            final(self)@ == old(self)@.union_prefer_right(other@),
            final(self).wf(),
    {
        proof {
            use_type_invariant(other);
            lemma_map_of(other.pairs());
        }
        let n = other.len();
        let mut i: usize = 0;
        while i < n
            invariant
                n == other.pairs().len(),
                i <= n,
                other.wf(),
                self@ == old(self)@.union_prefer_right(map_of(other.pairs().take(i as int))),
            decreases n - i,
        {
            let key = other.name_at(i).clone();
            let value = other.value_at(i).clone();
            proof {
                let part = other.pairs().take(i + 1);
                assert(part.drop_last() == other.pairs().take(i as int));
                assert(part.last() == other.pairs()[i as int]);
                assert(old(self)@.union_prefer_right(map_of(part)) =~= old(
                    self,
                )@.union_prefer_right(map_of(part.drop_last())).insert(key@, value@));
            }
            self.insert(key, value);
            i += 1;
        }
        proof {
            use_type_invariant(&*self);
            assert(other.pairs().take(n as int) == other.pairs());
            assert(other@ == map_of(other.pairs()));
        }
    }

    /// A copy of the map.
    pub fn duplicate(&self) -> (r: VarMap)
        ensures
            r@ == self@,
            r.pairs() == self.pairs(),
            r.wf(),
            self.wf(),
    {
        proof {
            use_type_invariant(self);
        }
        let mut entries: Vec<(String, String)> = Vec::new();
        let mut i: usize = 0;
        while i < self.entries.len()
            invariant
                i <= self.entries@.len(),
                entries@.len() == i,
                forall|j: int|
                    0 <= j < i ==> (#[trigger] entries@[j]).0@ == self.entries@[j].0@
                        && entries@[j].1@ == self.entries@[j].1@,
            decreases self.entries.len() - i,
        {
            entries.push((self.entries[i].0.clone(), self.entries[i].1.clone()));
            i += 1;
        }
        let ghost mine = self.pairs();
        let ghost theirs = Seq::new(entries@.len(), |i: int| (entries@[i].0@, entries@[i].1@));
        assert(theirs == mine);
        let r = VarMap { entries };
        assert(r.pairs() == theirs);
        r
    }

    /// The names, in order of first insertion. None occurs twice.
    pub fn keys(&self) -> (r: Vec<String>)
        ensures
            self.wf(),
            r@.len() == self@.len(),
            r@.len() == self.pairs().len(),
            forall|i: int| 0 <= i < r@.len() ==> (#[trigger] r@[i])@ == self.pairs()[i].0,
            forall|i: int| 0 <= i < r@.len() ==> self@.contains_key((#[trigger] r@[i])@),
            forall|i: int, j: int| 0 <= i < j < r@.len() ==> r@[i]@ != r@[j]@,
            forall|k: Seq<char>|
                self@.contains_key(k) ==> exists|i: int| 0 <= i < r@.len() && (#[trigger] r@[i])@ == k,
    {
        proof {
            use_type_invariant(self);
            lemma_map_of(self.pairs());
        }
        let mut r: Vec<String> = Vec::new();
        let mut i: usize = 0;
        while i < self.entries.len()
            invariant
                i <= self.entries@.len(),
                self.pairs().len() == self.entries@.len(),
                r@.len() == i,
                forall|j: int| 0 <= j < i ==> (#[trigger] r@[j])@ == self.pairs()[j].0,
            decreases self.entries.len() - i,
        {
            r.push(self.entries[i].0.clone());
            i += 1;
        }
        proof {
            use_type_invariant(self);
            lemma_map_of(self.pairs());
            assert forall|k: Seq<char>| self@.contains_key(k) implies exists|i: int|
                0 <= i < r@.len() && (#[trigger] r@[i])@ == k by {
                assert(has_name(self.pairs(), k));
                let a = choose|a: int|
                    0 <= a < self.pairs().len() && #[trigger] self.pairs()[a].0 == k;
                assert(r@[a]@ == k);
            }
            assert forall|i: int| 0 <= i < r@.len() implies self@.contains_key(
                (#[trigger] r@[i])@,
            ) by {
                lemma_map_of_at(self.pairs(), i);
            }
            assert forall|i: int, j: int| 0 <= i < j < r@.len() implies r@[i]@ != r@[j]@ by {
                assert(self.pairs()[i].0 != self.pairs()[j].0);
            }
        }
        r
    }
}

/// The position of the entry named `k` in `es`.
pub open spec fn index_of_name(es: Seq<(Seq<char>, Seq<char>)>, k: Seq<char>) -> Option<int>
    decreases es.len(),
{
    if es.len() == 0 {
        None
    } else if es[0].0 == k {
        Some(0)
    } else {
        match index_of_name(es.drop_first(), k) {
            Some(i) => Some(i + 1),
            None => None,
        }
    }
}

/// `index_of_name` gives the first entry named `k`, and none only where no
/// entry has that name.
pub proof fn lemma_index_of_name(es: Seq<(Seq<char>, Seq<char>)>, k: Seq<char>)
    ensures
        match index_of_name(es, k) {
            Some(i) => 0 <= i < es.len() && es[i].0 == k && forall|j: int|
                0 <= j < i ==> es[j].0 != k,
            None => !has_name(es, k),
        },
    decreases es.len(),
{
    if es.len() > 0 && es[0].0 != k {
        let rest = es.drop_first();
        lemma_index_of_name(rest, k);
        match index_of_name(rest, k) {
            Some(i) => {
                assert forall|j: int| 0 <= j < i + 1 implies es[j].0 != k by {
                    if j > 0 {
                        assert(rest[j - 1] == es[j]);
                    }
                }
            },
            None => {
                if has_name(es, k) {
                    let j = choose|j: int| 0 <= j < es.len() && #[trigger] es[j].0 == k;
                    assert(rest[j - 1].0 == k);
                }
            },
        }
    }
}

} // verus!
