//! The order of names: lexicographic by character, which is the order of
//! their UTF-8 bytes.

use crate::candidates::texts;
use crate::text::to_chars;
use vstd::prelude::*;
use vstd::seq_lib::group_to_multiset_ensures;

verus! {

broadcast use vstd::slice::group_slice_axioms;

/// Whether `a` comes strictly before `b`.
pub open spec fn precedes(a: Seq<char>, b: Seq<char>) -> bool
    decreases a.len(),
{
    if b.len() == 0 {
        false
    } else if a.len() == 0 {
        true
    } else if a[0] != b[0] {
        a[0] < b[0]
    } else {
        precedes(a.drop_first(), b.drop_first())
    }
}

/// Whether no element of `s` comes strictly before an earlier one.
pub open spec fn ascending(s: Seq<Seq<char>>) -> bool {
    forall|i: int, j: int| 0 <= i < j < s.len() ==> !precedes(s[j], s[i])
}

/// Nothing comes before itself.
pub proof fn lemma_precedes_irreflexive(a: Seq<char>)
    ensures
        !precedes(a, a),
    decreases a.len(),
{
    if a.len() > 0 {
        lemma_precedes_irreflexive(a.drop_first());
    }
}

/// Of two sequences, at most one comes before the other.
pub proof fn lemma_precedes_asymmetric(a: Seq<char>, b: Seq<char>)
    requires
        precedes(a, b),
    ensures
        !precedes(b, a),
    decreases a.len(),
{
    if a.len() > 0 && b.len() > 0 && a[0] == b[0] {
        lemma_precedes_asymmetric(a.drop_first(), b.drop_first());
    }
}

/// What comes before `b` comes before everything that does not come before
/// `b`.
pub proof fn lemma_precedes_chain(a: Seq<char>, b: Seq<char>, c: Seq<char>)
    requires
        precedes(a, b),
        !precedes(c, b),
    ensures
        precedes(a, c),
    decreases a.len(),
{
    if a.len() > 0 && c.len() > 0 && a[0] == b[0] && c[0] == b[0] {
        lemma_precedes_chain(a.drop_first(), b.drop_first(), c.drop_first());
    }
}

/// Of two different sequences, one comes before the other.
pub proof fn lemma_precedes_total(a: Seq<char>, b: Seq<char>)
    ensures
        a == b || precedes(a, b) || precedes(b, a),
    decreases a.len(),
{
    if a.len() > 0 && b.len() > 0 && a[0] == b[0] {
        lemma_precedes_total(a.drop_first(), b.drop_first());
        if a.drop_first() == b.drop_first() {
            assert(a =~= seq![a[0]] + a.drop_first());
            assert(b =~= seq![b[0]] + b.drop_first());
        }
    } else if a.len() == 0 && b.len() == 0 {
        assert(a =~= b);
    }
}

/// Whether `a` comes strictly before `b`.
pub fn chars_precede(a: &[char], b: &[char]) -> (r: bool)
    ensures
        r == precedes(a@, b@),
{
    let mut i: usize = 0;
    assert(a@.skip(0) == a@ && b@.skip(0) == b@);
    loop
        invariant
            i <= a.len(),
            i <= b.len(),
            precedes(a@, b@) == precedes(a@.skip(i as int), b@.skip(i as int)),
        decreases a.len() - i,
    {
        let ghost x = a@.skip(i as int);
        let ghost y = b@.skip(i as int);
        if i >= b.len() {
            return false;
        }
        if i >= a.len() {
            return true;
        }
        assert(x[0] == a@[i as int] && y[0] == b@[i as int]);
        if a[i] != b[i] {
            return a[i] < b[i];
        }
        assert(x.drop_first() == a@.skip(i + 1));
        assert(y.drop_first() == b@.skip(i + 1));
        i += 1;
    }
}

/// The offset at which `name` is inserted into the ascending `sorted`: the
/// first at which an element comes after it.
fn slot(sorted: &Vec<String>, name: &str) -> (r: usize)
    ensures
        r <= sorted@.len(),
        forall|j: int| 0 <= j < r ==> !precedes(name@, #[trigger] sorted@[j]@),
        r < sorted@.len() ==> precedes(name@, sorted@[r as int]@),
{
    let n = to_chars(name);
    let mut i: usize = 0;
    while i < sorted.len()
        invariant
            i <= sorted@.len(),
            n@ == name@,
            forall|j: int| 0 <= j < i ==> !precedes(name@, #[trigger] sorted@[j]@),
        decreases sorted.len() - i,
    {
        let other = to_chars(sorted[i].as_str());
        if chars_precede(n.as_slice(), other.as_slice()) {
            return i;
        }
        i += 1;
    }
    i
}

/// The names in ascending order: the same names, each as often as it is
/// given.
pub fn sort_names(names: Vec<String>) -> (r: Vec<String>)
    ensures
        ascending(texts(r@)),
        texts(r@).to_multiset() == texts(names@).to_multiset(),
        r@.len() == names@.len(),
{
    broadcast use group_to_multiset_ensures;

    let mut r: Vec<String> = Vec::new();
    let mut k: usize = 0;
    assert(texts(r@) == texts(names@).take(0));
    while k < names.len()
        invariant
            k <= names@.len(),
            r@.len() == k,
            ascending(texts(r@)),
            texts(r@).to_multiset() == texts(names@).take(k as int).to_multiset(),
        decreases names.len() - k,
    {
        let name = names[k].clone();
        let at = slot(&r, name.as_str());
        let ghost before = texts(r@);
        r.insert(at, name);
        proof {
            let after = texts(r@);
            assert(after == before.insert(at as int, name@));
            assert forall|i: int, j: int| 0 <= i < j < after.len() implies !precedes(
                after[j],
                after[i],
            ) by {
                if j < at {
                    assert(after[i] == before[i] && after[j] == before[j]);
                } else if j == at {
                    assert(after[i] == before[i]);
                    assert(!precedes(name@, r@[i]@)) by {
                        assert(before[i] == r@[i]@);
                    }
                } else if i < at {
                    assert(after[i] == before[i] && after[j] == before[j - 1]);
                } else if i == at {
                    assert(after[j] == before[j - 1]);
                    assert(before[at as int] == r@[at + 1]@);
                    if j - 1 > at {
                        assert(!precedes(before[j - 1], before[at as int]));
                    } else {
                        lemma_precedes_irreflexive(before[at as int]);
                    }
                    lemma_precedes_chain(name@, before[at as int], before[j - 1]);
                    lemma_precedes_asymmetric(name@, before[j - 1]);
                } else {
                    assert(after[i] == before[i - 1] && after[j] == before[j - 1]);
                }
            }
            let part = texts(names@).take(k + 1);
            let head = texts(names@).take(k as int);
            assert(texts(names@)[k as int] == names@[k as int]@);
            assert(part == head.push(name@));
            vstd::seq_lib::to_multiset_build(head, name@);
            vstd::seq_lib::to_multiset_insert(before, at as int, name@);
            assert(after.to_multiset() == before.to_multiset().insert(name@));
            assert(part.to_multiset() == head.to_multiset().insert(name@));
        }
        k += 1;
    }
    assert(texts(names@).take(names@.len() as int) == texts(names@));
    r
}

} // verus!
