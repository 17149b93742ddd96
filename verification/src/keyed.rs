//! Sequences of named items, kept in the order of their names.

use crate::order::{
    comes_before, lemma_precedes_irreflexive, lemma_precedes_total, lemma_precedes_transitive,
    precedes,
};
use vstd::prelude::*;
use vstd::string::*;

verus! {

/// An item that is found by its name.
pub trait Named {
    /// The name of the item.
    spec fn label(&self) -> Seq<char>;

    /// The name of the item.
    fn name(&self) -> (n: &String)
        ensures
            n@ == self.label(),
    ;
}

/// The names of the items of `v`, in their order.
pub open spec fn labels<T: Named>(v: Seq<T>) -> Seq<Seq<char>> {
    Seq::new(v.len(), |i: int| v[i].label())
}

/// The index of the first `k` among `names` at or after `from`, and the
/// length of `names` where there is none.
pub open spec fn index_of(names: Seq<Seq<char>>, k: Seq<char>, from: int) -> int
    decreases names.len() - from,
{
    if from < 0 || from >= names.len() {
        names.len() as int
    } else if names[from] == k {
        from
    } else {
        index_of(names, k, from + 1)
    }
}

/// `index_of` points at the first `k` from `from` on, or behind the end.
pub proof fn lemma_index_of(names: Seq<Seq<char>>, k: Seq<char>, from: int)
    requires
        0 <= from <= names.len(),
    ensures
        from <= index_of(names, k, from) <= names.len(),
        index_of(names, k, from) < names.len() ==> names[index_of(names, k, from)] == k,
        forall|i: int| from <= i < index_of(names, k, from) ==> names[i] != k,
    decreases names.len() - from,
{
    if from < names.len() && names[from] != k {
        lemma_index_of(names, k, from + 1);
    }
}

/// The index of the first of `names`, at or after `from`, that does not come
/// before `k`, and the length of `names` where all do.
pub open spec fn slot(names: Seq<Seq<char>>, k: Seq<char>, from: int) -> int
    decreases names.len() - from,
{
    if from < 0 || from >= names.len() {
        names.len() as int
    } else if !precedes(names[from], k) {
        from
    } else {
        slot(names, k, from + 1)
    }
}

/// `slot` points behind the names that come before `k`.
pub proof fn lemma_slot(names: Seq<Seq<char>>, k: Seq<char>, from: int)
    requires
        0 <= from <= names.len(),
    ensures
        from <= slot(names, k, from) <= names.len(),
        slot(names, k, from) < names.len() ==> !precedes(names[slot(names, k, from)], k),
        forall|i: int| from <= i < slot(names, k, from) ==> precedes(names[i], k),
    decreases names.len() - from,
{
    if from < names.len() && precedes(names[from], k) {
        lemma_slot(names, k, from + 1);
    }
}

/// Whether each of `names` comes before all that follow it.
pub open spec fn sorted(names: Seq<Seq<char>>) -> bool {
    forall|i: int, j: int| 0 <= i < j < names.len() ==> precedes(names[i], names[j])
}

/// No name stands twice in a sorted sequence.
pub proof fn lemma_sorted_distinct(names: Seq<Seq<char>>, i: int, j: int)
    requires
        sorted(names),
        0 <= i < names.len(),
        0 <= j < names.len(),
        names[i] == names[j],
    ensures
        i == j,
{
    lemma_precedes_irreflexive(names[i]);
}

/// A new name put into its slot leaves a sorted sequence sorted.
pub proof fn lemma_insert_sorted(names: Seq<Seq<char>>, k: Seq<char>)
    requires
        sorted(names),
        index_of(names, k, 0) == names.len(),
    ensures
        0 <= slot(names, k, 0) <= names.len(),
        sorted(names.insert(slot(names, k, 0), k)),
{
    let p = slot(names, k, 0);
    lemma_slot(names, k, 0);
    lemma_index_of(names, k, 0);
    let next = names.insert(p, k);
    assert forall|j: int| p <= j < names.len() implies precedes(k, names[j]) by {
        lemma_precedes_total(k, names[p]);
        if p < j {
            lemma_precedes_transitive(k, names[p], names[j]);
        }
    }
    assert forall|i: int, j: int| 0 <= i < j < next.len() implies precedes(next[i], next[j]) by {
        if j < p {
            assert(next[i] == names[i] && next[j] == names[j]);
        } else if j == p {
            assert(next[i] == names[i]);
        } else if i < p {
            assert(next[i] == names[i] && next[j] == names[j - 1]);
            if j - 1 == i {
            }
            lemma_precedes_transitive(names[i], k, names[j - 1]);
        } else if i == p {
            assert(next[j] == names[j - 1]);
        } else {
            assert(next[i] == names[i - 1] && next[j] == names[j - 1]);
        }
    }
}

/// The index of the first item of `v` with the name `k`, and the length of
/// `v` where there is none.
pub fn position<T: Named>(v: &Vec<T>, k: &String) -> (at: usize)
    ensures
        at == index_of(labels(v@), k@, 0),
        at <= v@.len(),
        at < v@.len() ==> v@[at as int].label() == k@,
{
    let mut i: usize = 0;
    while i < v.len()
        invariant
            i <= v@.len(),
            index_of(labels(v@), k@, 0) == index_of(labels(v@), k@, i as int),
        decreases v.len() - i,
    {
        if *v[i].name() == *k {
            return i;
        }
        i += 1;
    }
    i
}

/// The index at which an item with the name `k` goes into `v`.
pub fn place<T: Named>(v: &Vec<T>, k: &String) -> (at: usize)
    ensures
        at == slot(labels(v@), k@, 0),
        at <= v@.len(),
{
    let mut i: usize = 0;
    while i < v.len()
        invariant
            i <= v@.len(),
            slot(labels(v@), k@, 0) == slot(labels(v@), k@, i as int),
        decreases v.len() - i,
    {
        if !comes_before(v[i].name().as_str(), k.as_str()) {
            return i;
        }
        i += 1;
    }
    i
}

} // verus!
