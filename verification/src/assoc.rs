//! Association lists: sequences of key and value pairs in which the first
//! entry for a key is the one that counts.

use vstd::prelude::*;

verus! {

/// The position of the first entry at or after `from` whose key is `key`;
/// the number of entries where there is none.
pub open spec fn find<K, V>(e: Seq<(K, V)>, key: K, from: int) -> int
    decreases e.len() - from,
{
    if from < 0 || from >= e.len() {
        e.len() as int
    } else if e[from].0 == key {
        from
    } else {
        find(e, key, from + 1)
    }
}

/// The value that the list holds under `key`.
pub open spec fn lookup<K, V>(e: Seq<(K, V)>, key: K) -> Option<V> {
    let i = find(e, key, 0);
    if i < e.len() {
        Some(e[i].1)
    } else {
        None
    }
}

/// The list after `key` was set to `value`: an existing entry keeps its
/// place, a new one goes to the end.
pub open spec fn assign<K, V>(e: Seq<(K, V)>, key: K, value: V) -> Seq<(K, V)> {
    let i = find(e, key, 0);
    if i < e.len() {
        e.update(i, (key, value))
    } else {
        e.push((key, value))
    }
}

pub proof fn lemma_find_bounds<K, V>(e: Seq<(K, V)>, key: K, from: int)
    requires
        0 <= from <= e.len(),
    ensures
        from <= find(e, key, from) <= e.len(),
        find(e, key, from) < e.len() ==> e[find(e, key, from)].0 == key,
        forall|j: int| from <= j < find(e, key, from) ==> (#[trigger] e[j]).0 != key,
    decreases e.len() - from,
{
    if from < e.len() && e[from].0 != key {
        lemma_find_bounds(e, key, from + 1);
    }
}

/// `find` is the only position that has the key and none before it.
pub proof fn lemma_find_unique<K, V>(e: Seq<(K, V)>, key: K, from: int, i: int)
    requires
        0 <= from <= i <= e.len(),
        i < e.len() ==> e[i].0 == key,
        forall|j: int| from <= j < i ==> (#[trigger] e[j]).0 != key,
    ensures
        find(e, key, from) == i,
    decreases e.len() - from,
{
    if from < i {
        lemma_find_unique(e, key, from + 1, i);
    }
}

/// Reading back what was set, and that other keys are untouched.
pub proof fn lemma_assign_lookup<K, V>(e: Seq<(K, V)>, key: K, value: V, other: K)
    ensures
        lookup(assign(e, key, value), key) == Some(value),
        other != key ==> lookup(assign(e, key, value), other) == lookup(e, other),
        assign(e, key, value).len() >= e.len(),
{
    let i = find(e, key, 0);
    let a = assign(e, key, value);
    lemma_find_bounds(e, key, 0);
    lemma_find_unique(a, key, 0, i);
    if other != key {
        let j = find(e, other, 0);
        lemma_find_bounds(e, other, 0);
        lemma_find_unique(a, other, 0, if j < e.len() { j } else { a.len() as int });
    }
}

/// Where the first entry for a key stands once an entry was added at the end.
pub proof fn lemma_find_push<K, V>(e: Seq<(K, V)>, key: K, value: V, other: K)
    ensures
        find(e.push((key, value)), other, 0) == (if find(e, other, 0) < e.len() {
            find(e, other, 0)
        } else if key == other {
            e.len() as int
        } else {
            e.len() as int + 1
        }),
{
    let i = find(e, other, 0);
    let a = e.push((key, value));
    lemma_find_bounds(e, other, 0);
    if i < e.len() {
        lemma_find_unique(a, other, 0, i);
    } else if key == other {
        lemma_find_unique(a, other, 0, e.len() as int);
    } else {
        lemma_find_unique(a, other, 0, a.len() as int);
    }
}

/// An entry added at the end counts for its key where the list had none.
pub proof fn lemma_lookup_push<K, V>(e: Seq<(K, V)>, key: K, value: V, other: K)
    ensures
        lookup(e.push((key, value)), other) == (if lookup(e, other) is Some {
            lookup(e, other)
        } else if key == other {
            Some(value)
        } else {
            None
        }),
{
    let i = find(e, other, 0);
    let a = e.push((key, value));
    lemma_find_bounds(e, other, 0);
    if i < e.len() {
        lemma_find_unique(a, other, 0, i);
    } else if key == other {
        lemma_find_unique(a, other, 0, e.len() as int);
    } else {
        lemma_find_unique(a, other, 0, a.len() as int);
    }
}

} // verus!
