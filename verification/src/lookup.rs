//! Facts about the first position of an element in a sequence.

use vstd::prelude::*;

verus! {

/// The first position of `x` in `s` is the position that holds `x` and has no
/// `x` before it.
pub proof fn lemma_first_index<T>(s: Seq<T>, x: T, i: int)
    requires
        0 <= i < s.len(),
        s[i] == x,
        forall|j: int| 0 <= j < i ==> s[j] != x,
    ensures
        s.index_of_first(x) == Some(i),
{
    s.index_of_first_ensures(x);
    assert(s.contains(x));
}

/// An element that occurs nowhere has no first position.
pub proof fn lemma_no_index<T>(s: Seq<T>, x: T)
    requires
        forall|j: int| 0 <= j < s.len() ==> s[j] != x,
    ensures
        s.index_of_first(x) is None,
{
    s.index_of_first_ensures(x);
}

/// What a first position says of the sequence.
pub proof fn lemma_index_found<T>(s: Seq<T>, x: T)
    ensures
        s.index_of_first(x) matches Some(i) ==> 0 <= i < s.len() && s[i] == x && (forall|j: int|
            0 <= j < i ==> s[j] != x),
        s.index_of_first(x) is None ==> (forall|j: int| 0 <= j < s.len() ==> s[j] != x),
{
    s.index_of_first_ensures(x);
}

/// Adding a new element at the end gives it the last position and leaves the
/// first position of every other element as it was.
pub proof fn lemma_push_lookup<T>(s: Seq<T>, x: T, other: T)
    requires
        s.index_of_first(x) is None,
    ensures
        s.push(x).index_of_first(x) == Some(s.len() as int),
        other != x ==> s.push(x).index_of_first(other) == s.index_of_first(other),
{
    lemma_index_found(s, x);
    lemma_first_index(s.push(x), x, s.len() as int);
    lemma_index_found(s, other);
    if other != x {
        match s.index_of_first(other) {
            Some(i) => {
                lemma_first_index(s.push(x), other, i);
            },
            None => {
                lemma_no_index(s.push(x), other);
            },
        }
    }
}

/// An element that a duplicate-free sequence lacks can be added at its end.
pub proof fn lemma_push_new_key<T>(s: Seq<T>, x: T)
    requires
        s.no_duplicates(),
        s.index_of_first(x) is None,
    ensures
        s.push(x).no_duplicates(),
{
    lemma_index_found(s, x);
}

} // verus!
