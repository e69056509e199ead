//! First occurrence of a value in a sequence.
//!
//! Both the escape-time evaluator (first `true` among the escape flags) and
//! the pair parser (first separator in the input) are about the earliest
//! index at which some value appears; this module states that notion once.

use vstd::prelude::*;

verus! {

/// `k` is the index of the first occurrence of `x` in `s`.
pub open spec fn is_first_occurrence<A>(s: Seq<A>, x: A, k: int) -> bool {
    &&& 0 <= k < s.len()
    &&& s[k] == x
    &&& forall|j: int| 0 <= j < k ==> s[j] != x
}

/// The index of the first occurrence of `x` in `s`, if `x` occurs at all.
pub open spec fn first_occurrence<A>(s: Seq<A>, x: A) -> Option<int> {
    if exists|k: int| is_first_occurrence(s, x, k) {
        Some(choose|k: int| is_first_occurrence(s, x, k))
    } else {
        None
    }
}

/// The first occurrence is unique, so a witness pins `first_occurrence` down.
pub proof fn lemma_first_occurrence_is<A>(s: Seq<A>, x: A, k: int)
    requires
        is_first_occurrence(s, x, k),
    ensures
        first_occurrence(s, x) == Some(k),
{
    let w = choose|i: int| is_first_occurrence(s, x, i);
    assert(is_first_occurrence(s, x, w));
    if w < k {
        assert(s[w] != x);
    }
    if k < w {
        assert(s[k] != x);
    }
}

/// A sequence in which `x` does not occur has no first occurrence of it.
pub proof fn lemma_first_occurrence_none<A>(s: Seq<A>, x: A)
    requires
        forall|j: int| 0 <= j < s.len() ==> s[j] != x,
    ensures
        first_occurrence(s, x) == None::<int>,
{
    if exists|k: int| is_first_occurrence(s, x, k) {
        let k = choose|k: int| is_first_occurrence(s, x, k);
        assert(s[k] != x);
    }
}

/// Wherever `x` occurs, some index is its first occurrence.
pub proof fn lemma_occurrence_has_first<A>(s: Seq<A>, x: A, j: int)
    requires
        0 <= j < s.len(),
        s[j] == x,
    ensures
        first_occurrence(s, x) is Some,
    decreases j,
{
    if forall|i: int| 0 <= i < j ==> s[i] != x {
        assert(is_first_occurrence(s, x, j));
        lemma_first_occurrence_is(s, x, j);
    } else {
        let i = choose|i: int| 0 <= i < j && s[i] == x;
        lemma_occurrence_has_first(s, x, i);
    }
}

/// Without a first occurrence, `x` does not occur at all.
pub proof fn lemma_no_first_occurrence<A>(s: Seq<A>, x: A)
    requires
        first_occurrence(s, x) == None::<int>,
    ensures
        forall|j: int| 0 <= j < s.len() ==> s[j] != x,
{
    assert forall|j: int| 0 <= j < s.len() implies s[j] != x by {
        if s[j] == x {
            lemma_occurrence_has_first(s, x, j);
        }
    }
}

} // verus!
