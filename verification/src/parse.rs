//! A generic delimited-pair parser.
//!
//! `parse_pair` splits its input at the first occurrence of a separator
//! character and reads one value from each half.  It is generic over the
//! capability of being read from a string slice with explicit failure, so
//! any value type carrying that capability can be paired.  Parsing is
//! all-or-nothing: a missing separator or a failing half yields no value.

use vstd::prelude::*;
use vstd::string::StrSliceExecFns;

use crate::occurrence::first_occurrence;
use crate::occurrence::is_first_occurrence;
use crate::occurrence::lemma_first_occurrence_is;
use crate::occurrence::lemma_first_occurrence_none;

verus! {

/// A value that can be read from a string slice, failing explicitly on
/// malformed input.
pub trait ParseText: Sized {
    /// The value that `parse_text` returns on each sequence of characters.
    spec fn parse_spec(s: Seq<char>) -> Option<Self>;

    /// Read a value from `s`, or report that `s` does not hold one.
    fn parse_text(s: &str) -> (r: Option<Self>)
        ensures
            r == Self::parse_spec(s@),
    ;
}

/// The pair that `parse_pair` returns on input `s` with separator `sep`:
/// both halves around the first occurrence of `sep`, read independently,
/// and no pair at all when `sep` is absent or either half fails.
pub open spec fn parse_pair_spec<T: ParseText>(s: Seq<char>, sep: char) -> Option<(T, T)> {
    match first_occurrence(s, sep) {
        None => None,
        Some(k) => {
            let left = T::parse_spec(s.subrange(0, k));
            let right = T::parse_spec(s.subrange(k + 1, s.len() as int));
            if left is Some && right is Some {
                Some((left->0, right->0))
            } else {
                None
            }
        },
    }
}

/// Split `s` at the first occurrence of `separator` and read a `T` from each
/// half; return the two values, or nothing when the separator is absent or
/// either half fails to parse.
pub fn parse_pair<T: ParseText>(s: &str, separator: char) -> (r: Option<(T, T)>)
    ensures
        r == parse_pair_spec::<T>(s@, separator),
{
    let n = s.unicode_len();
    let mut k: usize = 0;
    while k < n
        invariant
            n == s@.len(),
            k <= n,
            forall|j: int| 0 <= j < k ==> s@[j] != separator,
        decreases n - k,
    {
        if s.get_char(k) == separator {
            proof {
                assert(is_first_occurrence(s@, separator, k as int));
                lemma_first_occurrence_is(s@, separator, k as int);
            }
            let left = s.substring_char(0, k);
            let right = s.substring_char(k + 1, n);
            let left_value = T::parse_text(left);
            let right_value = T::parse_text(right);
            return match (left_value, right_value) {
                (Some(a), Some(b)) => Some((a, b)),
                _ => None,
            };
        }
        k += 1;
    }
    proof {
        lemma_first_occurrence_none(s@, separator);
    }
    None
}

/// The parser reads exactly the two halves around the separator: when the
/// separator stands between `left` and `right` and does not occur in `left`,
/// the pair is made of the values read from `left` and from `right`, and of
/// nothing else.
pub proof fn lemma_parse_pair_at_split<T: ParseText>(left: Seq<char>, right: Seq<char>, sep: char)
    requires
        !left.contains(sep),
    ensures
        parse_pair_spec::<T>(left + seq![sep] + right, sep) == ({
            let a = T::parse_spec(left);
            let b = T::parse_spec(right);
            if a is Some && b is Some {
                Some((a->0, b->0))
            } else {
                None::<(T, T)>
            }
        }),
{
    let s = left + seq![sep] + right;
    let k = left.len() as int;
    assert(s[k] == sep);
    assert forall|j: int| 0 <= j < k implies s[j] != sep by {
        assert(s[j] == left[j]);
        assert(!(0 <= j < left.len() && left[j] == sep));
    }
    assert(is_first_occurrence(s, sep, k));
    lemma_first_occurrence_is(s, sep, k);
    assert(s.subrange(0, k) =~= left);
    assert(s.subrange(k + 1, s.len() as int) =~= right);
}

/// The choice of separator does not matter: any two separator characters
/// standing between the same two halves (and absent from the left half)
/// give the same pair.
pub proof fn lemma_separator_independent<T: ParseText>(
    left: Seq<char>,
    right: Seq<char>,
    sep1: char,
    sep2: char,
)
    requires
        !left.contains(sep1),
        !left.contains(sep2),
    ensures
        parse_pair_spec::<T>(left + seq![sep1] + right, sep1) == parse_pair_spec::<T>(
            left + seq![sep2] + right,
            sep2,
        ),
{
    lemma_parse_pair_at_split::<T>(left, right, sep1);
    lemma_parse_pair_at_split::<T>(left, right, sep2);
}

} // verus!
