//! Substring search and removal, as used for the local zero-index marker:
//! mathematical definitions, trusted wrappers over `std`'s string functions,
//! and the law relating removal to the occurrence count.

use vstd::prelude::*;

verus! {

/// `m` occurs in `s` starting at position `i`.
pub open spec fn occurs_at(s: Seq<char>, m: Seq<char>, i: int) -> bool {
    0 <= i && i + m.len() <= s.len() && s.subrange(i, i + m.len()) == m
}

/// `m` occurs somewhere in `s`; an empty `m` occurs everywhere.
pub open spec fn contains_str(s: Seq<char>, m: Seq<char>) -> bool {
    exists|i: int| occurs_at(s, m, i)
}

/// Left-to-right replacement of each non-overlapping occurrence of `from`
/// (nonempty) by `to`; positions where no occurrence starts are kept.
pub open spec fn replace_str(s: Seq<char>, from: Seq<char>, to: Seq<char>) -> Seq<char>
    decreases s.len(),
{
    if from.len() == 0 || s.len() < from.len() {
        s
    } else if s.subrange(0, from.len() as int) == from {
        to + replace_str(s.skip(from.len() as int), from, to)
    } else {
        seq![s[0]] + replace_str(s.skip(1), from, to)
    }
}

/// The number of occurrences that `replace_str` replaces.
pub open spec fn count_occurrences(s: Seq<char>, from: Seq<char>) -> nat
    decreases s.len(),
{
    if from.len() == 0 || s.len() < from.len() {
        0
    } else if s.subrange(0, from.len() as int) == from {
        1 + count_occurrences(s.skip(from.len() as int), from)
    } else {
        count_occurrences(s.skip(1), from)
    }
}

/// Removal of every consumed occurrence of `m` from `s`; an empty marker
/// matches everywhere but removes nothing.
pub open spec fn remove_all(s: Seq<char>, m: Seq<char>) -> Seq<char> {
    if m.len() == 0 {
        s
    } else {
        replace_str(s, m, Seq::empty())
    }
}

/// Removing a nonempty marker shortens the text by exactly the number of
/// consumed occurrences times the marker's length.
pub proof fn lemma_removed_length(s: Seq<char>, m: Seq<char>)
    requires
        m.len() > 0,
    ensures
        count_occurrences(s, m) * m.len() <= s.len(),
        remove_all(s, m).len() == s.len() - count_occurrences(s, m) * m.len(),
    decreases s.len(),
{
    if s.len() < m.len() {
        assert(count_occurrences(s, m) == 0);
        assert(remove_all(s, m) == s);
    } else if s.subrange(0, m.len() as int) == m {
        let rest = s.skip(m.len() as int);
        lemma_removed_length(rest, m);
        assert(count_occurrences(s, m) == 1 + count_occurrences(rest, m));
        assert(remove_all(s, m) == Seq::<char>::empty() + remove_all(rest, m));
        assert(remove_all(s, m).len() == remove_all(rest, m).len());
        assert(rest.len() == s.len() - m.len());
        assert((1 + count_occurrences(rest, m)) * m.len() == m.len()
            + count_occurrences(rest, m) * m.len()) by (nonlinear_arith);
    } else {
        let rest = s.skip(1);
        lemma_removed_length(rest, m);
        assert(count_occurrences(s, m) == count_occurrences(rest, m));
        assert(remove_all(s, m) == seq![s[0]] + remove_all(rest, m));
        assert(remove_all(s, m).len() == 1 + remove_all(rest, m).len());
    }
}

/// A contained nonempty marker is counted at least once.
pub proof fn lemma_contains_count(s: Seq<char>, m: Seq<char>)
    requires
        m.len() > 0,
        contains_str(s, m),
    ensures
        count_occurrences(s, m) >= 1,
    decreases s.len(),
{
    let i = choose|i: int| occurs_at(s, m, i);
    if s.len() < m.len() {
        assert(false);
    } else if s.subrange(0, m.len() as int) == m {
    } else {
        assert(occurs_at(s.skip(1), m, i - 1)) by {
            assert(s.skip(1).subrange(i - 1, i - 1 + m.len() as int) =~= s.subrange(
                i,
                i + m.len() as int,
            ));
        }
        lemma_contains_count(s.skip(1), m);
    }
}

/// Relies on `str::contains`: true exactly when the pattern occurs as a
/// contiguous substring (an empty pattern is always contained).
#[verifier::external_body]
pub(crate) fn str_contains(s: &str, pat: &str) -> (r: bool)
    ensures
        r == contains_str(s@, pat@),
{
    s.contains(pat)
}

/// Relies on `str::replace`: scans left to right and replaces each
/// non-overlapping occurrence of `from` with `to`.
#[verifier::external_body]
pub(crate) fn str_replace(s: &str, from: &str, to: &str) -> (r: String)
    requires
        from@.len() > 0,
    ensures
        r@ == replace_str(s@, from@, to@),
{
    s.replace(from, to)
}

/// Relies on `str`'s `PartialEq`: strings are equal exactly when their
/// character sequences are.
#[verifier::external_body]
pub(crate) fn str_eq(a: &str, b: &str) -> (r: bool)
    ensures
        r == (a@ == b@),
{
    a == b
}

} // verus!
