//! Ratcliff-Obershelp matched-element count.
//!
//! The matcher locates one longest common run, counts its length in
//! full, and recurses independently on the parts of both sequences
//! before the run and on the parts after it, never matching across the
//! run's boundary.

use vstd::prelude::*;
use vstd::std_specs::cmp::PartialEqSpec;

use crate::lcs::exec_eq;
use crate::lcs::lcs_best;
use crate::lcs::lemma_scan_best_props;
use crate::lcs::longest_common_subseq_idxs;
use crate::lcs::scan_best;
use crate::lcs::suffix_run;

verus! {

/// The total number of elements matched by recursively chaining longest
/// common runs: the longest run's length, plus whatever the same rule
/// matches strictly before it on both sides, plus whatever it matches
/// strictly after it.  A side that is empty before (or after) the run
/// contributes nothing there.
pub open spec fn match_count<T>(eq: spec_fn(T, T) -> bool, s1: Seq<T>, s2: Seq<T>) -> nat
    decreases s1.len() + s2.len(),
{
    let b = lcs_best(eq, s1, s2);
    if b.len == 0 {
        0
    } else {
        proof {
            lemma_scan_best_props(eq, s1, s2, s1.len() as int, s2.len() as int);
        }
        let l1 = b.end1 - b.len;
        let l2 = b.end2 - b.len;
        let left: nat = if l1 > 0 && l2 > 0 {
            match_count(eq, s1.subrange(0, l1), s2.subrange(0, l2))
        } else {
            0
        };
        let right: nat = if b.end1 < s1.len() && b.end2 < s2.len() {
            match_count(
                eq,
                s1.subrange(b.end1, s1.len() as int),
                s2.subrange(b.end2, s2.len() as int),
            )
        } else {
            0
        };
        left + b.len + right
    }
}

/// Counts the elements of `s1` matched with elements of `s2` by the
/// Ratcliff-Obershelp rule.  The count never exceeds either length; for
/// a type whose equality obeys its specification it is exactly
/// `match_count` of the two sequences.
pub fn matching_items<T: Eq>(s1: &[T], s2: &[T]) -> (r: usize)
    ensures
        r <= s1@.len(),
        r <= s2@.len(),
        T::obeys_eq_spec() ==> r == match_count(exec_eq::<T>(), s1@, s2@),
    decreases s1@.len() + s2@.len(),
{
    let ghost q = exec_eq::<T>();
    let ((l1, r1), (l2, r2)) = longest_common_subseq_idxs(s1, s2);
    assert(r1 - l1 == r2 - l2);
    proof {
        if T::obeys_eq_spec() {
            lemma_scan_best_props(q, s1@, s2@, s1@.len() as int, s2@.len() as int);
        }
    }
    if l1 == r1 {
        0
    } else {
        let left_rec = if l1 > 0 && l2 > 0 {
            matching_items(&s1[0..l1], &s2[0..l2])
        } else {
            0
        };
        let right_rec = if r1 < s1.len() && r2 < s2.len() {
            matching_items(&s1[r1..s1.len()], &s2[r2..s2.len()])
        } else {
            0
        };
        left_rec + (r1 - l1) + right_rec
    }
}

/// Law: the matched count never exceeds either sequence's length, so
/// twice the count never exceeds the sum of the lengths and the
/// similarity ratio `2 * matched / (len1 + len2)` lies in `[0, 1]`.
pub proof fn lemma_match_count_range<T>(eq: spec_fn(T, T) -> bool, s1: Seq<T>, s2: Seq<T>)
    ensures
        match_count(eq, s1, s2) <= s1.len(),
        match_count(eq, s1, s2) <= s2.len(),
        2 * match_count(eq, s1, s2) <= s1.len() + s2.len(),
    decreases s1.len() + s2.len(),
{
    let b = lcs_best(eq, s1, s2);
    lemma_scan_best_props(eq, s1, s2, s1.len() as int, s2.len() as int);
    if b.len > 0 {
        let l1 = b.end1 - b.len;
        let l2 = b.end2 - b.len;
        if l1 > 0 && l2 > 0 {
            lemma_match_count_range(eq, s1.subrange(0, l1), s2.subrange(0, l2));
        }
        if b.end1 < s1.len() && b.end2 < s2.len() {
            lemma_match_count_range(
                eq,
                s1.subrange(b.end1, s1.len() as int),
                s2.subrange(b.end2, s2.len() as int),
            );
        }
    }
}

/// Law: a non-empty sequence matched against itself under a relation
/// that is reflexive on its elements matches in full, so the similarity
/// ratio of a sequence with itself is `2 * len / (len + len) == 1`.
pub proof fn lemma_match_count_identity<T>(eq: spec_fn(T, T) -> bool, s: Seq<T>)
    requires
        s.len() > 0,
        forall|k: int| 0 <= k < s.len() ==> eq(#[trigger] s[k], s[k]),
    ensures
        match_count(eq, s, s) == s.len(),
{
    let m = s.len() as int;
    lemma_suffix_run_diagonal(eq, s, m);
    lemma_scan_best_props(eq, s, s, m, m);
    let b = lcs_best(eq, s, s);
    assert(suffix_run(eq, s, s, m, m) <= b.len);
    assert(b.len == m && b.end1 == m && b.end2 == m);
}

/// The suffix run of a sequence against itself at equal end positions
/// spans everything before them, when the relation is reflexive on the
/// sequence's elements.
proof fn lemma_suffix_run_diagonal<T>(eq: spec_fn(T, T) -> bool, s: Seq<T>, i: int)
    requires
        0 <= i <= s.len(),
        forall|k: int| 0 <= k < s.len() ==> eq(#[trigger] s[k], s[k]),
    ensures
        suffix_run(eq, s, s, i, i) == i,
    decreases i,
{
    if i > 0 {
        lemma_suffix_run_diagonal(eq, s, i - 1);
    }
}

/// Law: two sequences without one related pair of elements match
/// nothing, so their similarity ratio is zero.
pub proof fn lemma_match_count_disjoint<T>(eq: spec_fn(T, T) -> bool, s1: Seq<T>, s2: Seq<T>)
    requires
        forall|a: int, c: int|
            0 <= a < s1.len() && 0 <= c < s2.len() ==> !eq(#[trigger] s1[a], #[trigger] s2[c]),
    ensures
        match_count(eq, s1, s2) == 0,
{
    lemma_scan_best_props(eq, s1, s2, s1.len() as int, s2.len() as int);
    let b = lcs_best(eq, s1, s2);
    if b.len > 0 {
        assert(suffix_run(eq, s1, s2, b.end1, b.end2) == 0);
    }
}

/// The suffix run depends only on which element pairs are related.
proof fn lemma_suffix_run_congruent<A, B>(
    eqa: spec_fn(A, A) -> bool,
    s1: Seq<A>,
    s2: Seq<A>,
    eqb: spec_fn(B, B) -> bool,
    t1: Seq<B>,
    t2: Seq<B>,
    i: int,
    j: int,
)
    requires
        s1.len() == t1.len(),
        s2.len() == t2.len(),
        forall|a: int, c: int|
            0 <= a < s1.len() && 0 <= c < s2.len()
                ==> eqa(#[trigger] s1[a], #[trigger] s2[c]) == eqb(t1[a], t2[c]),
    ensures
        suffix_run(eqa, s1, s2, i, j) == suffix_run(eqb, t1, t2, i, j),
    decreases i,
{
    if i > 0 && j > 0 && i <= s1.len() && j <= s2.len() {
        lemma_suffix_run_congruent(eqa, s1, s2, eqb, t1, t2, i - 1, j - 1);
    }
}

/// The scan's best run depends only on which element pairs are related.
proof fn lemma_scan_best_congruent<A, B>(
    eqa: spec_fn(A, A) -> bool,
    s1: Seq<A>,
    s2: Seq<A>,
    eqb: spec_fn(B, B) -> bool,
    t1: Seq<B>,
    t2: Seq<B>,
    i: int,
    j: int,
)
    requires
        s1.len() == t1.len(),
        s2.len() == t2.len(),
        forall|a: int, c: int|
            0 <= a < s1.len() && 0 <= c < s2.len()
                ==> eqa(#[trigger] s1[a], #[trigger] s2[c]) == eqb(t1[a], t2[c]),
    ensures
        scan_best(eqa, s1, s2, i, j) == scan_best(eqb, t1, t2, i, j),
    decreases i, j,
{
    if i <= 0 {
    } else if j <= 0 {
        lemma_scan_best_congruent(eqa, s1, s2, eqb, t1, t2, i - 1, s2.len() as int);
    } else {
        lemma_scan_best_congruent(eqa, s1, s2, eqb, t1, t2, i, j - 1);
        lemma_suffix_run_congruent(eqa, s1, s2, eqb, t1, t2, i, j);
    }
}

/// Law: the matched count depends only on which element pairs the two
/// relations relate, not on the elements themselves.  In particular,
/// matching wrapped values equal exactly when their views are equal
/// matches as many elements as matching the views directly.
pub proof fn lemma_match_count_congruent<A, B>(
    eqa: spec_fn(A, A) -> bool,
    s1: Seq<A>,
    s2: Seq<A>,
    eqb: spec_fn(B, B) -> bool,
    t1: Seq<B>,
    t2: Seq<B>,
)
    requires
        s1.len() == t1.len(),
        s2.len() == t2.len(),
        forall|a: int, c: int|
            0 <= a < s1.len() && 0 <= c < s2.len()
                ==> eqa(#[trigger] s1[a], #[trigger] s2[c]) == eqb(t1[a], t2[c]),
    ensures
        match_count(eqa, s1, s2) == match_count(eqb, t1, t2),
    decreases s1.len() + s2.len(),
{
    lemma_scan_best_congruent(eqa, s1, s2, eqb, t1, t2, s1.len() as int, s2.len() as int);
    lemma_scan_best_props(eqa, s1, s2, s1.len() as int, s2.len() as int);
    let b = lcs_best(eqa, s1, s2);
    if b.len > 0 {
        let l1 = b.end1 - b.len;
        let l2 = b.end2 - b.len;
        if l1 > 0 && l2 > 0 {
            lemma_match_count_congruent(
                eqa,
                s1.subrange(0, l1),
                s2.subrange(0, l2),
                eqb,
                t1.subrange(0, l1),
                t2.subrange(0, l2),
            );
        }
        if b.end1 < s1.len() && b.end2 < s2.len() {
            lemma_match_count_congruent(
                eqa,
                s1.subrange(b.end1, s1.len() as int),
                s2.subrange(b.end2, s2.len() as int),
                eqb,
                t1.subrange(b.end1, t1.len() as int),
                t2.subrange(b.end2, t2.len() as int),
            );
        }
    }
}

} // verus!

