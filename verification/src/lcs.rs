//! Longest common contiguous run of two sequences.
//!
//! A dynamic-programming scan over all pairs of end positions finds one
//! longest run that occurs contiguously in both sequences, with a
//! deterministic tie-break: among runs of equal length, the one whose
//! pair of end positions comes first in row-major order wins.

use vstd::prelude::*;
use vstd::std_specs::cmp::PartialEqSpec;

verus! {

/// The element relation that executable `==` on `T` stands for, where
/// `T`'s equality obeys its specification.
pub open spec fn exec_eq<T: PartialEq>() -> spec_fn(T, T) -> bool {
    |a: T, b: T| a.eq_spec(&b)
}

/// Length of the longest run that ends exactly at position `i` of `s1`
/// and position `j` of `s2` and whose elements are pairwise related by
/// `eq` (positions are one past the run's last element).
pub open spec fn suffix_run<T>(
    eq: spec_fn(T, T) -> bool,
    s1: Seq<T>,
    s2: Seq<T>,
    i: int,
    j: int,
) -> nat
    decreases i,
{
    if i <= 0 || j <= 0 || i > s1.len() || j > s2.len() {
        0
    } else if eq(s1[i - 1], s2[j - 1]) {
        suffix_run(eq, s1, s2, i - 1, j - 1) + 1
    } else {
        0
    }
}

/// The length and end positions of one longest common run.  A length of
/// zero means no element of `s1` is related to any element of `s2`; the
/// end positions then default to the sequence lengths.
pub ghost struct BestRun {
    pub len: nat,
    pub end1: int,
    pub end2: int,
}

/// The best run over all end-position pairs up to and including `(i, j)`
/// in row-major order (rows are `s1` positions, columns `s2` positions),
/// updated only when a strictly longer run appears, so the first maximum
/// in scan order is kept.
pub open spec fn scan_best<T>(
    eq: spec_fn(T, T) -> bool,
    s1: Seq<T>,
    s2: Seq<T>,
    i: int,
    j: int,
) -> BestRun
    decreases i, j,
{
    if i <= 0 {
        BestRun { len: 0, end1: s1.len() as int, end2: s2.len() as int }
    } else if j <= 0 {
        scan_best(eq, s1, s2, i - 1, s2.len() as int)
    } else {
        let prev = scan_best(eq, s1, s2, i, j - 1);
        let cur = suffix_run(eq, s1, s2, i, j);
        if cur > prev.len {
            BestRun { len: cur, end1: i, end2: j }
        } else {
            prev
        }
    }
}

/// One longest common run of `s1` and `s2` under `eq`, with the
/// row-major-first tie-break.
pub open spec fn lcs_best<T>(eq: spec_fn(T, T) -> bool, s1: Seq<T>, s2: Seq<T>) -> BestRun {
    scan_best(eq, s1, s2, s1.len() as int, s2.len() as int)
}

/// A run of `len` elements related pairwise by `eq` ends at position
/// `e1` of `s1` and `e2` of `s2`.
pub open spec fn run_matches_at<T>(
    eq: spec_fn(T, T) -> bool,
    s1: Seq<T>,
    s2: Seq<T>,
    e1: int,
    e2: int,
    len: int,
) -> bool {
    &&& 0 <= len <= e1 <= s1.len()
    &&& len <= e2 <= s2.len()
    &&& 0 <= e2
    &&& forall|k: int| 0 <= k < len ==> eq(#[trigger] s1[e1 - len + k], s2[e2 - len + k])
}

/// A suffix run never reaches past the start of either sequence.
pub proof fn lemma_suffix_run_le<T>(eq: spec_fn(T, T) -> bool, s1: Seq<T>, s2: Seq<T>, i: int, j: int)
    ensures
        i >= 0 ==> suffix_run(eq, s1, s2, i, j) <= i,
        j >= 0 ==> suffix_run(eq, s1, s2, i, j) <= j,
    decreases i,
{
    if i > 0 && j > 0 && i <= s1.len() && j <= s2.len() {
        lemma_suffix_run_le(eq, s1, s2, i - 1, j - 1);
    }
}

/// The suffix run ending at `(i, j)` is a common run ending there.
pub proof fn lemma_suffix_run_matches<T>(
    eq: spec_fn(T, T) -> bool,
    s1: Seq<T>,
    s2: Seq<T>,
    i: int,
    j: int,
)
    requires
        0 <= i <= s1.len(),
        0 <= j <= s2.len(),
    ensures
        run_matches_at(eq, s1, s2, i, j, suffix_run(eq, s1, s2, i, j) as int),
    decreases i,
{
    lemma_suffix_run_le(eq, s1, s2, i, j);
    if i > 0 && j > 0 && eq(s1[i - 1], s2[j - 1]) {
        lemma_suffix_run_matches(eq, s1, s2, i - 1, j - 1);
        let l = suffix_run(eq, s1, s2, i, j) as int;
        assert forall|k: int| 0 <= k < l implies eq(#[trigger] s1[i - l + k], s2[j - l + k]) by {
            if k < l - 1 {
                assert(eq(s1[(i - 1) - (l - 1) + k], s2[(j - 1) - (l - 1) + k]));
            } else {
                assert(i - l + k == i - 1 && j - l + k == j - 1);
            }
        }
    }
}

/// What the row-major scan up to `(i, j)` returns: a genuine suffix run
/// within bounds, at least as long as the suffix run at every scanned
/// position, and strictly longer than the suffix run at every scanned
/// position that precedes its own end pair.
pub proof fn lemma_scan_best_props<T>(
    eq: spec_fn(T, T) -> bool,
    s1: Seq<T>,
    s2: Seq<T>,
    i: int,
    j: int,
)
    requires
        0 <= i <= s1.len(),
        0 <= j <= s2.len(),
    ensures
        ({
            let b = scan_best(eq, s1, s2, i, j);
            &&& b.len <= b.end1 <= s1.len()
            &&& b.len <= b.end2 <= s2.len()
            &&& (b.len == 0 ==> b.end1 == s1.len() && b.end2 == s2.len())
            &&& (b.len > 0 ==> 1 <= b.end1 && 1 <= b.end2
                && suffix_run(eq, s1, s2, b.end1, b.end2) == b.len
                && (b.end1 < i || (b.end1 == i && b.end2 <= j)))
            &&& forall|a: int, c: int|
                1 <= a && 1 <= c <= s2.len() && (a < i || (a == i && c <= j))
                    ==> #[trigger] suffix_run(eq, s1, s2, a, c) <= b.len
            &&& (b.len > 0 ==> forall|a: int, c: int|
                1 <= a && 1 <= c <= s2.len() && (a < i || (a == i && c <= j))
                    && (a < b.end1 || (a == b.end1 && c < b.end2))
                    ==> #[trigger] suffix_run(eq, s1, s2, a, c) < b.len)
        }),
    decreases i, j,
{
    if i <= 0 {
    } else if j <= 0 {
        lemma_scan_best_props(eq, s1, s2, i - 1, s2.len() as int);
    } else {
        lemma_scan_best_props(eq, s1, s2, i, j - 1);
        lemma_suffix_run_le(eq, s1, s2, i, j);
    }
}

/// Any common run ending at `(i, j)` is no longer than the suffix run
/// ending there.
pub proof fn lemma_suffix_run_at_least<T>(
    eq: spec_fn(T, T) -> bool,
    s1: Seq<T>,
    s2: Seq<T>,
    i: int,
    j: int,
    len: int,
)
    requires
        run_matches_at(eq, s1, s2, i, j, len),
    ensures
        len <= suffix_run(eq, s1, s2, i, j),
    decreases len,
{
    if len > 0 {
        assert(eq(s1[i - len + (len - 1)], s2[j - len + (len - 1)]));
        assert(eq(s1[i - 1], s2[j - 1]));
        assert forall|k: int| 0 <= k < len - 1 implies eq(
            #[trigger] s1[(i - 1) - (len - 1) + k],
            s2[(j - 1) - (len - 1) + k],
        ) by {
            assert(eq(s1[i - len + k], s2[j - len + k]));
        }
        assert(run_matches_at(eq, s1, s2, i - 1, j - 1, len - 1));
        lemma_suffix_run_at_least(eq, s1, s2, i - 1, j - 1, len - 1);
    }
}

/// Finds one longest contiguous run common to `s1` and `s2` and returns
/// its half-open index ranges `((l1, r1), (l2, r2))` into `s1` and `s2`.
/// Both ranges have the length of the run; a length of zero (no common
/// element) leaves the degenerate ranges `(len, len)` at each sequence's
/// end.  Among runs of maximal length the one whose end-position pair
/// `(r1, r2)` is row-major smallest is returned.
pub fn longest_common_subseq_idxs<T: Eq>(s1: &[T], s2: &[T]) -> (r: (
    (usize, usize),
    (usize, usize),
))
    ensures
        r.0.0 <= r.0.1 <= s1@.len(),
        r.1.0 <= r.1.1 <= s2@.len(),
        r.0.1 - r.0.0 == r.1.1 - r.1.0,
        r.0.0 == r.0.1 ==> r.0.1 == s1@.len() && r.1.1 == s2@.len(),
        T::obeys_eq_spec() ==> ({
            let b = lcs_best(exec_eq::<T>(), s1@, s2@);
            &&& r.0.1 == b.end1
            &&& r.1.1 == b.end2
            &&& r.0.1 - r.0.0 == b.len
            &&& run_matches_at(
                exec_eq::<T>(),
                s1@,
                s2@,
                r.0.1 as int,
                r.1.1 as int,
                r.0.1 - r.0.0,
            )
            &&& forall|e1: int, e2: int, len: int|
                #[trigger] run_matches_at(exec_eq::<T>(), s1@, s2@, e1, e2, len)
                    ==> len <= r.0.1 - r.0.0
            &&& (r.0.0 < r.0.1 ==> forall|e1: int, e2: int, len: int|
                #[trigger] run_matches_at(exec_eq::<T>(), s1@, s2@, e1, e2, len)
                    && len == r.0.1 - r.0.0
                    ==> r.0.1 < e1 || (r.0.1 == e1 && r.1.1 <= e2))
        }),
{
    let ghost q = exec_eq::<T>();
    let m = s1.len();
    let n = s2.len();
    let mut max_length: usize = 0;
    let mut ending_index_1: usize = m;
    let mut ending_index_2: usize = n;

    let mut first_row: Vec<usize> = Vec::new();
    first_row.push(0);
    let mut j: usize = 0;
    while j < n
        invariant
            j <= n,
            first_row@.len() == j + 1,
            forall|b: int| 0 <= b <= j ==> #[trigger] first_row@[b] == 0,
        decreases n - j,
    {
        first_row.push(0);
        j += 1;
    }
    let mut lookup: Vec<Vec<usize>> = Vec::new();
    lookup.push(first_row);

    let mut i: usize = 0;
    while i < m
        invariant
            q == exec_eq::<T>(),
            i <= m,
            m == s1@.len(),
            n == s2@.len(),
            lookup@.len() == i + 1,
            forall|a: int| 0 <= a <= i ==> #[trigger] lookup@[a]@.len() == n + 1,
            forall|a: int, b: int|
                0 <= a <= i && 0 <= b <= n
                    ==> #[trigger] lookup@[a]@[b] <= a && lookup@[a]@[b] <= b,
            max_length <= ending_index_1 <= m,
            max_length <= ending_index_2 <= n,
            max_length == 0 ==> ending_index_1 == m && ending_index_2 == n,
            T::obeys_eq_spec() ==> {
                &&& forall|a: int, b: int|
                    0 <= a <= i && 0 <= b <= n
                        ==> #[trigger] lookup@[a]@[b] == suffix_run(q, s1@, s2@, a, b)
                &&& scan_best(q, s1@, s2@, i as int, n as int) == (BestRun {
                    len: max_length as nat,
                    end1: ending_index_1 as int,
                    end2: ending_index_2 as int,
                })
            },
        decreases m - i,
    {
        let mut row: Vec<usize> = Vec::new();
        row.push(0);
        let mut j: usize = 0;
        while j < n
            invariant
                q == exec_eq::<T>(),
                i < m,
                j <= n,
                m == s1@.len(),
                n == s2@.len(),
                lookup@.len() == i + 1,
                forall|a: int| 0 <= a <= i ==> #[trigger] lookup@[a]@.len() == n + 1,
                forall|a: int, b: int|
                    0 <= a <= i && 0 <= b <= n
                        ==> #[trigger] lookup@[a]@[b] <= a && lookup@[a]@[b] <= b,
                row@.len() == j + 1,
                forall|b: int| 0 <= b <= j ==> #[trigger] row@[b] <= i + 1 && row@[b] <= b,
                max_length <= ending_index_1 <= m,
                max_length <= ending_index_2 <= n,
                max_length == 0 ==> ending_index_1 == m && ending_index_2 == n,
                T::obeys_eq_spec() ==> {
                    &&& forall|a: int, b: int|
                        0 <= a <= i && 0 <= b <= n
                            ==> #[trigger] lookup@[a]@[b] == suffix_run(q, s1@, s2@, a, b)
                    &&& forall|b: int|
                        0 <= b <= j ==> #[trigger] row@[b] == suffix_run(
                            q,
                            s1@,
                            s2@,
                            i + 1,
                            b,
                        )
                    &&& scan_best(q, s1@, s2@, i + 1, j as int) == (BestRun {
                        len: max_length as nat,
                        end1: ending_index_1 as int,
                        end2: ending_index_2 as int,
                    })
                },
            decreases n - j,
        {
            let prev = lookup[i][j];
            let equal = s1[i].eq(&s2[j]);
            let val = if equal {
                prev + 1
            } else {
                0
            };
            if val > max_length {
                max_length = val;
                ending_index_1 = i + 1;
                ending_index_2 = j + 1;
            }
            row.push(val);
            proof {
                if T::obeys_eq_spec() {
                    assert(equal == q(s1@[i as int], s2@[j as int]));
                    assert(val == suffix_run(q, s1@, s2@, i + 1, j + 1));
                    assert(scan_best(q, s1@, s2@, i + 1, j + 1) == (BestRun {
                        len: max_length as nat,
                        end1: ending_index_1 as int,
                        end2: ending_index_2 as int,
                    }));
                }
            }
            j += 1;
        }
        lookup.push(row);
        i += 1;
    }

    proof {
        if T::obeys_eq_spec() {
            lemma_scan_best_props(q, s1@, s2@, m as int, n as int);
            let b = lcs_best(q, s1@, s2@);
            if b.len > 0 {
                lemma_suffix_run_matches(q, s1@, s2@, b.end1, b.end2);
            }
            assert forall|e1: int, e2: int, len: int|
                #[trigger] run_matches_at(q, s1@, s2@, e1, e2, len) implies len <= b.len by {
                if len > 0 {
                    lemma_suffix_run_at_least(q, s1@, s2@, e1, e2, len);
                }
            }
            if b.len > 0 {
                assert forall|e1: int, e2: int, len: int|
                    #[trigger] run_matches_at(q, s1@, s2@, e1, e2, len) && len == b.len
                        implies b.end1 < e1 || (b.end1 == e1 && b.end2 <= e2) by {
                    lemma_suffix_run_at_least(q, s1@, s2@, e1, e2, len);
                }
            }
        }
    }
    (
        (ending_index_1 - max_length, ending_index_1),
        (ending_index_2 - max_length, ending_index_2),
    )
}

} // verus!

