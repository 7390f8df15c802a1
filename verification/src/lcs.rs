//! Longest-common-subsequence lengths.
//!
//! [`lcs`] fills a [`Grid`] with the standard dynamic-programming table for
//! two sequences of lines: cell `(i, j)` holds the length of the longest
//! common subsequence of the first `i` lines of the first sequence and the
//! first `j` lines of the second. [`lemma_lcs_len_correct`] shows that the
//! table's value really is the length of a longest common subsequence.

use crate::grid::Grid;
use vstd::prelude::*;

verus! {

/// A list of lines, each line as its sequence of characters.
pub open spec fn lines_view(lines: Seq<String>) -> Seq<Seq<char>> {
    lines.map_values(|s: String| s@)
}

/// The dynamic-programming value at `(i, j)`: the length of the longest
/// common subsequence of `s1.take(i)` and `s2.take(j)`. A neighbour off the
/// table (an index at or below zero) counts as zero.
pub open spec fn lcs_len(s1: Seq<Seq<char>>, s2: Seq<Seq<char>>, i: int, j: int) -> nat
    decreases i + j,
{
    if i <= 0 || j <= 0 {
        0
    } else if s1[i - 1] == s2[j - 1] {
        lcs_len(s1, s2, i - 1, j - 1) + 1
    } else if lcs_len(s1, s2, i, j - 1) >= lcs_len(s1, s2, i - 1, j) {
        lcs_len(s1, s2, i, j - 1)
    } else {
        lcs_len(s1, s2, i - 1, j)
    }
}

/// The DP value never exceeds the length of either prefix.
pub proof fn lemma_lcs_len_le(s1: Seq<Seq<char>>, s2: Seq<Seq<char>>, i: int, j: int)
    requires
        0 <= i,
        0 <= j,
    ensures
        lcs_len(s1, s2, i, j) <= i,
        lcs_len(s1, s2, i, j) <= j,
    decreases i + j,
{
    if i > 0 && j > 0 {
        lemma_lcs_len_le(s1, s2, i - 1, j - 1);
        lemma_lcs_len_le(s1, s2, i, j - 1);
        lemma_lcs_len_le(s1, s2, i - 1, j);
    }
}

/// Fills a table with the LCS lengths of all prefixes of `seq1` and `seq2`:
/// cell `(i, j)` is the LCS length of the first `i` lines of `seq1` and the
/// first `j` lines of `seq2`.
pub fn lcs(seq1: &Vec<String>, seq2: &Vec<String>) -> (dp: Grid)
    requires
        (seq1@.len() + 1) * (seq2@.len() + 1) <= usize::MAX,
    ensures
        dp.wf(),
        dp.rows() == seq1@.len() + 1,
        dp.cols() == seq2@.len() + 1,
        forall|i: int, j: int|
            dp.in_bounds(i, j) ==> dp.cell(i, j) == lcs_len(
                lines_view(seq1@),
                lines_view(seq2@),
                i,
                j,
            ),
{
    let ghost v1 = lines_view(seq1@);
    let ghost v2 = lines_view(seq2@);
    let m: usize = seq1.len();
    let n: usize = seq2.len();
    proof {
        assert((m + 1) <= (m + 1) * (n + 1) && (n + 1) <= (m + 1) * (n + 1)) by (nonlinear_arith)
            requires
                m >= 0 && n >= 0,
        ;
    }

    let mut dp = Grid::new(m + 1, n + 1);

    let mut i: usize = 0;
    while i <= m
        invariant
            i <= m + 1,
            m + 1 <= usize::MAX,
            dp.wf(),
            dp.rows() == m + 1,
            dp.cols() == n + 1,
            forall|r: int, c: int| dp.in_bounds(r, c) ==> dp.cell(r, c) == 0,
        decreases m + 1 - i,
    {
        dp.set(i, 0, 0).unwrap();
        i = i + 1;
    }

    let mut j: usize = 0;
    while j <= n
        invariant
            j <= n + 1,
            n + 1 <= usize::MAX,
            dp.wf(),
            dp.rows() == m + 1,
            dp.cols() == n + 1,
            forall|r: int, c: int| dp.in_bounds(r, c) ==> dp.cell(r, c) == 0,
        decreases n + 1 - j,
    {
        dp.set(0, j, 0).unwrap();
        j = j + 1;
    }

    let mut i: usize = 1;
    while i <= m
        invariant
            1 <= i <= m + 1,
            m + 1 <= usize::MAX,
            n + 1 <= usize::MAX,
            seq1@.len() == m,
            seq2@.len() == n,
            v1 == lines_view(seq1@),
            v2 == lines_view(seq2@),
            dp.wf(),
            dp.rows() == m + 1,
            dp.cols() == n + 1,
            forall|r: int, c: int|
                dp.in_bounds(r, c) && (r < i || r == 0 || c == 0) ==> dp.cell(r, c) == lcs_len(
                    v1,
                    v2,
                    r,
                    c,
                ),
        decreases m + 1 - i,
    {
        let mut j: usize = 1;
        while j <= n
            invariant
                1 <= i <= m,
                1 <= j <= n + 1,
                m + 1 <= usize::MAX,
                n + 1 <= usize::MAX,
                seq1@.len() == m,
                seq2@.len() == n,
                v1 == lines_view(seq1@),
                v2 == lines_view(seq2@),
                dp.wf(),
                dp.rows() == m + 1,
                dp.cols() == n + 1,
                forall|r: int, c: int|
                    dp.in_bounds(r, c) && (r < i || (r == i && c < j) || r == 0 || c == 0)
                        ==> dp.cell(r, c) == lcs_len(v1, v2, r, c),
            decreases n + 1 - j,
        {
            if seq1[i - 1] == seq2[j - 1] {
                proof {
                    lemma_lcs_len_le(v1, v2, i - 1, j - 1);
                }
                let val: usize = dp.get(i - 1, j - 1).unwrap_or(0) + 1;
                dp.set(i, j, val).unwrap();
            } else {
                let val1: usize = dp.get(i, j - 1).unwrap_or(0);
                let val2: usize = dp.get(i - 1, j).unwrap_or(0);
                let max_val: usize = if val1 >= val2 {
                    val1
                } else {
                    val2
                };
                dp.set(i, j, max_val).unwrap();
            }
            j = j + 1;
        }
        i = i + 1;
    }

    dp
}

/// `sub` appears within `s` in the same relative order, not necessarily
/// contiguously.
pub open spec fn is_subseq_of(sub: Seq<Seq<char>>, s: Seq<Seq<char>>) -> bool
    decreases sub.len() + s.len(),
{
    if sub.len() == 0 {
        true
    } else if s.len() == 0 {
        false
    } else if sub.last() == s.last() {
        is_subseq_of(sub.drop_last(), s.drop_last()) || is_subseq_of(sub, s.drop_last())
    } else {
        is_subseq_of(sub, s.drop_last())
    }
}

/// `sub` is a subsequence of both `s1` and `s2`.
pub open spec fn is_common_subseq(
    sub: Seq<Seq<char>>,
    s1: Seq<Seq<char>>,
    s2: Seq<Seq<char>>,
) -> bool {
    is_subseq_of(sub, s1) && is_subseq_of(sub, s2)
}

/// A subsequence of `s` without its last element is a subsequence of `s`.
proof fn lemma_subseq_grow(sub: Seq<Seq<char>>, s: Seq<Seq<char>>)
    requires
        s.len() > 0,
        is_subseq_of(sub, s.drop_last()),
    ensures
        is_subseq_of(sub, s),
{
    if sub.len() == 0 {
    } else if sub.last() == s.last() {
    } else {
    }
}

/// Dropping the last element of a subsequence keeps it a subsequence.
proof fn lemma_subseq_drop(sub: Seq<Seq<char>>, s: Seq<Seq<char>>)
    requires
        sub.len() > 0,
        is_subseq_of(sub, s),
    ensures
        is_subseq_of(sub.drop_last(), s),
    decreases s.len(),
{
    if sub.last() == s.last() {
        if is_subseq_of(sub.drop_last(), s.drop_last()) {
            lemma_subseq_grow(sub.drop_last(), s);
        } else {
            lemma_subseq_drop(sub, s.drop_last());
            lemma_subseq_grow(sub.drop_last(), s);
        }
    } else {
        lemma_subseq_drop(sub, s.drop_last());
        lemma_subseq_grow(sub.drop_last(), s);
    }
}

/// When a subsequence ends with the same element as `s`, dropping that
/// element on both sides leaves a subsequence.
proof fn lemma_subseq_match_last(sub: Seq<Seq<char>>, s: Seq<Seq<char>>)
    requires
        sub.len() > 0,
        s.len() > 0,
        is_subseq_of(sub, s),
        sub.last() == s.last(),
    ensures
        is_subseq_of(sub.drop_last(), s.drop_last()),
{
    if is_subseq_of(sub.drop_last(), s.drop_last()) {
    } else {
        lemma_subseq_drop(sub, s.drop_last());
    }
}

/// Some common subsequence of the prefixes `s1.take(i)` and `s2.take(j)`
/// has exactly the DP value's length.
pub proof fn lemma_lcs_achievable(s1: Seq<Seq<char>>, s2: Seq<Seq<char>>, i: int, j: int) -> (sub:
    Seq<Seq<char>>)
    requires
        0 <= i <= s1.len(),
        0 <= j <= s2.len(),
    ensures
        is_subseq_of(sub, s1.take(i)),
        is_subseq_of(sub, s2.take(j)),
        sub.len() == lcs_len(s1, s2, i, j),
    decreases i + j,
{
    if i <= 0 || j <= 0 {
        Seq::empty()
    } else if s1[i - 1] == s2[j - 1] {
        let prev = lemma_lcs_achievable(s1, s2, i - 1, j - 1);
        let sub = prev.push(s1[i - 1]);
        assert(sub.drop_last() =~= prev);
        assert(s1.take(i).drop_last() =~= s1.take(i - 1));
        assert(s2.take(j).drop_last() =~= s2.take(j - 1));
        assert(is_subseq_of(sub, s1.take(i)));
        assert(is_subseq_of(sub, s2.take(j)));
        sub
    } else if lcs_len(s1, s2, i, j - 1) >= lcs_len(s1, s2, i - 1, j) {
        let sub = lemma_lcs_achievable(s1, s2, i, j - 1);
        assert(s2.take(j).drop_last() =~= s2.take(j - 1));
        lemma_subseq_grow(sub, s2.take(j));
        sub
    } else {
        let sub = lemma_lcs_achievable(s1, s2, i - 1, j);
        assert(s1.take(i).drop_last() =~= s1.take(i - 1));
        lemma_subseq_grow(sub, s1.take(i));
        sub
    }
}

/// No common subsequence of the prefixes `s1.take(i)` and `s2.take(j)` is
/// longer than the DP value.
pub proof fn lemma_lcs_optimal(
    s1: Seq<Seq<char>>,
    s2: Seq<Seq<char>>,
    i: int,
    j: int,
    sub: Seq<Seq<char>>,
)
    requires
        0 <= i <= s1.len(),
        0 <= j <= s2.len(),
        is_subseq_of(sub, s1.take(i)),
        is_subseq_of(sub, s2.take(j)),
    ensures
        sub.len() <= lcs_len(s1, s2, i, j),
    decreases i + j,
{
    if sub.len() == 0 {
    } else if i <= 0 || j <= 0 {
        assert(s1.take(i).len() == i);
        assert(s2.take(j).len() == j);
    } else if s1[i - 1] == s2[j - 1] {
        assert(s1.take(i).last() == s1[i - 1]);
        assert(s2.take(j).last() == s2[j - 1]);
        assert(s1.take(i).drop_last() =~= s1.take(i - 1));
        assert(s2.take(j).drop_last() =~= s2.take(j - 1));
        if sub.last() == s1[i - 1] {
            lemma_subseq_match_last(sub, s1.take(i));
            lemma_subseq_match_last(sub, s2.take(j));
            lemma_lcs_optimal(s1, s2, i - 1, j - 1, sub.drop_last());
        } else {
            assert(is_subseq_of(sub, s1.take(i - 1)));
            assert(is_subseq_of(sub, s2.take(j - 1)));
            lemma_lcs_optimal(s1, s2, i - 1, j - 1, sub);
        }
    } else {
        if sub.last() != s1[i - 1] {
            assert(s1.take(i).last() == s1[i - 1]);
            assert(s1.take(i).drop_last() =~= s1.take(i - 1));
            assert(is_subseq_of(sub, s1.take(i - 1)));
            lemma_lcs_optimal(s1, s2, i - 1, j, sub);
        } else {
            assert(s2.take(j).last() == s2[j - 1]);
            assert(s2.take(j).drop_last() =~= s2.take(j - 1));
            assert(is_subseq_of(sub, s2.take(j - 1)));
            lemma_lcs_optimal(s1, s2, i, j - 1, sub);
        }
    }
}

/// The DP value at the full lengths is the length of a true longest common
/// subsequence: some common subsequence attains it, and none is longer.
pub proof fn lemma_lcs_len_correct(s1: Seq<Seq<char>>, s2: Seq<Seq<char>>)
    ensures
        exists|sub: Seq<Seq<char>>|
            is_common_subseq(sub, s1, s2) && sub.len() == lcs_len(
                s1,
                s2,
                s1.len() as int,
                s2.len() as int,
            ),
        forall|sub: Seq<Seq<char>>|
            is_common_subseq(sub, s1, s2) ==> sub.len() <= lcs_len(
                s1,
                s2,
                s1.len() as int,
                s2.len() as int,
            ),
{
    let m = s1.len() as int;
    let n = s2.len() as int;
    assert(s1.take(m) =~= s1);
    assert(s2.take(n) =~= s2);
    let witness = lemma_lcs_achievable(s1, s2, m, n);
    assert(is_common_subseq(witness, s1, s2) && witness.len() == lcs_len(s1, s2, m, n));
    assert forall|sub: Seq<Seq<char>>| is_common_subseq(sub, s1, s2) implies sub.len() <= lcs_len(
        s1,
        s2,
        m,
        n,
    ) by {
        lemma_lcs_optimal(s1, s2, m, n, sub);
    }
}

} // verus!
