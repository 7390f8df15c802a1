//! Diff reconstruction.
//!
//! [`diff`] walks a filled LCS table backward from `(i, j)` and emits, in
//! forward order, one operation per output line: a line common to both
//! files, a line only in the second file, or a line only in the first.
//! The tie-break is fixed: where the two neighbouring LCS values are equal,
//! the difference is treated as an insertion from the second file.

use crate::grid::Grid;
use crate::lcs::{lcs, lcs_len, lines_view};
use vstd::prelude::*;

verus! {

/// One line of diff output.
pub enum DiffOp {
    /// A line present in both files.
    Match(String),
    /// A line present only in the second file.
    Insert(String),
    /// A line present only in the first file.
    Delete(String),
}

/// The mathematical model of a diff operation: the same tag over the line's
/// characters.
pub enum DiffLine {
    Match(Seq<char>),
    Insert(Seq<char>),
    Delete(Seq<char>),
}

impl View for DiffOp {
    type V = DiffLine;

    open spec fn view(&self) -> DiffLine {
        match self {
            DiffOp::Match(line) => DiffLine::Match(line@),
            DiffOp::Insert(line) => DiffLine::Insert(line@),
            DiffOp::Delete(line) => DiffLine::Delete(line@),
        }
    }
}

/// The diff of `s1.take(i)` and `s2.take(j)`, in forward order, by backward
/// recursion over the DP values. The rules apply in this exact precedence:
/// a match when the last lines of both prefixes agree; otherwise an
/// insertion when the left neighbour's DP value is at least the upper one's
/// (so equal values favour insertion); otherwise a deletion; nothing at the
/// origin.
pub open spec fn diff_lines(s1: Seq<Seq<char>>, s2: Seq<Seq<char>>, i: int, j: int) -> Seq<DiffLine>
    decreases i + j,
{
    if i < 0 || j < 0 {
        Seq::empty()
    } else if i > 0 && j > 0 && s1[i - 1] == s2[j - 1] {
        diff_lines(s1, s2, i - 1, j - 1).push(DiffLine::Match(s1[i - 1]))
    } else if j > 0 && (i == 0 || lcs_len(s1, s2, i, j - 1) >= lcs_len(s1, s2, i - 1, j)) {
        diff_lines(s1, s2, i, j - 1).push(DiffLine::Insert(s2[j - 1]))
    } else if i > 0 && (j == 0 || lcs_len(s1, s2, i, j - 1) < lcs_len(s1, s2, i - 1, j)) {
        diff_lines(s1, s2, i - 1, j).push(DiffLine::Delete(s1[i - 1]))
    } else {
        Seq::empty()
    }
}

/// `dp` is the filled LCS table for the two line sequences.
pub open spec fn is_lcs_table_for(dp: Grid, s1: Seq<Seq<char>>, s2: Seq<Seq<char>>) -> bool {
    &&& dp.wf()
    &&& dp.rows() == s1.len() + 1
    &&& dp.cols() == s2.len() + 1
    &&& forall|r: int, c: int| dp.in_bounds(r, c) ==> dp.cell(r, c) == lcs_len(s1, s2, r, c)
}

/// Reconstructs the diff of the first `i` lines of `lines1` and the first
/// `j` lines of `lines2` from the filled LCS table, in forward order.
pub fn diff(lcs_table: &Grid, lines1: &Vec<String>, lines2: &Vec<String>, i: usize, j: usize) -> (ops:
    Vec<DiffOp>)
    requires
        is_lcs_table_for(*lcs_table, lines_view(lines1@), lines_view(lines2@)),
        i <= lines1@.len(),
        j <= lines2@.len(),
    ensures
        ops@.map_values(|op: DiffOp| op@) == diff_lines(
            lines_view(lines1@),
            lines_view(lines2@),
            i as int,
            j as int,
        ),
    decreases i + j,
{
    let ghost v1 = lines_view(lines1@);
    let ghost v2 = lines_view(lines2@);
    if i > 0 && j > 0 && lines1[i - 1] == lines2[j - 1] {
        let mut ops = diff(lcs_table, lines1, lines2, i - 1, j - 1);
        ops.push(DiffOp::Match(lines1[i - 1].clone()));
        proof {
            assert(ops@.map_values(|op: DiffOp| op@) =~= diff_lines(v1, v2, i as int, j as int));
        }
        ops
    } else if j > 0 && (i == 0 || lcs_table.get(i, j - 1).unwrap_or(0) >= lcs_table.get(
        i - 1,
        j,
    ).unwrap_or(0)) {
        let mut ops = diff(lcs_table, lines1, lines2, i, j - 1);
        ops.push(DiffOp::Insert(lines2[j - 1].clone()));
        proof {
            assert(ops@.map_values(|op: DiffOp| op@) =~= diff_lines(v1, v2, i as int, j as int));
        }
        ops
    } else if i > 0 && (j == 0 || lcs_table.get(i, j - 1).unwrap_or(0) < lcs_table.get(
        i - 1,
        j,
    ).unwrap_or(0)) {
        let mut ops = diff(lcs_table, lines1, lines2, i - 1, j);
        ops.push(DiffOp::Delete(lines1[i - 1].clone()));
        proof {
            assert(ops@.map_values(|op: DiffOp| op@) =~= diff_lines(v1, v2, i as int, j as int));
        }
        ops
    } else {
        let ops: Vec<DiffOp> = Vec::new();
        proof {
            assert(ops@.map_values(|op: DiffOp| op@) =~= diff_lines(v1, v2, i as int, j as int));
        }
        ops
    }
}

/// The complete diff of two files' lines: builds the LCS table and walks it
/// backward from the bottom-right corner. `None` exactly when the table's
/// cell count, `(len1 + 1) * (len2 + 1)`, does not fit in `usize`.
pub fn diff_files(lines1: &Vec<String>, lines2: &Vec<String>) -> (r: Option<Vec<DiffOp>>)
    ensures
        match r {
            Some(ops) => ops@.map_values(|op: DiffOp| op@) == diff_lines(
                lines_view(lines1@),
                lines_view(lines2@),
                lines1@.len() as int,
                lines2@.len() as int,
            ),
            None => (lines1@.len() + 1) * (lines2@.len() + 1) > usize::MAX,
        },
{
    let m: usize = lines1.len();
    let n: usize = lines2.len();
    proof {
        assert((m + 1) * (n + 1) >= m + 1 && (m + 1) * (n + 1) >= n + 1) by (nonlinear_arith)
            requires
                m >= 0 && n >= 0,
        ;
    }
    match m.checked_add(1) {
        Some(rows) => match n.checked_add(1) {
            Some(cols) => match rows.checked_mul(cols) {
                Some(_total) => {
                    let table = lcs(lines1, lines2);
                    Some(diff(&table, lines1, lines2, m, n))
                },
                None => None,
            },
            None => None,
        },
        None => None,
    }
}

/// The lines a diff keeps from the first file: those of its Match and
/// Delete operations, in order.
pub open spec fn file1_lines(ops: Seq<DiffLine>) -> Seq<Seq<char>>
    decreases ops.len(),
{
    if ops.len() == 0 {
        Seq::empty()
    } else {
        file1_lines(ops.drop_last()) + (match ops.last() {
            DiffLine::Match(line) => seq![line],
            DiffLine::Delete(line) => seq![line],
            DiffLine::Insert(_) => Seq::empty(),
        })
    }
}

/// The lines a diff keeps from the second file: those of its Match and
/// Insert operations, in order.
pub open spec fn file2_lines(ops: Seq<DiffLine>) -> Seq<Seq<char>>
    decreases ops.len(),
{
    if ops.len() == 0 {
        Seq::empty()
    } else {
        file2_lines(ops.drop_last()) + (match ops.last() {
            DiffLine::Match(line) => seq![line],
            DiffLine::Insert(line) => seq![line],
            DiffLine::Delete(_) => Seq::empty(),
        })
    }
}

/// Round trip: replaying the diff's Match and Delete operations, in order,
/// reconstructs exactly the first file's prefix, and its Match and Insert
/// operations reconstruct exactly the second's.
pub proof fn lemma_diff_round_trip(s1: Seq<Seq<char>>, s2: Seq<Seq<char>>, i: int, j: int)
    requires
        0 <= i <= s1.len(),
        0 <= j <= s2.len(),
    ensures
        file1_lines(diff_lines(s1, s2, i, j)) == s1.take(i),
        file2_lines(diff_lines(s1, s2, i, j)) == s2.take(j),
    decreases i + j,
{
    let ops = diff_lines(s1, s2, i, j);
    if i > 0 && j > 0 && s1[i - 1] == s2[j - 1] {
        lemma_diff_round_trip(s1, s2, i - 1, j - 1);
        let rec = diff_lines(s1, s2, i - 1, j - 1);
        assert(ops.drop_last() =~= rec);
        assert(file1_lines(ops) =~= s1.take(i));
        assert(file2_lines(ops) =~= s2.take(j));
    } else if j > 0 && (i == 0 || lcs_len(s1, s2, i, j - 1) >= lcs_len(s1, s2, i - 1, j)) {
        lemma_diff_round_trip(s1, s2, i, j - 1);
        let rec = diff_lines(s1, s2, i, j - 1);
        assert(ops.drop_last() =~= rec);
        assert(file1_lines(ops) =~= s1.take(i));
        assert(file2_lines(ops) =~= s2.take(j));
    } else if i > 0 && (j == 0 || lcs_len(s1, s2, i, j - 1) < lcs_len(s1, s2, i - 1, j)) {
        lemma_diff_round_trip(s1, s2, i - 1, j);
        let rec = diff_lines(s1, s2, i - 1, j);
        assert(ops.drop_last() =~= rec);
        assert(file1_lines(ops) =~= s1.take(i));
        assert(file2_lines(ops) =~= s2.take(j));
    } else {
        assert(file1_lines(ops) =~= s1.take(i));
        assert(file2_lines(ops) =~= s2.take(j));
    }
}

/// Identical inputs diff to one Match per line, in input order: no
/// insertion and no deletion is emitted.
pub proof fn lemma_diff_identical(s: Seq<Seq<char>>, i: int)
    requires
        0 <= i <= s.len(),
    ensures
        diff_lines(s, s, i, i) == s.take(i).map_values(|line: Seq<char>| DiffLine::Match(line)),
    decreases i,
{
    if i > 0 {
        lemma_diff_identical(s, i - 1);
        assert(diff_lines(s, s, i, i) =~= s.take(i).map_values(
            |line: Seq<char>| DiffLine::Match(line),
        ));
    } else {
        assert(diff_lines(s, s, 0, 0) =~= s.take(0).map_values(
            |line: Seq<char>| DiffLine::Match(line),
        ));
    }
}

/// With disjoint inputs the LCS table is zero everywhere.
proof fn lemma_lcs_len_disjoint(s1: Seq<Seq<char>>, s2: Seq<Seq<char>>, i: int, j: int)
    requires
        i <= s1.len(),
        j <= s2.len(),
        forall|a: int, b: int| 0 <= a < s1.len() && 0 <= b < s2.len() ==> s1[a] != s2[b],
    ensures
        lcs_len(s1, s2, i, j) == 0,
    decreases i + j,
{
    if i > 0 && j > 0 {
        lemma_lcs_len_disjoint(s1, s2, i, j - 1);
        lemma_lcs_len_disjoint(s1, s2, i - 1, j);
    }
}

/// With no line in common, the diff deletes every line of the first file,
/// in order, and then inserts every line of the second, in order.
pub proof fn lemma_diff_disjoint(s1: Seq<Seq<char>>, s2: Seq<Seq<char>>, i: int, j: int)
    requires
        0 <= i <= s1.len(),
        0 <= j <= s2.len(),
        forall|a: int, b: int| 0 <= a < s1.len() && 0 <= b < s2.len() ==> s1[a] != s2[b],
    ensures
        diff_lines(s1, s2, i, j) == s1.take(i).map_values(|line: Seq<char>| DiffLine::Delete(line))
            + s2.take(j).map_values(|line: Seq<char>| DiffLine::Insert(line)),
    decreases i + j,
{
    let dels = s1.take(i).map_values(|line: Seq<char>| DiffLine::Delete(line));
    let inss = s2.take(j).map_values(|line: Seq<char>| DiffLine::Insert(line));
    if j > 0 {
        lemma_lcs_len_disjoint(s1, s2, i, j - 1);
        lemma_lcs_len_disjoint(s1, s2, i - 1, j);
        lemma_diff_disjoint(s1, s2, i, j - 1);
        assert(diff_lines(s1, s2, i, j) =~= dels + inss);
    } else if i > 0 {
        lemma_diff_disjoint(s1, s2, i - 1, j);
        assert(diff_lines(s1, s2, i, j) =~= dels + inss);
    } else {
        assert(diff_lines(s1, s2, i, j) =~= dels + inss);
    }
}

} // verus!
