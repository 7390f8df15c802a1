//! A dense two-dimensional table of unsigned integers.
//!
//! The table is stored row-major in a single flat vector; every access is
//! bounds-checked, and an out-of-bounds read or write is reported to the
//! caller instead of stopping the process.

use vstd::prelude::*;

verus! {

/// An `R x C` table of unsigned integers, addressed by `(row, col)`.
pub struct Grid {
    num_rows: usize,
    num_cols: usize,
    elems: Vec<usize>,
}

impl Grid {
    /// The declared number of rows.
    pub closed spec fn rows(&self) -> int {
        self.num_rows as int
    }

    /// The declared number of columns.
    pub closed spec fn cols(&self) -> int {
        self.num_cols as int
    }

    /// The backing store holds exactly one entry per declared cell.
    pub closed spec fn wf(&self) -> bool {
        self.elems@.len() == self.rows() * self.cols()
    }

    /// The value stored at `(row, col)`; meaningful for in-bounds coordinates
    /// of a well-formed table.
    pub closed spec fn cell(&self, row: int, col: int) -> usize {
        self.elems@[row * self.cols() + col]
    }

    /// `(row, col)` lies within the declared dimensions.
    pub open spec fn in_bounds(&self, row: int, col: int) -> bool {
        0 <= row < self.rows() && 0 <= col < self.cols()
    }

    /// A table of the given size with every cell zero.
    pub fn new(num_rows: usize, num_cols: usize) -> (g: Grid)
        requires
            num_rows * num_cols <= usize::MAX,
        ensures
            g.wf(),
            g.rows() == num_rows,
            g.cols() == num_cols,
            forall|r: int, c: int| g.in_bounds(r, c) ==> g.cell(r, c) == 0,
    {
        proof {
            assert(num_rows * num_cols >= 0) by (nonlinear_arith)
                requires
                    num_rows >= 0 && num_cols >= 0,
            ;
        }
        let total: usize = num_rows * num_cols;
        let mut elems: Vec<usize> = Vec::new();
        let mut k: usize = 0;
        while k < total
            invariant
                k <= total,
                elems@.len() == k,
                forall|i: int| 0 <= i < k ==> elems@[i] == 0,
            decreases total - k,
        {
            elems.push(0);
            k = k + 1;
        }
        let g = Grid { num_rows, num_cols, elems };
        proof {
            assert forall|r: int, c: int| g.in_bounds(r, c) implies g.cell(r, c) == 0 by {
                lemma_flat_index_bounds(g.rows(), g.cols(), r, c);
            }
        }
        g
    }

    /// The declared dimensions, as `(rows, cols)`.
    pub fn size(&self) -> (s: (usize, usize))
        ensures
            s.0 == self.rows(),
            s.1 == self.cols(),
    {
        (self.num_rows, self.num_cols)
    }

    /// The value at `(row, col)`, or `None` when the position is out of
    /// bounds.
    pub fn get(&self, row: usize, col: usize) -> (r: Option<usize>)
        requires
            self.wf(),
        ensures
            self.in_bounds(row as int, col as int) ==> r == Some(
                self.cell(row as int, col as int),
            ),
            !self.in_bounds(row as int, col as int) ==> r is None,
    {
        if row < self.num_rows && col < self.num_cols {
            // read the length as a usize: the flat index is bounded by it
            let _len: usize = self.elems.len();
            proof {
                lemma_flat_index_bounds(self.rows(), self.cols(), row as int, col as int);
            }
            Some(self.elems[row * self.num_cols + col])
        } else {
            None
        }
    }

    /// Writes `val` at `(row, col)`. Out of bounds, the table is left
    /// unchanged and a descriptive failure is returned.
    pub fn set(&mut self, row: usize, col: usize, val: usize) -> (r: Result<(), &'static str>)
        requires
            old(self).wf(),
        ensures
            final(self).wf(),
            final(self).rows() == old(self).rows(),
            final(self).cols() == old(self).cols(),
            old(self).in_bounds(row as int, col as int) ==> {
                &&& r is Ok
                &&& final(self).cell(row as int, col as int) == val
                &&& forall|r2: int, c2: int|
                    final(self).in_bounds(r2, c2) && !(r2 == row && c2 == col) ==> final(self).cell(
                        r2,
                        c2,
                    ) == old(self).cell(r2, c2)
            },
            !old(self).in_bounds(row as int, col as int) ==> r is Err && *final(self) == *old(self),
    {
        if row < self.num_rows && col < self.num_cols {
            // read the length as a usize: the flat index is bounded by it
            let _len: usize = self.elems.len();
            proof {
                lemma_flat_index_bounds(self.rows(), self.cols(), row as int, col as int);
            }
            self.elems[row * self.num_cols + col] = val;
            proof {
                assert forall|r2: int, c2: int|
                    self.in_bounds(r2, c2) && !(r2 == row && c2 == col) implies self.cell(r2, c2)
                    == old(self).cell(r2, c2) by {
                    lemma_flat_index_bounds(self.rows(), self.cols(), r2, c2);
                    lemma_flat_index_injective(self.cols(), row as int, col as int, r2, c2);
                }
            }
            Ok(())
        } else {
            Err("Index out of bounds")
        }
    }

    /// Resets every cell to zero, keeping the dimensions.
    pub fn clear(&mut self)
        requires
            old(self).wf(),
        ensures
            final(self).wf(),
            final(self).rows() == old(self).rows(),
            final(self).cols() == old(self).cols(),
            forall|r: int, c: int| final(self).in_bounds(r, c) ==> final(self).cell(r, c) == 0,
    {
        let total: usize = self.elems.len();
        let mut k: usize = 0;
        while k < total
            invariant
                k <= total,
                self.num_rows == old(self).num_rows,
                self.num_cols == old(self).num_cols,
                self.elems@.len() == total,
                old(self).wf(),
                forall|i: int| 0 <= i < k ==> self.elems@[i] == 0,
            decreases total - k,
        {
            self.elems[k] = 0;
            k = k + 1;
        }
        proof {
            assert forall|r: int, c: int| self.in_bounds(r, c) implies self.cell(r, c) == 0 by {
                lemma_flat_index_bounds(self.rows(), self.cols(), r, c);
            }
        }
    }
}

/// A row-major index for an in-bounds position lies within the flat store.
proof fn lemma_flat_index_bounds(rows: int, cols: int, r: int, c: int)
    requires
        0 <= r < rows,
        0 <= c < cols,
    ensures
        0 <= r * cols + c < rows * cols,
{
    assert(r * cols + c < rows * cols) by (nonlinear_arith)
        requires
            0 <= r < rows && 0 <= c < cols,
    ;
    assert(0 <= r * cols + c) by (nonlinear_arith)
        requires
            0 <= r && 0 <= c && 0 < cols,
    ;
}

/// Distinct in-bounds positions have distinct row-major indices.
proof fn lemma_flat_index_injective(cols: int, r1: int, c1: int, r2: int, c2: int)
    requires
        0 <= r1,
        0 <= c1 < cols,
        0 <= r2,
        0 <= c2 < cols,
        !(r1 == r2 && c1 == c2),
    ensures
        r1 * cols + c1 != r2 * cols + c2,
{
    assert(r1 * cols + c1 != r2 * cols + c2) by (nonlinear_arith)
        requires
            0 <= r1 && 0 <= c1 < cols && 0 <= r2 && 0 <= c2 < cols && !(r1 == r2 && c1 == c2),
    ;
}

} // verus!
