//! A two-dimensional row-major grid of fixed-point values.

use vstd::prelude::*;
use crate::fx::FX_VAL_MAX;
use crate::interpolation::MAX_AXIS;

verus! {

/// A rectangular grid stored row-major: the cell in row `r`, column `c`
/// sits at flat position `r * cols + c`.
pub struct Grid2 {
    /// Number of rows.
    pub rows: usize,
    /// Number of columns.
    pub cols: usize,
    /// The cells, row-major.
    pub values: Vec<i64>,
}

impl Grid2 {
    /// A well-formed grid: one stored cell per position, bounded extents,
    /// bounded values.
    pub open spec fn wf(&self) -> bool {
        &&& self.values@.len() == self.rows * self.cols
        &&& self.rows <= MAX_AXIS
        &&& self.cols <= MAX_AXIS
        &&& forall|i: int|
            0 <= i < self.values@.len() ==> -FX_VAL_MAX <= #[trigger] self.values@[i]
                <= FX_VAL_MAX
    }

    /// The value of the cell in row `r`, column `c`.
    pub open spec fn cell(&self, r: int, c: int) -> i64 {
        self.values@[r * self.cols + c]
    }

    /// Read one cell.
    pub fn get(&self, r: usize, c: usize) -> (v: i64)
        requires
            self.wf(),
            r < self.rows,
            c < self.cols,
        ensures
            v == self.cell(r as int, c as int),
            -FX_VAL_MAX <= v <= FX_VAL_MAX,
    {
        let n = self.values.len();
        proof {
            lemma_cell_in_range(self.rows as int, self.cols as int, r as int, c as int);
            assert(self.rows * self.cols == n);
        }
        self.values[r * self.cols + c]
    }
}

/// The flat position of an in-bounds cell lies within the grid.
pub proof fn lemma_cell_in_range(rows: int, cols: int, r: int, c: int)
    requires
        0 <= r < rows,
        0 <= c < cols,
    ensures
        0 <= r * cols + c < rows * cols,
{
    assert(0 <= r * cols + c < rows * cols) by (nonlinear_arith)
        requires
            0 <= r < rows,
            0 <= c < cols,
    ;
}

} // verus!
