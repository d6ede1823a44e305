use vstd::prelude::*;

verus! {

/// A cell coordinate: (row, col).
pub type RowCol = (u16, u16);

/// Size of a cell grid: how many rows and columns it has, and whether it is
/// drawn for debugging. (The world-space width of a cell is a float and lives
/// with the rendering side.)
#[derive(Clone, Copy, Debug, PartialEq, Eq)]
pub struct GridSpec {
    pub rows: u16,
    pub cols: u16,
    pub visualize: bool,
}

/// Row-major position of a cell.
pub open spec fn spec_flat_index(cols: u16, rowcol: RowCol) -> int {
    rowcol.0 * cols + rowcol.1
}

impl Default for GridSpec {
    /// The default grid: 10 by 10 cells, drawn.
    fn default() -> (spec: GridSpec)
        ensures
            spec.rows == 10,
            spec.cols == 10,
            spec.visualize,
    {
        GridSpec { rows: 10, cols: 10, visualize: true }
    }
}

impl GridSpec {
    /// Number of cells of a grid with this spec.
    pub open spec fn spec_num_cells(&self) -> nat {
        (self.rows * self.cols) as nat
    }

    /// The cell lies inside the grid.
    pub open spec fn spec_in_bounds(&self, rowcol: RowCol) -> bool {
        rowcol.0 < self.rows && rowcol.1 < self.cols
    }

    /// The cell lies on the outermost ring of the grid.
    pub open spec fn spec_is_boundary(&self, rowcol: RowCol) -> bool {
        rowcol.0 == 0 || rowcol.0 == self.rows - 1 || rowcol.1 == 0 || rowcol.1 == self.cols - 1
    }


    /// Converts (row, col) to a single row-major index.
    pub fn flat_index(&self, rowcol: RowCol) -> (index: usize)
        ensures
            index == spec_flat_index(self.cols, rowcol),
    {
        let (row, col) = rowcol;
        proof {
            assert(row * self.cols <= 65535 * 65535) by (nonlinear_arith)
                requires
                    row <= 65535,
                    self.cols <= 65535,
            ;
        }
        row as usize * self.cols as usize + col as usize
    }

    /// Number of cells of a grid with this spec.
    pub fn num_cells(&self) -> (n: usize)
        ensures
            n == self.spec_num_cells(),
    {
        proof {
            assert(self.rows * self.cols <= 65535 * 65535) by (nonlinear_arith)
                requires
                    self.rows <= 65535,
                    self.cols <= 65535,
            ;
        }
        self.rows as usize * self.cols as usize
    }

    /// Returns true iff the cell is on the boundary of the grid.
    /// The row is compared with `rows - 1` only when it is not 0, and the
    /// column with `cols - 1` only when neither row test matched and the
    /// column is not 0; those subtractions need a non-empty dimension.
    pub fn is_boundary(&self, rowcol: RowCol) -> (b: bool)
        requires
            rowcol.0 != 0 ==> self.rows > 0,
            (rowcol.0 != 0 && rowcol.0 != self.rows - 1 && rowcol.1 != 0) ==> self.cols > 0,
        ensures
            b == self.spec_is_boundary(rowcol),
    {
        let (row, col) = rowcol;
        if row == 0 || row == self.rows - 1 {
            return true;
        }
        if col == 0 || col == self.cols - 1 {
            return true;
        }
        false
    }

    /// Returns true if the cell is inside the grid.
    pub fn in_bounds(&self, rowcol: RowCol) -> (b: bool)
        ensures
            b == self.spec_in_bounds(rowcol),
    {
        let (row, col) = rowcol;
        row < self.rows && col < self.cols
    }
}

/// A cell inside the grid has a row-major index below the cell count, and
/// distinct cells inside the grid have distinct indices.
pub proof fn lemma_flat_index_in_bounds(spec: GridSpec, a: RowCol, b: RowCol)
    requires
        spec.spec_in_bounds(a),
    ensures
        0 <= spec_flat_index(spec.cols, a) < spec.spec_num_cells(),
        spec.spec_in_bounds(b) && a != b ==> spec_flat_index(spec.cols, a) != spec_flat_index(spec.cols, b),
{
    assert(0 <= spec_flat_index(spec.cols, a) < spec.spec_num_cells()) by (nonlinear_arith)
        requires
            a.0 < spec.rows,
            a.1 < spec.cols,
            spec_flat_index(spec.cols, a) == a.0 * spec.cols + a.1,
            spec.spec_num_cells() == spec.rows * spec.cols,
    ;
    if spec.spec_in_bounds(b) && a != b {
        assert(spec_flat_index(spec.cols, a) != spec_flat_index(spec.cols, b)) by (nonlinear_arith)
            requires
                a.1 < spec.cols,
                b.1 < spec.cols,
                a.0 != b.0 || a.1 != b.1,
                spec_flat_index(spec.cols, a) == a.0 * spec.cols + a.1,
                spec_flat_index(spec.cols, b) == b.0 * spec.cols + b.1,
        ;
    }
}

} // verus!
