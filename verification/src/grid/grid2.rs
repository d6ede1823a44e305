use vstd::prelude::*;
use crate::grid::spec::{GridSpec, RowCol, spec_flat_index};

verus! {

/// Value of a `u16` reinterpreted as an `i16` (two's complement), as an `as i16`
/// cast does.
pub open spec fn i16_of(x: u16) -> int {
    if x < 32768 { x as int } else { x - 65536 }
}

/// True when `x` is a value of `i16`.
pub open spec fn fits_i16(x: int) -> bool {
    -32768 <= x <= 32767
}

/// Signed row distance `other.0 as i16 - a.0 as i16`.
pub open spec fn row_dist(a: RowCol, other: RowCol) -> int {
    i16_of(other.0) - i16_of(a.0)
}

/// Signed column distance `other.1 as i16 - a.1 as i16`.
pub open spec fn col_dist(a: RowCol, other: RowCol) -> int {
    i16_of(other.1) - i16_of(a.1)
}

/// The radius test evaluates without any `i16` overflow.
pub open spec fn in_radius_defined(a: RowCol, other: RowCol, radius: u16) -> bool {
    &&& fits_i16(row_dist(a, other))
    &&& fits_i16(col_dist(a, other))
    &&& row_dist(a, other) * row_dist(a, other) <= 32767
    &&& col_dist(a, other) * col_dist(a, other) <= 32767
    &&& row_dist(a, other) * row_dist(a, other) + col_dist(a, other) * col_dist(a, other) <= 32767
    &&& i16_of(radius) * i16_of(radius) <= 32767
}

/// `other` lies strictly inside the circle of the given radius around `a`
/// (squared euclidean distance in cells below the squared radius).
pub open spec fn spec_in_radius(a: RowCol, other: RowCol, radius: u16) -> bool {
    row_dist(a, other) * row_dist(a, other) + col_dist(a, other) * col_dist(a, other)
        < i16_of(radius) * i16_of(radius)
}

/// `center as i16 - radius as i16` stays an `i16` and `center + radius` stays a `u16`.
pub open spec fn cell_range_defined(center: u16, radius: u16) -> bool {
    fits_i16(i16_of(center) - i16_of(radius)) && center + radius <= 65535
}

/// Lower end of the inclusive range `center - radius ..= center + radius`, cut at 0.
pub open spec fn range_min(center: u16, radius: u16) -> int {
    if i16_of(center) - i16_of(radius) < 0 { 0 } else { i16_of(center) - i16_of(radius) }
}

/// Upper end of the inclusive range, cut at `limit`.
pub open spec fn range_max(center: u16, radius: u16, limit: u16) -> int {
    if center + radius < limit { center + radius } else { limit as int }
}

/// Strict lexicographic order on cells: by row, then by column.
pub open spec fn lex_lt(a: RowCol, b: RowCol) -> bool {
    a.0 < b.0 || (a.0 == b.0 && a.1 < b.1)
}

/// The sequence is strictly increasing in row-major order.
pub open spec fn sorted_lex(s: Seq<RowCol>) -> bool {
    forall|i: int, j: int| 0 <= i < j < s.len() ==> lex_lt(#[trigger] s[i], #[trigger] s[j])
}

/// Cells `(r, lo)`, ..., `(r, hi - 1)` that lie strictly within `radius` of
/// `center`, in column order.
pub open spec fn scan_cols(center: RowCol, radius: u16, r: int, lo: int, hi: int) -> Seq<RowCol>
    decreases hi - lo,
{
    if hi <= lo {
        Seq::empty()
    } else {
        let prev = scan_cols(center, radius, r, lo, hi - 1);
        let p: RowCol = (r as u16, (hi - 1) as u16);
        if spec_in_radius(center, p, radius) {
            prev.push(p)
        } else {
            prev
        }
    }
}

/// Row-major scan of rows `rlo .. rhi` and columns `clo .. chi`, keeping the
/// cells strictly within `radius` of `center`.
pub open spec fn scan_rows(center: RowCol, radius: u16, rlo: int, rhi: int, clo: int, chi: int) -> Seq<RowCol>
    decreases rhi - rlo,
{
    if rhi <= rlo {
        Seq::empty()
    } else {
        scan_rows(center, radius, rlo, rhi - 1, clo, chi) + scan_cols(center, radius, rhi - 1, clo, chi)
    }
}

/// The scan window of a radius query on a grid with spec `spec`: rows and
/// columns within the cell range of the center's row and column (both ranges
/// are cut at the number of rows).
pub open spec fn in_window(spec: GridSpec, center: RowCol, radius: u16, p: RowCol) -> bool {
    &&& range_min(center.0, radius) <= p.0 <= range_max(center.0, radius, spec.rows)
    &&& range_min(center.1, radius) <= p.1 <= range_max(center.1, radius, spec.rows)
}

/// A radius query on a grid with spec `spec` runs without overflow.
pub open spec fn scan_defined(spec: GridSpec, center: RowCol, radius: u16) -> bool {
    &&& cell_range_defined(center.0, radius)
    &&& cell_range_defined(center.1, radius)
    &&& forall|p: RowCol| #[trigger] in_window(spec, center, radius, p) ==> in_radius_defined(center, p, radius)
}

/// The list a radius query on a grid with spec `spec` returns.
pub open spec fn radius_scan(spec: GridSpec, center: RowCol, radius: u16) -> Seq<RowCol> {
    scan_rows(
        center,
        radius,
        range_min(center.0, radius),
        range_max(center.0, radius, spec.rows) + 1,
        range_min(center.1, radius),
        range_max(center.1, radius, spec.rows) + 1,
    )
}

/// Octile decomposition of the step from `a` to `b`: how many diagonal and how
/// many straight unit moves a path on an 8-connected grid needs.
pub open spec fn spec_octile_steps(a: RowCol, b: RowCol) -> (int, int) {
    let dx = if b.1 >= a.1 { b.1 - a.1 } else { a.1 - b.1 };
    let dy = if b.0 >= a.0 { b.0 - a.0 } else { a.0 - b.0 };
    let diagonals = if dx <= dy { dx } else { dy };
    let longest = if dx <= dy { dy } else { dx };
    (diagonals, longest - diagonals)
}

/// `u16` to its `i16` reading, widened to `i64`.
fn as_i16_value(x: u16) -> (r: i64)
    ensures
        r == i16_of(x),
{
    if x < 32768 {
        x as i64
    } else {
        x as i64 - 65536
    }
}

/// Diagonal and straight step counts between two cells on an 8-connected grid
/// (`dx = |col2 - col1|`, `dy = |row2 - row1|`, `min(dx, dy)` diagonals and
/// `max(dx, dy) - min(dx, dy)` straights). The length of such a path is
/// `sqrt(2) * diagonals + straights`.
pub fn octile_steps(a: RowCol, b: RowCol) -> (steps: (u16, u16))
    ensures
        steps.0 as int == spec_octile_steps(a, b).0,
        steps.1 as int == spec_octile_steps(a, b).1,
{
    let (row1, col1) = a;
    let (row2, col2) = b;
    let dx: u16 = if col2 >= col1 { col2 - col1 } else { col1 - col2 };
    let dy: u16 = if row2 >= row1 { row2 - row1 } else { row1 - row2 };
    let diagonals: u16 = if dx <= dy { dx } else { dy };
    let longest: u16 = if dx <= dy { dy } else { dx };
    (diagonals, longest - diagonals)
}

/// Signed (column, row) delta from `a` to `b`, computed as
/// `col2 as i16 - col1 as i16` and `row2 as i16 - row1 as i16`.
pub fn signed_delta_cells(a: RowCol, b: RowCol) -> (delta: (i16, i16))
    requires
        fits_i16(col_dist(a, b)),
        fits_i16(row_dist(a, b)),
    ensures
        delta.0 as int == col_dist(a, b),
        delta.1 as int == row_dist(a, b),
{
    let dx: i64 = as_i16_value(b.1) - as_i16_value(a.1);
    let dy: i64 = as_i16_value(b.0) - as_i16_value(a.0);
    (dx as i16, dy as i16)
}

/// 2D grid holding one value per cell, in row-major order.
pub struct Grid2<T> {
    pub spec: GridSpec,
    pub cells: Vec<T>,
}

impl<T> Grid2<T> {
    /// Returns true if a cell is within the given radius of another cell:
    /// `dr * dr + dc * dc < radius * radius`, all in `i16` arithmetic.
    pub fn in_radius(rowcol: RowCol, other_rowcol: RowCol, radius: u16) -> (b: bool)
        requires
            in_radius_defined(rowcol, other_rowcol, radius),
        ensures
            b == spec_in_radius(rowcol, other_rowcol, radius),
    {
        let (row, col) = rowcol;
        let (other_row, other_col) = other_rowcol;
        let row_dist: i64 = as_i16_value(other_row) - as_i16_value(row);
        let col_dist: i64 = as_i16_value(other_col) - as_i16_value(col);
        let r: i64 = as_i16_value(radius);
        proof {
            assert(row_dist * row_dist >= 0) by (nonlinear_arith);
            assert(col_dist * col_dist >= 0) by (nonlinear_arith);
            assert(r * r >= 0) by (nonlinear_arith);
        }
        row_dist * row_dist + col_dist * col_dist < r * r
    }

    /// Row-major index of a cell.
    pub fn flat_index(&self, rowcol: RowCol) -> (index: usize)
        ensures
            index == spec_flat_index(self.spec.cols, rowcol),
    {
        self.spec.flat_index(rowcol)
    }

    /// The value stored at a cell; the cell's index must be within the cells.
    pub fn index(&self, rowcol: RowCol) -> (value: &T)
        requires
            spec_flat_index(self.spec.cols, rowcol) < self.cells@.len(),
        ensures
            *value == self.cells@[spec_flat_index(self.spec.cols, rowcol)],
    {
        let i = self.spec.flat_index(rowcol);
        &self.cells[i]
    }

    /// Overwrites the value stored at a cell; the cell's index must be within the cells.
    pub fn set(&mut self, rowcol: RowCol, value: T)
        requires
            spec_flat_index(old(self).spec.cols, rowcol) < old(self).cells@.len(),
        ensures
            final(self).spec == old(self).spec,
            final(self).cells@ == old(self).cells@.update(
                spec_flat_index(old(self).spec.cols, rowcol),
                value,
            ),
    {
        let i = self.spec.flat_index(rowcol);
        self.cells.set(i, value);
    }

    /// The value at a cell, or `None` when its index is past the stored cells.
    pub fn get(&self, rowcol: RowCol) -> (value: Option<&T>)
        ensures
            spec_flat_index(self.spec.cols, rowcol) < self.cells@.len() ==> value == Some(
                &self.cells@[spec_flat_index(self.spec.cols, rowcol)],
            ),
            spec_flat_index(self.spec.cols, rowcol) >= self.cells@.len() ==> value.is_none(),
    {
        let i = self.spec.flat_index(rowcol);
        if i < self.cells.len() {
            Some(&self.cells[i])
        } else {
            None
        }
    }

    /// Mutable access to the value at a cell, or `None` when its index is past
    /// the stored cells.
    pub fn get_mut(&mut self, rowcol: RowCol) -> (value: Option<&mut T>)
        ensures
            final(self).spec == old(self).spec,
            spec_flat_index(old(self).spec.cols, rowcol) < old(self).cells@.len() ==> match value {
                Some(v) => {
                    &&& *v == old(self).cells@[spec_flat_index(old(self).spec.cols, rowcol)]
                    &&& final(self).cells@ == old(self).cells@.update(spec_flat_index(old(self).spec.cols, rowcol), *final(v))
                },
                None => false,
            },
            spec_flat_index(old(self).spec.cols, rowcol) >= old(self).cells@.len() ==> value.is_none() && final(self).cells@ == old(self).cells@,
    {
        let i = self.spec.flat_index(rowcol);
        if i < self.cells.len() {
            Some(&mut self.cells[i])
        } else {
            None
        }
    }

    /// Returns the inclusive range `center - radius ..= center + radius`, cut
    /// below at 0 and above at the number of rows (the cut is by rows for
    /// either coordinate).
    pub fn cell_range(&self, center: u16, radius: u16) -> (range: (u16, u16))
        requires
            cell_range_defined(center, radius),
        ensures
            range.0 == range_min(center, radius),
            range.1 == range_max(center, radius, self.spec.rows),
    {
        let low: i64 = as_i16_value(center) - as_i16_value(radius);
        let min: u16 = if low < 0 { 0 } else { low as u16 };
        let high: u16 = center + radius;
        let max: u16 = if high < self.spec.rows { high } else { self.spec.rows };
        (min, max)
    }

    /// Cells of the window around `center` that `get_in_radius_discrete` scans:
    /// rows and columns within the `cell_range` of the center's row and column.
    pub open spec fn spec_in_window(&self, center: RowCol, radius: u16, p: RowCol) -> bool {
        in_window(self.spec, center, radius, p)
    }

    /// The scan of `get_in_radius_discrete` runs without overflow.
    pub open spec fn radius_scan_defined(&self, center: RowCol, radius: u16) -> bool {
        scan_defined(self.spec, center, radius)
    }

    /// Cells returned by `get_in_radius_discrete`.
    pub open spec fn spec_radius_member(&self, center: RowCol, radius: u16, p: RowCol) -> bool {
        self.spec_in_window(center, radius, p) && spec_in_radius(center, p, radius)
    }

    /// The list `get_in_radius_discrete` returns: the window scanned row by
    /// row, keeping cells strictly within `radius` of `center`.
    pub open spec fn spec_radius_scan(&self, center: RowCol, radius: u16) -> Seq<RowCol> {
        radius_scan(self.spec, center, radius)
    }

    /// All cells of the scan window that are strictly within `radius` of
    /// `rowcol`, in row-major order.
    pub fn get_in_radius_discrete(&self, rowcol: RowCol, radius: u16) -> (cells: Vec<RowCol>)
        requires
            self.radius_scan_defined(rowcol, radius),
        ensures
            cells@ == self.spec_radius_scan(rowcol, radius),
            sorted_lex(cells@),
            forall|p: RowCol| cells@.contains(p) <==> self.spec_radius_member(rowcol, radius, p),
    {
        let (row, col) = rowcol;
        let (row_min, row_max) = self.cell_range(row, radius);
        let (col_min, col_max) = self.cell_range(col, radius);
        let mut results: Vec<RowCol> = Vec::new();
        let mut r: u32 = row_min as u32;
        while r <= row_max as u32
            invariant
                self.radius_scan_defined(rowcol, radius),
                row == rowcol.0,
                col == rowcol.1,
                row_min == range_min(row, radius),
                row_max == range_max(row, radius, self.spec.rows),
                col_min == range_min(col, radius),
                col_max == range_max(col, radius, self.spec.rows),
                row_min <= r,
                r <= row_max as u32 + 1 || r == row_min,
                results@ == scan_rows(rowcol, radius, row_min as int, r as int, col_min as int, col_max + 1),
                sorted_lex(results@),
                forall|k: int| 0 <= k < results@.len() ==> (#[trigger] results@[k]).0 < r,
                forall|p: RowCol|
                    results@.contains(p) <==> (self.spec_radius_member(rowcol, radius, p) && p.0 < r),
            decreases row_max as u32 + 1 - r,
        {
            let other_row: u16 = r as u16;
            let mut c: u32 = col_min as u32;
            let ghost before = results@;
            proof {
                assert forall|p: RowCol|
                    results@.contains(p) <==> (self.spec_radius_member(rowcol, radius, p) && (
                    p.0 < r || (p.0 == r && p.1 < c))) by {
                    if self.spec_radius_member(rowcol, radius, p) && p.0 == r {
                        assert(p.1 >= col_min);
                    }
                }
            }
            while c <= col_max as u32
                invariant
                    self.radius_scan_defined(rowcol, radius),
                    row == rowcol.0,
                    col == rowcol.1,
                    row_min == range_min(row, radius),
                    row_max == range_max(row, radius, self.spec.rows),
                    col_min == range_min(col, radius),
                    col_max == range_max(col, radius, self.spec.rows),
                    row_min <= r <= row_max as u32,
                    other_row == r,
                    col_min <= c,
                    c <= col_max as u32 + 1 || c == col_min,
                    before == scan_rows(rowcol, radius, row_min as int, r as int, col_min as int, col_max + 1),
                    results@ == before + scan_cols(rowcol, radius, r as int, col_min as int, c as int),
                    sorted_lex(results@),
                    before.len() <= results@.len(),
                    forall|k: int| 0 <= k < before.len() ==> results@[k] == #[trigger] before[k],
                    forall|k: int| 0 <= k < before.len() ==> (#[trigger] before[k]).0 < r,
                    forall|k: int|
                        before.len() <= k < results@.len() ==> (#[trigger] results@[k]).0 == r
                            && results@[k].1 < c,
                    forall|p: RowCol|
                        before.contains(p) <==> (self.spec_radius_member(rowcol, radius, p) && p.0 < r),
                    forall|p: RowCol|
                        results@.contains(p) <==> (self.spec_radius_member(rowcol, radius, p) && (
                        p.0 < r || (p.0 == r && p.1 < c))),
                decreases col_max as u32 + 1 - c,
            {
                let other_col: u16 = c as u16;
                let other_rowcol: RowCol = (other_row, other_col);
                assert(self.spec_in_window(rowcol, radius, other_rowcol));
                if Self::in_radius(rowcol, other_rowcol, radius) {
                    let ghost prev = results@;
                    proof {
                        assert forall|k: int| 0 <= k < prev.len() implies lex_lt(#[trigger] prev[k], other_rowcol) by {
                            if k < before.len() {
                                assert(prev[k] == before[k]);
                            }
                        }
                    }
                    results.push(other_rowcol);
                    proof {
                        assert forall|i: int, j: int| 0 <= i < j < results@.len() implies lex_lt(#[trigger] results@[i], #[trigger] results@[j]) by {
                            if j == prev.len() {
                                assert(results@[i] == prev[i]);
                            } else {
                                assert(results@[i] == prev[i]);
                                assert(results@[j] == prev[j]);
                            }
                        }
                        assert forall|p: RowCol|
                            results@.contains(p) <==> (self.spec_radius_member(rowcol, radius, p)
                                && (p.0 < r || (p.0 == r && p.1 < c + 1))) by {
                            if results@.contains(p) {
                                let k = choose|k: int| 0 <= k < results@.len() && results@[k] == p;
                                if k < prev.len() {
                                    assert(prev[k] == p);
                                    assert(prev.contains(p));
                                }
                            }
                            if self.spec_radius_member(rowcol, radius, p) && (p.0 < r || (p.0
                                == r && p.1 < c + 1)) {
                                if p == other_rowcol {
                                    assert(results@[prev.len() as int] == p);
                                } else {
                                    assert(prev.contains(p));
                                    let k = choose|k: int| 0 <= k < prev.len() && prev[k] == p;
                                    assert(results@[k] == p);
                                }
                            }
                        }
                    }
                } else {
                    proof {
                        assert forall|p: RowCol|
                            results@.contains(p) <==> (self.spec_radius_member(rowcol, radius, p)
                                && (p.0 < r || (p.0 == r && p.1 < c + 1))) by {
                            if p == other_rowcol {
                                if results@.contains(p) {
                                    let k = choose|k: int| 0 <= k < results@.len() && results@[k] == p;
                                    if k < before.len() {
                                        assert(before[k] == p);
                                    }
                                }
                            }
                        }
                    }
                }
                c = c + 1;
            }
            proof {
                assert(results@ == scan_rows(rowcol, radius, row_min as int, r + 1, col_min as int, col_max + 1));
                assert forall|k: int| 0 <= k < results@.len() implies (#[trigger] results@[k]).0 < r + 1 by {
                    if k < before.len() {
                        assert(results@[k] == before[k]);
                    }
                }
                assert forall|p: RowCol|
                    results@.contains(p) <==> (self.spec_radius_member(rowcol, radius, p) && p.0 < r + 1) by {
                    if self.spec_radius_member(rowcol, radius, p) && p.0 == r {
                        assert(p.1 <= col_max);
                    }
                }
            }
            r = r + 1;
        }
        results
    }

    /// All cells of the rectangle spanned by `min` and `max` (inclusive), in
    /// row-major order; empty when `min` is past `max` in either coordinate.
    pub fn get_in_rowcol_range(min: RowCol, max: RowCol) -> (cells: Vec<RowCol>)
        ensures
            sorted_lex(cells@),
            forall|p: RowCol|
                cells@.contains(p) <==> (min.0 <= p.0 <= max.0 && min.1 <= p.1 <= max.1),
    {
        let mut results: Vec<RowCol> = Vec::new();
        let mut r: u32 = min.0 as u32;
        while r <= max.0 as u32
            invariant
                min.0 <= r,
                r <= max.0 as u32 + 1 || r == min.0,
                sorted_lex(results@),
                forall|k: int| 0 <= k < results@.len() ==> (#[trigger] results@[k]).0 < r,
                forall|p: RowCol|
                    results@.contains(p) <==> (min.0 <= p.0 <= max.0 && min.1 <= p.1 <= max.1
                        && p.0 < r),
            decreases max.0 as u32 + 1 - r,
        {
            let row: u16 = r as u16;
            let mut c: u32 = min.1 as u32;
            let ghost before = results@;
            while c <= max.1 as u32
                invariant
                    min.0 <= r <= max.0,
                    row == r,
                    min.1 <= c,
                    c <= max.1 as u32 + 1 || c == min.1,
                    sorted_lex(results@),
                    before.len() <= results@.len(),
                    forall|k: int| 0 <= k < before.len() ==> results@[k] == #[trigger] before[k],
                    forall|k: int| 0 <= k < before.len() ==> (#[trigger] before[k]).0 < r,
                    forall|k: int|
                        before.len() <= k < results@.len() ==> (#[trigger] results@[k]).0 == r
                            && results@[k].1 < c,
                    forall|p: RowCol|
                        before.contains(p) <==> (min.0 <= p.0 <= max.0 && min.1 <= p.1 <= max.1
                            && p.0 < r),
                    forall|p: RowCol|
                        results@.contains(p) <==> (min.0 <= p.0 <= max.0 && min.1 <= p.1 <= max.1
                            && (p.0 < r || (p.0 == r && p.1 < c))),
                decreases max.1 as u32 + 1 - c,
            {
                let col: u16 = c as u16;
                let ghost prev = results@;
                proof {
                    assert forall|k: int| 0 <= k < prev.len() implies lex_lt(#[trigger] prev[k], (row, col)) by {
                        if k < before.len() {
                            assert(prev[k] == before[k]);
                        }
                    }
                }
                results.push((row, col));
                proof {
                    assert forall|i: int, j: int| 0 <= i < j < results@.len() implies lex_lt(#[trigger] results@[i], #[trigger] results@[j]) by {
                        if j == prev.len() {
                            assert(results@[i] == prev[i]);
                        } else {
                            assert(results@[i] == prev[i]);
                            assert(results@[j] == prev[j]);
                        }
                    }
                    assert forall|p: RowCol|
                        results@.contains(p) <==> (min.0 <= p.0 <= max.0 && min.1 <= p.1 <= max.1
                            && (p.0 < r || (p.0 == r && p.1 < c + 1))) by {
                        if results@.contains(p) {
                            let k = choose|k: int| 0 <= k < results@.len() && results@[k] == p;
                            if k < prev.len() {
                                assert(prev[k] == p);
                                assert(prev.contains(p));
                            }
                        }
                        if min.0 <= p.0 <= max.0 && min.1 <= p.1 <= max.1 && (p.0 < r || (p.0 == r
                            && p.1 < c + 1)) {
                            if p == (row, col) {
                                assert(results@[prev.len() as int] == p);
                            } else {
                                assert(prev.contains(p));
                                let k = choose|k: int| 0 <= k < prev.len() && prev[k] == p;
                                assert(results@[k] == p);
                            }
                        }
                    }
                }
                c = c + 1;
            }
            proof {
                assert forall|k: int| 0 <= k < results@.len() implies (#[trigger] results@[k]).0 < r + 1 by {
                    if k < before.len() {
                        assert(results@[k] == before[k]);
                    }
                }
            }
            r = r + 1;
        }
        results
    }
}

/// The radius test does not depend on which of the two cells is the center:
/// `other` is within `radius` of `a` exactly when `a` is within `radius` of
/// `other`.
pub proof fn lemma_in_radius_symmetric(a: RowCol, other: RowCol, radius: u16)
    ensures
        in_radius_defined(a, other, radius) == in_radius_defined(other, a, radius),
        spec_in_radius(a, other, radius) == spec_in_radius(other, a, radius),
{
    assert(row_dist(a, other) * row_dist(a, other) == row_dist(other, a) * row_dist(other, a)) by (nonlinear_arith)
        requires
            row_dist(a, other) == -row_dist(other, a),
    ;
    assert(col_dist(a, other) * col_dist(a, other) == col_dist(other, a) * col_dist(other, a)) by (nonlinear_arith)
        requires
            col_dist(a, other) == -col_dist(other, a),
    ;
    lemma_small_square(row_dist(a, other));
    lemma_small_square(col_dist(a, other));
}

proof fn lemma_small_square(d: int)
    ensures
        d * d <= 32767 ==> -182 < d < 182,
{
    if d >= 182 {
        assert(d * d >= 182 * 182) by (nonlinear_arith)
            requires
                d >= 182,
        ;
    }
    if d <= -182 {
        assert(d * d >= 182 * 182) by (nonlinear_arith)
            requires
                d <= -182,
        ;
    }
}

/// The octile step counts do not depend on the direction of travel, and
/// together the diagonal and straight steps cover the longer axis distance.
pub proof fn lemma_octile_steps_symmetric(a: RowCol, b: RowCol)
    ensures
        spec_octile_steps(a, b) == spec_octile_steps(b, a),
        spec_octile_steps(a, b).0 + spec_octile_steps(a, b).1 == if (if b.1 >= a.1 { b.1 - a.1 } else { a.1 - b.1 })
            >= (if b.0 >= a.0 { b.0 - a.0 } else { a.0 - b.0 }) {
            if b.1 >= a.1 { b.1 - a.1 } else { a.1 - b.1 }
        } else {
            if b.0 >= a.0 { b.0 - a.0 } else { a.0 - b.0 }
        },
{
}

/// The radius test is a euclidean disc: `other` is within `radius` of `a`
/// exactly when the squared row distance plus the squared column distance
/// (as `i16` values) is below the squared radius. In particular, a cell that
/// is `d` rows and `d` columns away is within the radius exactly when
/// `2 * d * d` is below the squared radius, so the disc is not a square.
pub proof fn lemma_in_radius_is_euclidean(a: RowCol, other: RowCol, radius: u16)
    ensures
        spec_in_radius(a, other, radius) <==> (i16_of(other.0) - i16_of(a.0)) * (i16_of(other.0) - i16_of(a.0))
            + (i16_of(other.1) - i16_of(a.1)) * (i16_of(other.1) - i16_of(a.1)) < i16_of(radius) * i16_of(radius),
        (a.0 < 32768 && a.1 < 32768 && other.0 < 32768 && other.1 < 32768 && radius < 32768
            && other.0 - a.0 == other.1 - a.1) ==> (spec_in_radius(a, other, radius) <==> (other.0 - a.0) * (
        other.0 - a.0) * 2 < radius * radius),
{
    if a.0 < 32768 && a.1 < 32768 && other.0 < 32768 && other.1 < 32768 && radius < 32768 && other.0 - a.0 == other.1 - a.1 {
        let d: int = other.0 - a.0;
        assert(row_dist(a, other) == d && col_dist(a, other) == d);
        assert(d * d + d * d == d * d * 2) by (nonlinear_arith);
    }
}

} // verus!
