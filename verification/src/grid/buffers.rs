use vstd::prelude::*;
use crate::grid::entity::EntityGridEvent;
use crate::grid::fog::Fog;
use crate::grid::spec::{GridSpec, RowCol, spec_flat_index};

verus! {

/// Subsampling factor of the minimap: one minimap cell covers 8 by 8 grid cells.
pub const MINIMAP_SUBSAMPLE: u16 = 8;

/// `Vec::resize(n, value)`: the first `min(len, n)` values stay, the vector
/// ends up with `n` values, and new positions hold `value`.
pub fn resize_cells<T: Copy>(cells: &mut Vec<T>, n: usize, value: T)
    ensures
        final(cells)@.len() == n,
        forall|i: int|
            0 <= i < n ==> #[trigger] final(cells)@[i] == if i < old(cells)@.len() {
                old(cells)@[i]
            } else {
                value
            },
{
    if n <= cells.len() {
        cells.truncate(n);
    } else {
        while cells.len() < n
            invariant
                old(cells)@.len() <= cells@.len() <= n,
                forall|i: int|
                    0 <= i < cells@.len() ==> #[trigger] cells@[i] == if i < old(cells)@.len() {
                        old(cells)@[i]
                    } else {
                        value
                    },
            decreases n - cells@.len(),
        {
            cells.push(value);
        }
    }
}

/// Resizes the fog-of-war buffer to one value per cell of `spec`; new cells
/// start fully fogged.
pub fn resize_fog(fog: &mut Vec<Fog>, spec: &GridSpec)
    ensures
        final(fog)@.len() == spec.spec_num_cells(),
        forall|i: int|
            0 <= i < final(fog)@.len() ==> #[trigger] final(fog)@[i] == if i < old(fog)@.len() {
                old(fog)@[i]
            } else {
                Fog::Hidden
            },
{
    let n = spec.num_cells();
    resize_cells(fog, n, Fog::Hidden);
}

/// Resizes a per-cell occupancy buffer to one value per cell of `spec`; new
/// cells start at 0.
pub fn resize_occupancy(grid: &mut Vec<u32>, spec: &GridSpec)
    ensures
        final(grid)@.len() == spec.spec_num_cells(),
        forall|i: int|
            0 <= i < final(grid)@.len() ==> #[trigger] final(grid)@[i] == if i < old(grid)@.len() {
                old(grid)@[i]
            } else {
                0
            },
{
    let n = spec.num_cells();
    resize_cells(grid, n, 0u32);
}

/// Occupancy after a grid event: the cell an entity left becomes 0 when it is
/// now empty, then the cell it entered becomes 1.
pub open spec fn occupancy_after(grid: Seq<u32>, cols: u16, event: EntityGridEvent) -> Seq<u32> {
    let cleared = match event.prev_cell {
        Some(prev) => if event.prev_cell_empty {
            grid.update(spec_flat_index(cols, prev), 0)
        } else {
            grid
        },
        None => grid,
    };
    cleared.update(spec_flat_index(cols, event.cell), 1)
}

/// Marks the occupancy buffer of the grid visualizer after an entity moved:
/// an emptied previous cell is cleared and the new cell is set. Both touched
/// indices must be within the buffer.
pub fn apply_occupancy_event(grid: &mut Vec<u32>, spec: &GridSpec, event: &EntityGridEvent)
    requires
        (event.prev_cell is Some && event.prev_cell_empty) ==> spec_flat_index(spec.cols, event.prev_cell->0)
            < old(grid)@.len(),
        spec_flat_index(spec.cols, event.cell) < old(grid)@.len(),
    ensures
        final(grid)@ == occupancy_after(old(grid)@, spec.cols, *event),
{
    if let Some(prev_cell) = event.prev_cell {
        if event.prev_cell_empty {
            let i = spec.flat_index(prev_cell);
            grid.set(i, 0);
        }
    }
    let j = spec.flat_index(event.cell);
    grid.set(j, 1);
}

/// The minimap's cell for a grid cell: both coordinates divided by the subsampling factor.
pub open spec fn spec_minimap_cell(cell: RowCol) -> RowCol {
    ((cell.0 / 8) as u16, (cell.1 / 8) as u16)
}

/// The minimap's cell for a grid cell.
pub fn minimap_cell(cell: RowCol) -> (m: RowCol)
    ensures
        m == spec_minimap_cell(cell),
{
    (cell.0 / MINIMAP_SUBSAMPLE, cell.1 / MINIMAP_SUBSAMPLE)
}

/// The grid spec of the minimap: rows and columns divided by the subsampling factor.
pub fn minimap_spec(spec: &GridSpec) -> (m: GridSpec)
    ensures
        m.rows == spec.rows / 8,
        m.cols == spec.cols / 8,
        m.visualize == spec.visualize,
{
    GridSpec { rows: spec.rows / MINIMAP_SUBSAMPLE, cols: spec.cols / MINIMAP_SUBSAMPLE, visualize: spec.visualize }
}

/// Rows and columns of the minimap buffer for a grid spec, and the buffer's length.
pub fn minimap_size(spec: &GridSpec) -> (size: (u32, u32, usize))
    ensures
        size.0 == spec.rows / 8,
        size.1 == spec.cols / 8,
        size.2 == (spec.rows / 8) * (spec.cols / 8),
{
    let rows: u32 = spec.rows as u32 / MINIMAP_SUBSAMPLE as u32;
    let cols: u32 = spec.cols as u32 / MINIMAP_SUBSAMPLE as u32;
    proof {
        assert(rows * cols <= 8192 * 8192) by (nonlinear_arith)
            requires
                rows <= 8192,
                cols <= 8192,
        ;
    }
    (rows, cols, rows as usize * cols as usize)
}

/// Marks the minimap after an entity moved: like the grid visualizer, but on
/// subsampled cells of the subsampled spec (an emptied previous grid cell
/// clears its whole minimap cell).
pub fn apply_minimap_event(grid: &mut Vec<u32>, minimap: &GridSpec, event: &EntityGridEvent)
    requires
        (event.prev_cell is Some && event.prev_cell_empty) ==> spec_flat_index(
            minimap.cols,
            spec_minimap_cell(event.prev_cell->0),
        ) < old(grid)@.len(),
        spec_flat_index(minimap.cols, spec_minimap_cell(event.cell)) < old(grid)@.len(),
    ensures
        final(grid)@ == occupancy_after(
            old(grid)@,
            minimap.cols,
            EntityGridEvent {
                entity: event.entity,
                prev_cell: match event.prev_cell {
                    Some(prev) => Some(spec_minimap_cell(prev)),
                    None => None,
                },
                prev_cell_empty: event.prev_cell_empty,
                cell: spec_minimap_cell(event.cell),
            },
        ),
{
    if let Some(prev_cell) = event.prev_cell {
        if event.prev_cell_empty {
            let resized_prev_cell = minimap_cell(prev_cell);
            let i = minimap.flat_index(resized_prev_cell);
            grid.set(i, 0);
        }
    }
    let resized_cell = minimap_cell(event.cell);
    let j = minimap.flat_index(resized_cell);
    grid.set(j, 1);
}

} // verus!
