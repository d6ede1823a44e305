use vstd::prelude::*;
use crate::grid::buffers::resize_cells;
use crate::grid::grid2::Grid2;
use crate::grid::spec::{GridSpec, RowCol, spec_flat_index};

verus! {

/// Obstacle presence and orientation in a cell.
#[derive(Clone, Copy, Debug, PartialEq, Eq, Structural)]
pub enum Obstacle {
    Empty,
    UpRight,
    UpLeft,
    DownRight,
    DownLeft,
    Full,
}

impl Obstacle {
    /// Numeric code of the obstacle, as stored in the obstacle shader buffer:
    /// Empty 0, UpRight 1, UpLeft 2, DownRight 3, DownLeft 4, Full 5.
    pub open spec fn spec_code(self) -> u32 {
        match self {
            Obstacle::Empty => 0,
            Obstacle::UpRight => 1,
            Obstacle::UpLeft => 2,
            Obstacle::DownRight => 3,
            Obstacle::DownLeft => 4,
            Obstacle::Full => 5,
        }
    }

    /// Numeric code of the obstacle (`obstacle as u32`).
    pub fn code(self) -> (c: u32)
        ensures
            c == self.spec_code(),
    {
        match self {
            Obstacle::Empty => 0,
            Obstacle::UpRight => 1,
            Obstacle::UpLeft => 2,
            Obstacle::DownRight => 3,
            Obstacle::DownLeft => 4,
            Obstacle::Full => 5,
        }
    }
}

/// The obstacles of a level: cells and the obstacle each one holds.
pub struct ObstaclesSpec(pub Vec<(RowCol, Obstacle)>);

/// The obstacle a cell holds after the entries of `entries` are written in
/// order over an empty grid: the last entry for the cell wins, and cells
/// without an entry are empty.
pub open spec fn last_obstacle(entries: Seq<(RowCol, Obstacle)>, cols: u16, i: int) -> Obstacle
    decreases entries.len(),
{
    if entries.len() == 0 {
        Obstacle::Empty
    } else if spec_flat_index(cols, entries.last().0) == i {
        entries.last().1
    } else {
        last_obstacle(entries.drop_last(), cols, i)
    }
}

/// Every entry's cell has an index within `len`.
pub open spec fn entries_in(entries: Seq<(RowCol, Obstacle)>, cols: u16, len: int) -> bool {
    forall|k: int| 0 <= k < entries.len() ==> spec_flat_index(cols, (#[trigger] entries[k]).0) < len
}

impl Grid2<Obstacle> {
    /// Replaces the spec and resizes the cells to `rows * cols`; kept cells
    /// keep their obstacle, new cells are empty.
    pub fn resize_with(&mut self, spec: GridSpec)
        ensures
            final(self).spec == spec,
            final(self).cells@.len() == spec.spec_num_cells(),
            forall|i: int|
                0 <= i < final(self).cells@.len() ==> #[trigger] final(self).cells@[i] == if i < old(self).cells@.len() {
                    old(self).cells@[i]
                } else {
                    Obstacle::Empty
                },
    {
        self.spec = spec;
        let n = self.spec.num_cells();
        resize_cells(&mut self.cells, n, Obstacle::Empty);
    }

    /// Rebuilds the obstacle grid from the level's obstacle list: every cell
    /// is reset to empty, then each entry is written in order. Every entry's
    /// cell must be stored.
    pub fn update(&mut self, spec: &ObstaclesSpec)
        requires
            entries_in(spec.0@, old(self).spec.cols, old(self).cells@.len() as int),
        ensures
            final(self).spec == old(self).spec,
            final(self).cells@.len() == old(self).cells@.len(),
            forall|i: int|
                0 <= i < final(self).cells@.len() ==> #[trigger] final(self).cells@[i] == last_obstacle(
                    spec.0@,
                    old(self).spec.cols,
                    i,
                ),
    {
        let n = self.cells.len();
        let mut j: usize = 0;
        while j < n
            invariant
                n == self.cells@.len(),
                self.cells@.len() == old(self).cells@.len(),
                self.spec == old(self).spec,
                0 <= j <= n,
                forall|i: int| 0 <= i < j ==> #[trigger] self.cells@[i] == Obstacle::Empty,
            decreases n - j,
        {
            self.cells.set(j, Obstacle::Empty);
            j = j + 1;
        }
        let entries = &spec.0;
        let mut k: usize = 0;
        while k < entries.len()
            invariant
                n == self.cells@.len(),
                self.cells@.len() == old(self).cells@.len(),
                self.spec == old(self).spec,
                0 <= k <= entries@.len(),
                entries@ == spec.0@,
                entries_in(entries@, self.spec.cols, n as int),
                forall|i: int| 0 <= i < n ==> #[trigger] self.cells@[i] == last_obstacle(
                    entries@.take(k as int),
                    self.spec.cols,
                    i,
                ),
            decreases entries@.len() - k,
        {
            let (rowcol, face) = entries[k];
            assert(spec_flat_index(self.spec.cols, entries@[k as int].0) < n);
            self.set(rowcol, face);
            proof {
                assert(entries@.take(k as int + 1).drop_last() =~= entries@.take(k as int));
            }
            k = k + 1;
        }
        proof {
            assert(entries@.take(entries@.len() as int) =~= entries@);
        }
    }
}

/// Writes the obstacle codes of a level into the obstacle shader buffer:
/// every value is reset to the code of `Empty`, then each entry's code is
/// written at its cell (indexed with `spec`'s columns). Every entry's cell must
/// be within the buffer.
pub fn write_obstacle_codes(grid: &mut Vec<u32>, spec: &GridSpec, obstacles: &ObstaclesSpec)
    requires
        entries_in(obstacles.0@, spec.cols, old(grid)@.len() as int),
    ensures
        final(grid)@.len() == old(grid)@.len(),
        forall|i: int|
            0 <= i < final(grid)@.len() ==> #[trigger] final(grid)@[i] == last_obstacle(obstacles.0@, spec.cols, i).spec_code(),
{
    let n = grid.len();
    let empty = Obstacle::Empty.code();
    let mut j: usize = 0;
    while j < n
        invariant
            n == grid@.len(),
            grid@.len() == old(grid)@.len(),
            empty == 0,
            0 <= j <= n,
            forall|i: int| 0 <= i < j ==> #[trigger] grid@[i] == 0,
        decreases n - j,
    {
        grid.set(j, empty);
        j = j + 1;
    }
    let entries = &obstacles.0;
    let mut k: usize = 0;
    while k < entries.len()
        invariant
            n == grid@.len(),
            grid@.len() == old(grid)@.len(),
            0 <= k <= entries@.len(),
            entries@ == obstacles.0@,
            entries_in(entries@, spec.cols, n as int),
            forall|i: int| 0 <= i < n ==> #[trigger] grid@[i] == last_obstacle(
                entries@.take(k as int),
                spec.cols,
                i,
            ).spec_code(),
        decreases entries@.len() - k,
    {
        let (rowcol, face) = entries[k];
        assert(spec_flat_index(spec.cols, entries@[k as int].0) < n);
        let idx = spec.flat_index(rowcol);
        grid.set(idx, face.code());
        proof {
            assert(entries@.take(k as int + 1).drop_last() =~= entries@.take(k as int));
        }
        k = k + 1;
    }
    proof {
        assert(entries@.take(entries@.len() as int) =~= entries@);
    }
}

} // verus!
