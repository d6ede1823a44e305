use vstd::prelude::*;
use crate::entity_cells::EntityCells;
use crate::entity_set::EntitySet;
use crate::grid::entity::sets_view;
use crate::grid::fog::{Fog, Visibility, reaches_zero, sat_sub};
use crate::team::Team;

verus! {

/// Size of a grid addressed with byte coordinates: rows, columns, and whether
/// it is drawn. (The world-space width of a cell lives with the rendering side.)
#[derive(Clone, Copy, Debug, PartialEq, Eq)]
pub struct EntityGridSpec {
    pub rows: u8,
    pub cols: u8,
    pub visualize: bool,
}

impl Default for EntityGridSpec {
    /// The default grid: 10 by 10 cells, drawn.
    fn default() -> (spec: EntityGridSpec)
        ensures
            spec.rows == 10,
            spec.cols == 10,
            spec.visualize,
    {
        EntityGridSpec { rows: 10, cols: 10, visualize: true }
    }
}

impl EntityGridSpec {
    /// Number of cells.
    pub open spec fn spec_num_cells(&self) -> nat {
        (self.rows * self.cols) as nat
    }


    /// Number of cells.
    pub fn num_cells(&self) -> (n: usize)
        ensures
            n == self.spec_num_cells(),
    {
        proof {
            assert(self.rows * self.cols <= 255 * 255) by (nonlinear_arith)
                requires
                    self.rows <= 255,
                    self.cols <= 255,
            ;
        }
        self.rows as usize * self.cols as usize
    }
}

/// The parts of the game configuration this grid's visibility reads.
#[derive(Clone, Copy, Debug)]
pub struct ByteVisionConfig {
    pub player_team: Team,
    pub visibility_radius: u8,
}

/// Value of a `u8` reinterpreted as an `i8` (an `as i8` cast).
pub open spec fn i8_of(x: u8) -> int {
    if x < 128 { x as int } else { x - 256 }
}

/// True when `x` is a value of `i8`.
pub open spec fn fits_i8(x: int) -> bool {
    -128 <= x <= 127
}

/// Row-major index of cell (row, col).
pub open spec fn index8(cols: u8, p: (u8, u8)) -> int {
    p.0 * cols + p.1
}

/// The radius test on byte coordinates evaluates without `i8` overflow.
pub open spec fn radius8_defined(center: (u8, u8), p: (u8, u8), radius: u8) -> bool {
    let dr = i8_of(p.0) - i8_of(center.0);
    let dc = i8_of(p.1) - i8_of(center.1);
    &&& fits_i8(dr)
    &&& fits_i8(dc)
    &&& dr * dr <= 127
    &&& dc * dc <= 127
    &&& dr * dr + dc * dc <= 127
    &&& i8_of(radius) * i8_of(radius) <= 127
}

/// `p` is strictly within `radius` of `center` (in `i8` arithmetic).
pub open spec fn spec_in_radius8(center: (u8, u8), p: (u8, u8), radius: u8) -> bool {
    let dr = i8_of(p.0) - i8_of(center.0);
    let dc = i8_of(p.1) - i8_of(center.1);
    dr * dr + dc * dc < i8_of(radius) * i8_of(radius)
}

/// `center as i8 - radius as i8` stays an `i8` and `center + radius` a `u8`.
pub open spec fn range8_defined(center: u8, radius: u8) -> bool {
    fits_i8(i8_of(center) - i8_of(radius)) && center + radius <= 255
}

/// Lower end of `center - radius ..= center + radius`, cut at 0.
pub open spec fn range8_min(center: u8, radius: u8) -> int {
    if i8_of(center) - i8_of(radius) < 0 { 0 } else { i8_of(center) - i8_of(radius) }
}

/// In-radius cells `(r, lo) .. (r, hi - 1)`, in column order.
pub open spec fn scan8_cols(center: (u8, u8), radius: u8, r: int, lo: int, hi: int) -> Seq<(u8, u8)>
    decreases hi - lo,
{
    if hi <= lo {
        Seq::empty()
    } else {
        let prev = scan8_cols(center, radius, r, lo, hi - 1);
        let p: (u8, u8) = (r as u8, (hi - 1) as u8);
        if spec_in_radius8(center, p, radius) {
            prev.push(p)
        } else {
            prev
        }
    }
}

/// Row-major scan of rows `rlo .. rhi` and columns `clo .. chi`, keeping
/// in-radius cells.
pub open spec fn scan8_rows(center: (u8, u8), radius: u8, rlo: int, rhi: int, clo: int, chi: int) -> Seq<(u8, u8)>
    decreases rhi - rlo,
{
    if rhi <= rlo {
        Seq::empty()
    } else {
        scan8_rows(center, radius, rlo, rhi - 1, clo, chi) + scan8_cols(center, radius, rhi - 1, clo, chi)
    }
}

/// The cells the visibility updates visit: the window
/// `cell_range(row) x cell_range(col)` (not cut at the grid's size), row by
/// row, keeping cells strictly within `radius`.
pub open spec fn spec_scan8(center: (u8, u8), radius: u8) -> Seq<(u8, u8)> {
    scan8_rows(
        center,
        radius,
        range8_min(center.0, radius),
        center.0 + radius + 1,
        range8_min(center.1, radius),
        center.1 + radius + 1,
    )
}

/// The cell in the scan window.
pub open spec fn in_window8(center: (u8, u8), radius: u8, p: (u8, u8)) -> bool {
    &&& range8_min(center.0, radius) <= p.0 <= center.0 + radius
    &&& range8_min(center.1, radius) <= p.1 <= center.1 + radius
}

/// The visibility scan runs without overflow.
pub open spec fn scan8_defined(center: (u8, u8), radius: u8) -> bool {
    &&& range8_defined(center.0, radius)
    &&& range8_defined(center.1, radius)
    &&& forall|p: (u8, u8)| #[trigger] in_window8(center, radius, p) ==> radius8_defined(center, p, radius)
}

/// Number of entries of `s` whose row-major index is `i`.
pub open spec fn hits8(s: Seq<(u8, u8)>, cols: u8, i: int) -> nat
    decreases s.len(),
{
    if s.len() == 0 {
        0
    } else {
        hits8(s.drop_last(), cols, i) + if index8(cols, s.last()) == i { 1nat } else { 0nat }
    }
}

proof fn lemma_hits8_take(s: Seq<(u8, u8)>, cols: u8, i: int, k: int)
    requires
        0 <= k < s.len(),
    ensures
        hits8(s.take(k + 1), cols, i) == hits8(s.take(k), cols, i) + if index8(cols, s[k]) == i { 1int } else { 0int },
{
    assert(s.take(k + 1).drop_last() =~= s.take(k));
}

proof fn lemma_hits8_prefix(s: Seq<(u8, u8)>, cols: u8, i: int, k: int)
    requires
        0 <= k <= s.len(),
    ensures
        hits8(s.take(k), cols, i) <= hits8(s, cols, i),
    decreases s.len(),
{
    if k == s.len() {
        assert(s.take(k) =~= s);
    } else {
        lemma_hits8_prefix(s.drop_last(), cols, i, k);
        assert(s.drop_last().take(k) =~= s.take(k));
    }
}

proof fn lemma_hits8_positive(s: Seq<(u8, u8)>, cols: u8, i: int)
    ensures
        hits8(s, cols, i) > 0 <==> exists|j: int| 0 <= j < s.len() && index8(cols, #[trigger] s[j]) == i,
    decreases s.len(),
{
    if s.len() > 0 {
        lemma_hits8_positive(s.drop_last(), cols, i);
        if exists|j: int| 0 <= j < s.len() && index8(cols, #[trigger] s[j]) == i {
            let j = choose|j: int| 0 <= j < s.len() && index8(cols, #[trigger] s[j]) == i;
            if j < s.len() - 1 {
                assert(s.drop_last()[j] == s[j]);
            }
        }
        if exists|j: int| 0 <= j < s.drop_last().len() && index8(cols, #[trigger] s.drop_last()[j]) == i {
            let j = choose|j: int| 0 <= j < s.drop_last().len() && index8(cols, #[trigger] s.drop_last()[j]) == i;
            assert(s[j] == s.drop_last()[j]);
        }
    }
}

/// Per-team counts after each entry of `s` adds one to the count of `team`
/// at its stored cell.
pub open spec fn counts_plus(tv: Seq<Seq<u32>>, cols: u8, s: Seq<(u8, u8)>, team: Team) -> Seq<Seq<u32>> {
    Seq::new(tv.len(), |i: int| Seq::new(tv[i].len(), |k: int|
        if k == team.spec_index() {
            (tv[i][k] + hits8(s, cols, i)) as u32
        } else {
            tv[i][k]
        }))
}

/// Per-team counts after each entry of `s` takes one from the count of
/// `team` at its stored cell, stopping at zero.
pub open spec fn counts_minus(tv: Seq<Seq<u32>>, cols: u8, s: Seq<(u8, u8)>, team: Team) -> Seq<Seq<u32>> {
    Seq::new(tv.len(), |i: int| Seq::new(tv[i].len(), |k: int|
        if k == team.spec_index() {
            sat_sub(tv[i][k] as int, hits8(s, cols, i) as int) as u32
        } else {
            tv[i][k]
        }))
}

/// Fog after the entries of `s` were seen by `team`: for the player's team,
/// every stored cell some entry names is clear.
pub open spec fn fog_plus(fog: Seq<Fog>, stored: int, cols: u8, s: Seq<(u8, u8)>, team: Team, player: Team) -> Seq<Fog> {
    Seq::new(fog.len(), |i: int|
        if team == player && i < stored && hits8(s, cols, i) > 0 {
            Fog::Visible
        } else {
            fog[i]
        })
}

/// Fog after the entries of `s` stopped being seen by `team`: for the
/// player's team, stored cells whose count dropped to zero are explored.
pub open spec fn fog_minus(fog: Seq<Fog>, tv: Seq<Seq<u32>>, cols: u8, s: Seq<(u8, u8)>, team: Team, player: Team) -> Seq<Fog> {
    Seq::new(fog.len(), |i: int|
        if team == player && i < tv.len() && reaches_zero(tv[i][team.spec_index()] as int, hits8(s, cols, i) as int) {
            Fog::Explored
        } else {
            fog[i]
        })
}

/// Every cell the scan names that is stored has a count slot for `team`.
pub open spec fn team_slots(tv: Seq<Seq<u32>>, cols: u8, s: Seq<(u8, u8)>, team: Team) -> bool {
    forall|j: int|
        0 <= j < s.len() && index8(cols, #[trigger] s[j]) < tv.len() ==> tv[index8(cols, s[j])].len() > team.spec_index()
}

/// Adding the hits of `s` to the counts of `team` stays within `u32`.
pub open spec fn counts_fit(tv: Seq<Seq<u32>>, cols: u8, s: Seq<(u8, u8)>, team: Team) -> bool {
    forall|i: int| 0 <= i < tv.len() && hits8(s, cols, i) > 0 ==> #[trigger] tv[i][team.spec_index()] + hits8(s, cols, i) <= u32::MAX
}

/// The cell `entity` leaves when it moves to `rowcol`: its recorded cell, when
/// one is recorded, differs from `rowcol`, and is stored.
pub open spec fn leaving_cell(grid: EntityGrid, entity: u64, rowcol: (u8, u8)) -> Option<(u8, u8)> {
    if grid.entity_to_rowcol@.contains_key(entity) && grid.entity_to_rowcol@[entity] != rowcol
        && index8(grid.spec.cols, grid.entity_to_rowcol@[entity]) < grid.entities@.len() {
        Some(grid.entity_to_rowcol@[entity])
    } else {
        None
    }
}

/// The entity is already recorded at `rowcol`: moving there changes nothing.
pub open spec fn stays(grid: EntityGrid, entity: u64, rowcol: (u8, u8)) -> bool {
    grid.entity_to_rowcol@.contains_key(entity) && grid.entity_to_rowcol@[entity] == rowcol
}

/// Counts once the entity has stopped seeing around the cell it leaves.
pub open spec fn mid_counts(grid: EntityGrid, entity: u64, rowcol: (u8, u8), team: Team, radius: u8) -> Seq<Seq<u32>> {
    match leaving_cell(grid, entity, rowcol) {
        Some(o) => counts_minus(grid.counts(), grid.spec.cols, spec_scan8(o, radius), team),
        None => grid.counts(),
    }
}

/// Fog once the entity has stopped seeing around the cell it leaves.
pub open spec fn mid_fog(grid: EntityGrid, fog: Seq<Fog>, entity: u64, rowcol: (u8, u8), team: Team, config: ByteVisionConfig) -> Seq<Fog> {
    match leaving_cell(grid, entity, rowcol) {
        Some(o) => fog_minus(fog, grid.counts(), grid.spec.cols, spec_scan8(o, config.visibility_radius), team, config.player_team),
        None => fog,
    }
}

/// Entity sets once the entity has left its cell.
pub open spec fn mid_cells(grid: EntityGrid, entity: u64, rowcol: (u8, u8)) -> Seq<Set<u64>> {
    match leaving_cell(grid, entity, rowcol) {
        Some(o) => grid.cell_sets().update(index8(grid.spec.cols, o), grid.cell_sets()[index8(grid.spec.cols, o)].remove(entity)),
        None => grid.cell_sets(),
    }
}

/// Occupancy buffer once the entity has left its cell: a cell left empty is
/// cleared when the buffer is drawn.
pub open spec fn mid_occupancy(grid: EntityGrid, occupancy: Seq<u32>, draw: bool, entity: u64, rowcol: (u8, u8)) -> Seq<u32> {
    match leaving_cell(grid, entity, rowcol) {
        Some(o) => if draw && mid_cells(grid, entity, rowcol)[index8(grid.spec.cols, o)] == Set::<u64>::empty() {
            occupancy.update(index8(grid.spec.cols, o), 0)
        } else {
            occupancy
        },
        None => occupancy,
    }
}

/// The cell `rowcol` is stored.
pub open spec fn entering(grid: EntityGrid, rowcol: (u8, u8)) -> bool {
    index8(grid.spec.cols, rowcol) < grid.entities@.len()
}

/// A grid of cells addressed with byte coordinates, keeping the entities in
/// each cell, per-team visibility counts per cell, and each entity's cell.
pub struct EntityGrid {
    pub spec: EntityGridSpec,
    pub entities: Vec<EntitySet>,
    pub team_visibility: Vec<Vec<u32>>,
    pub entity_to_rowcol: EntityCells,
}

/// Whether `other` is strictly within `radius` of (row, col), in `i8` arithmetic.
pub fn in_radius8(row: u8, col: u8, other_row: u8, other_col: u8, radius: u8) -> (b: bool)
    requires
        radius8_defined((row, col), (other_row, other_col), radius),
    ensures
        b == spec_in_radius8((row, col), (other_row, other_col), radius),
{
    let row_dist: i32 = as_i8_value(other_row) - as_i8_value(row);
    let col_dist: i32 = as_i8_value(other_col) - as_i8_value(col);
    let r: i32 = as_i8_value(radius);
    proof {
        assert(row_dist * row_dist >= 0) by (nonlinear_arith);
        assert(col_dist * col_dist >= 0) by (nonlinear_arith);
        assert(r * r >= 0) by (nonlinear_arith);
    }
    row_dist * row_dist + col_dist * col_dist < r * r
}

fn as_i8_value(x: u8) -> (r: i32)
    ensures
        r == i8_of(x),
{
    if x < 128 { x as i32 } else { x as i32 - 256 }
}

impl EntityGrid {
    /// The entity sets of the cells.
    pub open spec fn cell_sets(&self) -> Seq<Set<u64>> {
        sets_view(self.entities@)
    }

    /// The per-team visibility counts of the cells.
    pub open spec fn counts(&self) -> Seq<Seq<u32>> {
        self.team_visibility@.map_values(|v: Vec<u32>| v@)
    }

    /// A new grid with the given spec and no cells stored yet.
    pub fn new(spec: EntityGridSpec) -> (grid: EntityGrid)
        ensures
            grid.spec == spec,
            grid.entities@.len() == 0,
            grid.team_visibility@.len() == 0,
            grid.entity_to_rowcol@ == Map::<u64, (u8, u8)>::empty(),
    {
        EntityGrid { spec, entities: Vec::new(), team_visibility: Vec::new(), entity_to_rowcol: EntityCells::new() }
    }

    /// Whether `other` is strictly within `radius` of (row, col).
    pub fn in_radius(row: u8, col: u8, other_row: u8, other_col: u8, radius: u8) -> (b: bool)
        requires
            radius8_defined((row, col), (other_row, other_col), radius),
        ensures
            b == spec_in_radius8((row, col), (other_row, other_col), radius),
    {
        in_radius8(row, col, other_row, other_col, radius)
    }

    /// The range `center - radius ..= center + radius`, cut below at 0.
    pub fn cell_range(center: u8, radius: u8) -> (range: (u8, u8))
        requires
            range8_defined(center, radius),
        ensures
            range.0 == range8_min(center, radius),
            range.1 == center + radius,
    {
        let low: i32 = as_i8_value(center) - as_i8_value(radius);
        let min: u8 = if low < 0 { 0 } else { low as u8 };
        (min, center + radius)
    }

    /// Row-major index of cell (row, col).
    pub fn index(&self, row: u8, col: u8) -> (i: usize)
        ensures
            i == index8(self.spec.cols, (row, col)),
    {
        proof {
            assert(row * self.spec.cols <= 255 * 255) by (nonlinear_arith)
                requires
                    row <= 255,
                    self.spec.cols <= 255,
            ;
        }
        row as usize * self.spec.cols as usize + col as usize
    }

    /// The cells visited by the visibility updates around (row, col).
    fn cells_in_radius(row: u8, col: u8, radius: u8) -> (cells: Vec<(u8, u8)>)
        requires
            scan8_defined((row, col), radius),
        ensures
            cells@ == spec_scan8((row, col), radius),
    {
        let (row_min, row_max) = Self::cell_range(row, radius);
        let (col_min, col_max) = Self::cell_range(col, radius);
        let mut results: Vec<(u8, u8)> = Vec::new();
        let mut r: u32 = row_min as u32;
        while r <= row_max as u32
            invariant
                scan8_defined((row, col), radius),
                row_min == range8_min(row, radius),
                row_max == row + radius,
                col_min == range8_min(col, radius),
                col_max == col + radius,
                row_min <= r,
                r <= row_max as u32 + 1 || r == row_min,
                results@ == scan8_rows((row, col), radius, row_min as int, r as int, col_min as int, col_max + 1),
            decreases row_max as u32 + 1 - r,
        {
            let other_row: u8 = r as u8;
            let mut c: u32 = col_min as u32;
            let ghost before = results@;
            while c <= col_max as u32
                invariant
                    scan8_defined((row, col), radius),
                    row_min == range8_min(row, radius),
                    row_max == row + radius,
                    col_min == range8_min(col, radius),
                    col_max == col + radius,
                    row_min <= r <= row_max as u32,
                    other_row == r,
                    col_min <= c,
                    c <= col_max as u32 + 1 || c == col_min,
                    before == scan8_rows((row, col), radius, row_min as int, r as int, col_min as int, col_max + 1),
                    results@ == before + scan8_cols((row, col), radius, r as int, col_min as int, c as int),
                decreases col_max as u32 + 1 - c,
            {
                let other_col: u8 = c as u8;
                assert(in_window8((row, col), radius, (other_row, other_col)));
                if in_radius8(row, col, other_row, other_col, radius) {
                    results.push((other_row, other_col));
                }
                c = c + 1;
            }
            r = r + 1;
        }
        results
    }

    /// Resizes the cell stores to `rows * cols` cells: kept cells are
    /// untouched, new cells hold no entity and a zero count for every team.
    pub fn resize(&mut self)
        ensures
            final(self).spec == old(self).spec,
            final(self).entity_to_rowcol == old(self).entity_to_rowcol,
            final(self).cell_sets().len() == old(self).spec.spec_num_cells(),
            final(self).counts().len() == old(self).spec.spec_num_cells(),
            forall|i: int|
                0 <= i < final(self).cell_sets().len() ==> #[trigger] final(self).cell_sets()[i]
                    == if i < old(self).cell_sets().len() {
                    old(self).cell_sets()[i]
                } else {
                    Set::<u64>::empty()
                },
            forall|i: int|
                0 <= i < final(self).counts().len() ==> #[trigger] final(self).counts()[i]
                    == if i < old(self).counts().len() {
                    old(self).counts()[i]
                } else {
                    seq![0u32, 0u32, 0u32]
                },
    {
        let n = self.spec.num_cells();
        if n <= self.entities.len() {
            self.entities.truncate(n);
        } else {
            while self.entities.len() < n
                invariant
                    self.spec == old(self).spec,
                    self.team_visibility == old(self).team_visibility,
                    self.entity_to_rowcol == old(self).entity_to_rowcol,
                    n == old(self).spec.spec_num_cells(),
                    old(self).entities@.len() <= self.entities@.len() <= n,
                    forall|i: int| 0 <= i < old(self).entities@.len() ==> self.entities@[i] == old(self).entities@[i],
                    forall|i: int| old(self).entities@.len() <= i < self.entities@.len() ==> (#[trigger] self.entities@[i])@
                        == Set::<u64>::empty(),
                decreases n - self.entities@.len(),
            {
                self.entities.push(EntitySet::new());
            }
        }
        if n <= self.team_visibility.len() {
            self.team_visibility.truncate(n);
        } else {
            while self.team_visibility.len() < n
                invariant
                    self.spec == old(self).spec,
                    self.entity_to_rowcol == old(self).entity_to_rowcol,
                    n == old(self).spec.spec_num_cells(),
                    self.entities@.len() == n,
                    forall|i: int| 0 <= i < n ==> #[trigger] sets_view(self.entities@)[i]
                        == if i < old(self).cell_sets().len() {
                        old(self).cell_sets()[i]
                    } else {
                        Set::<u64>::empty()
                    },
                    old(self).team_visibility@.len() <= self.team_visibility@.len() <= n,
                    forall|i: int| 0 <= i < old(self).team_visibility@.len() ==> self.team_visibility@[i] == old(self).team_visibility@[i],
                    forall|i: int| old(self).team_visibility@.len() <= i < self.team_visibility@.len() ==> (#[trigger] self.team_visibility@[i])@
                        == seq![0u32, 0u32, 0u32],
                decreases n - self.team_visibility@.len(),
            {
                let counts: Vec<u32> = vec![0, 0, 0];
                assert(counts@ =~= seq![0u32, 0u32, 0u32]);
                self.team_visibility.push(counts);
            }
        }
    }

    /// An entity of `team` at (row, col) starts seeing the cells of the scan
    /// around it: each stored cell's count for `team` grows by the number of
    /// times the scan names it, and for the player's team those cells are
    /// clear of fog.
    pub fn add_visibility(&mut self, row: u8, col: u8, team: Team, config: &ByteVisionConfig, visibility: &mut Vec<Fog>)
        requires
            scan8_defined((row, col), config.visibility_radius),
            team_slots(old(self).counts(), old(self).spec.cols, spec_scan8((row, col), config.visibility_radius), team),
            counts_fit(old(self).counts(), old(self).spec.cols, spec_scan8((row, col), config.visibility_radius), team),
            team == config.player_team ==> forall|i: int|
                0 <= i < old(self).counts().len() && hits8(spec_scan8((row, col), config.visibility_radius), old(self).spec.cols, i) > 0
                    ==> i < old(visibility)@.len(),
        ensures
            final(self).spec == old(self).spec,
            final(self).entities == old(self).entities,
            final(self).entity_to_rowcol == old(self).entity_to_rowcol,
            final(self).counts() == counts_plus(old(self).counts(), old(self).spec.cols, spec_scan8((row, col), config.visibility_radius), team),
            final(visibility)@ == fog_plus(
                old(visibility)@,
                old(self).counts().len() as int,
                old(self).spec.cols,
                spec_scan8((row, col), config.visibility_radius),
                team,
                config.player_team,
            ),
    {
        let cells = Self::cells_in_radius(row, col, config.visibility_radius);
        let ghost scan = cells@;
        let ghost cols = self.spec.cols;
        let ghost tv0 = old(self).counts();
        let ti = team.index();
        proof {
            let c0 = counts_plus(tv0, cols, scan.take(0), team);
            assert forall|x: int| 0 <= x < c0.len() implies #[trigger] tv0[x] =~= c0[x] by {}
            assert(tv0 =~= c0);
            assert(visibility@ =~= fog_plus(old(visibility)@, tv0.len() as int, cols, scan.take(0), team, config.player_team));
        }
        let mut k: usize = 0;
        while k < cells.len()
            invariant
                0 <= k <= scan.len(),
                cells@ == scan,
                scan == spec_scan8((row, col), config.visibility_radius),
                cols == old(self).spec.cols,
                tv0 == old(self).counts(),
                ti == team.spec_index(),
                self.spec == old(self).spec,
                self.entities == old(self).entities,
                self.entity_to_rowcol == old(self).entity_to_rowcol,
                team_slots(tv0, cols, scan, team),
                counts_fit(tv0, cols, scan, team),
                team == config.player_team ==> forall|i: int|
                    0 <= i < tv0.len() && hits8(scan, cols, i) > 0 ==> i < old(visibility)@.len(),
                self.counts() == counts_plus(tv0, cols, scan.take(k as int), team),
                visibility@ == fog_plus(old(visibility)@, tv0.len() as int, cols, scan.take(k as int), team, config.player_team),
            decreases scan.len() - k,
        {
            let (other_row, other_col) = cells[k];
            let i = self.index(other_row, other_col);
            proof {
                assert(scan[k as int] == (other_row, other_col));
                assert(index8(cols, scan[k as int]) == i);
                assert forall|x: int| 0 <= x < tv0.len() implies hits8(scan.take(k as int + 1), cols, x)
                    == hits8(scan.take(k as int), cols, x) + (if index8(cols, scan[k as int]) == x { 1int } else { 0int }) by {
                    lemma_hits8_take(scan, cols, x, k as int);
                }
            }
            if i < self.team_visibility.len() {
                proof {
                    assert(scan[k as int] == (other_row, other_col));
                    assert(index8(cols, scan[k as int]) == i);
                    assert(self.counts().len() == self.team_visibility@.len());
                    assert(self.counts().len() == tv0.len());
                    assert(tv0[i as int].len() > ti);
                    assert(self.counts()[i as int] == self.team_visibility@[i as int]@);
                    lemma_hits8_prefix(scan, cols, i as int, k as int + 1);
                    assert(self.counts()[i as int] == counts_plus(tv0, cols, scan.take(k as int), team)[i as int]);
                }
                let n = self.team_visibility[i][ti];
                let ghost before = self.counts();
                self.team_visibility[i].set(ti, n + 1);
                proof {
                    let c1 = counts_plus(tv0, cols, scan.take(k as int + 1), team);
                    assert(self.counts()[i as int] == before[i as int].update(ti as int, (n + 1) as u32));
                    assert(n == before[i as int][ti as int]);
                    assert forall|kk: int| 0 <= kk < c1[i as int].len() implies self.counts()[i as int][kk] == c1[i as int][kk] by {}
                    assert(self.counts()[i as int] =~= c1[i as int]);
                    assert forall|x: int| 0 <= x < self.counts().len() && x != i implies self.counts()[x] == before[x] by {}
                }
                if team == config.player_team {
                    proof {
                        lemma_hits8_prefix(scan, cols, i as int, k as int + 1);
                    }
                    visibility.set(i, Fog::Visible);
                }
            }
            proof {
                let c1 = counts_plus(tv0, cols, scan.take(k as int + 1), team);
                assert forall|x: int| 0 <= x < c1.len() implies #[trigger] self.counts()[x] =~= c1[x] by {
                    if x != i {
                        assert(self.counts()[x] == counts_plus(tv0, cols, scan.take(k as int), team)[x]);
                    }
                }
                assert(self.counts() =~= c1);
                assert(visibility@ =~= fog_plus(old(visibility)@, tv0.len() as int, cols, scan.take(k as int + 1), team, config.player_team));
            }
            k = k + 1;
        }
        proof {
            assert(scan.take(scan.len() as int) =~= scan);
        }
    }

    /// An entity of `team` at (row, col) stops seeing the cells of the scan
    /// around it: for each time the scan names a stored cell, its count for
    /// `team` drops by one unless already zero; for the player's team a cell
    /// whose count drops to zero becomes explored.
    pub fn remove_visibility(&mut self, row: u8, col: u8, team: Team, config: &ByteVisionConfig, visibility: &mut Vec<Fog>)
        requires
            scan8_defined((row, col), config.visibility_radius),
            team_slots(old(self).counts(), old(self).spec.cols, spec_scan8((row, col), config.visibility_radius), team),
            team == config.player_team ==> forall|i: int|
                0 <= i < old(self).counts().len() && reaches_zero(
                    #[trigger] old(self).counts()[i][team.spec_index()] as int,
                    hits8(spec_scan8((row, col), config.visibility_radius), old(self).spec.cols, i) as int,
                ) ==> i < old(visibility)@.len(),
        ensures
            final(self).spec == old(self).spec,
            final(self).entities == old(self).entities,
            final(self).entity_to_rowcol == old(self).entity_to_rowcol,
            final(self).counts() == counts_minus(old(self).counts(), old(self).spec.cols, spec_scan8((row, col), config.visibility_radius), team),
            final(visibility)@ == fog_minus(
                old(visibility)@,
                old(self).counts(),
                old(self).spec.cols,
                spec_scan8((row, col), config.visibility_radius),
                team,
                config.player_team,
            ),
    {
        let cells = Self::cells_in_radius(row, col, config.visibility_radius);
        let ghost scan = cells@;
        let ghost cols = self.spec.cols;
        let ghost tv0 = old(self).counts();
        let ti = team.index();
        proof {
            let c0 = counts_minus(tv0, cols, scan.take(0), team);
            assert forall|x: int| 0 <= x < c0.len() implies #[trigger] tv0[x] =~= c0[x] by {}
            assert(tv0 =~= c0);
            assert(visibility@ =~= fog_minus(old(visibility)@, tv0, cols, scan.take(0), team, config.player_team));
        }
        let mut k: usize = 0;
        while k < cells.len()
            invariant
                0 <= k <= scan.len(),
                cells@ == scan,
                scan == spec_scan8((row, col), config.visibility_radius),
                cols == old(self).spec.cols,
                tv0 == old(self).counts(),
                ti == team.spec_index(),
                self.spec == old(self).spec,
                self.entities == old(self).entities,
                self.entity_to_rowcol == old(self).entity_to_rowcol,
                team_slots(tv0, cols, scan, team),
                team == config.player_team ==> forall|i: int|
                    0 <= i < tv0.len() && reaches_zero(#[trigger] tv0[i][team.spec_index()] as int, hits8(scan, cols, i) as int)
                        ==> i < old(visibility)@.len(),
                self.counts() == counts_minus(tv0, cols, scan.take(k as int), team),
                visibility@ == fog_minus(old(visibility)@, tv0, cols, scan.take(k as int), team, config.player_team),
            decreases scan.len() - k,
        {
            let (other_row, other_col) = cells[k];
            let i = self.index(other_row, other_col);
            proof {
                assert(scan[k as int] == (other_row, other_col));
                assert(index8(cols, scan[k as int]) == i);
                assert forall|x: int| 0 <= x < tv0.len() implies hits8(scan.take(k as int + 1), cols, x)
                    == hits8(scan.take(k as int), cols, x) + (if index8(cols, scan[k as int]) == x { 1int } else { 0int }) by {
                    lemma_hits8_take(scan, cols, x, k as int);
                }
            }
            if i < self.team_visibility.len() {
                proof {
                    assert(scan[k as int] == (other_row, other_col));
                    assert(index8(cols, scan[k as int]) == i);
                    assert(self.counts().len() == self.team_visibility@.len());
                    assert(self.counts().len() == tv0.len());
                    assert(tv0[i as int].len() > ti);
                    assert(self.counts()[i as int] == self.team_visibility@[i as int]@);
                    assert(self.counts()[i as int] == counts_minus(tv0, cols, scan.take(k as int), team)[i as int]);
                }
                let n = self.team_visibility[i][ti];
                if n > 0 {
                    let ghost before = self.counts();
                    self.team_visibility[i].set(ti, n - 1);
                    let now = self.team_visibility[i][ti];
                    proof {
                        let c1 = counts_minus(tv0, cols, scan.take(k as int + 1), team);
                        assert(self.counts()[i as int] == before[i as int].update(ti as int, (n - 1) as u32));
                        assert(n == before[i as int][ti as int]);
                        assert forall|kk: int| 0 <= kk < c1[i as int].len() implies self.counts()[i as int][kk] == c1[i as int][kk] by {}
                        assert(self.counts()[i as int] =~= c1[i as int]);
                        assert forall|x: int| 0 <= x < self.counts().len() && x != i implies self.counts()[x] == before[x] by {}
                    }
                    if team == config.player_team && now == 0 {
                        proof {
                            lemma_hits8_prefix(scan, cols, i as int, k as int + 1);
                            assert(reaches_zero(tv0[i as int][ti as int] as int, hits8(scan, cols, i as int) as int));
                        }
                        visibility.set(i, Fog::Explored);
                    }
                } else {
                    proof {
                        let c1 = counts_minus(tv0, cols, scan.take(k as int + 1), team);
                        assert forall|kk: int| 0 <= kk < c1[i as int].len() implies self.counts()[i as int][kk] == c1[i as int][kk] by {}
                        assert(self.counts()[i as int] =~= c1[i as int]);
                    }
                }
            }
            proof {
                let c1 = counts_minus(tv0, cols, scan.take(k as int + 1), team);
                assert forall|x: int| 0 <= x < c1.len() implies #[trigger] self.counts()[x] =~= c1[x] by {
                    if x != i {
                        assert(self.counts()[x] == counts_minus(tv0, cols, scan.take(k as int), team)[x]);
                        assert(hits8(scan.take(k as int + 1), cols, x) == hits8(scan.take(k as int), cols, x));
                        assert forall|kk: int| 0 <= kk < c1[x].len() implies self.counts()[x][kk] == c1[x][kk] by {}
                        assert(self.counts()[x] =~= c1[x]);
                    } else {
                        assert(self.counts().len() == self.team_visibility@.len());
                        assert(i < self.team_visibility@.len());
                    }
                }
                assert(self.counts() =~= c1);
                assert(visibility@ =~= fog_minus(old(visibility)@, tv0, cols, scan.take(k as int + 1), team, config.player_team));
            }
            k = k + 1;
        }
        proof {
            assert(scan.take(scan.len() as int) =~= scan);
        }
    }

    /// Moves `entity` of `team` to the cell `rowcol` it now occupies. Nothing
    /// happens when it is already recorded there. Otherwise, when its recorded
    /// cell is stored, it leaves that cell (clearing the cell in the drawn
    /// occupancy buffer if the cell is now empty) and stops seeing around it;
    /// then, when `rowcol` is stored, it enters that cell, is recorded there,
    /// marks it in the drawn occupancy buffer, and starts seeing around it.
    pub fn update_entity(
        &mut self,
        entity: u64,
        rowcol: (u8, u8),
        team: Team,
        config: &ByteVisionConfig,
        visibility: &mut Vec<Fog>,
        draw: bool,
        occupancy: &mut Vec<u32>,
    )
        requires
            !stays(*old(self), entity, rowcol) ==> match leaving_cell(*old(self), entity, rowcol) {
                Some(o) => {
                    &&& (draw && mid_cells(*old(self), entity, rowcol)[index8(old(self).spec.cols, o)] == Set::<u64>::empty())
                        ==> index8(old(self).spec.cols, o) < old(occupancy)@.len()
                    &&& scan8_defined(o, config.visibility_radius)
                    &&& team_slots(old(self).counts(), old(self).spec.cols, spec_scan8(o, config.visibility_radius), team)
                    &&& team == config.player_team ==> forall|i: int|
                        0 <= i < old(self).counts().len() && reaches_zero(
                            #[trigger] old(self).counts()[i][team.spec_index()] as int,
                            hits8(spec_scan8(o, config.visibility_radius), old(self).spec.cols, i) as int,
                        ) ==> i < old(visibility)@.len()
                },
                None => true,
            },
            !stays(*old(self), entity, rowcol) && entering(*old(self), rowcol) ==> {
                let mc = mid_counts(*old(self), entity, rowcol, team, config.visibility_radius);
                &&& draw ==> index8(old(self).spec.cols, rowcol) < old(occupancy)@.len()
                &&& scan8_defined(rowcol, config.visibility_radius)
                &&& team_slots(mc, old(self).spec.cols, spec_scan8(rowcol, config.visibility_radius), team)
                &&& counts_fit(mc, old(self).spec.cols, spec_scan8(rowcol, config.visibility_radius), team)
                &&& team == config.player_team ==> forall|i: int|
                    0 <= i < mc.len() && hits8(spec_scan8(rowcol, config.visibility_radius), old(self).spec.cols, i) > 0
                        ==> i < old(visibility)@.len()
            },
        ensures
            final(self).spec == old(self).spec,
            stays(*old(self), entity, rowcol) ==> {
                &&& final(self).cell_sets() == old(self).cell_sets()
                &&& final(self).counts() == old(self).counts()
                &&& final(self).entity_to_rowcol@ == old(self).entity_to_rowcol@
                &&& final(visibility)@ == old(visibility)@
                &&& final(occupancy)@ == old(occupancy)@
            },
            !stays(*old(self), entity, rowcol) ==> {
                let mc = mid_counts(*old(self), entity, rowcol, team, config.visibility_radius);
                let mf = mid_fog(*old(self), old(visibility)@, entity, rowcol, team, *config);
                let ms = mid_cells(*old(self), entity, rowcol);
                let mo = mid_occupancy(*old(self), old(occupancy)@, draw, entity, rowcol);
                let ni = index8(old(self).spec.cols, rowcol);
                if entering(*old(self), rowcol) {
                    &&& final(self).cell_sets() == ms.update(ni, ms[ni].insert(entity))
                    &&& final(self).counts() == counts_plus(mc, old(self).spec.cols, spec_scan8(rowcol, config.visibility_radius), team)
                    &&& final(self).entity_to_rowcol@ == old(self).entity_to_rowcol@.insert(entity, rowcol)
                    &&& final(visibility)@ == fog_plus(mf, mc.len() as int, old(self).spec.cols, spec_scan8(rowcol, config.visibility_radius), team, config.player_team)
                    &&& final(occupancy)@ == if draw { mo.update(ni, 1) } else { mo }
                } else {
                    &&& final(self).cell_sets() == ms
                    &&& final(self).counts() == mc
                    &&& final(self).entity_to_rowcol@ == old(self).entity_to_rowcol@
                    &&& final(visibility)@ == mf
                    &&& final(occupancy)@ == mo
                }
            },
    {
        let (row, col) = rowcol;
        if let Some((old_row, old_col)) = self.entity_to_rowcol.get(entity) {
            if old_row == row && old_col == col {
                return;
            }
            let oi = self.index(old_row, old_col);
            if oi < self.entities.len() {
                self.entities[oi].remove(entity);
                if draw {
                    if self.entities[oi].is_empty() {
                        occupancy.set(oi, 0);
                    }
                }
                self.remove_visibility(old_row, old_col, team, config, visibility);
            }
        }
        proof {
            assert(sets_view(self.entities@) =~= mid_cells(*old(self), entity, rowcol));
        }
        let ni = self.index(row, col);
        if ni < self.entities.len() {
            self.entities[ni].insert(entity);
            self.entity_to_rowcol.insert(entity, (row, col));
            if draw {
                occupancy.set(ni, 1);
            }
            proof {
                assert(sets_view(self.entities@) =~= mid_cells(*old(self), entity, rowcol).update(ni as int, mid_cells(*old(self), entity, rowcol)[ni as int].insert(entity)));
            }
            self.add_visibility(row, col, team, config, visibility);
        }
    }

    /// Removes `entity` from the cell recorded for it; nothing happens when no
    /// cell is recorded or the recorded cell is not stored.
    pub fn remove(&mut self, entity: u64)
        ensures
            final(self).spec == old(self).spec,
            final(self).team_visibility == old(self).team_visibility,
            final(self).entity_to_rowcol == old(self).entity_to_rowcol,
            final(self).cell_sets() == if old(self).entity_to_rowcol@.contains_key(entity) && index8(
                old(self).spec.cols,
                old(self).entity_to_rowcol@[entity],
            ) < old(self).entities@.len() {
                old(self).cell_sets().update(
                    index8(old(self).spec.cols, old(self).entity_to_rowcol@[entity]),
                    old(self).cell_sets()[index8(old(self).spec.cols, old(self).entity_to_rowcol@[entity])].remove(entity),
                )
            } else {
                old(self).cell_sets()
            },
    {
        if let Some((row, col)) = self.entity_to_rowcol.get(entity) {
            let i = self.index(row, col);
            if i < self.entities.len() {
                self.entities[i].remove(entity);
            }
        }
        proof {
            if old(self).entity_to_rowcol@.contains_key(entity) && index8(old(self).spec.cols, old(self).entity_to_rowcol@[entity])
                < old(self).entities@.len() {
                assert(sets_view(self.entities@) =~= old(self).cell_sets().update(
                    index8(old(self).spec.cols, old(self).entity_to_rowcol@[entity]),
                    old(self).cell_sets()[index8(old(self).spec.cols, old(self).entity_to_rowcol@[entity])].remove(entity),
                ));
            } else {
                assert(sets_view(self.entities@) =~= old(self).cell_sets());
            }
        }
    }

    /// The set of entities at (row, col), if that cell is stored.
    pub fn get(&self, row: u8, col: u8) -> (set: Option<&EntitySet>)
        ensures
            index8(self.spec.cols, (row, col)) < self.entities@.len() ==> set == Some(&self.entities@[index8(self.spec.cols, (row, col))]),
            index8(self.spec.cols, (row, col)) >= self.entities@.len() ==> set.is_none(),
    {
        let i = self.index(row, col);
        if i < self.entities.len() {
            Some(&self.entities[i])
        } else {
            None
        }
    }

    /// Mutable access to the set of entities at (row, col), if that cell is stored.
    pub fn get_mut(&mut self, row: u8, col: u8) -> (set: Option<&mut EntitySet>)
        ensures
            final(self).spec == old(self).spec,
            final(self).team_visibility == old(self).team_visibility,
            final(self).entity_to_rowcol == old(self).entity_to_rowcol,
            index8(old(self).spec.cols, (row, col)) < old(self).entities@.len() ==> match set {
                Some(s) => {
                    &&& *s == old(self).entities@[index8(old(self).spec.cols, (row, col))]
                    &&& final(self).entities@ == old(self).entities@.update(index8(old(self).spec.cols, (row, col)), *final(s))
                },
                None => false,
            },
            index8(old(self).spec.cols, (row, col)) >= old(self).entities@.len() ==> set.is_none()
                && final(self).entities@ == old(self).entities@,
    {
        let i = self.index(row, col);
        if i < self.entities.len() {
            Some(&mut self.entities[i])
        } else {
            None
        }
    }

    /// Whether the cell (row, col) is in sight of `team`; the cell's counts
    /// must be stored and have a slot for the team.
    pub fn get_visibility(&self, row: u8, col: u8, team: Team) -> (v: Visibility)
        requires
            index8(self.spec.cols, (row, col)) < self.counts().len(),
            self.counts()[index8(self.spec.cols, (row, col))].len() > team.spec_index(),
        ensures
            v == if self.counts()[index8(self.spec.cols, (row, col))][team.spec_index()] > 0 {
                Visibility::Visible
            } else {
                Visibility::Hidden
            },
    {
        let i = self.index(row, col);
        assert(self.counts()[i as int] == self.team_visibility@[i as int]@);
        if self.team_visibility[i][team.index()] > 0 {
            Visibility::Visible
        } else {
            Visibility::Hidden
        }
    }

    /// Entities in the stored cells of the rectangle from `min` to `max`
    /// (inclusive), each listed once, in an order the hash set decides.
    pub fn get_in_rowcol_range(&self, min: (u8, u8), max: (u8, u8)) -> (entities: Vec<u64>)
        ensures
            entities@.no_duplicates(),
            forall|e: u64| entities@.contains(e) <==> exists|p: (u8, u8)|
                min.0 <= p.0 <= max.0 && min.1 <= p.1 <= max.1 && index8(self.spec.cols, p) < self.entities@.len()
                    && #[trigger] self.cell_sets()[index8(self.spec.cols, p)].contains(e),
    {
        let mut result = EntitySet::new();
        let mut r: u32 = min.0 as u32;
        while r <= max.0 as u32
            invariant
                min.0 <= r,
                r <= max.0 as u32 + 1 || r == min.0,
                forall|e: u64| result@.contains(e) <==> exists|p: (u8, u8)|
                    min.0 <= p.0 <= max.0 && p.0 < r && min.1 <= p.1 <= max.1 && index8(self.spec.cols, p) < self.entities@.len()
                        && #[trigger] self.cell_sets()[index8(self.spec.cols, p)].contains(e),
            decreases max.0 as u32 + 1 - r,
        {
            let row: u8 = r as u8;
            let mut c: u32 = min.1 as u32;
            while c <= max.1 as u32
                invariant
                    min.0 <= r <= max.0,
                    row == r,
                    min.1 <= c,
                    c <= max.1 as u32 + 1 || c == min.1,
                    forall|e: u64| result@.contains(e) <==> exists|p: (u8, u8)|
                        min.0 <= p.0 <= max.0 && min.1 <= p.1 <= max.1 && (p.0 < r || (p.0 == r && p.1 < c))
                            && index8(self.spec.cols, p) < self.entities@.len()
                            && #[trigger] self.cell_sets()[index8(self.spec.cols, p)].contains(e),
                decreases max.1 as u32 + 1 - c,
            {
                let col: u8 = c as u8;
                let ghost prev = result@;
                if let Some(set) = self.get(row, col) {
                    result.extend_from(set);
                }
                proof {
                    let q: (u8, u8) = (row, col);
                    assert forall|e: u64| result@.contains(e) <==> exists|p: (u8, u8)|
                        min.0 <= p.0 <= max.0 && min.1 <= p.1 <= max.1 && (p.0 < r || (p.0 == r && p.1 < c + 1))
                            && index8(self.spec.cols, p) < self.entities@.len()
                            && #[trigger] self.cell_sets()[index8(self.spec.cols, p)].contains(e) by {
                        if result@.contains(e) && !prev.contains(e) {
                            assert(self.cell_sets()[index8(self.spec.cols, q)] == self.entities@[index8(self.spec.cols, q)]@);
                            assert(self.cell_sets()[index8(self.spec.cols, q)].contains(e));
                        }
                        if exists|p: (u8, u8)|
                            min.0 <= p.0 <= max.0 && min.1 <= p.1 <= max.1 && (p.0 < r || (p.0 == r && p.1 < c + 1))
                                && index8(self.spec.cols, p) < self.entities@.len()
                                && #[trigger] self.cell_sets()[index8(self.spec.cols, p)].contains(e) {
                            let p = choose|p: (u8, u8)|
                                min.0 <= p.0 <= max.0 && min.1 <= p.1 <= max.1 && (p.0 < r || (p.0 == r && p.1 < c + 1))
                                    && index8(self.spec.cols, p) < self.entities@.len()
                                    && #[trigger] self.cell_sets()[index8(self.spec.cols, p)].contains(e);
                            if p == q {
                                assert(self.cell_sets()[index8(self.spec.cols, q)] == self.entities@[index8(self.spec.cols, q)]@);
                            } else {
                                assert(p.0 < r || (p.0 == r && p.1 < c));
                                assert(prev.contains(e));
                            }
                        }
                    }
                }
                c = c + 1;
            }
            r = r + 1;
        }
        let ids = result.to_vec();
        proof {
            assert forall|e: u64| ids@.contains(e) <==> result@.contains(e) by {
                assert(ids@.contains(e) <==> ids@.to_set().contains(e));
            }
        }
        ids
    }
}

/// Taking sight away undoes giving it: counts raised by an entity of `team`
/// at `center` starting to see, then lowered by the same entity stopping to
/// see, are the counts from before (when the raise stayed within `u32`).
pub proof fn lemma_remove_undoes_add8(tv: Seq<Seq<u32>>, cols: u8, center: (u8, u8), team: Team, radius: u8)
    requires
        counts_fit(tv, cols, spec_scan8(center, radius), team),
    ensures
        counts_minus(
            counts_plus(tv, cols, spec_scan8(center, radius), team),
            cols,
            spec_scan8(center, radius),
            team,
        ) == tv,
{
    let s = spec_scan8(center, radius);
    let up = counts_plus(tv, cols, s, team);
    let down = counts_minus(up, cols, s, team);
    assert forall|i: int| 0 <= i < tv.len() implies #[trigger] down[i] =~= tv[i] by {
        assert forall|k: int| 0 <= k < tv[i].len() implies down[i][k] == tv[i][k] by {
            if k == team.spec_index() && hits8(s, cols, i) > 0 {
                assert(tv[i][team.spec_index()] + hits8(s, cols, i) <= u32::MAX);
            }
        }
    }
    assert(down =~= tv);
}


/// The byte-grid radius test is a euclidean disc: `p` is within `radius` of
/// `center` exactly when the squared row distance plus the squared column
/// distance (as `i8` values) is below the squared radius. A cell `d` rows and
/// `d` columns away is within the radius exactly when `2 * d * d` is below
/// the squared radius (so offset (3, 3) is outside radius 4).
pub proof fn lemma_in_radius8_is_euclidean(center: (u8, u8), p: (u8, u8), radius: u8)
    ensures
        spec_in_radius8(center, p, radius) <==> (i8_of(p.0) - i8_of(center.0)) * (i8_of(p.0) - i8_of(center.0))
            + (i8_of(p.1) - i8_of(center.1)) * (i8_of(p.1) - i8_of(center.1)) < i8_of(radius) * i8_of(radius),
        (center.0 < 128 && center.1 < 128 && p.0 < 128 && p.1 < 128 && radius < 128 && p.0 - center.0 == p.1
            - center.1) ==> (spec_in_radius8(center, p, radius) <==> (p.0 - center.0) * (p.0 - center.0) * 2 < radius
            * radius),
{
    if center.0 < 128 && center.1 < 128 && p.0 < 128 && p.1 < 128 && radius < 128 && p.0 - center.0 == p.1 - center.1 {
        let d: int = p.0 - center.0;
        assert(d * d + d * d == d * d * 2) by (nonlinear_arith);
    }
}

} // verus!
