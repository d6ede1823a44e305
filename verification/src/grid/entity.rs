use vstd::prelude::*;
use crate::entity_set::EntitySet;
use crate::grid::grid2::{Grid2, sorted_lex};
use crate::grid::spec::{GridSpec, RowCol, spec_flat_index};

verus! {

/// Per-entity grid bookkeeping: the cell the entity was last recorded in.
pub struct GridEntity {
    pub cell: Option<RowCol>,
}

/// Report of an entity moving between grid cells.
pub struct EntityGridEvent {
    pub entity: u64,
    /// The cell the entity was removed from, if it was in one.
    pub prev_cell: Option<RowCol>,
    /// The previous cell holds no entity any more.
    pub prev_cell_empty: bool,
    pub cell: RowCol,
}

/// A grid of cells that keep track of which entities are inside them.
pub struct EntityGrid(pub Grid2<EntitySet>);

/// The id sets of a sequence of entity sets.
pub open spec fn sets_view(cells: Seq<EntitySet>) -> Seq<Set<u64>> {
    cells.map_values(|s: EntitySet| s@)
}

/// Cell sets after `entity` left its recorded cell (when that cell is stored).
pub open spec fn cells_after_leave(cells: Seq<Set<u64>>, cols: u16, entity: u64, cell: Option<RowCol>) -> Seq<Set<u64>> {
    match cell {
        Some(prev) => if spec_flat_index(cols, prev) < cells.len() {
            cells.update(spec_flat_index(cols, prev), cells[spec_flat_index(cols, prev)].remove(entity))
        } else {
            cells
        },
        None => cells,
    }
}

/// Cell sets after `entity` left its recorded cell and entered `rowcol` (when stored).
pub open spec fn cells_after_move(cells: Seq<Set<u64>>, cols: u16, entity: u64, cell: Option<RowCol>, rowcol: RowCol) -> Seq<Set<u64>> {
    let left = cells_after_leave(cells, cols, entity, cell);
    if spec_flat_index(cols, rowcol) < left.len() {
        left.update(spec_flat_index(cols, rowcol), left[spec_flat_index(cols, rowcol)].insert(entity))
    } else {
        left
    }
}

/// `entity` is held by the stored cell `p`.
pub open spec fn cell_holds(cells: Seq<Set<u64>>, cols: u16, p: RowCol, entity: u64) -> bool {
    spec_flat_index(cols, p) < cells.len() && cells[spec_flat_index(cols, p)].contains(entity)
}

impl EntityGrid {
    /// The id sets of the cells, in row-major order.
    pub open spec fn cell_sets(&self) -> Seq<Set<u64>> {
        sets_view(self.0.cells@)
    }

    /// Resizes the cell store to `rows * cols` cells: cells past the new size
    /// are dropped, kept cells are untouched, and new cells start empty.
    pub fn resize(&mut self)
        ensures
            final(self).0.spec == old(self).0.spec,
            final(self).cell_sets().len() == old(self).0.spec.spec_num_cells(),
            forall|i: int|
                0 <= i < final(self).cell_sets().len() ==> #[trigger] final(self).cell_sets()[i]
                    == if i < old(self).cell_sets().len() {
                    old(self).cell_sets()[i]
                } else {
                    Set::<u64>::empty()
                },
    {
        let n = self.0.spec.num_cells();
        if n <= self.0.cells.len() {
            self.0.cells.truncate(n);
        } else {
            let ghost start = self.0.cells@;
            while self.0.cells.len() < n
                invariant
                    self.0.spec == old(self).0.spec,
                    n == old(self).0.spec.spec_num_cells(),
                    start == old(self).0.cells@,
                    start.len() <= self.0.cells@.len() <= n,
                    forall|i: int| 0 <= i < start.len() ==> self.0.cells@[i] == start[i],
                    forall|i: int| start.len() <= i < self.0.cells@.len() ==> (#[trigger] self.0.cells@[i])@
                        == Set::<u64>::empty(),
                decreases n - self.0.cells@.len(),
            {
                self.0.cells.push(EntitySet::new());
            }
        }
    }

    /// Replaces the grid spec and resizes the cell store to match it.
    pub fn resize_with(&mut self, spec: GridSpec)
        ensures
            final(self).0.spec == spec,
            final(self).cell_sets().len() == spec.spec_num_cells(),
            forall|i: int|
                0 <= i < final(self).cell_sets().len() ==> #[trigger] final(self).cell_sets()[i]
                    == if i < old(self).cell_sets().len() {
                    old(self).cell_sets()[i]
                } else {
                    Set::<u64>::empty()
                },
    {
        self.0.spec = spec;
        self.resize();
    }

    /// Moves `entity`, last recorded at `cell`, to the cell `rowcol` it now
    /// occupies. Nothing happens when the cell did not change. Otherwise the
    /// entity leaves its old cell (when that cell is stored), joins the new
    /// one (when stored), and an event reports the move; no event when the
    /// new cell is not stored.
    pub fn update_entity(&mut self, entity: u64, cell: Option<RowCol>, rowcol: RowCol) -> (event: Option<EntityGridEvent>)
        ensures
            final(self).0.spec == old(self).0.spec,
            cell == Some(rowcol) ==> event.is_none() && final(self).cell_sets() == old(self).cell_sets(),
            cell != Some(rowcol) ==> final(self).cell_sets() == cells_after_move(
                old(self).cell_sets(),
                old(self).0.spec.cols,
                entity,
                cell,
                rowcol,
            ),
            cell != Some(rowcol) ==> match event {
                Some(e) => {
                    &&& spec_flat_index(old(self).0.spec.cols, rowcol) < old(self).cell_sets().len()
                    &&& e.entity == entity
                    &&& e.cell == rowcol
                    &&& match cell {
                        Some(prev) => if spec_flat_index(old(self).0.spec.cols, prev) < old(self).cell_sets().len() {
                            &&& e.prev_cell == Some(prev)
                            &&& e.prev_cell_empty == (old(self).cell_sets()[spec_flat_index(old(self).0.spec.cols, prev)].remove(entity)
                                == Set::<u64>::empty())
                        } else {
                            e.prev_cell.is_none() && !e.prev_cell_empty
                        },
                        None => e.prev_cell.is_none() && !e.prev_cell_empty,
                    }
                },
                None => spec_flat_index(old(self).0.spec.cols, rowcol) >= old(self).cell_sets().len(),
            },
    {
        let mut prev_cell: Option<RowCol> = None;
        let mut prev_cell_empty: bool = false;
        if let Some(prev) = cell {
            if prev.0 == rowcol.0 && prev.1 == rowcol.1 {
                return None;
            }
            let i = self.0.spec.flat_index(prev);
            if i < self.0.cells.len() {
                self.0.cells[i].remove(entity);
                prev_cell = Some(prev);
                prev_cell_empty = self.0.cells[i].is_empty();
            }
        }
        proof {
            assert(sets_view(self.0.cells@) =~= cells_after_leave(sets_view(old(self).0.cells@), self.0.spec.cols, entity, cell));
        }
        let j = self.0.spec.flat_index(rowcol);
        if j < self.0.cells.len() {
            self.0.cells[j].insert(entity);
            proof {
                assert(sets_view(self.0.cells@) =~= cells_after_move(sets_view(old(self).0.cells@), self.0.spec.cols, entity, cell, rowcol));
            }
            return Some(EntityGridEvent { entity, prev_cell, prev_cell_empty, cell: rowcol });
        }
        None
    }

    /// Removes `entity` from the cell recorded for it; nothing happens when no
    /// cell is recorded or the recorded cell is not stored.
    pub fn remove(&mut self, entity: u64, grid_entity: &GridEntity)
        ensures
            final(self).0.spec == old(self).0.spec,
            final(self).cell_sets() == cells_after_leave(
                old(self).cell_sets(),
                old(self).0.spec.cols,
                entity,
                grid_entity.cell,
            ),
    {
        if let Some(cell) = grid_entity.cell {
            let i = self.0.spec.flat_index(cell);
            if i < self.0.cells.len() {
                self.0.cells[i].remove(entity);
            }
        }
        proof {
            assert(sets_view(self.0.cells@) =~= cells_after_leave(sets_view(old(self).0.cells@), self.0.spec.cols, entity, grid_entity.cell));
        }
    }

    /// Entities in the cells within `radius` of `rowcol` (the cells listed by
    /// `Grid2::get_in_radius_discrete`); every listed cell must be stored.
    pub fn get_entities_in_radius_discrete(&self, rowcol: RowCol, radius: u16) -> (entities: EntitySet)
        requires
            self.0.radius_scan_defined(rowcol, radius),
            forall|p: RowCol| #[trigger] self.0.spec_radius_member(rowcol, radius, p)
                ==> spec_flat_index(self.0.spec.cols, p) < self.0.cells@.len(),
        ensures
            forall|e: u64| entities@.contains(e) <==> exists|p: RowCol|
                #[trigger] self.0.spec_radius_member(rowcol, radius, p)
                    && cell_holds(self.cell_sets(), self.0.spec.cols, p, e),
    {
        let mut other_entities = EntitySet::new();
        let positions = self.0.get_in_radius_discrete(rowcol, radius);
        let mut k: usize = 0;
        while k < positions.len()
            invariant
                0 <= k <= positions@.len(),
                forall|p: RowCol| positions@.contains(p) <==> self.0.spec_radius_member(rowcol, radius, p),
                forall|p: RowCol| #[trigger] self.0.spec_radius_member(rowcol, radius, p)
                    ==> spec_flat_index(self.0.spec.cols, p) < self.0.cells@.len(),
                forall|e: u64| other_entities@.contains(e) <==> exists|j: int|
                    0 <= j < k && #[trigger] cell_holds(self.cell_sets(), self.0.spec.cols, positions@[j], e),
            decreases positions@.len() - k,
        {
            let p = positions[k];
            assert(positions@.contains(p));
            let i = self.0.spec.flat_index(p);
            let ghost prev = other_entities@;
            other_entities.extend_from(&self.0.cells[i]);
            proof {
                assert forall|e: u64| other_entities@.contains(e) <==> exists|j: int|
                    0 <= j < k + 1 && #[trigger] cell_holds(self.cell_sets(), self.0.spec.cols, positions@[j], e) by {
                    if cell_holds(self.cell_sets(), self.0.spec.cols, positions@[k as int], e) {
                        assert(self.cell_sets()[i as int] == self.0.cells@[i as int]@);
                    }
                    if other_entities@.contains(e) && !prev.contains(e) {
                        assert(self.0.cells@[i as int]@.contains(e));
                        assert(cell_holds(self.cell_sets(), self.0.spec.cols, positions@[k as int], e));
                    }
                }
            }
            k = k + 1;
        }
        proof {
            assert forall|e: u64| other_entities@.contains(e) <==> exists|p: RowCol|
                #[trigger] self.0.spec_radius_member(rowcol, radius, p)
                    && cell_holds(self.cell_sets(), self.0.spec.cols, p, e) by {
                if other_entities@.contains(e) {
                    let j = choose|j: int| 0 <= j < k && #[trigger] cell_holds(self.cell_sets(), self.0.spec.cols, positions@[j], e);
                    assert(positions@.contains(positions@[j]));
                    assert(self.0.spec_radius_member(rowcol, radius, positions@[j]));
                }
                if exists|p: RowCol| #[trigger] self.0.spec_radius_member(rowcol, radius, p)
                    && cell_holds(self.cell_sets(), self.0.spec.cols, p, e) {
                    let p = choose|p: RowCol| #[trigger] self.0.spec_radius_member(rowcol, radius, p)
                        && cell_holds(self.cell_sets(), self.0.spec.cols, p, e);
                    assert(positions@.contains(p));
                    let j = choose|j: int| 0 <= j < positions@.len() && positions@[j] == p;
                    assert(cell_holds(self.cell_sets(), self.0.spec.cols, positions@[j], e));
                }
            }
        }
        other_entities
    }

    /// Entities in the stored cells of the rectangle from `min` to `max`
    /// (inclusive), each listed once, in an order the hash set decides.
    pub fn get_entities_in_rowcol_range(&self, min: RowCol, max: RowCol) -> (entities: Vec<u64>)
        ensures
            entities@.no_duplicates(),
            forall|e: u64| entities@.contains(e) <==> exists|p: RowCol|
                min.0 <= p.0 <= max.0 && min.1 <= p.1 <= max.1
                    && #[trigger] cell_holds(self.cell_sets(), self.0.spec.cols, p, e),
    {
        let mut result = EntitySet::new();
        let positions = Grid2::<EntitySet>::get_in_rowcol_range(min, max);
        let mut k: usize = 0;
        while k < positions.len()
            invariant
                0 <= k <= positions@.len(),
                forall|p: RowCol|
                    positions@.contains(p) <==> (min.0 <= p.0 <= max.0 && min.1 <= p.1 <= max.1),
                forall|e: u64| result@.contains(e) <==> exists|j: int|
                    0 <= j < k && #[trigger] cell_holds(self.cell_sets(), self.0.spec.cols, positions@[j], e),
            decreases positions@.len() - k,
        {
            let p = positions[k];
            let i = self.0.spec.flat_index(p);
            let ghost prev = result@;
            if i < self.0.cells.len() {
                result.extend_from(&self.0.cells[i]);
            }
            proof {
                assert forall|e: u64| result@.contains(e) <==> exists|j: int|
                    0 <= j < k + 1 && #[trigger] cell_holds(self.cell_sets(), self.0.spec.cols, positions@[j], e) by {
                    if cell_holds(self.cell_sets(), self.0.spec.cols, positions@[k as int], e) {
                        assert(self.cell_sets()[i as int] == self.0.cells@[i as int]@);
                    }
                    if result@.contains(e) && !prev.contains(e) {
                        assert(i < self.0.cells@.len());
                        assert(self.0.cells@[i as int]@.contains(e));
                        assert(cell_holds(self.cell_sets(), self.0.spec.cols, positions@[k as int], e));
                    }
                }
            }
            k = k + 1;
        }
        let ids = result.to_vec();
        proof {
            assert forall|e: u64| ids@.contains(e) <==> exists|p: RowCol|
                min.0 <= p.0 <= max.0 && min.1 <= p.1 <= max.1
                    && #[trigger] cell_holds(self.cell_sets(), self.0.spec.cols, p, e) by {
                assert(ids@.contains(e) <==> ids@.to_set().contains(e));
                if result@.contains(e) {
                    let j = choose|j: int| 0 <= j < k && #[trigger] cell_holds(self.cell_sets(), self.0.spec.cols, positions@[j], e);
                    assert(positions@.contains(positions@[j]));
                }
                if exists|p: RowCol| min.0 <= p.0 <= max.0 && min.1 <= p.1 <= max.1
                    && #[trigger] cell_holds(self.cell_sets(), self.0.spec.cols, p, e) {
                    let p = choose|p: RowCol| min.0 <= p.0 <= max.0 && min.1 <= p.1 <= max.1
                        && #[trigger] cell_holds(self.cell_sets(), self.0.spec.cols, p, e);
                    assert(positions@.contains(p));
                    let j = choose|j: int| 0 <= j < positions@.len() && positions@[j] == p;
                    assert(cell_holds(self.cell_sets(), self.0.spec.cols, positions@[j], e));
                }
            }
        }
        ids
    }
}

/// `entity` is held by the cell at index `i` and by no other cell.
pub open spec fn only_in(cells: Seq<Set<u64>>, entity: u64, i: int) -> bool {
    &&& 0 <= i < cells.len()
    &&& cells[i].contains(entity)
    &&& forall|j: int| 0 <= j < cells.len() && j != i ==> !(#[trigger] cells[j]).contains(entity)
}

/// `entity` is held by no cell.
pub open spec fn in_no_cell(cells: Seq<Set<u64>>, entity: u64) -> bool {
    forall|j: int| 0 <= j < cells.len() ==> !(#[trigger] cells[j]).contains(entity)
}

/// An entity is tracked in exactly one cell: if the grid holds `entity` only
/// in its recorded cell (or nowhere, when no cell is recorded), then after
/// the entity moves to a stored cell `rowcol` the grid holds it only there.
pub proof fn lemma_move_keeps_single_cell(cells: Seq<Set<u64>>, cols: u16, entity: u64, cell: Option<RowCol>, rowcol: RowCol)
    requires
        match cell {
            Some(prev) => only_in(cells, entity, spec_flat_index(cols, prev)),
            None => in_no_cell(cells, entity),
        },
        spec_flat_index(cols, rowcol) < cells.len(),
    ensures
        only_in(cells_after_move(cells, cols, entity, cell, rowcol), entity, spec_flat_index(cols, rowcol)),
{
    let left = cells_after_leave(cells, cols, entity, cell);
    assert(in_no_cell(left, entity)) by {
        match cell {
            Some(prev) => lemma_remove_clears_entity(cells, cols, entity, prev),
            None => {},
        }
    }
}

/// Removing an entity takes it out of the grid entirely: if the grid holds
/// `entity` only in its recorded cell, then after `remove` no cell holds it.
pub proof fn lemma_remove_clears_entity(cells: Seq<Set<u64>>, cols: u16, entity: u64, cell: RowCol)
    requires
        only_in(cells, entity, spec_flat_index(cols, cell)),
    ensures
        in_no_cell(cells_after_leave(cells, cols, entity, Some(cell)), entity),
{
    let left = cells_after_leave(cells, cols, entity, Some(cell));
    assert(in_no_cell(left, entity)) by {
        assert forall|j: int| 0 <= j < left.len() implies !(#[trigger] left[j]).contains(entity) by {
            if j == spec_flat_index(cols, cell) {
                assert(left[j] == cells[j].remove(entity));
            } else {
                assert(left[j] == cells[j]);
            }
        }
    }
}


/// Moving an entity changes only that entity's membership: the number of
/// cells stays, every other entity is held by exactly the cells that held it
/// before, the entity is held by its new cell (when stored), and it is no
/// longer held by the stored cell it left. Removing an entity likewise
/// leaves every other entity where it was.
pub proof fn lemma_move_touches_only_entity(cells: Seq<Set<u64>>, cols: u16, entity: u64, cell: Option<RowCol>, rowcol: RowCol)
    ensures
        cells_after_leave(cells, cols, entity, cell).len() == cells.len(),
        cells_after_move(cells, cols, entity, cell, rowcol).len() == cells.len(),
        forall|j: int, e: u64|
            0 <= j < cells.len() && e != entity ==> (#[trigger] cells_after_move(cells, cols, entity, cell, rowcol)[j].contains(e)
                <==> cells[j].contains(e)),
        forall|j: int, e: u64|
            0 <= j < cells.len() && e != entity ==> (#[trigger] cells_after_leave(cells, cols, entity, cell)[j].contains(e)
                <==> cells[j].contains(e)),
        spec_flat_index(cols, rowcol) < cells.len() ==> cells_after_move(cells, cols, entity, cell, rowcol)[spec_flat_index(
            cols,
            rowcol,
        )].contains(entity),
        match cell {
            Some(prev) => spec_flat_index(cols, prev) < cells.len() ==> !cells_after_leave(cells, cols, entity, cell)[spec_flat_index(cols, prev)].contains(entity)
                && (spec_flat_index(cols, prev) != spec_flat_index(cols, rowcol) ==> !cells_after_move(
                cells,
                cols,
                entity,
                cell,
                rowcol,
            )[spec_flat_index(cols, prev)].contains(entity)),
            None => true,
        },
{
}

} // verus!
