use vstd::prelude::*;
use crate::grid::grid2::{Grid2, lex_lt, radius_scan, scan_defined, sorted_lex};
use crate::grid::obstacles::Obstacle;
use crate::grid::spec::{GridSpec, RowCol, spec_flat_index};

verus! {

/// A source cell is a search goal: it lies in the flow grid and the obstacle
/// grid holds no obstacle there.
pub open spec fn is_goal(flow: GridSpec, obstacles: Grid2<Obstacle>, p: RowCol) -> bool {
    flow.spec_in_bounds(p) && obstacles.cells@[spec_flat_index(obstacles.spec.cols, p)] == Obstacle::Empty
}

/// The obstacle lookup of every in-bounds source is within the obstacle cells.
pub open spec fn goals_lookup_defined(flow: GridSpec, obstacles: Grid2<Obstacle>, sources: Seq<RowCol>) -> bool {
    forall|k: int|
        0 <= k < sources.len() && flow.spec_in_bounds(#[trigger] sources[k])
            ==> spec_flat_index(obstacles.spec.cols, sources[k]) < obstacles.cells@.len()
}

/// Inserts `p` into a strictly sorted list unless it is already there.
fn insert_sorted(list: &mut Vec<RowCol>, p: RowCol)
    requires
        sorted_lex(old(list)@),
    ensures
        sorted_lex(final(list)@),
        forall|q: RowCol| final(list)@.contains(q) <==> (old(list)@.contains(q) || q == p),
{
    let mut i: usize = 0;
    while i < list.len()
        invariant
            0 <= i <= list@.len(),
            list@ == old(list)@,
            sorted_lex(list@),
            forall|k: int| 0 <= k < i ==> lex_lt(#[trigger] list@[k], p),
        ensures
            0 <= i <= list@.len(),
            list@ == old(list)@,
            forall|k: int| 0 <= k < i ==> lex_lt(#[trigger] list@[k], p),
            i < list@.len() ==> !lex_lt(list@[i as int], p) && list@[i as int] != p,
        decreases list@.len() - i,
    {
        let q = list[i];
        if q.0 == p.0 && q.1 == p.1 {
            assert(list@[i as int] == p);
            assert(list@.contains(p));
            return;
        }
        if !(q.0 < p.0 || (q.0 == p.0 && q.1 < p.1)) {
            break;
        }
        i = i + 1;
    }
    let ghost before = list@;
    list.insert(i, p);
    proof {
        assert(list@ =~= before.subrange(0, i as int).push(p) + before.subrange(i as int, before.len() as int));
        assert forall|a: int, b: int| 0 <= a < b < list@.len() implies lex_lt(#[trigger] list@[a], #[trigger] list@[b]) by {
            if b < i {
                assert(list@[a] == before[a] && list@[b] == before[b]);
            } else if b == i {
                assert(list@[a] == before[a]);
            } else if a < i {
                assert(list@[a] == before[a] && list@[b] == before[b - 1]);
                assert(lex_lt(before[a], p));
                assert(i < before.len());
                assert(!lex_lt(before[i as int], p) && before[i as int] != p);
                if a < i {
                    assert(lex_lt(before[a], before[b - 1]) || b - 1 == a);
                }
            } else if a == i {
                assert(list@[b] == before[b - 1]);
                assert(!lex_lt(before[i as int], p) && before[i as int] != p);
                if b - 1 > i {
                    assert(lex_lt(before[i as int], before[b - 1]));
                }
            } else {
                assert(list@[a] == before[a - 1] && list@[b] == before[b - 1]);
            }
        }
        assert forall|q: RowCol| list@.contains(q) <==> (before.contains(q) || q == p) by {
            if list@.contains(q) {
                let k = choose|k: int| 0 <= k < list@.len() && list@[k] == q;
                if k < i {
                    assert(before[k] == q);
                } else if k > i {
                    assert(before[k - 1] == q);
                }
            }
            if before.contains(q) {
                let k = choose|k: int| 0 <= k < before.len() && before[k] == q;
                if k < i {
                    assert(list@[k] == q);
                } else {
                    assert(list@[k + 1] == q);
                }
            }
            if q == p {
                assert(list@[i as int] == p);
            }
        }
        assert(before == old(list)@);
        assert(forall|q: RowCol| list@.contains(q) <==> (old(list)@.contains(q) || q == p));
    }
}

/// The goals of a navigation search: the distinct source cells that lie in
/// the flow grid and hold no obstacle, in row-major order (the order of a
/// `BTreeSet` of cells; its first element is the first goal).
pub fn goal_cells(flow: &GridSpec, sources: &Vec<RowCol>, obstacles: &Grid2<Obstacle>) -> (goals: Vec<RowCol>)
    requires
        goals_lookup_defined(*flow, *obstacles, sources@),
    ensures
        sorted_lex(goals@),
        forall|p: RowCol| goals@.contains(p) <==> (sources@.contains(p) && is_goal(*flow, *obstacles, p)),
{
    let mut goals: Vec<RowCol> = Vec::new();
    let mut k: usize = 0;
    while k < sources.len()
        invariant
            0 <= k <= sources@.len(),
            goals_lookup_defined(*flow, *obstacles, sources@),
            sorted_lex(goals@),
            forall|p: RowCol| goals@.contains(p) <==> (sources@.take(k as int).contains(p) && is_goal(*flow, *obstacles, p)),
        decreases sources@.len() - k,
    {
        let rowcol = sources[k];
        if flow.in_bounds(rowcol) && *obstacles.index(rowcol) == Obstacle::Empty {
            insert_sorted(&mut goals, rowcol);
        }
        proof {
            let t0 = sources@.take(k as int);
            let t1 = sources@.take(k as int + 1);
            assert(t1 =~= t0.push(rowcol));
            assert forall|p: RowCol| goals@.contains(p) <==> (t1.contains(p) && is_goal(*flow, *obstacles, p)) by {
                if t1.contains(p) && p != rowcol {
                    let j = choose|j: int| 0 <= j < t1.len() && t1[j] == p;
                    assert(t0[j] == p);
                }
                if t0.contains(p) {
                    let j = choose|j: int| 0 <= j < t0.len() && t0[j] == p;
                    assert(t1[j] == p);
                }
                if p == rowcol {
                    assert(t1[k as int] == p);
                }
            }
        }
        k = k + 1;
    }
    proof {
        assert(sources@.take(sources@.len() as int) =~= sources@);
    }
    goals
}

/// The eight neighbours of an interior cell, each with whether it is a
/// diagonal step, in row-major order. Navigation only asks for the
/// neighbours of cells off the grid's boundary.
pub fn neighbors8(rowcol: RowCol) -> (neighbors: Vec<(RowCol, bool)>)
    requires
        1 <= rowcol.0 < 65535,
        1 <= rowcol.1 < 65535,
    ensures
        neighbors@ == seq![
            (((rowcol.0 - 1) as u16, (rowcol.1 - 1) as u16), true),
            (((rowcol.0 - 1) as u16, rowcol.1), false),
            (((rowcol.0 - 1) as u16, (rowcol.1 + 1) as u16), true),
            ((rowcol.0, (rowcol.1 - 1) as u16), false),
            ((rowcol.0, (rowcol.1 + 1) as u16), false),
            (((rowcol.0 + 1) as u16, (rowcol.1 - 1) as u16), true),
            (((rowcol.0 + 1) as u16, rowcol.1), false),
            (((rowcol.0 + 1) as u16, (rowcol.1 + 1) as u16), true),
        ],
{
    let (row, col) = rowcol;
    let neighbors = vec![
        ((row - 1, col - 1), true),
        ((row - 1, col), false),
        ((row - 1, col + 1), true),
        ((row, col - 1), false),
        ((row, col + 1), false),
        ((row + 1, col - 1), true),
        ((row + 1, col), false),
        ((row + 1, col + 1), true),
    ];
    proof {
        assert(neighbors@ =~= seq![
            (((rowcol.0 - 1) as u16, (rowcol.1 - 1) as u16), true),
            (((rowcol.0 - 1) as u16, rowcol.1), false),
            (((rowcol.0 - 1) as u16, (rowcol.1 + 1) as u16), true),
            ((rowcol.0, (rowcol.1 - 1) as u16), false),
            ((rowcol.0, (rowcol.1 + 1) as u16), false),
            (((rowcol.0 + 1) as u16, (rowcol.1 - 1) as u16), true),
            (((rowcol.0 + 1) as u16, rowcol.1), false),
            (((rowcol.0 + 1) as u16, (rowcol.1 + 1) as u16), true),
        ]);
    }
    neighbors
}

/// A neighbour the search may step into: off the flow grid's boundary and free
/// of obstacles.
pub fn is_passable(flow: &GridSpec, obstacles: &Grid2<Obstacle>, rowcol: RowCol) -> (passable: bool)
    requires
        rowcol.0 != 0 ==> flow.rows > 0,
        (rowcol.0 != 0 && rowcol.0 != flow.rows - 1 && rowcol.1 != 0) ==> flow.cols > 0,
        !flow.spec_is_boundary(rowcol) ==> spec_flat_index(obstacles.spec.cols, rowcol) < obstacles.cells@.len(),
    ensures
        passable == (!flow.spec_is_boundary(rowcol) && obstacles.cells@[spec_flat_index(obstacles.spec.cols, rowcol)]
            == Obstacle::Empty),
{
    if flow.is_boundary(rowcol) {
        return false;
    }
    if *obstacles.index(rowcol) != Obstacle::Empty {
        return false;
    }
    true
}

/// The start cells of a waypoint search: for each source cell in turn, the
/// cells within radius 2 of it (as `Grid2::get_in_radius_discrete` lists them).
pub fn waypoint_sources(flow: &GridSpec, cells: &Vec<RowCol>) -> (sources: Vec<RowCol>)
    requires
        forall|k: int| 0 <= k < cells@.len() ==> scan_defined(*flow, #[trigger] cells@[k], 2),
    ensures
        sources@ == cells@.fold_left(Seq::<RowCol>::empty(), |acc: Seq<RowCol>, c: RowCol|
            acc + radius_scan(*flow, c, 2)),
{
    let grid: Grid2<()> = Grid2 { spec: *flow, cells: Vec::new() };
    let mut sources: Vec<RowCol> = Vec::new();
    let mut k: usize = 0;
    while k < cells.len()
        invariant
            0 <= k <= cells@.len(),
            grid.spec == *flow,
            forall|j: int| 0 <= j < cells@.len() ==> scan_defined(*flow, #[trigger] cells@[j], 2),
            sources@ == cells@.take(k as int).fold_left(Seq::<RowCol>::empty(), |acc: Seq<RowCol>, c: RowCol|
                acc + radius_scan(*flow, c, 2)),
        decreases cells@.len() - k,
    {
        let rowcol = cells[k];
        let around = grid.get_in_radius_discrete(rowcol, 2);
        let mut j: usize = 0;
        let ghost base = sources@;
        while j < around.len()
            invariant
                0 <= j <= around@.len(),
                sources@ == base + around@.take(j as int),
            decreases around@.len() - j,
        {
            sources.push(around[j]);
            proof {
                assert(around@.take(j as int + 1) =~= around@.take(j as int).push(around@[j as int]));
            }
            j = j + 1;
        }
        proof {
            assert(around@.take(around@.len() as int) =~= around@);
            assert(cells@.take(k as int + 1).drop_last() =~= cells@.take(k as int));
        }
        k = k + 1;
    }
    proof {
        assert(cells@.take(cells@.len() as int) =~= cells@);
    }
    sources
}

} // verus!
