use vstd::prelude::*;
use crate::grid::grid2::{Grid2, in_radius_defined, spec_in_radius};
use crate::grid::spec::{GridSpec, RowCol, spec_flat_index};
use crate::team::Team;

verus! {

/// How much of a cell the player sees, as drawn by the fog-of-war layer:
/// never seen (opaque fog), seen before (half fog), or in sight (clear).
#[derive(Clone, Copy, Debug, PartialEq, Eq, Structural)]
pub enum Fog {
    Hidden,
    Explored,
    Visible,
}

/// Whether an entity is drawn.
#[derive(Clone, Copy, Debug, PartialEq, Eq, Structural)]
pub enum Visibility {
    Visible,
    Hidden,
}

/// The parts of the game configuration that fog of war reads.
#[derive(Clone, Copy, Debug)]
pub struct VisionConfig {
    /// The team the player controls.
    pub player_team: Team,
    /// Radius, in cells, within which an entity makes cells visible to its team.
    pub visibility_radius: u16,
    /// Radius, in cells, within which the player's entities clear the fog.
    pub fog_radius: u16,
}

/// Per-team count of entities that currently see a cell.
#[derive(Clone, Copy, Debug)]
pub struct TeamVisibility {
    pub teams: [u32; 3],
}

impl TeamVisibility {
    /// Count for one team.
    pub open spec fn count(&self, team: Team) -> u32 {
        self.teams@[team.spec_index()]
    }

    /// Counts of a cell that no team sees.
    pub open spec fn new_spec() -> TeamVisibility {
        TeamVisibility { teams: [0, 0, 0] }
    }

    /// No team sees the cell.
    pub fn new() -> (v: TeamVisibility)
        ensures
            v == TeamVisibility::new_spec(),
            forall|t: Team| #[trigger] v.count(t) == 0,
    {
        TeamVisibility { teams: [0, 0, 0] }
    }

    /// Number of entities of `team` that see the cell.
    pub fn get(&self, team: Team) -> (n: u32)
        ensures
            n == self.count(team),
    {
        self.teams[team.index()]
    }

    /// Mutable access to the count of `team`.
    pub fn get_mut(&mut self, team: Team) -> (n: &mut u32)
        ensures
            *n == old(self).count(team),
            final(self).count(team) == *final(n),
            forall|t: Team| t != team ==> #[trigger] final(self).count(t) == old(self).count(t),
    {
        &mut self.teams[team.index()]
    }
}

/// Number of entries of `s` whose row-major index (with `cols` columns) is `i`.
pub open spec fn count_hits(s: Seq<RowCol>, cols: u16, i: int) -> nat
    decreases s.len(),
{
    if s.len() == 0 {
        0
    } else {
        count_hits(s.drop_last(), cols, i) + if spec_flat_index(cols, s.last()) == i {
            1nat
        } else {
            0nat
        }
    }
}

/// Some entry of `s` has row-major index `i` and lies strictly within
/// `radius` of `center`.
pub open spec fn hit_within(s: Seq<RowCol>, cols: u16, i: int, center: RowCol, radius: u16) -> bool {
    exists|j: int|
        0 <= j < s.len() && spec_flat_index(cols, #[trigger] s[j]) == i && spec_in_radius(center, s[j], radius)
}

/// `a - b`, or 0 when `b` exceeds `a`.
pub open spec fn sat_sub(a: int, b: int) -> int {
    if a >= b { a - b } else { 0 }
}

/// Decrementing a positive count `count` times at most `hits` (stopping at 0)
/// reaches 0.
pub open spec fn reaches_zero(count: int, hits: int) -> bool {
    count > 0 && hits >= count
}

proof fn lemma_count_hits_take(s: Seq<RowCol>, cols: u16, i: int, k: int)
    requires
        0 <= k < s.len(),
    ensures
        count_hits(s.take(k + 1), cols, i) == count_hits(s.take(k), cols, i) + if spec_flat_index(cols, s[k]) == i {
            1int
        } else {
            0int
        },
{
    assert(s.take(k + 1).drop_last() =~= s.take(k));
}

proof fn lemma_count_hits_prefix(s: Seq<RowCol>, cols: u16, i: int, k: int)
    requires
        0 <= k <= s.len(),
    ensures
        count_hits(s.take(k), cols, i) <= count_hits(s, cols, i),
    decreases s.len(),
{
    if k == s.len() {
        assert(s.take(k) =~= s);
    } else {
        lemma_count_hits_prefix(s.drop_last(), cols, i, k);
        assert(s.drop_last().take(k) =~= s.take(k));
    }
}

/// Visibility counts per cell and team.
pub struct VisibilityGrid(pub Grid2<TeamVisibility>);

/// `new` holds the counts of `old` after an entity of `team` at `cell` started
/// seeing the cells listed for `radius`: each stored cell's count for `team`
/// grew by the number of times the list names it; nothing else changed.
pub open spec fn counts_after_add(old: VisibilityGrid, new: VisibilityGrid, cell: RowCol, team: Team, radius: u16) -> bool {
    &&& new.0.spec == old.0.spec
    &&& new.len() == old.len()
    &&& forall|i: int, t: Team|
        0 <= i < old.len() ==> #[trigger] new.count_at(i, t) == if t == team {
            old.count_at(i, t) + count_hits(old.0.spec_radius_scan(cell, radius), old.0.spec.cols, i)
        } else {
            old.count_at(i, t)
        }
}

/// `new` holds the counts of `old` after an entity of `team` at `cell` stopped
/// seeing the cells listed for `radius`: each stored cell's count for `team`
/// shrank by the number of times the list names it, stopping at zero.
pub open spec fn counts_after_remove(old: VisibilityGrid, new: VisibilityGrid, cell: RowCol, team: Team, radius: u16) -> bool {
    &&& new.0.spec == old.0.spec
    &&& new.len() == old.len()
    &&& forall|i: int, t: Team|
        0 <= i < old.len() ==> #[trigger] new.count_at(i, t) == if t == team {
            sat_sub(old.count_at(i, t), count_hits(old.0.spec_radius_scan(cell, radius), old.0.spec.cols, i) as int)
        } else {
            old.count_at(i, t)
        }
}

/// Fog after the player's entity at `cell` arrived: listed stored cells within
/// `fog_radius` of `cell` are clear; other cells keep their fog. Other teams
/// leave the fog as it was.
pub open spec fn fog_after_add(grid: VisibilityGrid, old: Seq<Fog>, new: Seq<Fog>, cell: RowCol, team: Team, config: VisionConfig) -> bool {
    &&& new.len() == old.len()
    &&& forall|i: int|
        0 <= i < old.len() ==> #[trigger] new[i] == if team == config.player_team && i < grid.len() && hit_within(
            grid.0.spec_radius_scan(cell, config.visibility_radius),
            grid.0.spec.cols,
            i,
            cell,
            config.fog_radius,
        ) {
            Fog::Visible
        } else {
            old[i]
        }
}

/// Fog after the player's entity at `cell` left: stored cells whose count for
/// the player's team dropped to zero become explored; other cells keep their
/// fog. Other teams leave the fog as it was.
pub open spec fn fog_after_remove(grid: VisibilityGrid, old: Seq<Fog>, new: Seq<Fog>, cell: RowCol, team: Team, config: VisionConfig) -> bool {
    &&& new.len() == old.len()
    &&& forall|i: int|
        0 <= i < old.len() ==> #[trigger] new[i] == if team == config.player_team && i < grid.len() && reaches_zero(
            grid.count_at(i, team),
            count_hits(grid.0.spec_radius_scan(cell, config.visibility_radius), grid.0.spec.cols, i) as int,
        ) {
            Fog::Explored
        } else {
            old[i]
        }
}

impl VisibilityGrid {
    /// Count of `team` at stored cell `i`.
    pub open spec fn count_at(&self, i: int, team: Team) -> int {
        self.0.cells@[i].count(team) as int
    }

    /// Number of stored cells.
    pub open spec fn len(&self) -> nat {
        self.0.cells@.len()
    }

    /// Replaces the spec and resizes the counts to `rows * cols` cells; kept
    /// cells keep their counts and new cells start at zero for every team.
    pub fn resize_with(&mut self, spec: GridSpec)
        ensures
            final(self).0.spec == spec,
            final(self).len() == spec.spec_num_cells(),
            forall|i: int, t: Team|
                0 <= i < final(self).len() ==> #[trigger] final(self).count_at(i, t) == if i < old(self).len() {
                    old(self).count_at(i, t)
                } else {
                    0
                },
    {
        self.0.spec = spec;
        let n = self.0.spec.num_cells();
        if n <= self.0.cells.len() {
            self.0.cells.truncate(n);
        } else {
            while self.0.cells.len() < n
                invariant
                    self.0.spec == spec,
                    n == spec.spec_num_cells(),
                    old(self).len() <= self.len() <= n,
                    forall|i: int, t: Team| 0 <= i < self.len() ==> #[trigger] self.count_at(i, t) == if i < old(self).len() {
                        old(self).count_at(i, t)
                    } else {
                        0
                    },
                decreases n - self.len(),
            {
                let ghost prev = *self;
                self.0.cells.push(TeamVisibility::new());
                proof {
                    assert forall|i: int, t: Team| 0 <= i < self.len() implies #[trigger] self.count_at(i, t) == if i < old(self).len() {
                        old(self).count_at(i, t)
                    } else {
                        0
                    } by {
                        if i < prev.len() {
                            assert(self.0.cells@[i] == prev.0.cells@[i]);
                            assert(self.count_at(i, t) == prev.count_at(i, t));
                        } else {
                            assert(self.0.cells@[i] == TeamVisibility::new_spec());
                        }
                    }
                }
            }
        }
    }

    /// Whether the cell is in sight of `team`: some entity of the team sees
    /// it. Cells that are not stored are never in sight.
    pub fn get_visibility(&self, cell: RowCol, team: Team) -> (v: Visibility)
        ensures
            v == if spec_flat_index(self.0.spec.cols, cell) < self.len() && self.count_at(
                spec_flat_index(self.0.spec.cols, cell),
                team,
            ) > 0 {
                Visibility::Visible
            } else {
                Visibility::Hidden
            },
    {
        if let Some(visibility) = self.0.get(cell) {
            if visibility.get(team) > 0 {
                return Visibility::Visible;
            }
        }
        Visibility::Hidden
    }

    /// An entity of `team` standing at `cell` starts seeing every cell of
    /// `Grid2::get_in_radius_discrete(cell, visibility_radius)`: each stored
    /// cell's count for `team` grows by the number of times the list names it.
    /// For the player's team, listed cells within `fog_radius` of `cell` become
    /// clear of fog.
    pub fn add_visibility(&mut self, cell: RowCol, team: Team, config: &VisionConfig, visibility: &mut Vec<Fog>)
        requires
            old(self).0.radius_scan_defined(cell, config.visibility_radius),
            forall|i: int|
                0 <= i < old(self).len() ==> #[trigger] old(self).count_at(i, team) + count_hits(
                    old(self).0.spec_radius_scan(cell, config.visibility_radius),
                    old(self).0.spec.cols,
                    i,
                ) <= u32::MAX,
            team == config.player_team ==> forall|j: int|
                0 <= j < old(self).0.spec_radius_scan(cell, config.visibility_radius).len()
                    && spec_flat_index(old(self).0.spec.cols, #[trigger] old(self).0.spec_radius_scan(cell, config.visibility_radius)[j])
                    < old(self).len() ==> {
                    let p = old(self).0.spec_radius_scan(cell, config.visibility_radius)[j];
                    &&& in_radius_defined(cell, p, config.fog_radius)
                    &&& spec_in_radius(cell, p, config.fog_radius) ==> spec_flat_index(old(self).0.spec.cols, p)
                        < old(visibility)@.len()
                },
        ensures
            counts_after_add(*old(self), *final(self), cell, team, config.visibility_radius),
            fog_after_add(*old(self), old(visibility)@, final(visibility)@, cell, team, *config),
    {
        let radius = config.visibility_radius;
        let positions = self.0.get_in_radius_discrete(cell, radius);
        let ghost scan = positions@;
        let ghost cols = self.0.spec.cols;
        let mut k: usize = 0;
        while k < positions.len()
            invariant
                0 <= k <= scan.len(),
                positions@ == scan,
                scan == old(self).0.spec_radius_scan(cell, radius),
                radius == config.visibility_radius,
                cols == old(self).0.spec.cols,
                self.0.spec == old(self).0.spec,
                self.len() == old(self).len(),
                visibility@.len() == old(visibility)@.len(),
                forall|i: int|
                    0 <= i < old(self).len() ==> #[trigger] old(self).count_at(i, team) + count_hits(
                        scan,
                        cols,
                        i,
                    ) <= u32::MAX,
                team == config.player_team ==> forall|j: int|
                    0 <= j < scan.len() && spec_flat_index(cols, #[trigger] scan[j]) < old(self).len() ==> {
                        &&& in_radius_defined(cell, scan[j], config.fog_radius)
                        &&& spec_in_radius(cell, scan[j], config.fog_radius) ==> spec_flat_index(cols, scan[j])
                            < old(visibility)@.len()
                    },
                forall|i: int, t: Team|
                    0 <= i < old(self).len() ==> #[trigger] self.count_at(i, t) == if t == team {
                        old(self).count_at(i, t) + count_hits(scan.take(k as int), cols, i)
                    } else {
                        old(self).count_at(i, t)
                    },
                forall|i: int|
                    0 <= i < old(visibility)@.len() ==> #[trigger] visibility@[i] == if team
                        == config.player_team && i < old(self).len() && hit_within(
                        scan.take(k as int),
                        cols,
                        i,
                        cell,
                        config.fog_radius,
                    ) {
                        Fog::Visible
                    } else {
                        old(visibility)@[i]
                    },
            decreases scan.len() - k,
        {
            let other = positions[k];
            let idx = self.0.spec.flat_index(other);
            proof {
                assert forall|i: int| 0 <= i < old(self).len() implies count_hits(scan.take(k as int + 1), cols, i)
                    == count_hits(scan.take(k as int), cols, i) + (if spec_flat_index(cols, scan[k as int]) == i {
                    1int
                } else {
                    0int
                }) by {
                    lemma_count_hits_take(scan, cols, i, k as int);
                }
                assert forall|i: int| 0 <= i < old(self).len() implies count_hits(scan.take(k as int + 1), cols, i)
                    <= count_hits(scan, cols, i) by {
                    lemma_count_hits_prefix(scan, cols, i, k as int + 1);
                }
                assert(scan.take(k as int + 1).drop_last() =~= scan.take(k as int));
            }
            if idx < self.0.cells.len() {
                let ghost before = *self;
                let ghost before_vis = visibility@;
                assert(spec_flat_index(cols, scan[k as int]) == idx);
                assert(self.count_at(idx as int, team) == old(self).count_at(idx as int, team) + count_hits(scan.take(k as int), cols, idx as int));
                assert(self.count_at(idx as int, team) + 1 <= u32::MAX);
                let mut tv = self.0.cells[idx];
                let ghost tv0 = tv;
                let v = tv.get_mut(team);
                *v = *v + 1;
                assert(tv.count(team) == tv0.count(team) + 1);
                self.0.cells.set(idx, tv);
                assert(self.0.cells@[idx as int] == tv);
                if team == config.player_team && Grid2::<TeamVisibility>::in_radius(cell, other, config.fog_radius) {
                    visibility.set(idx, Fog::Visible);
                }
                proof {
                    assert forall|i: int, t: Team|
                        0 <= i < old(self).len() implies #[trigger] self.count_at(i, t) == if t == team {
                            old(self).count_at(i, t) + count_hits(scan.take(k as int + 1), cols, i)
                        } else {
                            old(self).count_at(i, t)
                        } by {
                        if i != idx {
                            assert(self.0.cells@[i] == before.0.cells@[i]);
                            assert(self.count_at(i, t) == before.count_at(i, t));
                            assert(before.count_at(i, t) == if t == team {
                                old(self).count_at(i, t) + count_hits(scan.take(k as int), cols, i)
                            } else {
                                old(self).count_at(i, t)
                            });
                        } else {
                            assert(before.count_at(i, t) == if t == team {
                                old(self).count_at(i, t) + count_hits(scan.take(k as int), cols, i)
                            } else {
                                old(self).count_at(i, t)
                            });
                            assert(before.0.cells@[i] == tv0);
                            if t != team {
                                assert(tv.count(t) == tv0.count(t));
                            }
                        }
                    }
                    assert forall|i: int|
                        0 <= i < old(visibility)@.len() implies #[trigger] visibility@[i] == if team
                            == config.player_team && i < old(self).len() && hit_within(
                            scan.take(k as int + 1),
                            cols,
                            i,
                            cell,
                            config.fog_radius,
                        ) {
                            Fog::Visible
                        } else {
                            old(visibility)@[i]
                        } by {
                        let s1 = scan.take(k as int + 1);
                        let s0 = scan.take(k as int);
                        if hit_within(s0, cols, i, cell, config.fog_radius) {
                            let j = choose|j: int| 0 <= j < s0.len() && spec_flat_index(cols, #[trigger] s0[j]) == i
                                && spec_in_radius(cell, s0[j], config.fog_radius);
                            assert(s1[j] == s0[j]);
                            assert(hit_within(s1, cols, i, cell, config.fog_radius));
                        }
                        if hit_within(s1, cols, i, cell, config.fog_radius) && !hit_within(s0, cols, i, cell, config.fog_radius) {
                            let j = choose|j: int| 0 <= j < s1.len() && spec_flat_index(cols, #[trigger] s1[j]) == i
                                && spec_in_radius(cell, s1[j], config.fog_radius);
                            if j < k {
                                assert(s0[j] == s1[j]);
                            }
                            assert(j == k);
                        }
                        if i == idx && team == config.player_team && spec_in_radius(cell, other, config.fog_radius) {
                            assert(s1[k as int] == other);
                            assert(hit_within(s1, cols, i, cell, config.fog_radius));
                        }
                    }
                }
            } else {
                proof {
                    assert forall|i: int|
                        0 <= i < old(visibility)@.len() implies #[trigger] visibility@[i] == if team
                            == config.player_team && i < old(self).len() && hit_within(
                            scan.take(k as int + 1),
                            cols,
                            i,
                            cell,
                            config.fog_radius,
                        ) {
                            Fog::Visible
                        } else {
                            old(visibility)@[i]
                        } by {
                        let s1 = scan.take(k as int + 1);
                        let s0 = scan.take(k as int);
                        if hit_within(s0, cols, i, cell, config.fog_radius) {
                            let j = choose|j: int| 0 <= j < s0.len() && spec_flat_index(cols, #[trigger] s0[j]) == i
                                && spec_in_radius(cell, s0[j], config.fog_radius);
                            assert(s1[j] == s0[j]);
                            assert(hit_within(s1, cols, i, cell, config.fog_radius));
                        }
                        if hit_within(s1, cols, i, cell, config.fog_radius) && !hit_within(s0, cols, i, cell, config.fog_radius) {
                            let j = choose|j: int| 0 <= j < s1.len() && spec_flat_index(cols, #[trigger] s1[j]) == i
                                && spec_in_radius(cell, s1[j], config.fog_radius);
                            if j < k {
                                assert(s0[j] == s1[j]);
                            }
                            assert(j == k);
                        }
                    }
                }
            }
            k = k + 1;
        }
        proof {
            assert(scan.take(scan.len() as int) =~= scan);
        }
    }

    /// An entity of `team` at `cell` stops seeing the cells of
    /// `Grid2::get_in_radius_discrete(cell, visibility_radius)`: for each time a
    /// stored cell is listed, its count for `team` drops by one unless already
    /// zero. For the player's team, a cell whose count drops to zero becomes
    /// explored (half fog).
    pub fn remove_visibility(&mut self, cell: RowCol, team: Team, config: &VisionConfig, visibility: &mut Vec<Fog>)
        requires
            old(self).0.radius_scan_defined(cell, config.visibility_radius),
            team == config.player_team ==> forall|i: int|
                0 <= i < old(self).len() && reaches_zero(
                    #[trigger] old(self).count_at(i, team),
                    count_hits(old(self).0.spec_radius_scan(cell, config.visibility_radius), old(self).0.spec.cols, i) as int,
                ) ==> i < old(visibility)@.len(),
        ensures
            counts_after_remove(*old(self), *final(self), cell, team, config.visibility_radius),
            fog_after_remove(*old(self), old(visibility)@, final(visibility)@, cell, team, *config),
    {
        let radius = config.visibility_radius;
        let positions = self.0.get_in_radius_discrete(cell, radius);
        let ghost scan = positions@;
        let ghost cols = self.0.spec.cols;
        let mut k: usize = 0;
        while k < positions.len()
            invariant
                0 <= k <= scan.len(),
                positions@ == scan,
                scan == old(self).0.spec_radius_scan(cell, radius),
                radius == config.visibility_radius,
                cols == old(self).0.spec.cols,
                self.0.spec == old(self).0.spec,
                self.len() == old(self).len(),
                visibility@.len() == old(visibility)@.len(),
                team == config.player_team ==> forall|i: int|
                    0 <= i < old(self).len() && reaches_zero(
                        #[trigger] old(self).count_at(i, team),
                        count_hits(scan, cols, i) as int,
                    ) ==> i < old(visibility)@.len(),
                forall|i: int, t: Team|
                    0 <= i < old(self).len() ==> #[trigger] self.count_at(i, t) == if t == team {
                        sat_sub(old(self).count_at(i, t), count_hits(scan.take(k as int), cols, i) as int)
                    } else {
                        old(self).count_at(i, t)
                    },
                forall|i: int|
                    0 <= i < old(visibility)@.len() ==> #[trigger] visibility@[i] == if team
                        == config.player_team && i < old(self).len() && reaches_zero(
                        old(self).count_at(i, team),
                        count_hits(scan.take(k as int), cols, i) as int,
                    ) {
                        Fog::Explored
                    } else {
                        old(visibility)@[i]
                    },
            decreases scan.len() - k,
        {
            let other = positions[k];
            let idx = self.0.spec.flat_index(other);
            proof {
                assert forall|i: int| 0 <= i < old(self).len() implies count_hits(scan.take(k as int + 1), cols, i)
                    == count_hits(scan.take(k as int), cols, i) + (if spec_flat_index(cols, scan[k as int]) == i {
                    1int
                } else {
                    0int
                }) by {
                    lemma_count_hits_take(scan, cols, i, k as int);
                }
            }
            if idx < self.0.cells.len() {
                let ghost before = *self;
                let ghost before_vis = visibility@;
                assert(spec_flat_index(cols, scan[k as int]) == idx);
                let mut tv = self.0.cells[idx];
                let ghost tv0 = tv;
                if tv.get(team) > 0 {
                    let v = tv.get_mut(team);
                    *v = *v - 1;
                    let now_zero = tv.get(team) == 0;
                    self.0.cells.set(idx, tv);
                    assert(self.0.cells@[idx as int] == tv);
                    if team == config.player_team && now_zero {
                        proof {
                            lemma_count_hits_prefix(scan, cols, idx as int, k as int + 1);
                            assert(before.count_at(idx as int, team) == sat_sub(old(self).count_at(idx as int, team), count_hits(scan.take(k as int), cols, idx as int) as int));
                            assert(tv0 == before.0.cells@[idx as int]);
                            assert(tv0.count(team) == before.count_at(idx as int, team));
                            assert(count_hits(scan.take(k as int + 1), cols, idx as int) == count_hits(scan.take(k as int), cols, idx as int) + 1);
                            assert(reaches_zero(old(self).count_at(idx as int, team), count_hits(scan, cols, idx as int) as int));
                        }
                        visibility.set(idx, Fog::Explored);
                    }
                }
                proof {
                    assert forall|i: int, t: Team|
                        0 <= i < old(self).len() implies #[trigger] self.count_at(i, t) == if t == team {
                            sat_sub(old(self).count_at(i, t), count_hits(scan.take(k as int + 1), cols, i) as int)
                        } else {
                            old(self).count_at(i, t)
                        } by {
                        assert(before.count_at(i, t) == if t == team {
                            sat_sub(old(self).count_at(i, t), count_hits(scan.take(k as int), cols, i) as int)
                        } else {
                            old(self).count_at(i, t)
                        });
                        if i != idx {
                            assert(self.0.cells@[i] == before.0.cells@[i]);
                            assert(self.count_at(i, t) == before.count_at(i, t));
                        } else {
                            assert(before.0.cells@[i] == tv0);
                            if t != team {
                                assert(tv.count(t) == tv0.count(t));
                            }
                        }
                    }
                    assert forall|i: int|
                        0 <= i < old(visibility)@.len() implies #[trigger] visibility@[i] == if team
                            == config.player_team && i < old(self).len() && reaches_zero(
                            old(self).count_at(i, team),
                            count_hits(scan.take(k as int + 1), cols, i) as int,
                        ) {
                            Fog::Explored
                        } else {
                            old(visibility)@[i]
                        } by {
                        assert(before_vis[i] == if team == config.player_team && i < old(self).len() && reaches_zero(
                            old(self).count_at(i, team),
                            count_hits(scan.take(k as int), cols, i) as int,
                        ) {
                            Fog::Explored
                        } else {
                            old(visibility)@[i]
                        });
                        if i == idx && i < old(self).len() {
                            assert(before.count_at(i, team) == sat_sub(old(self).count_at(i, team), count_hits(scan.take(k as int), cols, i) as int));
                        }
                    }
                }
            } else {
                proof {
                    assert forall|i: int, t: Team|
                        0 <= i < old(self).len() implies #[trigger] self.count_at(i, t) == if t == team {
                            sat_sub(old(self).count_at(i, t), count_hits(scan.take(k as int + 1), cols, i) as int)
                        } else {
                            old(self).count_at(i, t)
                        } by {
                        assert(i != idx);
                    }
                }
            }
            k = k + 1;
        }
        proof {
            assert(scan.take(scan.len() as int) =~= scan);
        }
    }
}

/// An entry of a list adds to the hit count of its own index.
proof fn lemma_count_hits_member(s: Seq<RowCol>, cols: u16, j: int)
    requires
        0 <= j < s.len(),
    ensures
        count_hits(s, cols, spec_flat_index(cols, s[j])) >= 1,
    decreases s.len(),
{
    if j < s.len() - 1 {
        lemma_count_hits_member(s.drop_last(), cols, j);
        assert(s.drop_last()[j] == s[j]);
    }
}

/// Taking sight away undoes giving it: when an entity of `team` at `cell`
/// starts seeing its surroundings and then stops seeing them (with the same
/// radius), every cell's counts are back to what they were, for every team.
pub proof fn lemma_remove_undoes_add(
    g0: VisibilityGrid,
    g1: VisibilityGrid,
    g2: VisibilityGrid,
    cell: RowCol,
    team: Team,
    radius: u16,
)
    requires
        counts_after_add(g0, g1, cell, team, radius),
        counts_after_remove(g1, g2, cell, team, radius),
    ensures
        g2.0.spec == g0.0.spec,
        g2.len() == g0.len(),
        forall|i: int, t: Team| 0 <= i < g0.len() ==> #[trigger] g2.count_at(i, t) == g0.count_at(i, t),
{
    assert forall|i: int, t: Team| 0 <= i < g0.len() implies #[trigger] g2.count_at(i, t) == g0.count_at(i, t) by {
        assert(g1.count_at(i, t) == if t == team {
            g0.count_at(i, t) + count_hits(g0.0.spec_radius_scan(cell, radius), g0.0.spec.cols, i)
        } else {
            g0.count_at(i, t)
        });
        assert(g2.count_at(i, t) == if t == team {
            sat_sub(g1.count_at(i, t), count_hits(g1.0.spec_radius_scan(cell, radius), g1.0.spec.cols, i) as int)
        } else {
            g1.count_at(i, t)
        });
    }
}

/// An entity makes its surroundings visible to its team: after an entity of
/// `team` at `cell` starts seeing, every stored cell listed by the radius scan
/// has a positive count for `team`, so `get_visibility` reports it visible.
pub proof fn lemma_added_cells_visible(
    g0: VisibilityGrid,
    g1: VisibilityGrid,
    cell: RowCol,
    team: Team,
    radius: u16,
    j: int,
)
    requires
        counts_after_add(g0, g1, cell, team, radius),
        0 <= j < g0.0.spec_radius_scan(cell, radius).len(),
        spec_flat_index(g0.0.spec.cols, g0.0.spec_radius_scan(cell, radius)[j]) < g0.len(),
    ensures
        g1.count_at(spec_flat_index(g0.0.spec.cols, g0.0.spec_radius_scan(cell, radius)[j]), team) > 0,
{
    let s = g0.0.spec_radius_scan(cell, radius);
    lemma_count_hits_member(s, g0.0.spec.cols, j);
    let i = spec_flat_index(g0.0.spec.cols, s[j]);
    assert(g1.count_at(i, team) == g0.count_at(i, team) + count_hits(s, g0.0.spec.cols, i));
}


/// Fog returns only where no one of the player's team sees any more: after a
/// player-team entity stops seeing, a stored cell whose count for that team
/// is still positive keeps its fog; a cell's fog changes only to `Explored`,
/// and only where that team's count went from positive to zero; and every
/// stored cell whose count went from positive to zero is `Explored`.
pub proof fn lemma_fog_returns_only_at_zero(
    g0: VisibilityGrid,
    g1: VisibilityGrid,
    fog0: Seq<Fog>,
    fog1: Seq<Fog>,
    cell: RowCol,
    team: Team,
    config: VisionConfig,
)
    requires
        counts_after_remove(g0, g1, cell, team, config.visibility_radius),
        fog_after_remove(g0, fog0, fog1, cell, team, config),
    ensures
        fog1.len() == fog0.len(),
        forall|i: int| 0 <= i < fog0.len() && i < g1.len() && #[trigger] g1.count_at(i, team) > 0 ==> fog1[i] == fog0[i],
        forall|i: int|
            0 <= i < fog0.len() && #[trigger] fog1[i] != fog0[i] ==> {
                &&& fog1[i] == Fog::Explored
                &&& team == config.player_team
                &&& i < g0.len()
                &&& g0.count_at(i, team) > 0
                &&& g1.count_at(i, team) == 0
            },
        forall|i: int|
            0 <= i < fog0.len() && i < g0.len() && team == config.player_team && g0.count_at(i, team) > 0
                && #[trigger] g1.count_at(i, team) == 0 ==> fog1[i] == Fog::Explored,
{
    assert forall|i: int| 0 <= i < fog0.len() && i < g1.len() && #[trigger] g1.count_at(i, team) > 0 implies fog1[i] == fog0[i] by {
        assert(fog1[i] == fog0[i] || fog1[i] != fog0[i]);
    }
}

} // verus!
