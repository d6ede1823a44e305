use zooids::entity_set::EntitySet;
use zooids::grid::buffers::{apply_minimap_event, apply_occupancy_event, minimap_cell, minimap_size, minimap_spec, resize_cells, resize_fog, resize_occupancy};
use zooids::grid::entity::{EntityGrid, EntityGridEvent, GridEntity};
use zooids::grid::fog::{Fog, TeamVisibility, VisibilityGrid, Visibility, VisionConfig};
use zooids::grid::grid2::{octile_steps, signed_delta_cells, Grid2};
use zooids::grid::navigation::{goal_cells, is_passable, neighbors8, waypoint_sources};
use zooids::grid::obstacles::{write_obstacle_codes, Obstacle, ObstaclesSpec};
use zooids::grid::spec::GridSpec;
use zooids::team::Team;

fn spec10() -> GridSpec {
    GridSpec { rows: 10, cols: 10, visualize: false }
}

#[test]
fn mod_grid_radius() {
    {
        let (row, col) = (1, 1);
        let (other_row, other_col) = (2, 2);
        let radius = 2;
        assert!(Grid2::<()>::in_radius((row, col), (other_row, other_col), radius));
    }
    {
        let (row, col) = (1, 1);
        let (other_row, other_col) = (4, 4);
        let radius = 2;
        assert!(!Grid2::<()>::in_radius((row, col), (other_row, other_col), radius));
    }
}

#[test]
fn entity_test_update() {
    let mut grid = EntityGrid(Grid2 { spec: GridSpec { rows: 10, cols: 10, visualize: false }, cells: Vec::new() });
    grid.resize();
    assert!(grid.0.get_mut((5, 5)).is_some());
    assert!(grid.0.get((5, 5)).is_some());
}

#[test]
fn spec_default_and_indexing() {
    let spec = GridSpec::default();
    assert_eq!((spec.rows, spec.cols, spec.visualize), (10, 10, true));
    assert_eq!(spec.flat_index((2, 3)), 23);
    assert_eq!(spec.num_cells(), 100);
    assert!(spec.in_bounds((9, 9)));
    assert!(!spec.in_bounds((10, 0)));
    assert!(spec.is_boundary((0, 5)));
    assert!(spec.is_boundary((5, 9)));
    assert!(!spec.is_boundary((5, 5)));
}

#[test]
fn radius_query_lists_cells_row_major() {
    let grid: Grid2<()> = Grid2 { spec: spec10(), cells: Vec::new() };
    let cells = grid.get_in_radius_discrete((5, 5), 2);
    assert_eq!(cells, vec![(4, 4), (4, 5), (4, 6), (5, 4), (5, 5), (5, 6), (6, 4), (6, 5), (6, 6)]);
    assert_eq!(grid.cell_range(1, 3), (0, 4));
    assert_eq!(grid.cell_range(8, 3), (5, 10));
}

#[test]
fn radius_query_cuts_columns_at_row_count() {
    // Both ranges are cut at the number of rows, so on a wide, short grid the
    // columns past the row count are never scanned.
    let grid: Grid2<()> = Grid2 { spec: GridSpec { rows: 4, cols: 10, visualize: false }, cells: Vec::new() };
    assert_eq!(grid.get_in_radius_discrete((1, 8), 2), Vec::<(u16, u16)>::new());
    assert_eq!(grid.cell_range(8, 2), (6, 4));
}

#[test]
fn rowcol_range_is_inclusive() {
    let cells = Grid2::<()>::get_in_rowcol_range((1, 2), (2, 3));
    assert_eq!(cells, vec![(1, 2), (1, 3), (2, 2), (2, 3)]);
    assert!(Grid2::<()>::get_in_rowcol_range((3, 0), (2, 5)).is_empty());
}

#[test]
fn octile_steps_and_deltas() {
    assert_eq!(octile_steps((0, 0), (3, 5)), (3, 2));
    assert_eq!(octile_steps((3, 5), (0, 0)), (3, 2));
    assert_eq!(octile_steps((4, 4), (4, 4)), (0, 0));
    assert_eq!(signed_delta_cells((2, 3), (5, 1)), (-2, 3));
}

#[test]
fn grid_get_set_and_index() {
    let mut grid = Grid2 { spec: GridSpec { rows: 2, cols: 3, visualize: false }, cells: vec![0u32; 6] };
    grid.set((1, 2), 7);
    assert_eq!(*grid.index((1, 2)), 7);
    assert_eq!(grid.get((1, 2)), Some(&7));
    assert_eq!(grid.get((2, 0)), None);
    if let Some(v) = grid.get_mut((0, 1)) {
        *v = 4;
    }
    assert_eq!(grid.cells, vec![0, 4, 0, 0, 0, 7]);
}

fn entity_grid() -> EntityGrid {
    let mut grid = EntityGrid(Grid2 { spec: spec10(), cells: Vec::new() });
    grid.resize();
    grid
}

#[test]
fn entity_moves_between_cells() {
    let mut grid = entity_grid();
    let first: EntityGridEvent = grid.update_entity(7, None, (1, 1)).unwrap();
    assert_eq!((first.entity, first.prev_cell, first.prev_cell_empty, first.cell), (7, None, false, (1, 1)));
    assert!(grid.0.index((1, 1)).contains(7));

    let second = grid.update_entity(7, Some((1, 1)), (2, 2)).unwrap();
    assert_eq!((second.prev_cell, second.prev_cell_empty, second.cell), (Some((1, 1)), true, (2, 2)));
    assert!(!grid.0.index((1, 1)).contains(7));
    assert!(grid.0.index((2, 2)).contains(7));

    assert!(grid.update_entity(7, Some((2, 2)), (2, 2)).is_none());
    // A cell past the stored cells gives no event, but the entity still leaves.
    assert!(grid.update_entity(7, Some((2, 2)), (10, 5)).is_none());
    assert!(!grid.0.index((2, 2)).contains(7));
}

#[test]
fn entity_leaving_shared_cell_keeps_it_occupied() {
    let mut grid = entity_grid();
    grid.update_entity(1, None, (3, 3));
    grid.update_entity(2, None, (3, 3));
    let event = grid.update_entity(1, Some((3, 3)), (3, 4)).unwrap();
    assert!(!event.prev_cell_empty);
    grid.remove(2, &GridEntity { cell: Some((3, 3)) });
    assert!(grid.0.index((3, 3)).is_empty());
}

#[test]
fn removed_entity_is_in_no_cell() {
    let mut grid = entity_grid();
    grid.update_entity(4, None, (6, 2));
    grid.update_entity(4, Some((6, 2)), (6, 3));
    grid.remove(4, &GridEntity { cell: Some((6, 3)) });
    assert!(grid.0.cells.iter().all(|cell| !cell.contains(4)));
    assert!(grid.get_entities_in_rowcol_range((0, 0), (9, 9)).is_empty());
}

#[test]
fn entities_in_radius_and_rectangle() {
    let mut grid = entity_grid();
    grid.update_entity(1, None, (5, 5));
    grid.update_entity(2, None, (5, 6));
    grid.update_entity(3, None, (8, 8));
    let near: EntitySet = grid.get_entities_in_radius_discrete((5, 5), 2);
    assert!(near.contains(1) && near.contains(2) && !near.contains(3));
    let mut in_rect = grid.get_entities_in_rowcol_range((5, 5), (8, 8));
    in_rect.sort();
    assert_eq!(in_rect, vec![1, 2, 3]);
    let mut corner = grid.get_entities_in_rowcol_range((0, 0), (5, 5));
    corner.sort();
    assert_eq!(corner, vec![1]);
}

fn vision_grid() -> (VisibilityGrid, Vec<Fog>) {
    let mut grid = VisibilityGrid(Grid2 { spec: spec10(), cells: Vec::new() });
    grid.resize_with(spec10());
    let mut fog = Vec::new();
    resize_fog(&mut fog, &spec10());
    (grid, fog)
}

#[test]
fn sight_counts_and_fog() {
    let (mut grid, mut fog) = vision_grid();
    let config = VisionConfig { player_team: Team::Blue, visibility_radius: 2, fog_radius: 1 };
    grid.add_visibility((5, 5), Team::Blue, &config, &mut fog);
    assert_eq!(grid.0.index((4, 4)).get(Team::Blue), 1);
    assert_eq!(grid.0.index((4, 4)).get(Team::Red), 0);
    assert_eq!(grid.0.index((3, 5)).get(Team::Blue), 0);
    assert_eq!(grid.get_visibility((4, 6), Team::Blue), Visibility::Visible);
    assert_eq!(grid.get_visibility((4, 6), Team::Red), Visibility::Hidden);
    // Only cells within the fog radius are cleared.
    assert_eq!(fog[55], Fog::Visible);
    assert_eq!(fog[44], Fog::Hidden);

    grid.remove_visibility((5, 5), Team::Blue, &config, &mut fog);
    assert_eq!(grid.0.index((4, 4)).get(Team::Blue), 0);
    assert_eq!(grid.get_visibility((4, 6), Team::Blue), Visibility::Hidden);
    // Every cell whose count dropped to zero is explored.
    assert_eq!(fog[55], Fog::Explored);
    assert_eq!(fog[44], Fog::Explored);
    assert_eq!(fog[33], Fog::Hidden);
}

#[test]
fn removing_sight_undoes_adding_it() {
    let (mut grid, mut fog) = vision_grid();
    let config = VisionConfig { player_team: Team::Blue, visibility_radius: 3, fog_radius: 2 };
    grid.add_visibility((2, 2), Team::Red, &config, &mut fog);
    grid.add_visibility((2, 3), Team::Red, &config, &mut fog);
    let before: Vec<TeamVisibility> = grid.0.cells.clone();
    grid.add_visibility((4, 4), Team::Red, &config, &mut fog);
    grid.remove_visibility((4, 4), Team::Red, &config, &mut fog);
    for i in 0..before.len() {
        assert_eq!(grid.0.cells[i].teams, before[i].teams);
    }
    // Another team's sight leaves the player's fog alone.
    assert!(fog.iter().all(|f| *f == Fog::Hidden));
}

#[test]
fn obstacle_grid_last_entry_wins() {
    let mut grid = Grid2 { spec: spec10(), cells: Vec::new() };
    grid.resize_with(spec10());
    grid.set((0, 0), Obstacle::Full);
    let spec = ObstaclesSpec(vec![((1, 1), Obstacle::UpLeft), ((2, 2), Obstacle::Full), ((1, 1), Obstacle::DownRight)]);
    grid.update(&spec);
    assert_eq!(*grid.index((1, 1)), Obstacle::DownRight);
    assert_eq!(*grid.index((2, 2)), Obstacle::Full);
    assert_eq!(*grid.index((0, 0)), Obstacle::Empty);

    let mut codes = vec![9u32; 100];
    write_obstacle_codes(&mut codes, &spec10(), &spec);
    assert_eq!(codes[11], 3);
    assert_eq!(codes[22], 5);
    assert_eq!(codes[0], 0);
    assert_eq!(Obstacle::UpRight.code(), 1);
    assert_eq!(Obstacle::DownLeft.code(), 4);
}

#[test]
fn occupancy_and_minimap_buffers() {
    let mut grid = Vec::new();
    resize_occupancy(&mut grid, &spec10());
    assert_eq!(grid.len(), 100);
    let event = EntityGridEvent { entity: 1, prev_cell: Some((0, 0)), prev_cell_empty: true, cell: (0, 1) };
    grid[0] = 1;
    apply_occupancy_event(&mut grid, &spec10(), &event);
    assert_eq!((grid[0], grid[1]), (0, 1));
    let kept = EntityGridEvent { entity: 1, prev_cell: Some((0, 1)), prev_cell_empty: false, cell: (0, 2) };
    apply_occupancy_event(&mut grid, &spec10(), &kept);
    assert_eq!((grid[1], grid[2]), (1, 1));

    let big = GridSpec { rows: 256, cols: 256, visualize: false };
    assert_eq!(minimap_size(&big), (32, 32, 1024));
    let small = minimap_spec(&big);
    assert_eq!((small.rows, small.cols), (32, 32));
    assert_eq!(minimap_cell((17, 250)), (2, 31));
    let mut mini = vec![0u32; 1024];
    let moved = EntityGridEvent { entity: 4, prev_cell: Some((9, 9)), prev_cell_empty: true, cell: (17, 250) };
    mini[33] = 1;
    apply_minimap_event(&mut mini, &small, &moved);
    assert_eq!(mini[33], 0);
    assert_eq!(mini[2 * 32 + 31], 1);
}

#[test]
fn resize_keeps_prefix() {
    let mut cells = vec![1u8, 2, 3];
    resize_cells(&mut cells, 5, 0);
    assert_eq!(cells, vec![1, 2, 3, 0, 0]);
    resize_cells(&mut cells, 2, 9);
    assert_eq!(cells, vec![1, 2]);
}

#[test]
fn navigation_goals_are_sorted_and_distinct() {
    let mut obstacles = Grid2 { spec: spec10(), cells: Vec::new() };
    obstacles.resize_with(spec10());
    obstacles.set((3, 3), Obstacle::Full);
    let sources = vec![(5, 1), (3, 3), (2, 8), (5, 1), (12, 0), (2, 7)];
    let goals = goal_cells(&spec10(), &sources, &obstacles);
    assert_eq!(goals, vec![(2, 7), (2, 8), (5, 1)]);
    assert!(!is_passable(&spec10(), &obstacles, (3, 3)));
    assert!(!is_passable(&spec10(), &obstacles, (0, 4)));
    assert!(is_passable(&spec10(), &obstacles, (4, 4)));
}

#[test]
fn neighbours_and_waypoint_sources() {
    let n = neighbors8((4, 4));
    assert_eq!(n.len(), 8);
    assert_eq!(n[0], ((3, 3), true));
    assert_eq!(n[3], ((4, 3), false));
    assert_eq!(n[7], ((5, 5), true));
    let sources = waypoint_sources(&spec10(), &vec![(5, 5), (1, 1)]);
    assert_eq!(sources.len(), 18);
    assert_eq!(sources[0], (4, 4));
    assert_eq!(sources[9], (0, 0));
}
