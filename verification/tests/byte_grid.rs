use zooids::byte_grid::{ByteVisionConfig, EntityGrid, EntityGridSpec};
use zooids::grid::fog::{Fog, Visibility};
use zooids::team::Team;

fn grid() -> EntityGrid {
    let mut grid = EntityGrid::new(EntityGridSpec { rows: 10, cols: 10, visualize: false });
    grid.resize();
    grid
}

#[test]
fn grid_test_update() {
    let mut grid = EntityGrid::new(EntityGridSpec { rows: 10, cols: 10, visualize: false });
    grid.resize();
    assert!(grid.get_mut(5, 5).is_some());
    assert!(grid.get(5, 5).is_some());
}

#[test]
fn grid_grid_radius() {
    {
        let (row, col) = (1, 1);
        let (other_row, other_col) = (2, 2);
        let radius = 2;
        assert!(EntityGrid::in_radius(row, col, other_row, other_col, radius));
    }
    {
        let (row, col) = (1, 1);
        let (other_row, other_col) = (4, 4);
        let radius = 2;
        assert!(!EntityGrid::in_radius(row, col, other_row, other_col, radius));
    }
}

#[test]
fn byte_grid_ranges_and_index() {
    assert_eq!(EntityGrid::cell_range(1, 3), (0, 4));
    assert_eq!(EntityGrid::cell_range(5, 2), (3, 7));
    let g = grid();
    assert_eq!(g.index(3, 4), 34);
    assert_eq!(g.team_visibility.len(), 100);
    assert_eq!(g.team_visibility[0], vec![0, 0, 0]);
    let d = EntityGridSpec::default();
    assert_eq!((d.rows, d.cols, d.visualize), (10, 10, true));
}

#[test]
fn byte_grid_moves_entities_with_sight() {
    let mut g = grid();
    let config = ByteVisionConfig { player_team: Team::Blue, visibility_radius: 2 };
    let mut fog = vec![Fog::Hidden; 100];
    let mut occupancy = vec![0u32; 100];
    g.update_entity(5, (4, 4), Team::Blue, &config, &mut fog, true, &mut occupancy);
    assert!(g.get(4, 4).unwrap().contains(5));
    assert_eq!(occupancy[44], 1);
    assert_eq!(fog[33], Fog::Visible);
    assert_eq!(fog[22], Fog::Hidden);
    assert_eq!(g.get_visibility(3, 4, Team::Blue), Visibility::Visible);

    g.update_entity(5, (6, 6), Team::Blue, &config, &mut fog, true, &mut occupancy);
    assert!(!g.get(4, 4).unwrap().contains(5));
    assert!(g.get(6, 6).unwrap().contains(5));
    assert_eq!((occupancy[44], occupancy[66]), (0, 1));
    assert_eq!(fog[33], Fog::Explored);
    assert_eq!(fog[55], Fog::Visible);
    assert_eq!(g.get_visibility(3, 3, Team::Blue), Visibility::Hidden);
    assert_eq!(g.get_visibility(5, 5, Team::Blue), Visibility::Visible);

    // Staying in the same cell changes nothing.
    g.update_entity(5, (6, 6), Team::Blue, &config, &mut fog, true, &mut occupancy);
    assert_eq!(g.team_visibility[66][1], 1);

    let mut found = g.get_in_rowcol_range((0, 0), (9, 9));
    found.sort();
    assert_eq!(found, vec![5]);
    g.remove(5);
    assert!(g.get(6, 6).unwrap().is_empty());
}

#[test]
fn byte_grid_sight_round_trip() {
    let mut g = grid();
    let config = ByteVisionConfig { player_team: Team::Blue, visibility_radius: 3 };
    let mut fog = vec![Fog::Hidden; 100];
    g.add_visibility(5, 5, Team::Red, &config, &mut fog);
    assert_eq!(g.team_visibility[55][2], 1);
    assert_eq!(g.team_visibility[55][1], 0);
    g.remove_visibility(5, 5, Team::Red, &config, &mut fog);
    assert!(g.team_visibility.iter().all(|c| *c == vec![0, 0, 0]));
    assert!(fog.iter().all(|f| *f == Fog::Hidden));
}
