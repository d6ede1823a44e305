use zooids::objective::{flow_grids_to_remove, next_attack_frame, waypoints_to_despawn, Objective, Selected};
use zooids::team::Team;

#[test]
fn followed_entity_and_next_objective() {
    assert_eq!(Objective::Idle.get_followed_entity(), None);
    assert_eq!(Objective::FollowEntity(4).get_followed_entity(), Some(4));
    assert_eq!(Objective::AttackEntity { entity: 9, frame: 2 }.get_followed_entity(), Some(9));

    assert_eq!(Objective::Idle.next(Some(5)), Some(Objective::AttackEntity { entity: 5, frame: 0 }));
    assert_eq!(Objective::FollowEntity(1).next(Some(5)), Some(Objective::AttackEntity { entity: 5, frame: 0 }));
    assert_eq!(Objective::FollowEntity(1).next(None), None);
    assert_eq!(Objective::AttackEntity { entity: 5, frame: 0 }.next(Some(6)), None);
}

#[test]
fn strike_lasts_three_frames() {
    let (frame, restart) = next_attack_frame(0, true);
    assert_eq!((frame, restart), (2, true));
    let (frame, restart) = next_attack_frame(frame, false);
    assert_eq!((frame, restart), (1, false));
    let (frame, _) = next_attack_frame(frame, false);
    assert_eq!(frame, 0);
    let (frame, _) = next_attack_frame(frame, false);
    assert_eq!(frame, 0);
}

#[test]
fn random_attack_timings_stay_in_range() {
    for _ in 0..200 {
        assert!(Objective::attack_cooldown() < 1200);
        assert!(Objective::attack_delay() < 300);
    }
}

#[test]
fn unfollowed_waypoints_are_despawned() {
    let objectives = vec![Objective::FollowEntity(10), Objective::Idle, Objective::AttackEntity { entity: 11, frame: 0 }];
    assert_eq!(waypoints_to_despawn(&objectives, &vec![11, 10, 12]), vec![11, 12]);
}

#[test]
fn stale_flow_grids_are_removed() {
    let lists = vec![
        vec![Objective::FollowEntity(1), Objective::AttackEntity { entity: 2, frame: 0 }],
        vec![],
        vec![Objective::Idle, Objective::FollowEntity(3)],
    ];
    assert_eq!(flow_grids_to_remove(&lists, &vec![1, 2, 3, 4]), vec![1, 4]);
}

#[test]
fn selection_and_teams() {
    assert!(!Selected::Unselected.is_selected());
    assert!(Selected::Selected { child_entity: 3 }.is_selected());
    assert_eq!(Team::Neutral.index(), 0);
    assert_eq!(Team::Blue.index(), 1);
    assert_eq!(Team::Red.index(), 2);
    assert_eq!(Team::all(), [Team::Neutral, Team::Blue, Team::Red]);
    assert_eq!(Team::COUNT, 3);
}
