use tower_defense::components::TurretType;
use tower_defense::map::BaseMap;
use tower_defense::map::FreeMap;
use tower_defense::map::GridCell;
use tower_defense::resources::GameData;
use tower_defense::systems::creep_stats;
use tower_defense::systems::handle_turret_placement;
use tower_defense::systems::insert_if_new;
use tower_defense::systems::path_to_waypoints;
use tower_defense::systems::turret_cost;
use tower_defense::systems::turret_stats;
use tower_defense::systems::update_creep_path;

#[test]
fn placement_deducts_the_cost() {
    let mut game = GameData::default();
    let mut map = FreeMap::default();
    assert!(handle_turret_placement(
        &mut game,
        &mut map,
        TurretType::Basic,
        GridCell { x: 4, y: 4 }
    ));
    assert_eq!(game.gold, 450);
    assert!(handle_turret_placement(
        &mut game,
        &mut map,
        TurretType::Bomb,
        GridCell { x: 5, y: 5 }
    ));
    assert_eq!(game.gold, 350);
}

#[test]
fn placement_without_gold_is_rejected() {
    let mut game = GameData { score: 0, lives: 10, gold: 40 };
    let mut map = FreeMap::default();
    assert!(!handle_turret_placement(
        &mut game,
        &mut map,
        TurretType::Basic,
        GridCell { x: 4, y: 4 }
    ));
    assert_eq!(game.gold, 40);
    // The cheap slow turret is still affordable.
    assert!(handle_turret_placement(
        &mut game,
        &mut map,
        TurretType::Slow,
        GridCell { x: 4, y: 4 }
    ));
    assert_eq!(game.gold, 30);
}

#[test]
fn placement_on_an_occupied_cell_is_rejected() {
    let mut game = GameData::default();
    let mut map = FreeMap::default();
    let pos = GridCell { x: 2, y: 2 };
    assert!(handle_turret_placement(&mut game, &mut map, TurretType::Slow, pos));
    assert!(!handle_turret_placement(&mut game, &mut map, TurretType::Slow, pos));
    assert_eq!(game.gold, 490);
}

#[test]
fn disconnecting_placement_is_rejected_and_mutates_nothing() {
    let mut game = GameData::default();
    let mut map = FreeMap { base: BaseMap::default() };
    map.base.start = GridCell { x: 0, y: 0 };
    map.base.end = GridCell { x: 2, y: 2 };
    assert!(handle_turret_placement(
        &mut game,
        &mut map,
        TurretType::Basic,
        GridCell { x: 0, y: 1 }
    ));
    // Blocking (1,0) as well would isolate the start; the request must be
    // rejected with the map and the gold untouched, and the map's own
    // placement refuses just the same.
    let gold_before = game.gold;
    assert!(!handle_turret_placement(
        &mut game,
        &mut map,
        TurretType::Basic,
        GridCell { x: 1, y: 0 }
    ));
    assert_eq!(game.gold, gold_before);
    assert!(!map.place_tower(&GridCell { x: 1, y: 0 }));
}

#[test]
fn cost_table() {
    assert_eq!(turret_cost(TurretType::Basic), 50);
    assert_eq!(turret_cost(TurretType::Bomb), 100);
    assert_eq!(turret_cost(TurretType::Follower), 75);
    assert_eq!(turret_cost(TurretType::Slow), 10);
}

#[test]
fn stats_table() {
    assert_eq!(turret_stats(TurretType::Basic), (25, 1));
    assert_eq!(turret_stats(TurretType::Bomb), (20, 1));
    assert_eq!(turret_stats(TurretType::Follower), (50, 1));
    assert_eq!(turret_stats(TurretType::Slow), (50, 3));
}

#[test]
fn spawn_roll_buys_stats() {
    assert_eq!(creep_stats(0), (35, 50));
    assert_eq!(creep_stats(u32::MAX / 4 - 1), (35, 50));
    assert_eq!(creep_stats(u32::MAX / 4), (20, 100));
    assert_eq!(creep_stats(u32::MAX), (20, 100));
}

#[test]
fn waypoints_are_the_reversed_path() {
    let path = vec![
        GridCell { x: 0, y: 0 },
        GridCell { x: 1, y: 0 },
        GridCell { x: 1, y: 1 },
    ];
    let waypoints = path_to_waypoints(&path);
    assert_eq!(
        waypoints,
        vec![
            GridCell { x: 1, y: 1 },
            GridCell { x: 1, y: 0 },
            GridCell { x: 0, y: 0 },
        ]
    );
}

#[test]
fn rerouting_replaces_waypoints() {
    let map = FreeMap::default();
    let mut waypoints = vec![GridCell { x: 0, y: 0 }];
    update_creep_path(&map, GridCell { x: 8, y: 8 }, &mut waypoints);
    // The creep stands on (8,8): the only route to the goal is the single
    // diagonal step, so the stale waypoints are replaced by the goal alone.
    assert_eq!(waypoints, vec![GridCell { x: 9, y: 9 }]);
}

#[test]
fn rerouting_without_a_route_keeps_the_old_waypoints() {
    let mut map = FreeMap { base: BaseMap::default() };
    map.base.start = GridCell { x: 0, y: 0 };
    map.base.end = GridCell { x: 2, y: 2 };
    // Wall the start in through the occupancy core; the checked placement
    // would refuse to.
    map.base.place_tower(&GridCell { x: 0, y: 1 });
    map.base.place_tower(&GridCell { x: 1, y: 0 });
    let old = vec![GridCell { x: 5, y: 5 }, GridCell { x: 4, y: 4 }];
    let mut waypoints = old.clone();
    // The start cell is walled in, so no route exists from it; the creep
    // keeps its stale waypoints instead of stalling.
    update_creep_path(&map, GridCell { x: 0, y: 0 }, &mut waypoints);
    assert_eq!(waypoints, old);
}

#[test]
fn slow_effects_do_not_stack() {
    // (time to live, strength) of a running slow effect; re-application
    // must neither reset nor extend it.
    let mut slot: Option<(f32, f32)> = Some((2.5, 5.0));
    insert_if_new(&mut slot, (5.0, 5.0));
    assert_eq!(slot, Some((2.5, 5.0)));

    let mut empty: Option<(f32, f32)> = None;
    insert_if_new(&mut empty, (5.0, 5.0));
    assert_eq!(empty, Some((5.0, 5.0)));
}
