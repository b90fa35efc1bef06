use tower_defense::map::BaseMap;
use tower_defense::map::FreeMap;
use tower_defense::map::GridCell;
use tower_defense::map::SimpleMap;

#[test]
fn place_tower_twice() {
    let mut map = FreeMap::default();
    assert!(map.place_tower(&GridCell { x: 0, y: 1 }));
    assert!(!map.place_tower(&GridCell { x: 0, y: 1 }));
}

/*
 This test find the shortest path in this maze
 sxe....
 ooo....
 .......
*/
#[test]
fn easy_pathfinding() {
    let mut map = FreeMap { base: BaseMap::default() };
    map.base.start = GridCell { x: 0, y: 0 };
    map.base.end = GridCell { x: 0, y: 2 };
    map.place_tower(&GridCell { x: 0, y: 1 }); // This is the tower (x in the example)
    map.recompute_path();
    assert_eq!(
        map.base.path,
        vec!(
            GridCell { x: 0, y: 0 }, // start
            GridCell { x: 1, y: 0 },
            GridCell { x: 1, y: 1 },
            GridCell { x: 1, y: 2 },
            GridCell { x: 0, y: 2 }, // end
        ),
    );
}

#[test]
fn impossible_pathfinding() {
    // The checked placement would refuse to wall the start in, so the two
    // towers go straight onto the occupancy core, which applies no
    // connectivity rule.
    let mut map = FreeMap { base: BaseMap::default() };
    map.base.start = GridCell { x: 0, y: 0 };
    map.base.end = GridCell { x: 2, y: 2 };
    map.base.place_tower(&GridCell { x: 0, y: 1 }); // This is the tower (x in the example)
    map.base.place_tower(&GridCell { x: 1, y: 0 }); // This is the tower (x in the example)
    map.recompute_path();
    assert_eq!(map.base.path, vec![]);
}

#[test]
fn mod_place_tower_twice() {
    let mut map = FreeMap::default();
    assert!(map.place_tower(&GridCell { x: 0, y: 1 }));
    assert!(!map.place_tower(&GridCell { x: 0, y: 1 }));
}

#[test]
fn mod_easy_pathfinding() {
    let mut map = FreeMap { base: BaseMap::default() };
    map.base.start = GridCell { x: 0, y: 0 };
    map.base.end = GridCell { x: 0, y: 2 };
    map.place_tower(&GridCell { x: 0, y: 1 });
    map.recompute_path();
    assert_eq!(
        map.base.path,
        vec!(
            GridCell { x: 0, y: 0 },
            GridCell { x: 1, y: 0 },
            GridCell { x: 1, y: 1 },
            GridCell { x: 1, y: 2 },
            GridCell { x: 0, y: 2 },
        ),
    );
}

#[test]
fn mod_impossible_pathfinding() {
    let mut map = FreeMap { base: BaseMap::default() };
    map.base.start = GridCell { x: 0, y: 0 };
    map.base.end = GridCell { x: 2, y: 2 };
    map.base.place_tower(&GridCell { x: 0, y: 1 });
    map.base.place_tower(&GridCell { x: 1, y: 0 });
    map.recompute_path();
    assert_eq!(map.base.path, vec![]);
}

#[test]
fn placement_on_endpoints_is_refused() {
    let mut map = FreeMap::default();
    assert!(!map.is_turret_possible(&GridCell { x: 0, y: 0 }));
    assert!(!map.is_turret_possible(&GridCell { x: 9, y: 9 }));
    assert!(map.is_turret_possible(&GridCell { x: 4, y: 4 }));
    assert!(!map.place_tower(&GridCell { x: 0, y: 0 }));
    assert!(!map.place_tower(&GridCell { x: 9, y: 9 }));
}

#[test]
fn placement_that_disconnects_is_refused() {
    // With (0,1) and the corner-cutting rule, blocking (1,0) would isolate
    // the start completely; the validity check must say no.
    let mut map = FreeMap { base: BaseMap::default() };
    map.base.start = GridCell { x: 0, y: 0 };
    map.base.end = GridCell { x: 9, y: 9 };
    assert!(map.place_tower(&GridCell { x: 0, y: 1 }));
    assert!(!map.is_turret_possible(&GridCell { x: 1, y: 0 }));
    assert!(!map.place_tower(&GridCell { x: 1, y: 0 }));
    assert!(map.is_turret_possible(&GridCell { x: 1, y: 1 }));
}

#[test]
fn placement_out_of_bounds_is_refused() {
    let map = FreeMap::default();
    assert!(!map.is_turret_possible(&GridCell { x: -1, y: 0 }));
    assert!(!map.is_turret_possible(&GridCell { x: 0, y: 10 }));
}

#[test]
fn remove_tower_frees_the_cell() {
    let mut map = FreeMap::default();
    let pos = GridCell { x: 3, y: 3 };
    assert!(map.place_tower(&pos));
    assert!(!map.place_tower(&pos));
    map.remove_tower(&pos);
    assert!(map.place_tower(&pos));
}

#[test]
fn diagonal_is_refused_when_a_corner_is_blocked() {
    // From (0,0) to (2,0) with (1,0) blocked: the diagonals cornering
    // (1,0) are illegal, so the cheapest route takes four straight moves
    // around the tower instead of two diagonals past it.
    let mut map = FreeMap { base: BaseMap::default() };
    map.base.start = GridCell { x: 0, y: 0 };
    map.base.end = GridCell { x: 2, y: 0 };
    map.place_tower(&GridCell { x: 1, y: 0 });
    let found = map.compute_path(&GridCell { x: 0, y: 0 });
    let (path, cost) = found.expect("a route around the tower exists");
    assert_eq!(path.first(), Some(&GridCell { x: 0, y: 0 }));
    assert_eq!(path.last(), Some(&GridCell { x: 2, y: 0 }));
    assert!(!path.contains(&GridCell { x: 1, y: 0 }));
    assert_eq!(cost, 200);
}

#[test]
fn path_from_the_goal_is_the_goal_alone() {
    let map = FreeMap::default();
    let (path, cost) = map
        .compute_path(&GridCell { x: 9, y: 9 })
        .expect("the goal reaches itself");
    assert_eq!(path, vec![GridCell { x: 9, y: 9 }]);
    assert_eq!(cost, 0);
}

#[test]
fn simple_map_is_fixed() {
    let mut map = SimpleMap::default();
    assert_eq!(map.get_start(), GridCell { x: 0, y: 1 });
    assert_eq!(map.get_end(), GridCell { x: 6, y: 3 });
    assert_eq!(map.get_path().len(), 9);
    // A wall cell of the maze cannot take a turret, a corridor cell can,
    // and placement never changes the pre-authored path.
    assert!(!map.is_turret_possible(&GridCell { x: 0, y: 1 }));
    assert!(map.is_turret_possible(&GridCell { x: 0, y: 2 }));
    let path_before = map.get_path().clone();
    assert!(map.place_tower(&GridCell { x: 0, y: 2 }));
    assert_eq!(map.get_path(), &path_before);
}
