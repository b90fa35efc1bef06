use tower_defense::targeting::CreepInfo;
use tower_defense::targeting::Strategy;
use tower_defense::targeting::find_top_creeps_within_range;

fn creep(id: u64, distance: u64, health: u64, speed: u64) -> CreepInfo {
    CreepInfo { id, distance, health, speed }
}

#[test]
fn weakest_picks_the_lowest_health() {
    let creeps = vec![
        creep(1, 10, 40, 5),
        creep(2, 12, 10, 5),
        creep(3, 14, 70, 5),
    ];
    let picked = find_top_creeps_within_range(&creeps, 100, Some(Strategy::Weakest), 1);
    assert_eq!(picked, vec![2]);
}

#[test]
fn strongest_picks_the_highest_health() {
    let creeps = vec![
        creep(1, 10, 40, 5),
        creep(2, 12, 10, 5),
        creep(3, 14, 70, 5),
    ];
    let picked = find_top_creeps_within_range(&creeps, 100, Some(Strategy::Strongest), 1);
    assert_eq!(picked, vec![3]);
}

#[test]
fn closest_is_the_default() {
    let creeps = vec![
        creep(1, 30, 40, 5),
        creep(2, 12, 10, 5),
        creep(3, 14, 70, 5),
    ];
    let picked = find_top_creeps_within_range(&creeps, 100, None, 1);
    assert_eq!(picked, vec![2]);
}

#[test]
fn furthest_slowest_fastest() {
    let creeps = vec![
        creep(1, 30, 40, 9),
        creep(2, 12, 10, 2),
        creep(3, 14, 70, 5),
    ];
    assert_eq!(
        find_top_creeps_within_range(&creeps, 100, Some(Strategy::Furthest), 1),
        vec![1]
    );
    assert_eq!(
        find_top_creeps_within_range(&creeps, 100, Some(Strategy::Slowest), 1),
        vec![2]
    );
    assert_eq!(
        find_top_creeps_within_range(&creeps, 100, Some(Strategy::Fastest), 1),
        vec![1]
    );
}

#[test]
fn out_of_range_creeps_are_ignored() {
    let creeps = vec![
        creep(1, 200, 1, 5),
        creep(2, 50, 99, 5),
    ];
    let picked = find_top_creeps_within_range(&creeps, 100, Some(Strategy::Weakest), 1);
    assert_eq!(picked, vec![2]);
    let none = find_top_creeps_within_range(&creeps, 10, Some(Strategy::Weakest), 1);
    assert_eq!(none, Vec::<u64>::new());
}

#[test]
fn multi_target_selection_keeps_the_best_two() {
    let creeps = vec![
        creep(1, 10, 40, 5),
        creep(2, 12, 10, 5),
        creep(3, 14, 70, 5),
        creep(4, 16, 25, 5),
    ];
    let picked = find_top_creeps_within_range(&creeps, 100, Some(Strategy::Weakest), 2);
    assert_eq!(picked, vec![2, 4]);
}

#[test]
fn ties_break_by_identity() {
    let creeps = vec![
        creep(9, 10, 50, 5),
        creep(4, 10, 50, 5),
        creep(7, 10, 50, 5),
    ];
    let picked = find_top_creeps_within_range(&creeps, 100, Some(Strategy::Weakest), 1);
    assert_eq!(picked, vec![4]);
}
