//! Per-tick decision rules: turret placement with its cost gate, waypoint
//! derivation and rerouting for creeps, the spawn roll, and the
//! non-stacking rule for slow effects.
//!
//! The continuous parts of a tick — movement integration, reload timers,
//! projectile steering — work on world-space quantities and live with the
//! simulation loop; the rules here decide, on plain values, what those
//! parts are allowed to do.
use vstd::prelude::*;

use crate::components::TurretType;
use crate::map::FreeMap;
use crate::map::GridCell;
use crate::map::block_cell;
use crate::map::coord_ok;
use crate::map::path_consistent;
use crate::map::path_ok;
use crate::map::place_allowed;
use crate::map::reachable;
use crate::map::search_result;
use crate::map::spec_recomputed_path;
use crate::resources::GameData;

verus! {

/// The gold cost of placing a turret of type `t`.
pub open spec fn spec_turret_cost(t: TurretType) -> int {
    match t {
        TurretType::Basic => 50,
        TurretType::Bomb => 100,
        TurretType::Follower => 75,
        TurretType::Slow => 10,
    }
}

/// The cost table of the placement handler.
pub fn turret_cost(t: TurretType) -> (r: i32)
    ensures
        r == spec_turret_cost(t),
{
    match t {
        TurretType::Basic => 50,
        TurretType::Bomb => 100,
        TurretType::Follower => 75,
        TurretType::Slow => 10,
    }
}

/// The combat stats of a turret of type `t`: its range in world units and
/// its reload time in seconds.
pub open spec fn spec_turret_stats(t: TurretType) -> (u32, u32) {
    match t {
        TurretType::Basic => (25u32, 1u32),
        TurretType::Bomb => (20u32, 1u32),
        TurretType::Follower => (50u32, 1u32),
        TurretType::Slow => (50u32, 3u32),
    }
}

/// The stats table the simulation loop reads when it attaches a newly
/// placed turret: (range, reload time).
pub fn turret_stats(t: TurretType) -> (r: (u32, u32))
    ensures
        r == spec_turret_stats(t),
{
    match t {
        TurretType::Basic => (25, 1),
        TurretType::Bomb => (20, 1),
        TurretType::Follower => (50, 1),
        TurretType::Slow => (50, 3),
    }
}

/// Handles one placement request: the turret is placed exactly when the
/// player can afford it and the map's own placement check passes — the
/// cell is free, not an endpoint, and blocking it keeps start and end
/// connected. On success the cost is deducted, the cell is blocked and the
/// cached path is recomputed; a rejected request changes nothing. The
/// caller raises its map-changed and new-turret events exactly when `true`
/// comes back.
pub fn handle_turret_placement(
    game_data: &mut GameData,
    map: &mut FreeMap,
    turret_type: TurretType,
    position: GridCell,
) -> (r: bool)
    requires
        old(map).wf(),
    ensures
        final(map).wf(),
        r == (old(game_data).gold >= spec_turret_cost(turret_type) && place_allowed(
            old(map).base.cells@,
            old(map).base.start,
            old(map).base.end,
            position,
        )),
        !r ==> *final(game_data) == *old(game_data) && *final(map) == *old(map),
        r ==> final(game_data).gold == old(game_data).gold - spec_turret_cost(turret_type),
        final(game_data).score == old(game_data).score,
        final(game_data).lives == old(game_data).lives,
        r ==> final(map).base.cells@ == block_cell(old(map).base.cells@, position),
        r ==> path_consistent(final(map).base),
        r ==> reachable(
            final(map).base.cells@,
            final(map).base.start,
            final(map).base.end,
            None,
        ) && path_ok(
            final(map).base.cells@,
            final(map).base.path@,
            final(map).base.start,
            final(map).base.end,
            None,
        ),
        r ==> final(map).base.path@ == spec_recomputed_path(
            block_cell(old(map).base.cells@, position),
            old(map).base.start,
            old(map).base.end,
        ),
        final(map).base.start == old(map).base.start,
        final(map).base.end == old(map).base.end,
    {
    let cost = turret_cost(turret_type);
    if game_data.gold >= cost {
        if map.place_tower(&position) {
            game_data.gold = game_data.gold - cost;
            true
        } else {
            false
        }
    } else {
        false
    }
}

/// The waypoints handed to a newly spawned creep: the current path in
/// travel order, consumed from the end, so the reversed path.
pub fn path_to_waypoints(path: &Vec<GridCell>) -> (r: Vec<GridCell>)
    ensures
        r@ == path@.reverse(),
{
    let mut r: Vec<GridCell> = Vec::new();
    let mut i: usize = path.len();
    while i > 0
        invariant
            i <= path@.len(),
            r@.len() == path@.len() - i,
            forall|k: int| 0 <= k < r@.len() ==> r@[k] == path@[path@.len() - 1 - k],
        decreases i,
    {
        i = i - 1;
        r.push(path[i]);
    }
    assert(r@ =~= path@.reverse());
    r
}

/// The stats a spawn roll buys: one quarter of all rolls give a fast but
/// frail creep, the rest a slow, sturdy one. Returned as (speed, health)
/// in world units.
pub fn creep_stats(roll: u32) -> (r: (u32, u32))
    ensures
        roll < u32::MAX / 4 ==> r == (35u32, 50u32),
        roll >= u32::MAX / 4 ==> r == (20u32, 100u32),
{
    if roll < u32::MAX / 4 {
        (35, 50)
    } else {
        (20, 100)
    }
}

/// Reroutes one creep after the map changed: a fresh route from the
/// creep's cell replaces its waypoints (travel order, with the cell the
/// creep already stands on dropped). When no route exists the creep keeps
/// its old waypoints unchanged — it may then visibly cross new obstacles,
/// which is the deliberate fallback rather than a stall. The new waypoints
/// are pinned to the search's outcome, so rerouting is deterministic for a
/// fixed grid.
pub fn update_creep_path(map: &FreeMap, from: GridCell, waypoints: &mut Vec<GridCell>)
    requires
        map.wf(),
        coord_ok(from),
    ensures
        reachable(map.base.cells@, from, map.base.end, None) ==> exists|p: Seq<GridCell>|
            path_ok(map.base.cells@, p, from, map.base.end, None) && final(waypoints)@
                == p.reverse().drop_last(),
        reachable(map.base.cells@, from, map.base.end, None) ==> search_result(
            map.base.cells@,
            from,
            map.base.end,
            None,
        ) is Some && final(waypoints)@ == search_result(
            map.base.cells@,
            from,
            map.base.end,
            None,
        ).unwrap().0.reverse().drop_last(),
        !reachable(map.base.cells@, from, map.base.end, None) ==> *final(waypoints) == *old(
            waypoints,
        ),
{
    let found = map.compute_path(&from);
    match found {
        Some(pc) => {
            let path = pc.0;
            let ghost p = path@;
            let mut w = path_to_waypoints(&path);
            w.pop();
            assert(w@ =~= p.reverse().drop_last());
            *waypoints = w;
            assert(path_ok(map.base.cells@, p, from, map.base.end, None));
        },
        None => {},
    }
}

/// Attaches `value` only when the slot is empty: an effect that is already
/// present is neither replaced nor refreshed. This is the non-stacking
/// rule for slow effects — re-applying a slow to an already slowed creep
/// must not reset or extend the running effect.
pub fn insert_if_new<T>(slot: &mut Option<T>, value: T)
    ensures
        (*old(slot)) is Some ==> *final(slot) == *old(slot),
        (*old(slot)) is None ==> *final(slot) == Some(value),
{
    if slot.is_none() {
        *slot = Some(value);
    }
}

} // verus!
