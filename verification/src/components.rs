//! The turret variants of the game.
//!
//! A turret's world-space data (range, damage, reload time) is continuous
//! and lives with the simulation loop; the rules in this crate only need
//! the variant itself and its gold cost.
use vstd::prelude::*;

verus! {

/// The four turret types: instant single-target damage, area damage,
/// homing-projectile thrower, and the slow-effect turret.
#[derive(Clone, Copy, PartialEq, Eq, Structural, Hash, Debug)]
pub enum TurretType {
    Basic,
    Bomb,
    Follower,
    Slow,
}

} // verus!
