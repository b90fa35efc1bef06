//! The events the placement stage exchanges with its collaborators: a
//! request coming in, and the notifications raised on success. The firing
//! event carries a world-space target position and therefore lives with
//! the simulation loop, not here.
use vstd::prelude::*;

use crate::components::TurretType;
use crate::map::GridCell;

verus! {

/// A request to place a turret of the given type on the given cell, as
/// the input layer hands it in.
#[derive(Clone, Copy, PartialEq, Eq, Structural, Debug)]
pub struct PlaceTurretMessage {
    pub turret_type: TurretType,
    pub position: GridCell,
}

/// Raised after a successful placement so that other systems can react to
/// the new turret.
#[derive(Clone, Copy, PartialEq, Eq, Structural, Debug)]
pub struct NewTurretMessage {
    pub turret_type: TurretType,
    pub position: GridCell,
}

/// Raised whenever the occupancy changed and the cached path was
/// recomputed; creeps reroute on it.
#[derive(Clone, Copy, PartialEq, Eq, Structural, Debug)]
pub struct MapChangedMessage;

} // verus!
