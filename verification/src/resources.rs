//! State that belongs to the simulation as a whole, not to one entity.

use crate::entity::Entity;
use crate::input::Action;
use vstd::prelude::*;

pub mod entity_grid;
pub mod game_map;

verus! {

/// The time that one tick stands for.
pub struct DeltaTime(pub std::time::Duration);

/// The tile at the centre of the viewport.
#[derive(Clone, Copy, Debug, Default, PartialEq, Eq, Structural)]
pub struct CameraCenter {
    pub x: i32,
    pub y: i32,
}

/// The handle of the entity that the player controls, kept for direct lookup.
#[derive(Clone, Copy, Debug, PartialEq, Eq, Structural)]
pub struct Player {
    pub ent: Entity,
}

/// The one action that the current tick has to honour, if any.
#[derive(Clone, Copy, Debug, Default, PartialEq, Eq, Structural)]
pub struct PendingAction(pub Option<Action>);

} // verus!
