//! The passes that make up one tick.

pub mod collisions_solid;
pub mod map_sync;
pub mod movement_apply;
pub mod player_input;
pub mod player_movement;
pub mod render;
pub mod sync_game_map;
pub mod visibility;
