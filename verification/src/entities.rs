//! What the world is populated with at the start.

pub mod map;
pub mod player;
