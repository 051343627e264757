//! Simulation core of a turn-based, tile-grid terminal game.
//!
//! Every tick takes one player action, resolves movement against a spatial
//! occupancy index, recomputes what the player can see, and composites the
//! result into a terminal frame.
//!
//! - [`world`] is the component store: entities, their components, the
//!   resources of the simulation and the queue of deferred operations.
//! - [`dispatcher`] schedules the systems of [`systems`] by their declared
//!   dependencies and runs them in order, the render system last.
//! - [`game`] drives the ticks; [`pipeline`] states what a tick does to
//!   positions and intents as a whole.
//! - [`components`], [`resources`], [`input`] and [`entities`] hold the data
//!   that the systems work on and the population of the starting world.
//!
//! The terminal, the keyboard and the measuring of angles are supplied by
//! the caller: the first two through the traits [`systems::render::Renderer`]
//! and [`input::Buffer`], the last as a function from directions to angular
//! buckets.

pub mod components;
pub mod dispatcher;
pub mod entities;
pub mod entity;
pub mod game;
pub mod input;
pub mod pipeline;
pub mod resources;
pub mod systems;
pub mod world;
