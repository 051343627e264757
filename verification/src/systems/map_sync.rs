//! Records every positioned entity in the spatial index, on top of what the
//! index already holds.

use crate::components::Position;
use crate::resources::game_map::{tile_with, Tile};
use crate::world::{World, WorldView};
use vstd::prelude::*;

verus! {

/// The index `m` after the positioned entities in the first `n` slots were
/// recorded on their tiles, in slot order.
pub open spec fn recorded(m: Map<Position, Tile>, w: WorldView, n: int) -> Map<Position, Tile>
    decreases n,
{
    if n <= 0 {
        m
    } else {
        let before = recorded(m, w, n - 1);
        match w.positions[n - 1] {
            Some(p) => before.insert(p, tile_with(before, p, w.entity_at(n - 1))),
            None => before,
        }
    }
}

/// The store after every positioned entity was recorded.
pub open spec fn map_sync(w: WorldView) -> WorldView {
    WorldView { game_map: recorded(w.game_map, w, w.len() as int), ..w }
}

/// The system that records positioned entities in the spatial index.
pub struct MapSync;

impl MapSync {
    /// Records every entity that has a position on its tile.  What the
    /// index held before stays.
    pub fn run(&mut self, world: &mut World)
        requires
            old(world).wf(),
        ensures
            final(world).wf(),
            final(world)@ == map_sync(old(world)@),
    {
        let ghost start = world@;
        let count = world.len();
        let mut i: usize = 0;
        while i < count
            invariant
                i <= count,
                count == start.len(),
                world.wf(),
                world@ == (WorldView { game_map: recorded(start.game_map, start, i as int), ..start }),
            decreases count - i,
        {
            match world.positions[i] {
                Some(pos) => {
                    let entity = world.entity(i);
                    world.game_map.add(&pos, entity);
                },
                None => {},
            }
            i += 1;
        }
    }
}

} // verus!
