//! Rebuilds the spatial index from the positions of the current tick.

use crate::components::{Position, Shape};
use crate::entity::Entity;
use crate::resources::game_map::{
    is_blocked, occupants, tile_marked, tile_with, Tile, TileProperties,
};
use crate::world::{World, WorldView};
use vstd::prelude::*;

verus! {

/// Whether the entity in slot `i` blocks its tile: its material is solid and
/// its shape fills the tile.
pub open spec fn blocks(w: WorldView, i: int) -> bool {
    &&& w.positions[i] is Some
    &&& w.materials[i] is Some
    &&& w.materials[i].unwrap().solid
    &&& w.shapes[i] == Some(Shape::FullBlock)
}

/// The index after the entity in slot `i` was entered: it is recorded on
/// its tile, and the tile is marked blocked if the entity blocks it.  An
/// entity without a position is not entered.
pub open spec fn entered(m: Map<Position, Tile>, w: WorldView, i: int) -> Map<Position, Tile> {
    match w.positions[i] {
        Some(p) => {
            let recorded = m.insert(p, tile_with(m, p, w.entity_at(i)));
            if blocks(w, i) {
                recorded.insert(p, tile_marked(recorded, p, 1))
            } else {
                recorded
            }
        },
        None => m,
    }
}

/// The empty index after the entities in the first `n` slots were entered.
pub open spec fn rebuilt(w: WorldView, n: int) -> Map<Position, Tile>
    decreases n,
{
    if n <= 0 {
        Map::empty()
    } else {
        entered(rebuilt(w, n - 1), w, n - 1)
    }
}

/// The store after the spatial index was rebuilt from scratch.
pub open spec fn sync_game_map(w: WorldView) -> WorldView {
    WorldView { game_map: rebuilt(w, w.len() as int), ..w }
}

/// What the rebuilt index holds.  A tile is blocked exactly if an entity
/// that blocks stands on it; the occupants of a tile are exactly the
/// entities that stand on it, each recorded once; and the only flag that a
/// tile can carry is the one for blocked.
pub proof fn lemma_rebuilt(w: WorldView, n: int, p: Position)
    requires
        w.wf(),
        0 <= n <= w.len(),
    ensures
        is_blocked(rebuilt(w, n), p) <==> exists|i: int|
            0 <= i < n && w.positions[i] == Some(p) && #[trigger] blocks(w, i),
        forall|e: Entity| #[trigger]
            occupants(rebuilt(w, n), p).contains(e) <==> (e.index < n && e == w.entity_at(
                e.index as int,
            ) && w.positions[e.index as int] == Some(p)),
        rebuilt(w, n).contains_key(p) ==> {
            &&& rebuilt(w, n)[p].entities.no_duplicates()
            &&& rebuilt(w, n)[p].properties == 0 || rebuilt(w, n)[p].properties == 1
        },
    decreases n,
{
    assert(0u16 & 1 == 0 && 1u16 & 1 == 1 && 0u16 | 1 == 1 && 1u16 | 1 == 1) by (bit_vector);
    if n > 0 {
        lemma_rebuilt(w, n - 1, p);
        let i = n - 1;
        let m = rebuilt(w, i);
        let after = rebuilt(w, n);
        let e = w.entity_at(i);
        if w.positions[i] == Some(p) {
            assert(e.index == i);
            assert(!occupants(m, p).contains(e));
            let recorded = m.insert(p, tile_with(m, p, e));
            if m.contains_key(p) {
                assert(!m[p].entities.contains(e));
                assert(recorded[p].entities == m[p].entities.push(e));
                assert forall|x: Entity| #[trigger]
                    recorded[p].entities.contains(x) <==> (m[p].entities.contains(x) || x
                        == e) by {
                    if m[p].entities.contains(x) {
                        let j = choose|j: int|
                            0 <= j < m[p].entities.len() && m[p].entities[j] == x;
                        assert(recorded[p].entities[j] == x);
                    }
                    assert(recorded[p].entities[m[p].entities.len() as int] == e);
                }
            } else {
                assert(recorded[p].entities == seq![e]);
                assert(recorded[p].entities[0] == e);
            }
            assert(after[p].entities == recorded[p].entities);
            assert forall|x: Entity| #[trigger]
                occupants(after, p).contains(x) <==> (x.index < n && x == w.entity_at(
                    x.index as int,
                ) && w.positions[x.index as int] == Some(p)) by {
                assert(occupants(m, p).contains(x) <==> (x.index < n - 1 && x == w.entity_at(
                    x.index as int,
                ) && w.positions[x.index as int] == Some(p)));
                assert(occupants(after, p).contains(x) <==> after[p].entities.contains(x));
                assert(after[p].entities.contains(x) <==> (occupants(m, p).contains(x) || x == e));
            }
            if blocks(w, i) {
                assert(is_blocked(after, p));
            } else {
                assert(after[p].properties == recorded[p].properties);
            }
        } else {
            assert(after.contains_key(p) == m.contains_key(p));
            if after.contains_key(p) {
                assert(after[p] == m[p]);
            }
            assert forall|x: Entity| #[trigger]
                occupants(after, p).contains(x) <==> (x.index < n && x == w.entity_at(
                    x.index as int,
                ) && w.positions[x.index as int] == Some(p)) by {
                assert(occupants(after, p) == occupants(m, p));
                assert(occupants(m, p).contains(x) <==> (x.index < n - 1 && x == w.entity_at(
                    x.index as int,
                ) && w.positions[x.index as int] == Some(p)));
            }
        }
    }
}

/// The system that rebuilds the spatial index.
pub struct SyncGameMap;

impl SyncGameMap {
    /// Clears the spatial index and enters every entity that has a
    /// position.
    pub fn run(&mut self, world: &mut World)
        requires
            old(world).wf(),
        ensures
            final(world).wf(),
            final(world)@ == sync_game_map(old(world)@),
            forall|p: Position|
                is_blocked(final(world)@.game_map, p) <==> exists|i: int|
                    0 <= i < old(world)@.len() && old(world)@.positions[i] == Some(p)
                        && #[trigger] blocks(old(world)@, i),
            forall|p: Position, e: Entity| #[trigger]
                occupants(final(world)@.game_map, p).contains(e) <==> (old(world)@.has(e)
                    && old(world)@.positions[e.index as int] == Some(p)),
    {
        let ghost start = world@;
        world.game_map.clear_all();
        let count = world.len();
        let mut i: usize = 0;
        while i < count
            invariant
                i <= count,
                count == start.len(),
                world.wf(),
                start.wf(),
                world@ == (WorldView { game_map: rebuilt(start, i as int), ..start }),
            decreases count - i,
        {
            match world.positions[i] {
                Some(pos) => {
                    let entity = world.entity(i);
                    world.game_map.add(&pos, entity);
                    let full = match world.shapes[i] {
                        Some(Shape::FullBlock) => true,
                        _ => false,
                    };
                    let solid = match world.materials[i] {
                        Some(material) => material.solid,
                        None => false,
                    };
                    if solid && full {
                        world.game_map.mark_tile(&pos, TileProperties::blocked());
                    }
                },
                None => {},
            }
            i += 1;
        }
        proof {
            assert forall|p: Position|
                is_blocked(world@.game_map, p) <==> exists|i: int|
                    0 <= i < start.len() && start.positions[i] == Some(p) && #[trigger] blocks(
                        start,
                        i,
                    ) by {
                lemma_rebuilt(start, start.len() as int, p);
            }
            assert forall|p: Position, e: Entity| #[trigger]
                occupants(world@.game_map, p).contains(e) <==> (start.has(e)
                    && start.positions[e.index as int] == Some(p)) by {
                lemma_rebuilt(start, start.len() as int, p);
            }
        }
    }
}

} // verus!
