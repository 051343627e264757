//! Collision validation: cancels the moves of solid entities into blocked
//! tiles.

use crate::components::Moved;
use crate::entity::Entity;
use crate::resources::game_map::{is_blocked, TileProperties};
use crate::world::{ComponentKind, World, WorldView};
use vstd::prelude::*;

verus! {

/// Whether the move of the entity in slot `i` is cancelled: the entity is
/// solid and the tile it wants to enter is marked blocked.
pub open spec fn cancelled(w: WorldView, i: int) -> bool {
    &&& w.moved[i] is Some
    &&& w.materials[i] is Some
    &&& w.materials[i].unwrap().solid
    &&& is_blocked(w.game_map, w.moved[i].unwrap().to)
}

/// The intents when the first `n` slots have been validated.
pub open spec fn surviving_below(w: WorldView, n: int) -> Seq<Option<Moved>> {
    Seq::new(
        w.len(),
        |i: int|
            if i < n && cancelled(w, i) {
                None
            } else {
                w.moved[i]
            },
    )
}

/// The store after collision validation: a cancelled intent is gone, without
/// any movement; every other intent stays as it is.
pub open spec fn collisions_solid(w: WorldView) -> WorldView {
    WorldView { moved: surviving_below(w, w.len() as int), ..w }
}

/// Whether `cancelled_ones` are the entities among the first `n` slots whose move
/// is cancelled.
spec fn collects(w: WorldView, cancelled_ones: Seq<Entity>, n: int) -> bool {
    &&& forall|k: int|
        0 <= k < cancelled_ones.len() ==> {
            let e = #[trigger] cancelled_ones[k];
            e.index < n && e == w.entity_at(e.index as int) && cancelled(w, e.index as int)
        }
    &&& forall|i: int| 0 <= i < n && cancelled(w, i) ==> cancelled_ones.contains(#[trigger] w.entity_at(i))
}

/// The intents when the first `k` of `cancelled_ones` have lost theirs.
spec fn cleared_of(w: WorldView, cancelled_ones: Seq<Entity>, k: int) -> Seq<Option<Moved>> {
    Seq::new(
        w.len(),
        |i: int|
            if exists|j: int| 0 <= j < k && (#[trigger] cancelled_ones[j]).index == i {
                None
            } else {
                w.moved[i]
            },
    )
}

/// The system that validates intents.
pub struct CollisionsSolid;

impl CollisionsSolid {
    /// Validates every intent against the spatial index.  The entities
    /// whose move is cancelled are collected while the intents are scanned,
    /// and lose their intent when the scan is over: intent application,
    /// which comes next, finds only the intents that survived.
    pub fn run(&mut self, world: &mut World)
        requires
            old(world).wf(),
        ensures
            final(world).wf(),
            final(world)@ == collisions_solid(old(world)@),
    {
        let ghost start = world@;
        let mut to_remove: Vec<Entity> = Vec::new();
        let count = world.len();
        let mut i: usize = 0;
        while i < count
            invariant
                i <= count,
                count == start.len(),
                world.wf(),
                world@ == start,
                collects(start, to_remove@, i as int),
            decreases count - i,
        {
            let ghost before = to_remove@;
            match (world.moved[i], world.materials[i]) {
                (Some(mv), Some(material)) => {
                    if material.solid && world.game_map.tile_is(&mv.to, TileProperties::blocked()) {
                        let entity = world.entity(i);
                        to_remove.push(entity);
                        proof {
                            assert(to_remove@[before.len() as int] == entity);
                            assert forall|j: int| 0 <= j < i && cancelled(start, j) implies to_remove@.contains(
                                #[trigger] start.entity_at(j),
                            ) by {
                                let k = choose|k: int|
                                    0 <= k < before.len() && before[k] == start.entity_at(j);
                                assert(to_remove@[k] == start.entity_at(j));
                            }
                        }
                    }
                },
                _ => {},
            }
            i += 1;
        }
        let mut k: usize = 0;
        assert(world@.moved =~= cleared_of(start, to_remove@, 0));
        while k < to_remove.len()
            invariant
                k <= to_remove@.len(),
                world.wf(),
                start.wf(),
                collects(start, to_remove@, start.len() as int),
                world@ == (WorldView { moved: cleared_of(start, to_remove@, k as int), ..start }),
            decreases to_remove@.len() - k,
        {
            let entity = to_remove[k];
            assert(start.has(entity));
            world.detach(entity, ComponentKind::Moved);
            k += 1;
            assert(world@.moved =~= cleared_of(start, to_remove@, k as int)) by {
                assert forall|i: int| 0 <= i < start.len() implies world@.moved[i]
                    == cleared_of(start, to_remove@, k as int)[i] by {
                    if i == entity.index {
                        assert(to_remove@[k - 1].index == i);
                    } else if exists|j: int| 0 <= j < k && (#[trigger] to_remove@[j]).index == i {
                        let j = choose|j: int| 0 <= j < k && (#[trigger] to_remove@[j]).index == i;
                        assert(0 <= j < k - 1 && to_remove@[j].index == i);
                    }
                }
            }
        }
        proof {
            assert forall|i: int| 0 <= i < start.len() implies world@.moved[i] == surviving_below(
                start,
                start.len() as int,
            )[i] by {
                if cancelled(start, i) {
                    let e = start.entity_at(i);
                    assert(to_remove@.contains(e));
                    let j = choose|j: int| 0 <= j < to_remove@.len() && to_remove@[j] == e;
                    assert(to_remove@[j].index == i);
                } else if exists|j: int|
                    0 <= j < to_remove@.len() && (#[trigger] to_remove@[j]).index == i {
                    let j = choose|j: int|
                        0 <= j < to_remove@.len() && (#[trigger] to_remove@[j]).index == i;
                    assert(cancelled(start, to_remove@[j].index as int));
                }
            }
            assert(world@.moved =~= surviving_below(start, start.len() as int));
        }
    }
}

} // verus!
