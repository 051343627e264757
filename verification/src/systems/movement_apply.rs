//! Intent application: commits the moves that survived validation.

use crate::components::Position;
use crate::world::{ComponentKind, Deferred, World, WorldView};
use vstd::prelude::*;

verus! {

/// Whether the entity in slot `i` moves: it stands somewhere and has an
/// intent.
pub open spec fn moves(w: WorldView, i: int) -> bool {
    w.positions[i] is Some && w.moved[i] is Some
}

/// The positions when the first `n` slots have been dealt with.
pub open spec fn arrived_below(w: WorldView, n: int) -> Seq<Option<Position>> {
    Seq::new(
        w.len(),
        |i: int|
            if i < n && moves(w, i) {
                Some(w.moved[i].unwrap().to)
            } else {
                w.positions[i]
            },
    )
}

/// The removals queued for the first `n` slots: one for each entity that
/// moves, in slot order.
pub open spec fn retirements(w: WorldView, n: int) -> Seq<Deferred>
    decreases n,
{
    if n <= 0 {
        Seq::empty()
    } else {
        let before = retirements(w, n - 1);
        if moves(w, n - 1) {
            before.push(Deferred::Detach(w.entity_at(n - 1), ComponentKind::Moved))
        } else {
            before
        }
    }
}

/// The store after intent application: every entity that moves stands at
/// the destination of its intent, and the removal of the intent is queued.
pub open spec fn movement_apply(w: WorldView) -> WorldView {
    WorldView {
        positions: arrived_below(w, w.len() as int),
        queue: w.queue + retirements(w, w.len() as int),
        ..w
    }
}

/// The system that applies intents.
pub struct MovementApply;

impl MovementApply {
    /// Moves every entity that has an intent to the destination of the
    /// intent, and queues the removal of the intent.
    pub fn run(&mut self, world: &mut World)
        requires
            old(world).wf(),
        ensures
            final(world).wf(),
            final(world)@ == movement_apply(old(world)@),
    {
        let ghost start = world@;
        let count = world.len();
        let mut i: usize = 0;
        proof {
            assert(world@.positions =~= arrived_below(start, 0));
            assert(world@.queue =~= start.queue + retirements(start, 0));
        }
        while i < count
            invariant
                i <= count,
                count == start.len(),
                world.wf(),
                start.wf(),
                world@ == (WorldView {
                    positions: arrived_below(start, i as int),
                    queue: start.queue + retirements(start, i as int),
                    ..start
                }),
            decreases count - i,
        {
            match (world.positions[i], world.moved[i]) {
                (Some(_), Some(mv)) => {
                    let mut pos = Position { x: 0, y: 0 };
                    pos.set(&mv.to);
                    world.positions.set(i, Some(pos));
                    let entity = world.entity(i);
                    world.defer_detach(entity, ComponentKind::Moved);
                },
                _ => {},
            }
            i += 1;
            proof {
                assert(world@.positions =~= arrived_below(start, i as int));
                assert(world@.queue =~= start.queue + retirements(start, i as int));
            }
        }
    }
}

} // verus!
