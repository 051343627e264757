//! Direct movement: moves the player by the pending action at once, without
//! an intent and without validation.

use crate::components::Position;
use crate::systems::player_input::{step_fits, step_for, step_of, steered, target};
use crate::world::{World, WorldView};
use vstd::prelude::*;

verus! {

/// The positions when the first `n` slots have been dealt with.
pub open spec fn stepped_below(w: WorldView, d: (int, int), n: int) -> Seq<Option<Position>> {
    Seq::new(
        w.len(),
        |i: int|
            if i < n && steered(w, i) {
                Some(target(w, i, d))
            } else {
                w.positions[i]
            },
    )
}

/// The store after direct movement: every steered entity stands one step
/// further in the direction of the pending action.  Without a directional
/// action nothing changes.
pub open spec fn player_movement(w: WorldView) -> WorldView {
    match step_of(w.pending_action.0) {
        Some(d) => WorldView { positions: stepped_below(w, d, w.len() as int), ..w },
        None => w,
    }
}

/// The system that moves the player at once.
pub struct PlayerMovement;

impl PlayerMovement {
    /// Moves every steered entity one step in the direction of the pending
    /// action.
    pub fn run(&mut self, world: &mut World)
        requires
            old(world).wf(),
            step_fits(old(world)@),
        ensures
            final(world).wf(),
            final(world)@ == player_movement(old(world)@),
    {
        let d = match step_for(world.pending_action.0) {
            Some(d) => d,
            None => {
                return ;
            },
        };
        let ghost start = world@;
        let ghost gd = (d.0 as int, d.1 as int);
        let count = world.len();
        let mut i: usize = 0;
        assert(world@.positions =~= stepped_below(start, gd, 0));
        while i < count
            invariant
                i <= count,
                count == start.len(),
                world.wf(),
                start.wf(),
                step_fits(start),
                step_of(start.pending_action.0) == Some(gd),
                gd == (d.0 as int, d.1 as int),
                -1 <= d.0 <= 1,
                -1 <= d.1 <= 1,
                world@ == (WorldView { positions: stepped_below(start, gd, i as int), ..start }),
            decreases count - i,
        {
            if world.players[i] {
                match world.positions[i] {
                    Some(pos) => {
                        assert(steered(start, i as int));
                        let to = Position { x: pos.x + d.0, y: pos.y + d.1 };
                        world.positions.set(i, Some(to));
                    },
                    None => {},
                }
            }
            i += 1;
            assert(world@.positions =~= stepped_below(start, gd, i as int));
        }
    }
}

} // verus!
