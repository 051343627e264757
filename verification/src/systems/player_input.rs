//! Intent creation: turns the pending action into a proposed move of the
//! player.

use crate::components::{Moved, Position};
use crate::input::Action;
use crate::world::{Component, Deferred, World, WorldView};
use vstd::prelude::*;

verus! {

/// The unit step that an action asks for, if it asks for one.  Negative `y`
/// is up.
pub open spec fn step_of(action: Option<Action>) -> Option<(int, int)> {
    match action {
        Some(Action::Up) => Some((0, -1)),
        Some(Action::Down) => Some((0, 1)),
        Some(Action::Left) => Some((-1, 0)),
        Some(Action::Right) => Some((1, 0)),
        _ => None,
    }
}

/// Whether the entity in slot `i` is steered by the player: it carries the
/// player marker and stands somewhere.
pub open spec fn steered(w: WorldView, i: int) -> bool {
    w.players[i] && w.positions[i] is Some
}

/// Where the entity in slot `i` would arrive by the step `d`.
pub open spec fn target(w: WorldView, i: int, d: (int, int)) -> Position {
    w.positions[i].unwrap().shifted(d.0, d.1)
}

/// The intent of the entity in slot `i` after the step `d` was asked for: a
/// steered entity that has an intent keeps its origin and gets the new
/// destination; every other intent stays.
pub open spec fn retargeted(w: WorldView, i: int, d: (int, int)) -> Option<Moved> {
    if steered(w, i) && w.moved[i] is Some {
        Some(Moved { from: w.moved[i].unwrap().from, to: target(w, i, d) })
    } else {
        w.moved[i]
    }
}

/// The intents when the first `n` slots have been dealt with.
pub open spec fn retargeted_below(w: WorldView, d: (int, int), n: int) -> Seq<Option<Moved>> {
    Seq::new(
        w.len(),
        |i: int|
            if i < n {
                retargeted(w, i, d)
            } else {
                w.moved[i]
            },
    )
}

/// The attachments queued for the first `n` slots: one for each steered
/// entity that has no intent yet, in slot order.
pub open spec fn proposals(w: WorldView, d: (int, int), n: int) -> Seq<Deferred>
    decreases n,
{
    if n <= 0 {
        Seq::empty()
    } else {
        let before = proposals(w, d, n - 1);
        let i = n - 1;
        if steered(w, i) && w.moved[i] is None {
            before.push(
                Deferred::Attach(
                    w.entity_at(i),
                    Component::Moved(Moved { from: w.positions[i].unwrap(), to: target(w, i, d) }),
                ),
            )
        } else {
            before
        }
    }
}

/// Whether every steered entity can take the step that the pending action
/// asks for without leaving the grid.
pub open spec fn step_fits(w: WorldView) -> bool {
    match step_of(w.pending_action.0) {
        Some(d) => forall|i: int|
            0 <= i < w.len() && #[trigger] steered(w, i) ==> w.positions[i].unwrap().can_shift(
                d.0,
                d.1,
            ),
        None => true,
    }
}

/// The store after intent creation.  Without a directional action nothing
/// changes.  Otherwise every steered entity proposes the move from its
/// position by one step: an existing intent is redirected at once, a new one
/// is queued.
pub open spec fn player_input(w: WorldView) -> WorldView {
    match step_of(w.pending_action.0) {
        Some(d) => WorldView {
            moved: Seq::new(w.len(), |i: int| retargeted(w, i, d)),
            queue: w.queue + proposals(w, d, w.len() as int),
            ..w
        },
        None => w,
    }
}

/// The step for `action`, if it is a direction.
pub fn step_for(action: Option<Action>) -> (r: Option<(i32, i32)>)
    ensures
        match r {
            Some(d) => step_of(action) == Some((d.0 as int, d.1 as int)),
            None => step_of(action) is None,
        },
{
    match action {
        Some(Action::Up) => Some((0, -1)),
        Some(Action::Down) => Some((0, 1)),
        Some(Action::Left) => Some((-1, 0)),
        Some(Action::Right) => Some((1, 0)),
        _ => None,
    }
}

/// The system that creates intents.
pub struct PlayerInput;

impl PlayerInput {
    /// Whether `run` may be called on `world`: no steered entity would leave
    /// the grid.
    pub fn fits(&self, world: &World) -> (r: bool)
        requires
            world.wf(),
        ensures
            r == step_fits(world@),
    {
        let d = match step_for(world.pending_action.0) {
            Some(d) => d,
            None => {
                return true;
            },
        };
        let mut i: usize = 0;
        while i < world.len()
            invariant
                i <= world@.len(),
                world.wf(),
                step_of(world@.pending_action.0) == Some((d.0 as int, d.1 as int)),
                -1 <= d.0 <= 1,
                -1 <= d.1 <= 1,
                forall|j: int|
                    0 <= j < i && #[trigger] steered(world@, j)
                        ==> world@.positions[j].unwrap().can_shift(d.0 as int, d.1 as int),
            decreases world@.len() - i,
        {
            if world.players[i] {
                match world.positions[i] {
                    Some(p) => {
                        let x: i64 = p.x as i64 + d.0 as i64;
                        let y: i64 = p.y as i64 + d.1 as i64;
                        if x < -2147483648 || x > 2147483647 || y < -2147483648 || y > 2147483647 {
                            assert(steered(world@, i as int));
                            return false;
                        }
                    },
                    None => {},
                }
            }
            i += 1;
        }
        true
    }

    /// Turns the pending action into intents of the steered entities.
    pub fn run(&mut self, world: &mut World)
        requires
            old(world).wf(),
            step_fits(old(world)@),
        ensures
            final(world).wf(),
            final(world)@ == player_input(old(world)@),
    {
        let d = match step_for(world.pending_action.0) {
            Some(d) => d,
            None => {
                return ;
            },
        };
        let ghost start = world@;
        let ghost gd = (d.0 as int, d.1 as int);
        let count = world.len();
        let mut i: usize = 0;
        proof {
            assert(world@.moved =~= retargeted_below(start, gd, 0));
            assert(world@.queue =~= start.queue + proposals(start, gd, 0));
        }
        while i < count
            invariant
                i <= count,
                count == start.len(),
                world.wf(),
                start.wf(),
                step_fits(start),
                step_of(start.pending_action.0) == Some(gd),
                gd == (d.0 as int, d.1 as int),
                -1 <= d.0 <= 1,
                -1 <= d.1 <= 1,
                world@ == (WorldView {
                    moved: retargeted_below(start, gd, i as int),
                    queue: start.queue + proposals(start, gd, i as int),
                    ..start
                }),
            decreases count - i,
        {
            if world.players[i] {
                match world.positions[i] {
                    Some(pos) => {
                        assert(steered(start, i as int));
                        let to = Position { x: pos.x + d.0, y: pos.y + d.1 };
                        assert(to == target(start, i as int, gd));
                        match world.moved[i] {
                            Some(mv) => {
                                world.moved.set(i, Some(Moved { from: mv.from, to }));
                            },
                            None => {
                                let entity = world.entity(i);
                                world.defer_attach(
                                    entity,
                                    Component::Moved(Moved { from: pos, to }),
                                );
                            },
                        }
                    },
                    None => {},
                }
            }
            i += 1;
            proof {
                assert(world@.moved =~= retargeted_below(start, gd, i as int));
                assert(world@.queue =~= start.queue + proposals(start, gd, i as int));
            }
        }
        proof {
            assert(world@.moved =~= Seq::new(start.len(), |j: int| retargeted(start, j, gd)));
            assert(world@.queue == start.queue + proposals(start, gd, start.len() as int));
        }
    }
}

} // verus!
