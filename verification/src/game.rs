//! The tick driver: owns the simulation context and the dispatcher, and
//! advances them by one tick at a time.

use crate::components::Position;
use crate::dispatcher::{
    dispatched, kinds_of, rendered, Dispatcher, DispatcherBuilder, SystemKind,
};
use crate::entities;
use crate::entities::map::with_room;
use crate::entities::player::with_player;
use crate::input::{Action, Buffer};
use crate::entity::Entity;
use crate::resources::{PendingAction, Player};
use crate::systems::render::{Render, RenderView, Renderer};
use crate::world::{World, WorldView};
use vstd::prelude::*;

verus! {

/// How a tick ended.
#[derive(Clone, Copy, Debug, PartialEq, Eq, Structural)]
pub enum Outcome {
    /// The tick ran to its end; the game goes on.
    Continue,
    /// The player asked to leave; nothing was run.
    Exit,
    /// The system at this place of the schedule could not run.  The systems
    /// before it have run; nothing was rendered or flushed.
    Stopped(usize),
}

/// The systems of the game, in the order in which they run: intent
/// creation, rebuild of the spatial index, collision validation, intent
/// application, visibility.
pub open spec fn schedule() -> Seq<SystemKind> {
    seq![
        SystemKind::PlayerInput,
        SystemKind::SyncGameMap,
        SystemKind::CollisionsSolid,
        SystemKind::MovementApply,
        SystemKind::Visibility,
    ]
}

/// Whether the actions of a tick ask to leave the game.
pub open spec fn exits(actions: Seq<Action>) -> bool {
    actions.contains(Action::HardExit)
}

/// The one action of a tick that is honoured: the last that arrived.
pub open spec fn honoured(actions: Seq<Action>) -> Option<Action> {
    if actions.len() == 0 {
        None
    } else {
        Some(actions.last())
    }
}

/// The store at the start of a tick for which `actions` arrived: the
/// honoured action is pending.
pub open spec fn awaiting(w: WorldView, actions: Seq<Action>) -> WorldView {
    WorldView { pending_action: PendingAction(honoured(actions)), ..w }
}

/// Whether a tick with the outcome `outcome` led from the store `before` to
/// the store `after`, the systems passing through `states`.  A tick that
/// runs to its end dispatches every system, renders, and then flushes the
/// store; a tick that is stopped leaves the store as the stopped dispatch
/// left it.
pub open spec fn ticked<T: Renderer, F: Fn(i64, i64) -> i32>(
    kinds: Seq<SystemKind>,
    states: Seq<WorldView>,
    bucket_of: &F,
    before: WorldView,
    after: WorldView,
    render_before: Option<Render<T>>,
    render_after: Option<Render<T>>,
    outcome: Outcome,
) -> bool {
    match outcome {
        Outcome::Continue => {
            &&& dispatched(kinds, states, bucket_of, before, states.last(), None)
            &&& rendered(render_before, render_after, states.last())
            &&& after == states.last().flushed()
        },
        Outcome::Stopped(j) => {
            &&& dispatched(kinds, states, bucket_of, before, after, Some(j))
            &&& render_after == render_before
        },
        Outcome::Exit => false,
    }
}

/// A game: the simulation context and the dispatcher that advances it.
pub struct Game<T: Renderer> {
    pub world: World,
    pub dispatcher: Dispatcher<T>,
}

impl<T: Renderer> Game<T> {
    /// The store and the dispatcher are sound.
    pub open spec fn wf(&self) -> bool {
        self.world.wf() && self.dispatcher.wf()
    }

    /// Sets up a game that draws on `renderer`: the camera on the origin, no
    /// action pending, the systems of the game scheduled with the render
    /// system last, the player at the origin, and the room around it.
    pub fn new(renderer: T) -> (game: Game<T>)
        ensures
            game.wf(),
            kinds_of(game.dispatcher.systems@) == schedule(),
            game.dispatcher.thread_local is Some,
            game.dispatcher.thread_local.unwrap()@ == (RenderView {
                frame: Seq::empty(),
                width: 0,
                height: 0,
                issued: Seq::empty(),
            }),
            game.world@ == with_room(with_player(WorldView::empty(), Position { x: 0, y: 0 })),
            game.world@.len() == 925,
            game.world@.queue.len() == 0,
            game.world@.player == Some(Player { ent: Entity { index: 0, generation: 0 } }),
            game.world@.positions[0] == Some(Position { x: 0, y: 0 }),
    {
        let mut world = World::new();
        let render = Render::new(renderer);
        proof {
            reveal_strlit("player_input");
            reveal_strlit("sync_game_map");
            reveal_strlit("collisions_solid");
            reveal_strlit("movement_apply");
            reveal_strlit("visibility");
        }
        let none: Vec<&str> = Vec::new();
        let mut for_collisions: Vec<&str> = Vec::new();
        for_collisions.push("sync_game_map");
        for_collisions.push("player_input");
        let mut for_apply: Vec<&str> = Vec::new();
        for_apply.push("player_input");
        for_apply.push("collisions_solid");
        let mut for_visibility: Vec<&str> = Vec::new();
        for_visibility.push("movement_apply");
        let builder = DispatcherBuilder::new();
        let builder = builder.with(SystemKind::PlayerInput, "player_input", none.as_slice());
        assert(builder.systems@[0].name@ == "player_input"@);
        let builder = builder.with(SystemKind::SyncGameMap, "sync_game_map", none.as_slice());
        assert(builder.systems@[0].name@ == "player_input"@);
        assert(builder.systems@[1].name@ == "sync_game_map"@);
        let builder = builder.with(
            SystemKind::CollisionsSolid,
            "collisions_solid",
            for_collisions.as_slice(),
        );
        let builder = builder.with(SystemKind::MovementApply, "movement_apply", for_apply.as_slice());
        let builder = builder.with(
            SystemKind::Visibility,
            "visibility",
            for_visibility.as_slice(),
        );
        let dispatcher = builder.with_thread_local(render).build();
        assert(kinds_of(dispatcher.systems@) =~= schedule());
        entities::player::create_in(&mut world, Position::new(0, 0));
        entities::map::create_in(&mut world);
        Game { world, dispatcher }
    }

    /// Advances the game by one tick with the actions that arrived since
    /// the tick before.  An action that asks to leave ends the game before
    /// anything is run.  Otherwise the last action is the one pending for
    /// this tick; the systems run, the frame is rendered, and the store is
    /// flushed.
    pub fn tick<F: Fn(i64, i64) -> i32>(&mut self, pending_actions: Vec<Action>, bucket_of: &F) -> (outcome:
        Outcome)
        requires
            old(self).wf(),
            forall|x: i64, y: i64| call_requires(bucket_of, (x, y)),
        ensures
            final(self).wf(),
            final(self).dispatcher.systems == old(self).dispatcher.systems,
            exits(pending_actions@) <==> outcome == Outcome::Exit,
            exits(pending_actions@) ==> *final(self) == *old(self),
            !exits(pending_actions@) ==> exists|states: Seq<WorldView>| #[trigger]
                ticked(
                    kinds_of(old(self).dispatcher.systems@),
                    states,
                    bucket_of,
                    awaiting(old(self).world@, pending_actions@),
                    final(self).world@,
                    old(self).dispatcher.thread_local,
                    final(self).dispatcher.thread_local,
                    outcome,
                ),
    {
        let ghost actions = pending_actions@;
        let mut i: usize = 0;
        while i < pending_actions.len()
            invariant
                i <= pending_actions@.len(),
                *self == *old(self),
                self.wf(),
                forall|j: int| 0 <= j < i ==> pending_actions@[j] != Action::HardExit,
            decreases pending_actions@.len() - i,
        {
            match pending_actions[i] {
                Action::HardExit => {
                    return Outcome::Exit;
                },
                _ => (),
            }
            i += 1;
        }
        let mut remaining = pending_actions;
        self.world.pending_action = PendingAction(remaining.pop());
        let ghost before = self.world@;
        assert(before == awaiting(old(self).world@, actions));
        let ghost render_before = self.dispatcher.thread_local;
        match self.dispatcher.dispatch(&mut self.world, bucket_of) {
            Some(j) => {
                let ghost kinds = kinds_of(old(self).dispatcher.systems@);
                proof {
                    let states = choose|states: Seq<WorldView>| #[trigger]
                        dispatched(kinds, states, bucket_of, before, self.world@, Some(j));
                    assert(ticked(
                        kinds,
                        states,
                        bucket_of,
                        before,
                        self.world@,
                        render_before,
                        self.dispatcher.thread_local,
                        Outcome::Stopped(j),
                    ));
                }
                Outcome::Stopped(j)
            },
            None => {
                let ghost kinds = kinds_of(old(self).dispatcher.systems@);
                let ghost mid = self.world@;
                self.world.flush();
                proof {
                    let states = choose|states: Seq<WorldView>| #[trigger]
                        dispatched(kinds, states, bucket_of, before, mid, None);
                    assert(ticked(
                        kinds,
                        states,
                        bucket_of,
                        before,
                        self.world@,
                        render_before,
                        self.dispatcher.thread_local,
                        Outcome::Continue,
                    ));
                }
                Outcome::Continue
            },
        }
    }

    /// Polls `input` once and advances the game by one tick with what it
    /// hands over.
    pub fn step<U: Buffer, F: Fn(i64, i64) -> i32>(&mut self, input: &mut U, bucket_of: &F) -> (outcome:
        Outcome)
        requires
            old(self).wf(),
            forall|x: i64, y: i64| call_requires(bucket_of, (x, y)),
        ensures
            final(self).wf(),
            final(self).dispatcher.systems == old(self).dispatcher.systems,
            exists|actions: Seq<Action>| #[trigger]
                stepped(
                    actions,
                    *old(self),
                    *final(self),
                    bucket_of,
                    outcome,
                ),
    {
        let pending_actions = input.step();
        let ghost actions = pending_actions@;
        let outcome = self.tick(pending_actions, bucket_of);
        assert(stepped(actions, *old(self), *self, bucket_of, outcome));
        outcome
    }
}

/// Whether a step in which the input handed over `actions` led from the
/// game `before` to the game `after` with the outcome `outcome`.
pub open spec fn stepped<T: Renderer, F: Fn(i64, i64) -> i32>(
    actions: Seq<Action>,
    before: Game<T>,
    after: Game<T>,
    bucket_of: &F,
    outcome: Outcome,
) -> bool {
    if exits(actions) {
        outcome == Outcome::Exit && after == before
    } else {
        exists|states: Seq<WorldView>| #[trigger]
            ticked(
                kinds_of(before.dispatcher.systems@),
                states,
                bucket_of,
                awaiting(before.world@, actions),
                after.world@,
                before.dispatcher.thread_local,
                after.dispatcher.thread_local,
                outcome,
            )
    }
}

} // verus!
