//! The scheduler: a fixed list of named systems, each registered after the
//! systems it depends on, run in that order once per tick, with the render
//! system last.

use crate::systems::collisions_solid::{collisions_solid, CollisionsSolid};
use crate::systems::map_sync::{map_sync, MapSync};
use crate::systems::movement_apply::{movement_apply, MovementApply};
use crate::systems::player_input::{player_input, step_fits, PlayerInput};
use crate::systems::player_movement::{player_movement, PlayerMovement};
use crate::systems::render::{Render, Renderer};
use crate::systems::sync_game_map::{sync_game_map, SyncGameMap};
use crate::systems::visibility::{measured, player_placed, visibility, Bearing, Visibility};
use crate::world::{World, WorldView};
use vstd::prelude::*;

verus! {

/// The systems that a dispatcher can run.
#[derive(Clone, Copy, Debug, PartialEq, Eq, Structural)]
pub enum SystemKind {
    PlayerInput,
    SyncGameMap,
    CollisionsSolid,
    MovementApply,
    Visibility,
    MapSync,
    PlayerMovement,
}

/// One entry of the schedule.
pub struct Registered {
    /// The name under which later systems can depend on this one; empty for
    /// a system that nothing can depend on.
    pub name: String,
    pub system: SystemKind,
    /// The places in the schedule of the systems that this one depends on.
    pub dependencies: Vec<usize>,
}

/// Whether a system is registered in `systems` under the name `name`.  The
/// empty name names nothing.
pub open spec fn registered(systems: Seq<Registered>, name: Seq<char>) -> bool {
    name.len() > 0 && exists|i: int| 0 <= i < systems.len() && #[trigger] systems[i].name@ == name
}

/// Whether `systems` is a schedule: no name is used twice, and every system
/// depends only on systems that stand before it.
pub open spec fn scheduled(systems: Seq<Registered>) -> bool {
    &&& forall|i: int, j: int|
        0 <= i < j < systems.len() && (#[trigger] systems[i].name@).len() > 0
            ==> systems[i].name@ != #[trigger] systems[j].name@
    &&& forall|i: int, k: int|
        0 <= i < systems.len() && 0 <= k < systems[i].dependencies@.len()
            ==> #[trigger] systems[i].dependencies@[k] < i
}

/// The kinds of the systems of a schedule, in its order.
pub open spec fn kinds_of(systems: Seq<Registered>) -> Seq<SystemKind> {
    Seq::new(systems.len(), |i: int| systems[i].system)
}

/// Whether the system `kind` can run on `w`.  The systems that move the
/// player need every step to stay on the grid; the visibility engine needs
/// the player, if there is one, to stand somewhere.
pub open spec fn runnable(kind: SystemKind, w: WorldView) -> bool {
    match kind {
        SystemKind::PlayerInput => step_fits(w),
        SystemKind::PlayerMovement => step_fits(w),
        SystemKind::Visibility => player_placed(w),
        _ => true,
    }
}

/// Whether `after` is the store that the system `kind` makes of `before`.
/// The visibility engine depends on what `bucket_of` measures; every other
/// system is a function of the store alone.
pub open spec fn outcome_of<F: Fn(i64, i64) -> i32>(
    kind: SystemKind,
    before: WorldView,
    after: WorldView,
    bucket_of: &F,
) -> bool {
    match kind {
        SystemKind::PlayerInput => after == player_input(before),
        SystemKind::SyncGameMap => after == sync_game_map(before),
        SystemKind::CollisionsSolid => after == collisions_solid(before),
        SystemKind::MovementApply => after == movement_apply(before),
        SystemKind::MapSync => after == map_sync(before),
        SystemKind::PlayerMovement => after == player_movement(before),
        SystemKind::Visibility => match before.player {
            Some(p) => exists|bearings: Seq<Bearing>|
                {
                    &&& measured(
                        before,
                        before.positions[p.ent.index as int].unwrap(),
                        bucket_of,
                        bearings,
                    )
                    &&& after == #[trigger] visibility(before, bearings)
                },
            None => after == before,
        },
    }
}

/// Whether `states` are the stores that the first `n` systems of `kinds`
/// made in turn: `states[0]` is where they started, and each system could
/// run on the store that the one before it left.
pub open spec fn run_of<F: Fn(i64, i64) -> i32>(
    kinds: Seq<SystemKind>,
    states: Seq<WorldView>,
    bucket_of: &F,
    n: int,
) -> bool {
    &&& states.len() == n + 1
    &&& forall|j: int|
        0 <= j < n ==> runnable(kinds[j], #[trigger] states[j]) && outcome_of(
            kinds[j],
            states[j],
            states[j + 1],
            bucket_of,
        )
}

/// Whether `states` are the stores of a dispatch of `kinds` that led from
/// `before` to `after`: either every system ran, or the system at the place
/// `stopped` could not run on the store that the systems before it left.
pub open spec fn dispatched<F: Fn(i64, i64) -> i32>(
    kinds: Seq<SystemKind>,
    states: Seq<WorldView>,
    bucket_of: &F,
    before: WorldView,
    after: WorldView,
    stopped: Option<usize>,
) -> bool {
    &&& states[0] == before
    &&& states.last() == after
    &&& match stopped {
        None => run_of(kinds, states, bucket_of, kinds.len() as int),
        Some(j) => {
            &&& j < kinds.len()
            &&& run_of(kinds, states, bucket_of, j as int)
            &&& !runnable(kinds[j as int], after)
        },
    }
}

/// Builds a dispatcher, one system at a time.
pub struct DispatcherBuilder<T: Renderer> {
    pub systems: Vec<Registered>,
    pub thread_local: Option<Render<T>>,
}

/// Runs its systems in the order of registration, then the render system.
pub struct Dispatcher<T: Renderer> {
    pub systems: Vec<Registered>,
    pub thread_local: Option<Render<T>>,
}

/// The place of the first system of `systems` with the name `name`.
fn find(systems: &Vec<Registered>, name: &String) -> (r: Option<usize>)
    ensures
        match r {
            Some(i) => i < systems@.len() && systems@[i as int].name@ == name@,
            None => forall|i: int| 0 <= i < systems@.len() ==> systems@[i].name@ != name@,
        },
{
    let mut i: usize = 0;
    while i < systems.len()
        invariant
            i <= systems@.len(),
            forall|j: int| 0 <= j < i ==> systems@[j].name@ != name@,
        decreases systems@.len() - i,
    {
        if systems[i].name == *name {
            return Some(i);
        }
        i += 1;
    }
    None
}

impl<T: Renderer> DispatcherBuilder<T> {
    /// The systems form a schedule, and the render system is sound.
    pub open spec fn wf(&self) -> bool {
        &&& scheduled(self.systems@)
        &&& match self.thread_local {
            Some(render) => render.wf(),
            None => true,
        }
    }

    /// Whether a system may be registered under `name` with the
    /// dependencies `dep`: every dependency is registered already, and the
    /// name, unless it is empty, is still free.
    pub open spec fn admits(&self, name: Seq<char>, dep: Seq<&str>) -> bool {
        &&& !registered(self.systems@, name)
        &&& forall|k: int| 0 <= k < dep.len() ==> registered(self.systems@, #[trigger] dep[k]@)
    }

    /// A builder without systems.
    pub fn new() -> (builder: DispatcherBuilder<T>)
        ensures
            builder.wf(),
            builder.systems@.len() == 0,
            builder.thread_local is None,
    {
        DispatcherBuilder { systems: Vec::new(), thread_local: None }
    }

    /// Whether a system is registered under `name`.
    pub fn has(&self, name: &str) -> (r: bool)
        ensures
            r == registered(self.systems@, name@),
    {
        let owned = name.to_owned();
        if owned == String::new() {
            return false;
        }
        assert(name@.len() > 0) by {
            if name@.len() == 0 {
                assert(name@ =~= Seq::<char>::empty());
            }
        }
        match find(&self.systems, &owned) {
            Some(i) => {
                assert(self.systems@[i as int].name@ == name@);
                true
            },
            None => false,
        }
    }

    /// Whether `add` and `with` may be called with `name` and `dep`.
    pub fn accepts(&self, name: &str, dep: &[&str]) -> (r: bool)
        ensures
            r == self.admits(name@, dep@),
    {
        if self.has(name) {
            return false;
        }
        let mut k: usize = 0;
        while k < dep.len()
            invariant
                k <= dep@.len(),
                forall|j: int| 0 <= j < k ==> registered(self.systems@, #[trigger] dep@[j]@),
            decreases dep@.len() - k,
        {
            if !self.has(dep[k]) {
                return false;
            }
            k += 1;
        }
        true
    }

    /// Registers `system` under `name`, to run after the systems named in
    /// `dep`.
    pub fn add(&mut self, system: SystemKind, name: &str, dep: &[&str])
        requires
            old(self).wf(),
            old(self).admits(name@, dep@),
        ensures
            final(self).wf(),
            final(self).thread_local == old(self).thread_local,
            final(self).systems@.len() == old(self).systems@.len() + 1,
            final(self).systems@.take(old(self).systems@.len() as int) == old(self).systems@,
            final(self).systems@.last().name@ == name@,
            final(self).systems@.last().system == system,
            final(self).systems@.last().dependencies@.len() == dep@.len(),
            forall|k: int|
                0 <= k < dep@.len() ==> {
                    let d = #[trigger] final(self).systems@.last().dependencies@[k];
                    d < old(self).systems@.len() && old(self).systems@[d as int].name@ == dep@[k]@
                },
    {
        let mut dependencies: Vec<usize> = Vec::new();
        let mut k: usize = 0;
        while k < dep.len()
            invariant
                k <= dep@.len(),
                dependencies@.len() == k,
                self.admits(name@, dep@),
                forall|j: int|
                    0 <= j < k ==> {
                        let d = #[trigger] dependencies@[j];
                        d < self.systems@.len() && self.systems@[d as int].name@ == dep@[j]@
                    },
            decreases dep@.len() - k,
        {
            let owned = dep[k].to_owned();
            let place = find(&self.systems, &owned);
            assert(place is Some) by {
                assert(registered(self.systems@, dep@[k as int]@));
            }
            dependencies.push(place.unwrap());
            k += 1;
        }
        let ghost before = self.systems@;
        self.systems.push(Registered { name: name.to_owned(), system, dependencies });
        proof {
            assert(self.systems@.take(before.len() as int) =~= before);
            assert forall|i: int, j: int|
                0 <= i < j < self.systems@.len() && (#[trigger] self.systems@[i].name@).len()
                    > 0 implies self.systems@[i].name@ != #[trigger] self.systems@[j].name@ by {
                if j == before.len() {
                    assert(before[i].name@ == self.systems@[i].name@);
                }
            }
        }
    }

    /// As `add`, for chaining.
    pub fn with(self, system: SystemKind, name: &str, dep: &[&str]) -> (builder: DispatcherBuilder<T>)
        requires
            self.wf(),
            self.admits(name@, dep@),
        ensures
            builder.wf(),
            builder.thread_local == self.thread_local,
            builder.systems@.len() == self.systems@.len() + 1,
            builder.systems@.take(self.systems@.len() as int) == self.systems@,
            builder.systems@.last().name@ == name@,
            builder.systems@.last().system == system,
            builder.systems@.last().dependencies@.len() == dep@.len(),
            forall|k: int|
                0 <= k < dep@.len() ==> {
                    let d = #[trigger] builder.systems@.last().dependencies@[k];
                    d < self.systems@.len() && self.systems@[d as int].name@ == dep@[k]@
                },
    {
        let mut builder = self;
        builder.add(system, name, dep);
        builder
    }

    /// Sets the render system, which runs last in every tick.
    pub fn with_thread_local(self, render: Render<T>) -> (builder: DispatcherBuilder<T>)
        requires
            self.wf(),
            render.wf(),
        ensures
            builder.wf(),
            builder.systems == self.systems,
            builder.thread_local == Some(render),
    {
        DispatcherBuilder { systems: self.systems, thread_local: Some(render) }
    }

    /// The dispatcher that runs the registered systems in the order of
    /// their registration, then the render system.
    pub fn build(self) -> (dispatcher: Dispatcher<T>)
        requires
            self.wf(),
        ensures
            dispatcher.wf(),
            dispatcher.systems == self.systems,
            dispatcher.thread_local == self.thread_local,
    {
        Dispatcher { systems: self.systems, thread_local: self.thread_local }
    }
}

/// In a schedule every system stands after each system that it depends on,
/// so running the schedule in order runs every dependency first.
pub proof fn lemma_dependencies_run_first(systems: Seq<Registered>, i: int, k: int)
    requires
        scheduled(systems),
        0 <= i < systems.len(),
        0 <= k < systems[i].dependencies@.len(),
    ensures
        0 <= systems[i].dependencies@[k] < i,
{
}

/// What the render system has done after a dispatch: one more frame, at
/// the size that the renderer reported, of the store as the systems left it.
pub open spec fn rendered<T: Renderer>(
    before: Option<Render<T>>,
    after: Option<Render<T>>,
    w: WorldView,
) -> bool {
    match before {
        Some(render) => after is Some && after.unwrap().wf() && exists|
            width: usize,
            height: usize,
        |
            after.unwrap()@ == #[trigger] render@.after_size(w, width, height),
        None => after is None,
    }
}

impl<T: Renderer> Dispatcher<T> {
    /// The systems form a schedule, and the render system is sound.
    pub open spec fn wf(&self) -> bool {
        &&& scheduled(self.systems@)
        &&& match self.thread_local {
            Some(render) => render.wf(),
            None => true,
        }
    }

    /// Whether the system `kind` can run on `world`.
    pub fn can_run(kind: SystemKind, world: &World) -> (r: bool)
        requires
            world.wf(),
        ensures
            r == runnable(kind, world@),
    {
        match kind {
            SystemKind::PlayerInput => PlayerInput.fits(world),
            SystemKind::PlayerMovement => PlayerInput.fits(world),
            SystemKind::Visibility => Visibility.ready(world),
            _ => true,
        }
    }

    /// Runs the systems in order on `world`, then the render system.  A
    /// system that cannot run stops the dispatch: its place is returned,
    /// the systems before it have run, and nothing is rendered.
    pub fn dispatch<F: Fn(i64, i64) -> i32>(&mut self, world: &mut World, bucket_of: &F) -> (stopped:
        Option<usize>)
        requires
            old(self).wf(),
            old(world).wf(),
            forall|x: i64, y: i64| call_requires(bucket_of, (x, y)),
        ensures
            final(self).wf(),
            final(world).wf(),
            final(self).systems == old(self).systems,
            exists|states: Seq<WorldView>| #[trigger]
                dispatched(
                    kinds_of(old(self).systems@),
                    states,
                    bucket_of,
                    old(world)@,
                    final(world)@,
                    stopped,
                ),
            match stopped {
                None => rendered(old(self).thread_local, final(self).thread_local, final(world)@),
                Some(_) => final(self).thread_local == old(self).thread_local,
            },
    {
        let ghost kinds = kinds_of(self.systems@);
        let ghost mut states: Seq<WorldView> = seq![world@];
        let mut i: usize = 0;
        while i < self.systems.len()
            invariant
                i <= self.systems@.len(),
                self.wf(),
                world.wf(),
                *self == *old(self),
                kinds == kinds_of(self.systems@),
                forall|x: i64, y: i64| call_requires(bucket_of, (x, y)),
                states[0] == old(world)@,
                states.last() == world@,
                run_of(kinds, states, bucket_of, i as int),
            decreases self.systems@.len() - i,
        {
            let kind = self.systems[i].system;
            assert(kind == kinds[i as int]);
            if !Dispatcher::<T>::can_run(kind, world) {
                assert(dispatched(kinds, states, bucket_of, old(world)@, world@, Some(i)));
                return Some(i);
            }
            let ghost before = world@;
            match kind {
                SystemKind::PlayerInput => {
                    PlayerInput.run(world);
                },
                SystemKind::SyncGameMap => {
                    SyncGameMap.run(world);
                },
                SystemKind::CollisionsSolid => {
                    CollisionsSolid.run(world);
                },
                SystemKind::MovementApply => {
                    MovementApply.run(world);
                },
                SystemKind::Visibility => {
                    Visibility.run(world, bucket_of);
                },
                SystemKind::MapSync => {
                    MapSync.run(world);
                },
                SystemKind::PlayerMovement => {
                    PlayerMovement.run(world);
                },
            }
            proof {
                assert(outcome_of(kind, before, world@, bucket_of));
                let ghost earlier = states;
                states = states.push(world@);
                assert forall|j: int| 0 <= j < i + 1 implies runnable(
                    kinds[j],
                    #[trigger] states[j],
                ) && outcome_of(kinds[j], states[j], states[j + 1], bucket_of) by {
                    if j < i {
                        assert(earlier[j] == states[j]);
                        assert(earlier[j + 1] == states[j + 1]);
                    }
                }
            }
            i += 1;
        }
        assert(dispatched(kinds, states, bucket_of, old(world)@, world@, None));
        let mut slot: Option<Render<T>> = None;
        std::mem::swap(&mut self.thread_local, &mut slot);
        match slot {
            Some(mut render) => {
                render.run(world);
                self.thread_local = Some(render);
            },
            None => {},
        }
        None
    }
}

} // verus!
