//! What a tick of the game does to positions and intents, taken as a whole.
//!
//! The systems are specified one by one; the laws here follow an entity
//! through intent creation, validation, application and the flush.

use crate::components::{Moved, Position};
use crate::dispatcher::{dispatched, outcome_of, run_of, runnable, SystemKind};
use crate::game::{awaiting, schedule, ticked, Outcome};
use crate::input::Action;
use crate::systems::collisions_solid::{cancelled, collisions_solid};
use crate::systems::movement_apply::{movement_apply, moves, retirements};
use crate::systems::player_input::{player_input, proposals, step_fits, step_of, steered, target};
use crate::systems::render::{Render, Renderer};
use crate::systems::sync_game_map::{blocks, lemma_rebuilt, sync_game_map};
use crate::systems::visibility::{measured, player_placed, visibility, Bearing};
use crate::world::{Component, ComponentKind, Deferred, WorldView};
use vstd::prelude::*;

verus! {

/// The store after the four movement systems of a tick: intent creation,
/// rebuild of the spatial index, validation, application.
pub open spec fn moved_through(w: WorldView) -> WorldView {
    movement_apply(collisions_solid(sync_game_map(player_input(w))))
}

/// The tile that the entity in slot `i`, which has an intent, asks to enter
/// in this tick: one step from where it stands if the player steers it
/// and a direction is pending, else the destination of its intent.
pub open spec fn wanted(w: WorldView, i: int) -> Position {
    match step_of(w.pending_action.0) {
        Some(d) => if steered(w, i) {
            target(w, i, d)
        } else {
            w.moved[i].unwrap().to
        },
        None => w.moved[i].unwrap().to,
    }
}

/// Whether the entity in slot `i` is held back in this tick: it is solid,
/// and on the tile it asks to enter stands an entity that blocks.
pub open spec fn held_back(w: WorldView, i: int) -> bool {
    &&& w.materials[i] is Some
    &&& w.materials[i].unwrap().solid
    &&& exists|j: int|
        0 <= j < w.len() && w.positions[j] == Some(wanted(w, i)) && #[trigger] blocks(w, j)
}

/// The intent that the entity in slot `i`, which has none, proposes in
/// this tick: one step from where it stands, if the player steers it and a
/// direction is pending.
pub open spec fn proposed(w: WorldView, i: int) -> Option<Moved> {
    match step_of(w.pending_action.0) {
        Some(d) => if steered(w, i) {
            Some(Moved { from: w.positions[i].unwrap(), to: target(w, i, d) })
        } else {
            None
        },
        None => None,
    }
}

/// Where the entity in slot `i` stands after a tick that started from `w`
/// with an empty queue.  An entity with an intent arrives at the tile it
/// asks to enter, unless it is held back; every other entity stays.
pub open spec fn place_after(w: WorldView, i: int) -> Option<Position> {
    if w.positions[i] is Some && w.moved[i] is Some && !held_back(w, i) {
        Some(wanted(w, i))
    } else {
        w.positions[i]
    }
}

/// The intent of the entity in slot `i` after a tick that started from `w`
/// with an empty queue.  An intent of an entity that stands somewhere is
/// gone, applied or cancelled; an entity without an intent has the one it
/// proposed in this tick; an intent of an entity that stands nowhere is
/// cancelled if the entity is held back, and stays otherwise.
pub open spec fn intent_after(w: WorldView, i: int) -> Option<Moved> {
    if w.moved[i] is None {
        proposed(w, i)
    } else if w.positions[i] is Some || held_back(w, i) {
        None
    } else {
        w.moved[i]
    }
}

/// Carrying out one queue after another is carrying out both in a row.
pub proof fn lemma_applied_all_concat(w: WorldView, a: Seq<Deferred>, b: Seq<Deferred>)
    ensures
        w.applied_all(a + b) == w.applied_all(a).applied_all(b),
    decreases b.len(),
{
    if b.len() == 0 {
        assert(a + b =~= a);
    } else {
        lemma_applied_all_concat(w, a, b.drop_last());
        assert((a + b).drop_last() =~= a + b.drop_last());
        assert((a + b).last() == b.last());
    }
}

/// The intents after the proposals for the first `n` slots of `w` were
/// carried out on intents `moved`.
pub open spec fn with_proposals(w: WorldView, moved: Seq<Option<Moved>>, d: (int, int), n: int) -> Seq<
    Option<Moved>,
> {
    Seq::new(
        moved.len(),
        |i: int|
            if i < n && steered(w, i) && w.moved[i] is None {
                Some(Moved { from: w.positions[i].unwrap(), to: target(w, i, d) })
            } else {
                moved[i]
            },
    )
}

/// Carrying out the proposals of a tick attaches each proposed intent and
/// changes nothing else.
pub proof fn lemma_proposals_applied(x: WorldView, w: WorldView, d: (int, int), n: int)
    requires
        x.wf(),
        w.wf(),
        x.generations == w.generations,
        0 <= n <= w.len(),
    ensures
        x.applied_all(proposals(w, d, n)) == (WorldView {
            moved: with_proposals(w, x.moved, d, n),
            ..x
        }),
    decreases n,
{
    if n == 0 {
        assert(x.moved =~= with_proposals(w, x.moved, d, 0));
    } else {
        lemma_proposals_applied(x, w, d, n - 1);
        let i = n - 1;
        let before = WorldView { moved: with_proposals(w, x.moved, d, i), ..x };
        if steered(w, i) && w.moved[i] is None {
            let e = w.entity_at(i);
            assert(e.index == i);
            assert(before.has(e));
            let op = Deferred::Attach(
                e,
                Component::Moved(Moved { from: w.positions[i].unwrap(), to: target(w, i, d) }),
            );
            assert(proposals(w, d, n).drop_last() =~= proposals(w, d, i));
            assert(proposals(w, d, n).last() == op);
            assert(before.applied(op).moved =~= with_proposals(w, x.moved, d, n));
        } else {
            assert(with_proposals(w, x.moved, d, n) =~= with_proposals(w, x.moved, d, i));
        }
    }
}

/// The intents after the retirements for the first `n` slots of `w` were
/// carried out on intents `moved`.
pub open spec fn with_retirements(w: WorldView, moved: Seq<Option<Moved>>, n: int) -> Seq<
    Option<Moved>,
> {
    Seq::new(
        moved.len(),
        |i: int|
            if i < n && moves(w, i) {
                None
            } else {
                moved[i]
            },
    )
}

/// Carrying out the retirements of a tick removes the intent of each
/// entity that moved and changes nothing else.
pub proof fn lemma_retirements_applied(x: WorldView, w: WorldView, n: int)
    requires
        x.wf(),
        w.wf(),
        x.generations == w.generations,
        0 <= n <= w.len(),
    ensures
        x.applied_all(retirements(w, n)) == (WorldView {
            moved: with_retirements(w, x.moved, n),
            ..x
        }),
    decreases n,
{
    if n == 0 {
        assert(x.moved =~= with_retirements(w, x.moved, 0));
    } else {
        lemma_retirements_applied(x, w, n - 1);
        let i = n - 1;
        let before = WorldView { moved: with_retirements(w, x.moved, i), ..x };
        if moves(w, i) {
            let e = w.entity_at(i);
            assert(e.index == i);
            assert(before.has(e));
            let op = Deferred::Detach(e, ComponentKind::Moved);
            assert(retirements(w, n).drop_last() =~= retirements(w, i));
            assert(retirements(w, n).last() == op);
            assert(before.applied(op).moved =~= with_retirements(w, x.moved, n));
        } else {
            assert(with_retirements(w, x.moved, n) =~= with_retirements(w, x.moved, i));
        }
    }
}

/// The movement of a tick.  From a store with an empty queue, the four
/// movement systems and the flush leave every entity where `place_after`
/// says and with the intent that `intent_after` says.  In particular an
/// entity that moves freely arrives and keeps no intent, and one that is held
/// back stays where it was and keeps no intent either.
pub proof fn lemma_tick_moves(w: WorldView, i: int)
    requires
        w.wf(),
        w.queue.len() == 0,
        0 <= i < w.len(),
    ensures
        moved_through(w).flushed().positions[i] == place_after(w, i),
        moved_through(w).flushed().moved[i] == intent_after(w, i),
        moved_through(w).flushed().queue.len() == 0,
        moved_through(w).flushed().wf(),
{
    let n = w.len() as int;
    let w1 = player_input(w);
    let w2 = sync_game_map(w1);
    let w3 = collisions_solid(w2);
    let w4 = movement_apply(w3);
    assert(w4 == moved_through(w));
    let bare = WorldView { queue: Seq::empty(), ..w4 };
    assert(w.queue =~= Seq::empty());
    assert(w3.moved[i] is Some ==> (w3.moved[i].unwrap().to == wanted(w, i) && w.moved[i] is Some));
    assert(cancelled(w2, i) <==> (w.moved[i] is Some && held_back(w, i))) by {
        if w.moved[i] is Some {
            lemma_rebuilt(w1, n, wanted(w, i));
            assert(w2.moved[i] is Some);
            assert(w2.moved[i].unwrap().to == wanted(w, i));
            assert forall|j: int| 0 <= j < n implies blocks(w1, j) == blocks(w, j) by {}
            if held_back(w, i) {
                let j = choose|j: int|
                    0 <= j < w.len() && w.positions[j] == Some(wanted(w, i)) && #[trigger] blocks(
                        w,
                        j,
                    );
                assert(blocks(w1, j));
            }
        }
    }
    assert(w3.wf() && w4.wf() && bare.wf()) by {
        assert(w1.moved.len() == n);
        assert(w3.moved.len() == n);
        assert(w4.positions.len() == n);
    }
    assert(w3.moved[i] == if cancelled(w2, i) {
        None
    } else {
        w1.moved[i]
    });
    assert(w4.moved[i] == w3.moved[i]);
    assert(w4.positions[i] == if moves(w3, i) {
        Some(w3.moved[i].unwrap().to)
    } else {
        w.positions[i]
    });
    let after = moved_through(w).flushed();
    match step_of(w.pending_action.0) {
        Some(d) => {
            assert(w4.queue =~= proposals(w, d, n) + retirements(w3, n));
            lemma_applied_all_concat(bare, proposals(w, d, n), retirements(w3, n));
            lemma_proposals_applied(bare, w, d, n);
            let mid = WorldView { moved: with_proposals(w, bare.moved, d, n), ..bare };
            assert(bare.applied_all(proposals(w, d, n)) == mid);
            lemma_retirements_applied(mid, w3, n);
            assert(after == (WorldView { moved: with_retirements(w3, mid.moved, n), ..mid }));
            assert(after.moved[i] == with_retirements(w3, mid.moved, n)[i]);
            assert(mid.moved[i] == with_proposals(w, bare.moved, d, n)[i]);
        },
        None => {
            assert(w4.queue =~= retirements(w3, n));
            lemma_retirements_applied(bare, w3, n);
            assert(after == (WorldView { moved: with_retirements(w3, bare.moved, n), ..bare }));
            assert(after.moved[i] == with_retirements(w3, bare.moved, n)[i]);
        },
    }
}

/// A dispatch of the schedule of the game that ran to its end went through
/// the four movement systems and then decided visibility, which changes
/// nothing but the marks of what is perceived.
pub proof fn lemma_schedule_unfolds<F: Fn(i64, i64) -> i32>(
    states: Seq<WorldView>,
    bucket_of: &F,
    before: WorldView,
    after: WorldView,
)
    requires
        dispatched(schedule(), states, bucket_of, before, after, None),
    ensures
        step_fits(before),
        player_placed(moved_through(before)),
        outcome_of(SystemKind::Visibility, moved_through(before), after, bucket_of),
        after == (WorldView { visibles: after.visibles, ..moved_through(before) }),
{
    let kinds = schedule();
    assert(run_of(kinds, states, bucket_of, 5));
    assert(runnable(kinds[0], states[0]) && outcome_of(kinds[0], states[0], states[1], bucket_of));
    assert(runnable(kinds[1], states[1]) && outcome_of(kinds[1], states[1], states[2], bucket_of));
    assert(runnable(kinds[2], states[2]) && outcome_of(kinds[2], states[2], states[3], bucket_of));
    assert(runnable(kinds[3], states[3]) && outcome_of(kinds[3], states[3], states[4], bucket_of));
    assert(runnable(kinds[4], states[4]) && outcome_of(kinds[4], states[4], states[5], bucket_of));
    assert(states[4] == moved_through(before));
    assert(states[5] == after);
}

/// The flush does to every table but the marks of what is perceived the
/// same, whatever those marks are.
pub proof fn lemma_flush_apart_from_marks(w: WorldView, marks: Seq<bool>, ops: Seq<Deferred>)
    requires
        w.wf(),
        marks.len() == w.len(),
    ensures
        ({
            let marked = WorldView { visibles: marks, ..w };
            marked.applied_all(ops) == (WorldView {
                visibles: marked.applied_all(ops).visibles,
                ..w.applied_all(ops)
            })
        }),
    decreases ops.len(),
{
    if ops.len() > 0 {
        lemma_flush_apart_from_marks(w, marks, ops.drop_last());
        crate::world::lemma_applied_all_keeps_shape(w, ops.drop_last());
        crate::world::lemma_applied_all_keeps_shape(
            WorldView { visibles: marks, ..w },
            ops.drop_last(),
        );
    }
}

/// The movement of a tick of the game.  A tick that starts with an empty
/// queue and runs to its end leaves every entity where `place_after` says
/// and with the intent that `intent_after` says, for the action that the
/// tick honours; and it ends with an empty queue again.
pub proof fn lemma_game_tick_moves<T: Renderer, F: Fn(i64, i64) -> i32>(
    w: WorldView,
    actions: Seq<Action>,
    states: Seq<WorldView>,
    bucket_of: &F,
    after: WorldView,
    render_before: Option<Render<T>>,
    render_after: Option<Render<T>>,
    i: int,
)
    requires
        w.wf(),
        w.queue.len() == 0,
        0 <= i < w.len(),
        ticked(
            schedule(),
            states,
            bucket_of,
            awaiting(w, actions),
            after,
            render_before,
            render_after,
            Outcome::Continue,
        ),
    ensures
        after.positions[i] == place_after(awaiting(w, actions), i),
        after.moved[i] == intent_after(awaiting(w, actions), i),
        after.queue.len() == 0,
        after.len() == w.len(),
{
    let start = awaiting(w, actions);
    let mid = states.last();
    lemma_schedule_unfolds(states, bucket_of, start, mid);
    let through = moved_through(start);
    lemma_tick_moves(start, i);
    assert(through.wf()) by {
        assert(through.positions.len() == start.len());
        assert(through.moved.len() == start.len());
    }
    assert(mid.visibles.len() == through.len()) by {
        if through.player is Some {
            let p = through.player.unwrap();
            let bearings = choose|bearings: Seq<Bearing>|
                {
                    &&& measured(
                        through,
                        through.positions[p.ent.index as int].unwrap(),
                        bucket_of,
                        bearings,
                    )
                    &&& mid == #[trigger] visibility(through, bearings)
                };
            assert(mid.visibles.len() == through.len());
        }
    }
    let bare = WorldView { queue: Seq::empty(), ..through };
    lemma_flush_apart_from_marks(bare, mid.visibles, through.queue);
    crate::world::lemma_applied_all_keeps_shape(bare, through.queue);
    assert(WorldView { queue: Seq::empty(), ..mid } == (WorldView { visibles: mid.visibles, ..bare }));
}

} // verus!
