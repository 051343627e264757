//! The component store: an arena of entity slots with one table per kind of
//! component, the resources of the simulation, and the queue of operations
//! that wait for the end of the tick.

use crate::components::material::Material;
use crate::components::{Moved, Position, Shape, Sprite, Visible};
use crate::entity::Entity;
use crate::resources::game_map::{GameMap, Tile};
use crate::resources::{CameraCenter, PendingAction, Player};
use vstd::prelude::*;

verus! {

/// A component together with its value.
#[derive(Clone, Copy, Debug, PartialEq, Eq, Structural)]
pub enum Component {
    Position(Position),
    Material(Material),
    Shape(Shape),
    Sprite(Sprite),
    Moved(Moved),
    Player(crate::components::Player),
    Visible(Visible),
}

/// The kinds of component, without a value.
#[derive(Clone, Copy, Debug, PartialEq, Eq, Structural)]
pub enum ComponentKind {
    Position,
    Material,
    Shape,
    Sprite,
    Moved,
    Player,
    Visible,
}

/// An operation on the store that waits for the end of the tick.
#[derive(Clone, Copy, Debug, PartialEq, Eq, Structural)]
pub enum Deferred {
    Attach(Entity, Component),
    Detach(Entity, ComponentKind),
}

/// The simulation context.  The tick driver owns it and hands it to each
/// system in turn.
pub struct World {
    /// The generation of each slot; its length is the number of slots.
    pub generations: Vec<u32>,
    pub positions: Vec<Option<Position>>,
    pub materials: Vec<Option<Material>>,
    pub shapes: Vec<Option<Shape>>,
    pub sprites: Vec<Option<Sprite>>,
    pub moved: Vec<Option<Moved>>,
    pub players: Vec<bool>,
    pub visibles: Vec<bool>,
    /// Operations queued by systems, oldest first.
    pub queue: Vec<Deferred>,
    pub camera_center: CameraCenter,
    pub pending_action: PendingAction,
    pub player: Option<Player>,
    pub game_map: GameMap,
}

/// The mathematical content of a [`World`].
pub struct WorldView {
    pub generations: Seq<u32>,
    pub positions: Seq<Option<Position>>,
    pub materials: Seq<Option<Material>>,
    pub shapes: Seq<Option<Shape>>,
    pub sprites: Seq<Option<Sprite>>,
    pub moved: Seq<Option<Moved>>,
    pub players: Seq<bool>,
    pub visibles: Seq<bool>,
    pub queue: Seq<Deferred>,
    pub camera_center: CameraCenter,
    pub pending_action: PendingAction,
    pub player: Option<Player>,
    pub game_map: Map<Position, Tile>,
}

impl WorldView {
    /// The number of entity slots.
    pub open spec fn len(self) -> nat {
        self.generations.len()
    }

    /// Every table has one row per slot, and the slots can be counted.
    pub open spec fn wf(self) -> bool {
        &&& self.len() <= usize::MAX
        &&& self.positions.len() == self.len()
        &&& self.materials.len() == self.len()
        &&& self.shapes.len() == self.len()
        &&& self.sprites.len() == self.len()
        &&& self.moved.len() == self.len()
        &&& self.players.len() == self.len()
        &&& self.visibles.len() == self.len()
    }

    /// Whether `e` names a slot of this store in its current generation.
    pub open spec fn has(self, e: Entity) -> bool {
        e.index < self.len() && self.generations[e.index as int] == e.generation
    }

    /// The handle of the entity in slot `i`.
    pub open spec fn entity_at(self, i: int) -> Entity {
        Entity { index: i as usize, generation: self.generations[i] }
    }

    /// A store without entities, resources at their defaults.
    pub open spec fn empty() -> WorldView {
        WorldView {
            generations: Seq::empty(),
            positions: Seq::empty(),
            materials: Seq::empty(),
            shapes: Seq::empty(),
            sprites: Seq::empty(),
            moved: Seq::empty(),
            players: Seq::empty(),
            visibles: Seq::empty(),
            queue: Seq::empty(),
            camera_center: CameraCenter { x: 0, y: 0 },
            pending_action: PendingAction(None),
            player: None,
            game_map: Map::empty(),
        }
    }

    /// The store with one more slot, which carries no component.
    pub open spec fn created(self) -> WorldView {
        WorldView {
            generations: self.generations.push(0),
            positions: self.positions.push(None),
            materials: self.materials.push(None),
            shapes: self.shapes.push(None),
            sprites: self.sprites.push(None),
            moved: self.moved.push(None),
            players: self.players.push(false),
            visibles: self.visibles.push(false),
            ..self
        }
    }

    /// The store after `c` was attached to `e`, replacing a component of the
    /// same kind.  Nothing changes if the store does not have `e`.
    pub open spec fn attached(self, e: Entity, c: Component) -> WorldView {
        let i = e.index as int;
        if !self.has(e) {
            self
        } else {
            match c {
                Component::Position(p) => WorldView {
                    positions: self.positions.update(i, Some(p)),
                    ..self
                },
                Component::Material(m) => WorldView {
                    materials: self.materials.update(i, Some(m)),
                    ..self
                },
                Component::Shape(s) => WorldView { shapes: self.shapes.update(i, Some(s)), ..self },
                Component::Sprite(s) => WorldView {
                    sprites: self.sprites.update(i, Some(s)),
                    ..self
                },
                Component::Moved(m) => WorldView { moved: self.moved.update(i, Some(m)), ..self },
                Component::Player(_) => WorldView { players: self.players.update(i, true), ..self },
                Component::Visible(_) => WorldView {
                    visibles: self.visibles.update(i, true),
                    ..self
                },
            }
        }
    }

    /// The store after the component of kind `kind` was taken from `e`.
    /// Nothing changes if the store does not have `e`.
    pub open spec fn detached(self, e: Entity, kind: ComponentKind) -> WorldView {
        let i = e.index as int;
        if !self.has(e) {
            self
        } else {
            match kind {
                ComponentKind::Position => WorldView {
                    positions: self.positions.update(i, None),
                    ..self
                },
                ComponentKind::Material => WorldView {
                    materials: self.materials.update(i, None),
                    ..self
                },
                ComponentKind::Shape => WorldView { shapes: self.shapes.update(i, None), ..self },
                ComponentKind::Sprite => WorldView { sprites: self.sprites.update(i, None), ..self },
                ComponentKind::Moved => WorldView { moved: self.moved.update(i, None), ..self },
                ComponentKind::Player => WorldView { players: self.players.update(i, false), ..self },
                ComponentKind::Visible => WorldView {
                    visibles: self.visibles.update(i, false),
                    ..self
                },
            }
        }
    }

    /// The store after one queued operation was carried out.
    pub open spec fn applied(self, op: Deferred) -> WorldView {
        match op {
            Deferred::Attach(e, c) => self.attached(e, c),
            Deferred::Detach(e, kind) => self.detached(e, kind),
        }
    }

    /// The store after `ops` were carried out, first to last.
    pub open spec fn applied_all(self, ops: Seq<Deferred>) -> WorldView
        decreases ops.len(),
    {
        if ops.len() == 0 {
            self
        } else {
            self.applied_all(ops.drop_last()).applied(ops.last())
        }
    }

    /// The store after its queue was carried out and emptied.
    pub open spec fn flushed(self) -> WorldView {
        WorldView { queue: Seq::empty(), ..self }.applied_all(self.queue)
    }

    /// The store with `op` added at the end of its queue.
    pub open spec fn queued(self, op: Deferred) -> WorldView {
        WorldView { queue: self.queue.push(op), ..self }
    }
}

/// Carrying out operations keeps the tables aligned, the slots and their
/// generations, the queue and the resources.
pub proof fn lemma_applied_all_keeps_shape(w: WorldView, ops: Seq<Deferred>)
    requires
        w.wf(),
    ensures
        w.applied_all(ops).wf(),
        w.applied_all(ops).generations == w.generations,
        w.applied_all(ops).queue == w.queue,
        w.applied_all(ops).camera_center == w.camera_center,
        w.applied_all(ops).pending_action == w.pending_action,
        w.applied_all(ops).player == w.player,
        w.applied_all(ops).game_map == w.game_map,
    decreases ops.len(),
{
    if ops.len() > 0 {
        lemma_applied_all_keeps_shape(w, ops.drop_last());
    }
}

impl View for World {
    type V = WorldView;

    open spec fn view(&self) -> WorldView {
        WorldView {
            generations: self.generations@,
            positions: self.positions@,
            materials: self.materials@,
            shapes: self.shapes@,
            sprites: self.sprites@,
            moved: self.moved@,
            players: self.players@,
            visibles: self.visibles@,
            queue: self.queue@,
            camera_center: self.camera_center,
            pending_action: self.pending_action,
            player: self.player,
            game_map: self.game_map@,
        }
    }
}

impl World {
    /// The tables are aligned and the spatial index is sound.
    pub open spec fn wf(&self) -> bool {
        self@.wf() && self.game_map.wf()
    }

    /// A store without entities.
    pub fn new() -> (world: World)
        ensures
            world.wf(),
            world@ == WorldView::empty(),
    {
        World {
            generations: Vec::new(),
            positions: Vec::new(),
            materials: Vec::new(),
            shapes: Vec::new(),
            sprites: Vec::new(),
            moved: Vec::new(),
            players: Vec::new(),
            visibles: Vec::new(),
            queue: Vec::new(),
            camera_center: CameraCenter { x: 0, y: 0 },
            pending_action: PendingAction(None),
            player: None,
            game_map: GameMap::new(),
        }
    }

    /// The number of entity slots.
    pub fn len(&self) -> (n: usize)
        ensures
            n == self@.len(),
    {
        self.generations.len()
    }

    /// The handle of the entity in slot `index`.
    pub fn entity(&self, index: usize) -> (e: Entity)
        requires
            index < self@.len(),
        ensures
            e == self@.entity_at(index as int),
            self@.has(e),
    {
        Entity { index, generation: self.generations[index] }
    }

    /// Whether `e` is an entity of this store.
    pub fn contains(&self, e: Entity) -> (r: bool)
        ensures
            r == self@.has(e),
    {
        e.index < self.generations.len() && self.generations[e.index] == e.generation
    }

    /// Makes a new entity, with no component, and returns its handle.  The
    /// handle differs from every handle that the store gave out before.
    pub fn create(&mut self) -> (e: Entity)
        requires
            old(self).wf(),
        ensures
            final(self).wf(),
            final(self)@ == old(self)@.created(),
            e == (Entity { index: old(self)@.len() as usize, generation: 0 }),
            !old(self)@.has(e),
            final(self)@.has(e),
    {
        let index = self.generations.len();
        self.generations.push(0);
        self.positions.push(None);
        self.materials.push(None);
        self.shapes.push(None);
        self.sprites.push(None);
        self.moved.push(None);
        self.players.push(false);
        self.visibles.push(false);
        assert(self.generations.len() == self@.len());
        Entity { index, generation: 0 }
    }

    /// Attaches `c` to `e` at once.
    pub fn attach(&mut self, e: Entity, c: Component)
        requires
            old(self).wf(),
        ensures
            final(self).wf(),
            final(self)@ == old(self)@.attached(e, c),
    {
        if !self.contains(e) {
            return ;
        }
        let i = e.index;
        match c {
            Component::Position(p) => {
                self.positions.set(i, Some(p));
            },
            Component::Material(m) => {
                self.materials.set(i, Some(m));
            },
            Component::Shape(s) => {
                self.shapes.set(i, Some(s));
            },
            Component::Sprite(s) => {
                self.sprites.set(i, Some(s));
            },
            Component::Moved(m) => {
                self.moved.set(i, Some(m));
            },
            Component::Player(_) => {
                self.players.set(i, true);
            },
            Component::Visible(_) => {
                self.visibles.set(i, true);
            },
        }
    }

    /// Takes the component of kind `kind` from `e` at once.
    pub fn detach(&mut self, e: Entity, kind: ComponentKind)
        requires
            old(self).wf(),
        ensures
            final(self).wf(),
            final(self)@ == old(self)@.detached(e, kind),
    {
        if !self.contains(e) {
            return ;
        }
        let i = e.index;
        match kind {
            ComponentKind::Position => {
                self.positions.set(i, None);
            },
            ComponentKind::Material => {
                self.materials.set(i, None);
            },
            ComponentKind::Shape => {
                self.shapes.set(i, None);
            },
            ComponentKind::Sprite => {
                self.sprites.set(i, None);
            },
            ComponentKind::Moved => {
                self.moved.set(i, None);
            },
            ComponentKind::Player => {
                self.players.set(i, false);
            },
            ComponentKind::Visible => {
                self.visibles.set(i, false);
            },
        }
    }

    /// Queues the attachment of `c` to `e` for the end of the tick.
    pub fn defer_attach(&mut self, e: Entity, c: Component)
        ensures
            final(self)@ == old(self)@.queued(Deferred::Attach(e, c)),
            old(self).wf() ==> final(self).wf(),
    {
        self.queue.push(Deferred::Attach(e, c));
    }

    /// Queues the removal of the component of kind `kind` from `e` for the
    /// end of the tick.
    pub fn defer_detach(&mut self, e: Entity, kind: ComponentKind)
        ensures
            final(self)@ == old(self)@.queued(Deferred::Detach(e, kind)),
            old(self).wf() ==> final(self).wf(),
    {
        self.queue.push(Deferred::Detach(e, kind));
    }

    /// Carries out every queued operation, oldest first, and empties the
    /// queue.
    pub fn flush(&mut self)
        requires
            old(self).wf(),
        ensures
            final(self).wf(),
            final(self)@ == old(self)@.flushed(),
            final(self)@.queue.len() == 0,
            final(self)@.generations == old(self)@.generations,
    {
        proof {
            lemma_applied_all_keeps_shape(
                WorldView { queue: Seq::empty(), ..old(self)@ },
                old(self)@.queue,
            );
        }
        let mut queue: Vec<Deferred> = Vec::new();
        std::mem::swap(&mut self.queue, &mut queue);
        let ghost start = self@;
        let mut i: usize = 0;
        while i < queue.len()
            invariant
                i <= queue.len(),
                self.wf(),
                start == (WorldView { queue: Seq::empty(), ..old(self)@ }),
                queue@ == old(self)@.queue,
                self@ == start.applied_all(queue@.take(i as int)),
            decreases queue.len() - i,
        {
            proof {
                assert(queue@.take(i + 1).drop_last() == queue@.take(i as int));
            }
            match queue[i] {
                Deferred::Attach(e, c) => {
                    self.attach(e, c);
                },
                Deferred::Detach(e, kind) => {
                    self.detach(e, kind);
                },
            }
            i += 1;
        }
        proof {
            assert(queue@.take(i as int) == queue@);
        }
    }

    /// The position of `e`, if it has one.
    pub fn position(&self, e: Entity) -> (r: Option<Position>)
        requires
            self.wf(),
        ensures
            r == if self@.has(e) {
                self@.positions[e.index as int]
            } else {
                None
            },
    {
        if self.contains(e) {
            self.positions[e.index]
        } else {
            None
        }
    }

    /// The material of `e`, if it has one.
    pub fn material(&self, e: Entity) -> (r: Option<Material>)
        requires
            self.wf(),
        ensures
            r == if self@.has(e) {
                self@.materials[e.index as int]
            } else {
                None
            },
    {
        if self.contains(e) {
            self.materials[e.index]
        } else {
            None
        }
    }

    /// The shape of `e`, if it has one.
    pub fn shape(&self, e: Entity) -> (r: Option<Shape>)
        requires
            self.wf(),
        ensures
            r == if self@.has(e) {
                self@.shapes[e.index as int]
            } else {
                None
            },
    {
        if self.contains(e) {
            self.shapes[e.index]
        } else {
            None
        }
    }

    /// The sprite of `e`, if it has one.
    pub fn sprite(&self, e: Entity) -> (r: Option<Sprite>)
        requires
            self.wf(),
        ensures
            r == if self@.has(e) {
                self@.sprites[e.index as int]
            } else {
                None
            },
    {
        if self.contains(e) {
            self.sprites[e.index]
        } else {
            None
        }
    }

    /// The movement that `e` intends, if any.
    pub fn moved(&self, e: Entity) -> (r: Option<Moved>)
        requires
            self.wf(),
        ensures
            r == if self@.has(e) {
                self@.moved[e.index as int]
            } else {
                None
            },
    {
        if self.contains(e) {
            self.moved[e.index]
        } else {
            None
        }
    }

    /// Whether `e` is marked as controlled by the player.
    pub fn is_player(&self, e: Entity) -> (r: bool)
        requires
            self.wf(),
        ensures
            r == (self@.has(e) && self@.players[e.index as int]),
    {
        self.contains(e) && self.players[e.index]
    }

    /// Whether `e` is marked as perceivable.
    pub fn is_visible(&self, e: Entity) -> (r: bool)
        requires
            self.wf(),
        ensures
            r == (self@.has(e) && self@.visibles[e.index as int]),
    {
        self.contains(e) && self.visibles[e.index]
    }
}

} // verus!
