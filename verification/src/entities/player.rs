//! The player.

use crate::components::material::{flesh, Material};
use crate::components::{dl_entity, DrawLayer, Position, Shape, Sprite};
use crate::entity::Entity;
use crate::resources::Player;
use crate::world::{Component, World, WorldView};
use vstd::prelude::*;

verus! {

/// How the player looks.
pub open spec fn player_sprite() -> Sprite {
    Sprite {
        fg_r: 255,
        fg_g: 64,
        fg_b: 128,
        bg_r: 0,
        bg_g: 0,
        bg_b: 0,
        layer: DrawLayer(100),
        rune: '@',
    }
}

/// The store after an entity with the given components was made in it.
pub open spec fn spawned(
    w: WorldView,
    pos: Position,
    sprite: Sprite,
    material: Material,
    shape: Shape,
) -> WorldView {
    let e = Entity { index: w.len() as usize, generation: 0 };
    w.created().attached(e, Component::Position(pos)).attached(
        e,
        Component::Sprite(sprite),
    ).attached(e, Component::Material(material)).attached(e, Component::Shape(shape))
}

/// Spawning adds one slot at the end, with the components given and no
/// other, and leaves everything else as it was.
pub proof fn lemma_spawned(
    w: WorldView,
    pos: Position,
    sprite: Sprite,
    material: Material,
    shape: Shape,
)
    requires
        w.wf(),
        w.len() < usize::MAX,
    ensures
        ({
            let after = spawned(w, pos, sprite, material, shape);
            let last = w.len() as int;
            &&& after.wf()
            &&& after.generations == w.generations.push(0)
            &&& after.positions == w.positions.push(Some(pos))
            &&& after.sprites == w.sprites.push(Some(sprite))
            &&& after.materials == w.materials.push(Some(material))
            &&& after.shapes == w.shapes.push(Some(shape))
            &&& after.moved == w.moved.push(None)
            &&& after.players == w.players.push(false)
            &&& after.visibles == w.visibles.push(false)
            &&& after.queue == w.queue
            &&& after.camera_center == w.camera_center
            &&& after.pending_action == w.pending_action
            &&& after.player == w.player
            &&& after.game_map == w.game_map
        }),
{
    let e = Entity { index: w.len() as usize, generation: 0 };
    let a = w.created();
    assert(a.has(e));
    let b = a.attached(e, Component::Position(pos));
    assert(b.has(e));
    let c = b.attached(e, Component::Sprite(sprite));
    assert(c.has(e));
    let d = c.attached(e, Component::Material(material));
    assert(d.has(e));
    let after = d.attached(e, Component::Shape(shape));
    assert(after.positions =~= w.positions.push(Some(pos)));
    assert(after.sprites =~= w.sprites.push(Some(sprite)));
    assert(after.materials =~= w.materials.push(Some(material)));
    assert(after.shapes =~= w.shapes.push(Some(shape)));
}

/// Makes an entity that stands at `pos` and has a sprite, a material and a
/// shape.
pub fn spawn(world: &mut World, pos: Position, sprite: Sprite, material: Material, shape: Shape) -> (e:
    Entity)
    requires
        old(world).wf(),
    ensures
        final(world).wf(),
        final(world)@ == spawned(old(world)@, pos, sprite, material, shape),
        e == (Entity { index: old(world)@.len() as usize, generation: 0 }),
{
    let e = world.create();
    world.attach(e, Component::Position(pos));
    world.attach(e, Component::Sprite(sprite));
    world.attach(e, Component::Material(material));
    world.attach(e, Component::Shape(shape));
    e
}

/// What the player is made of.
pub open spec fn creature_material() -> Material {
    Material { opaque: true, visible: true, solid: true }
}

/// The store after the player was made in it at `pos`.
pub open spec fn with_player(w: WorldView, pos: Position) -> WorldView {
    let e = Entity { index: w.len() as usize, generation: 0 };
    WorldView {
        player: Some(Player { ent: e }),
        ..spawned(w, pos, player_sprite(), creature_material(), Shape::Medium).attached(
            e,
            Component::Player(crate::components::Player),
        )
    }
}

/// Makes the player at `pos`: a creature of flesh and medium size, marked
/// as controlled, and remembered in the store as its player.
pub fn create_in(world: &mut World, pos: Position) -> (ent: Entity)
    requires
        old(world).wf(),
    ensures
        final(world).wf(),
        final(world)@ == with_player(old(world)@, pos),
        ent == (Entity { index: old(world)@.len() as usize, generation: 0 }),
        final(world)@.has(ent),
        final(world)@.len() == old(world)@.len() + 1,
        final(world)@.positions == old(world)@.positions.push(Some(pos)),
        final(world)@.player == Some(Player { ent }),
        final(world)@.queue == old(world)@.queue,
{
    let sprite = Sprite {
        fg_r: 255,
        fg_g: 64,
        fg_b: 128,
        bg_r: 0,
        bg_g: 0,
        bg_b: 0,
        layer: dl_entity(),
        rune: '@',
    };
    let ent = spawn(world, pos, sprite, flesh(), Shape::Medium);
    proof {
        assert(world@.generations == old(world)@.generations.push(0));
        lemma_spawned(old(world)@, pos, sprite, creature_material(), Shape::Medium);
    }
    world.attach(ent, Component::Player(crate::components::Player));
    world.player = Some(Player { ent });
    ent
}

} // verus!
