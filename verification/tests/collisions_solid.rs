use tilesim::components::material::{flesh, smoke};
use tilesim::components::{Moved, Position};
use tilesim::resources::game_map::TileProperties;
use tilesim::systems::collisions_solid::CollisionsSolid;
use tilesim::world::{Component, World};

#[test]
fn doesnt_affect_nonsolid_entities() {
    let mut world = World::new();
    let start = Position::new(3, -4);
    let target = Position::new(3, -5);

    world.game_map.mark_tile(&target, TileProperties::blocked());

    let ent_player = world.create();
    world.attach(ent_player, Component::Position(start.clone()));
    world.attach(
        ent_player,
        Component::Moved(Moved { from: start.clone(), to: target.clone() }),
    );

    let mut collisions_solid = CollisionsSolid;
    collisions_solid.run(&mut world);
    world.flush();

    let player_move = world.moved(ent_player);

    match player_move {
        None => {
            panic!("Should still have a Moved component");
        }
        Some(_) => (),
    };
}

#[test]
fn doesnt_affect_nonsolid_targets() {
    let mut world = World::new();
    let start = Position::new(3, -4);
    let target = Position::new(3, -5);

    let ent_player = world.create();
    world.attach(ent_player, Component::Position(start.clone()));
    world.attach(
        ent_player,
        Component::Moved(Moved { from: start.clone(), to: target.clone() }),
    );

    let mut collisions_solid = CollisionsSolid;
    collisions_solid.run(&mut world);
    world.flush();

    let player_move = world.moved(ent_player);

    match player_move {
        None => {
            panic!("Should still have a Moved component");
        }
        Some(_) => (),
    };
}

#[test]
fn cancels_move_through_solid_tile() {
    let mut world = World::new();
    let start = Position::new(3, -4);
    let target = Position::new(3, -5);

    world.game_map.mark_tile(&target, TileProperties::blocked());

    let ent_player = world.create();
    world.attach(ent_player, Component::Position(start.clone()));
    world.attach(
        ent_player,
        Component::Moved(Moved { from: start.clone(), to: target.clone() }),
    );
    world.attach(ent_player, Component::Material(flesh()));

    let mut collisions_solid = CollisionsSolid;
    collisions_solid.run(&mut world);
    world.flush();

    let player_move = world.moved(ent_player);

    match player_move {
        None => (),
        Some(_) => {
            panic!("Should not still have Moved component");
        }
    };
}

#[test]
fn a_cancelled_move_is_gone_before_the_flush_and_moves_nothing() {
    let mut world = World::new();
    let start = Position::new(3, -4);
    let target = Position::new(3, -5);
    world.game_map.mark_tile(&target, TileProperties::blocked());
    let entity = world.create();
    world.attach(entity, Component::Position(start));
    world.attach(entity, Component::Moved(Moved { from: start, to: target }));
    world.attach(entity, Component::Material(flesh()));

    CollisionsSolid.run(&mut world);

    assert_eq!(world.moved(entity), None);
    assert_eq!(world.position(entity), Some(start));
    assert!(world.queue.is_empty());
}

#[test]
fn smoke_passes_into_a_blocked_tile() {
    let mut world = World::new();
    let start = Position::new(3, -4);
    let target = Position::new(3, -5);
    world.game_map.mark_tile(&target, TileProperties::blocked());
    let entity = world.create();
    world.attach(entity, Component::Position(start));
    world.attach(entity, Component::Moved(Moved { from: start, to: target }));
    world.attach(entity, Component::Material(smoke()));

    CollisionsSolid.run(&mut world);

    assert_eq!(world.moved(entity), Some(Moved { from: start, to: target }));
}

#[test]
fn only_the_destination_counts_not_the_origin() {
    let mut world = World::new();
    let start = Position::new(3, -4);
    let target = Position::new(3, -5);
    world.game_map.mark_tile(&start, TileProperties::blocked());
    let entity = world.create();
    world.attach(entity, Component::Position(start));
    world.attach(entity, Component::Moved(Moved { from: start, to: target }));
    world.attach(entity, Component::Material(flesh()));

    CollisionsSolid.run(&mut world);

    assert_eq!(world.moved(entity), Some(Moved { from: start, to: target }));
}
