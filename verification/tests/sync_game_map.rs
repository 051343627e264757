use tilesim::components::material::{smoke, stone};
use tilesim::components::{Position, Shape};
use tilesim::resources::game_map::TileProperties;
use tilesim::systems::sync_game_map::SyncGameMap;
use tilesim::world::{Component, World};

fn build_world() -> World {
    World::new()
}

#[test]
fn entity_without_solid_doesnt_block_tile() {
    let mut world = build_world();
    let pos = Position::new(3, -4);

    let entity = world.create();
    world.attach(entity, Component::Position(pos.clone()));
    world.attach(entity, Component::Material(smoke()));
    world.attach(entity, Component::Shape(Shape::FullBlock));

    let mut sync_game_map = SyncGameMap;
    sync_game_map.run(&mut world);
    world.flush();

    assert!(!world.game_map.tile_is(&pos, TileProperties::blocked()));
}

#[test]
fn full_block_of_stone_marks_tile_as_blocked() {
    let mut world = build_world();
    let pos = Position::new(3, -4);

    let entity = world.create();
    world.attach(entity, Component::Position(pos.clone()));
    world.attach(entity, Component::Material(stone()));
    world.attach(entity, Component::Shape(Shape::FullBlock));

    let mut sync_game_map = SyncGameMap;
    sync_game_map.run(&mut world);
    world.flush();

    assert!(world.game_map.tile_is(&pos, TileProperties::blocked()));
}

#[test]
fn stone_floor_not_blocked() {
    let mut world = build_world();
    let pos = Position::new(3, -4);

    let entity = world.create();
    world.attach(entity, Component::Position(pos.clone()));
    world.attach(entity, Component::Material(stone()));
    world.attach(entity, Component::Shape(Shape::Floor));

    let mut sync_game_map = SyncGameMap;
    sync_game_map.run(&mut world);
    world.flush();

    assert!(!world.game_map.tile_is(&pos, TileProperties::blocked()));
}

#[test]
fn the_index_is_rebuilt_from_scratch() {
    let mut world = build_world();
    let old = Position::new(3, -4);
    let new = Position::new(4, -4);
    let wall = world.create();
    world.attach(wall, Component::Position(old));
    world.attach(wall, Component::Material(stone()));
    world.attach(wall, Component::Shape(Shape::FullBlock));

    SyncGameMap.run(&mut world);
    assert!(world.game_map.tile_is(&old, TileProperties::blocked()));
    assert_eq!(world.game_map.get_entities(&old).unwrap(), &vec![wall]);

    world.attach(wall, Component::Position(new));
    SyncGameMap.run(&mut world);

    assert!(!world.game_map.tile_is(&old, TileProperties::blocked()));
    assert!(world.game_map.get_entities(&old).is_none());
    assert!(world.game_map.tile_is(&new, TileProperties::blocked()));
    assert_eq!(world.game_map.get_entities(&new).unwrap(), &vec![wall]);
}

#[test]
fn a_tile_is_blocked_if_any_of_its_occupants_blocks() {
    let mut world = build_world();
    let pos = Position::new(0, 0);
    let floor = world.create();
    world.attach(floor, Component::Position(pos));
    world.attach(floor, Component::Material(stone()));
    world.attach(floor, Component::Shape(Shape::Floor));
    let wall = world.create();
    world.attach(wall, Component::Position(pos));
    world.attach(wall, Component::Material(stone()));
    world.attach(wall, Component::Shape(Shape::FullBlock));
    let creature = world.create();
    world.attach(creature, Component::Position(pos));
    world.attach(creature, Component::Material(stone()));
    world.attach(creature, Component::Shape(Shape::Medium));

    SyncGameMap.run(&mut world);

    assert!(world.game_map.tile_is(&pos, TileProperties::blocked()));
    assert_eq!(world.game_map.get_entities(&pos).unwrap(), &vec![floor, wall, creature]);
}

#[test]
fn every_positioned_entity_is_recorded_whatever_else_it_has() {
    let mut world = build_world();
    let pos = Position::new(5, 5);
    let bare = world.create();
    world.attach(bare, Component::Position(pos));
    let shapeless = world.create();
    world.attach(shapeless, Component::Position(pos));
    world.attach(shapeless, Component::Material(stone()));
    let immaterial = world.create();
    world.attach(immaterial, Component::Position(pos));
    world.attach(immaterial, Component::Shape(Shape::FullBlock));
    let nowhere = world.create();
    world.attach(nowhere, Component::Material(stone()));
    world.attach(nowhere, Component::Shape(Shape::FullBlock));

    SyncGameMap.run(&mut world);

    assert_eq!(
        world.game_map.get_entities(&pos).unwrap(),
        &vec![bare, shapeless, immaterial]
    );
    assert!(!world.game_map.tile_is(&pos, TileProperties::blocked()));
}
