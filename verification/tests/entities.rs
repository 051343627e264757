use tilesim::components::material::{flesh, stone};
use tilesim::components::{dl_entity, dl_floor, dl_walls, Position, Shape, Sprite};
use tilesim::entities;
use tilesim::entities::map::{BOTTOM, LEFT, RIGHT, TOP};
use tilesim::resources::Player;
use tilesim::world::World;

#[test]
fn the_player_is_made_with_all_its_components() {
    let mut world = World::new();
    let bystander = world.create();

    let player = entities::player::create_in(&mut world, Position::new(3, -4));

    assert_eq!(player.id(), 1);
    assert_eq!(world.player, Some(Player { ent: player }));
    assert_eq!(world.position(player), Some(Position::new(3, -4)));
    assert_eq!(
        world.sprite(player),
        Some(Sprite {
            fg_r: 255,
            fg_g: 64,
            fg_b: 128,
            bg_r: 0,
            bg_g: 0,
            bg_b: 0,
            layer: dl_entity(),
            rune: '@',
        })
    );
    assert!(world.is_player(player));
    assert_eq!(world.material(player), Some(flesh()));
    assert_eq!(world.shape(player), Some(Shape::Medium));
    assert_eq!(world.moved(player), None);
    assert!(!world.is_visible(player));
    assert!(!world.is_player(bystander));
    assert_eq!(world.position(bystander), None);
}

#[test]
fn a_spawned_entity_has_what_it_was_given() {
    let mut world = World::new();
    let sprite = Sprite {
        fg_r: 1, fg_g: 2, fg_b: 3, bg_r: 4, bg_g: 5, bg_b: 6, layer: dl_walls(), rune: '#',
    };

    let entity = entities::player::spawn(
        &mut world,
        Position::new(7, 8),
        sprite,
        stone(),
        Shape::FullBlock,
    );

    assert_eq!(world.len(), 1);
    assert_eq!(world.position(entity), Some(Position::new(7, 8)));
    assert_eq!(world.sprite(entity), Some(sprite));
    assert_eq!(world.material(entity), Some(stone()));
    assert_eq!(world.shape(entity), Some(Shape::FullBlock));
    assert!(!world.is_player(entity));
    assert_eq!(world.player, None);
}

#[test]
fn the_room_is_a_floor_with_a_wall_around_it() {
    let mut world = World::new();

    entities::map::create_in(&mut world);

    assert_eq!((LEFT, RIGHT, TOP, BOTTOM), (-20, 20, -10, 10));
    assert_eq!(world.len(), 124 + 800);
    let wall = Sprite {
        fg_r: 255, fg_g: 255, fg_b: 255, bg_r: 128, bg_g: 128, bg_b: 128,
        layer: dl_walls(), rune: 'X',
    };
    let floor = Sprite {
        fg_r: 255, fg_g: 255, fg_b: 255, bg_r: 28, bg_g: 28, bg_b: 28,
        layer: dl_floor(), rune: ' ',
    };
    let mut walls = vec![];
    let mut floors = vec![];
    for index in 0..world.len() {
        let entity = world.entity(index);
        let position = world.position(entity).unwrap();
        assert_eq!(world.material(entity), Some(stone()));
        if index < 124 {
            assert_eq!(world.sprite(entity), Some(wall));
            assert_eq!(world.shape(entity), Some(Shape::FullBlock));
            walls.push((position.x, position.y));
        } else {
            assert_eq!(world.sprite(entity), Some(floor));
            assert_eq!(world.shape(entity), Some(Shape::Floor));
            floors.push((position.x, position.y));
        }
    }
    // the order in which the tiles are made
    assert_eq!(walls[..4], [(-21, -11), (-21, 10), (-20, -11), (-20, 10)]);
    assert_eq!(walls[82..88], [(20, -11), (20, 10), (-21, -10), (20, -10), (-21, -9), (20, -9)]);
    assert_eq!(walls[122..], [(-21, 9), (20, 9)]);
    assert_eq!(floors[..3], [(-20, -10), (-20, -9), (-20, -8)]);
    assert_eq!(floors[19..21], [(-20, 9), (-19, -10)]);
    assert_eq!(floors[799], (19, 9));
    // every tile of the rectangle once, and the wall exactly around the floor
    let mut all = walls.clone();
    all.extend(floors.iter());
    all.sort();
    let mut expected = vec![];
    for x in -21..=20 {
        for y in -11..=10 {
            expected.push((x, y));
        }
    }
    assert_eq!(all, expected);
    for (x, y) in floors {
        assert!(-20 <= x && x < 20 && -10 <= y && y < 10);
    }
}

#[test]
fn the_room_is_added_to_what_the_world_holds() {
    let mut world = World::new();
    let player = entities::player::create_in(&mut world, Position::new(0, 0));

    entities::map::create_in(&mut world);

    assert_eq!(world.len(), 925);
    assert_eq!(world.player, Some(Player { ent: player }));
    assert_eq!(world.position(player), Some(Position::new(0, 0)));
    assert_eq!(world.position(world.entity(1)), Some(Position::new(-21, -11)));
}
