use tilesim::components::Position;
use tilesim::resources::game_map::{GameMap, TileProperties};
use tilesim::world::World;

#[test]
fn coordinate_up_returns_1_up() {
    let initial = Position { x: -4, y: 3 };

    // Remember that up is negative in Y coordinates for our world
    let expected = Position { x: -4, y: 2 };

    assert_eq!(initial.up(), expected);
}

#[test]
fn coordinate_down_returns_1_down() {
    let initial = Position { x: -4, y: 3 };

    // Remember that down is positive in Y coordinates for our world
    let expected = Position { x: -4, y: 4 };

    assert_eq!(initial.down(), expected);
}

#[test]
fn coordinate_right_returns_1_right() {
    let initial = Position { x: 5, y: 3 };
    let expected = Position { x: 6, y: 3 };

    assert_eq!(initial.right(), expected);
}

#[test]
fn coordinate_left_returns_1_left() {
    let initial = Position { x: 5, y: 3 };
    let expected = Position { x: 4, y: 3 };

    assert_eq!(initial.left(), expected);
}

#[test]
fn safely_returns_no_entities_when_not_found() {
    let map: GameMap = GameMap::new();
    let square = Position { x: -4, y: 3 };

    let result = map.get_entities(&square);

    match result {
        Some(_) => panic!("Expected to be empty"),
        None => (),
    };
}

#[test]
fn adds_entities_and_returns_them() {
    let mut map: GameMap = GameMap::new();

    let mut world = World::new();
    let expected_value = world.create();
    let square = Position { x: -3, y: 4 };

    map.add(&square, expected_value);

    let result = map.get_entities(&square);

    match result {
        Some(set) => {
            assert_eq!(set.len(), 1);
            assert_eq!(set.contains(&expected_value), true);
        }
        None => panic!("Not found"),
    };

    let result = map.get_entities(&square.up());

    match result {
        Some(_) => panic!("Should not have gotten anything back from wrong square"),
        None => (),
    };
}

#[test]
fn game_map_clears_stored_values() {
    let mut map: GameMap = GameMap::new();

    let mut world = World::new();
    let expected_value = world.create();
    let square = Position { x: -3, y: 4 };

    map.add(&square, expected_value);
    map.clear_all();

    let result = map.get_entities(&square);

    // Don't actually care about underlying implementation, just shouldn't
    // actually have the value stored here anymore
    match result {
        Some(set) => {
            assert_eq!(set.len(), 0);
        }
        None => (),
    };
}

#[test]
fn stores_entities_in_different_locations() {
    let mut map: GameMap = GameMap::new();

    let mut world = World::new();
    let first_value = world.create();
    let second_value = world.create();
    let first_square = Position { x: -3, y: 4 };
    let second_square = first_square.up();

    map.add(&first_square, first_value);
    map.add(&second_square, second_value);

    let result = map.get_entities(&first_square);

    match result {
        Some(set) => {
            assert_eq!(set.len(), 1);
            assert_eq!(set.contains(&first_value), true);
        }
        None => panic!("Not found"),
    };

    let result = map.get_entities(&second_square);

    match result {
        Some(set) => {
            assert_eq!(set.len(), 1);
            assert_eq!(set.contains(&second_value), true);
        }
        None => panic!("Not found"),
    };
}

#[test]
fn stores_multiple_unique_entities_in_same_location() {
    let mut map: GameMap = GameMap::new();

    let mut world = World::new();
    let first_value = world.create();
    let second_value = world.create();
    let square = Position { x: -3, y: 4 };

    map.add(&square, first_value);
    map.add(&square, second_value);

    let result = map.get_entities(&square);

    match result {
        Some(set) => {
            assert_eq!(set.len(), 2);
            assert_eq!(set.contains(&first_value), true);
            assert_eq!(set.contains(&second_value), true);
        }
        None => panic!("Not found"),
    };
}

#[test]
fn marks_square_as_blocked() {
    let mut map: GameMap = GameMap::new();
    let square = Position { x: -3, y: 4 };

    assert!(!map.tile_is(&square, TileProperties::blocked()));
    map.mark_tile(&square, TileProperties::blocked());
    assert!(map.tile_is(&square, TileProperties::blocked()));
}

#[test]
fn clears_tile_properties() {
    let mut map: GameMap = GameMap::new();
    let square = Position { x: -3, y: 4 };

    map.mark_tile(&square, TileProperties::blocked());
    assert!(map.tile_is(&square, TileProperties::blocked()));
    map.clear_tile_properties(&square);
    assert!(!map.tile_is(&square, TileProperties::blocked()));
}

#[test]
fn an_entity_is_recorded_once_on_a_tile() {
    let mut map = GameMap::new();
    let mut world = World::new();
    let entity = world.create();
    let square = Position { x: 0, y: 0 };

    map.add(&square, entity);
    map.add(&square, entity);

    assert_eq!(map.get_entities(&square).unwrap().len(), 1);
}

#[test]
fn occupants_come_back_in_the_order_of_recording() {
    let mut map = GameMap::new();
    let mut world = World::new();
    let first = world.create();
    let second = world.create();
    let third = world.create();
    let square = Position { x: 9, y: -9 };

    map.add(&square, second);
    map.add(&square, third);
    map.add(&square, first);

    assert_eq!(map.get_entities(&square).unwrap(), &vec![second, third, first]);
}

#[test]
fn marking_keeps_occupants_and_clearing_flags_keeps_them_too() {
    let mut map = GameMap::new();
    let mut world = World::new();
    let entity = world.create();
    let square = Position { x: 2, y: 2 };

    map.add(&square, entity);
    map.mark_tile(&square, TileProperties::blocked());
    assert_eq!(map.get_entities(&square).unwrap(), &vec![entity]);
    map.clear_tile_properties(&square);
    assert_eq!(map.get_entities(&square).unwrap(), &vec![entity]);
    assert!(!map.tile_is(&square, TileProperties::blocked()));
}

#[test]
fn a_marked_tile_without_occupants_is_present_but_empty() {
    let mut map = GameMap::new();
    let square = Position { x: 2, y: 2 };

    map.mark_tile(&square, TileProperties::blocked());

    assert_eq!(map.get_entities(&square).unwrap().len(), 0);
}

#[test]
fn an_absent_tile_carries_not_even_the_empty_set_of_flags() {
    let mut map = GameMap::new();
    let square = Position { x: 2, y: 2 };

    assert!(!map.tile_is(&square, TileProperties::empty()));
    map.mark_tile(&square, TileProperties::empty());
    assert!(map.tile_is(&square, TileProperties::empty()));
    assert!(!map.tile_is(&square, TileProperties::blocked()));
}

#[test]
fn clearing_flags_of_an_absent_tile_changes_nothing() {
    let mut map = GameMap::new();
    let square = Position { x: 2, y: 2 };

    map.clear_tile_properties(&square);

    assert!(map.get_entities(&square).is_none());
}

#[test]
fn tiles_at_the_corners_of_the_grid_are_kept_apart() {
    let mut map = GameMap::new();
    let mut world = World::new();
    let corners = [
        Position { x: i32::MIN, y: i32::MIN },
        Position { x: i32::MIN, y: i32::MAX },
        Position { x: i32::MAX, y: i32::MIN },
        Position { x: i32::MAX, y: i32::MAX },
        Position { x: 0, y: -1 },
        Position { x: -1, y: 0 },
    ];
    let mut entities = vec![];
    for corner in corners.iter() {
        let entity = world.create();
        map.add(corner, entity);
        entities.push(entity);
    }
    for (corner, entity) in corners.iter().zip(entities.iter()) {
        assert_eq!(map.get_entities(corner).unwrap(), &vec![*entity]);
    }
}

#[test]
fn flags_combine_and_contain() {
    let blocked = TileProperties::blocked();
    let none = TileProperties::empty();
    assert_eq!(blocked.bits, 1);
    assert_eq!(none.bits, 0);
    assert!(blocked.contains(none));
    assert!(!none.contains(blocked));
    assert_eq!(none.union(blocked), blocked);
    assert_eq!(TileProperties { bits: 6 }.union(blocked).bits, 7);
    assert!(TileProperties { bits: 7 }.contains(TileProperties { bits: 5 }));
    assert!(!TileProperties { bits: 6 }.contains(TileProperties { bits: 5 }));
}

#[test]
fn default_map_is_empty() {
    let map = GameMap::default();
    assert!(map.get_entities(&Position { x: 0, y: 0 }).is_none());
}
