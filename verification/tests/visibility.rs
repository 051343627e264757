use tilesim::components::material::{flesh, stone, Material};
use tilesim::components::{Position, Shape};
use tilesim::entities;
use tilesim::entity::Entity;
use tilesim::systems::visibility::{span, Bearing, Visibility, THETA_BUCKET_COUNT};
use tilesim::world::{Component, World};

const THETA_BUCKET_SIZE: f32 = 2. * std::f32::consts::PI / (THETA_BUCKET_COUNT as f32);

fn angle_from_diff(x_diff: f32, y_diff: f32) -> f32 {
    let quadrant = y_diff.atan2(x_diff);

    if quadrant < 0. {
        quadrant + 2. * std::f32::consts::PI
    } else {
        quadrant
    }
}

fn bucket_of(x: i64, y: i64) -> i32 {
    (angle_from_diff(x as f32 / 2., y as f32 / 2.) / THETA_BUCKET_SIZE) as i32
}

fn build_world() -> World {
    World::new()
}

fn add_stone_wall(world: &mut World, pos: Position) -> Entity {
    let entity = world.create();
    world.attach(entity, Component::Position(pos.clone()));
    world.attach(entity, Component::Material(stone()));
    world.attach(entity, Component::Shape(Shape::FullBlock));
    entity
}

fn add_generic_medium_creature(world: &mut World, pos: Position) -> Entity {
    let entity = world.create();
    world.attach(entity, Component::Position(pos.clone()));
    world.attach(entity, Component::Material(flesh()));
    world.attach(entity, Component::Shape(Shape::Medium));
    entity
}

#[test]
fn marks_player_visible() {
    let mut world = build_world();

    let ent_player = entities::player::create_in(&mut world, Position::new(0, 0));

    let mut visibility = Visibility;
    visibility.run(&mut world, &bucket_of);
    world.flush();

    let player_visible = world.is_visible(ent_player);

    match player_visible {
        false => panic!("Player not visible but should be"),
        true => (),
    };
}

#[test]
fn marks_opaque_entities_visible() {
    let mut world = build_world();
    let pos_player = Position::new(3, -4);
    let pos_other = pos_player.right();

    entities::player::create_in(&mut world, pos_player.clone());
    let ent_other = add_generic_medium_creature(&mut world, pos_other.clone());

    let mut visibility = Visibility;
    visibility.run(&mut world, &bucket_of);
    world.flush();

    let other_visible = world.is_visible(ent_other);

    match other_visible {
        false => panic!("Other entity not visible but should be"),
        true => (),
    };
}

#[test]
fn does_not_mark_creature_visible_if_behind_wall() {
    let mut world = build_world();
    let pos_player = Position::new(3, -4);
    let pos_wall = pos_player.right();
    let pos_creature = pos_wall.right();

    entities::player::create_in(&mut world, pos_player);
    let ent_wall = add_stone_wall(&mut world, pos_wall);
    let ent_creature = add_generic_medium_creature(&mut world, pos_creature);

    let mut visibility = Visibility;
    visibility.run(&mut world, &bucket_of);
    world.flush();

    let wall_visible = world.is_visible(ent_wall);
    let creature_visible = world.is_visible(ent_creature);

    match wall_visible {
        false => panic!("Wall not visible but should be"),
        true => (),
    };

    match creature_visible {
        false => (),
        true => panic!("Creature visible but should not be"),
    };
}

#[test]
fn does_not_mark_behind_wall_when_player_next_to_wall() {
    /*
    We want to make sure that our vision is blocked at various angles.
    For example:

      XCCCCCCCCCC
     PXCCCCCCCCCC
      XCCCCCCCCCC

    None of the "C"s should be visible to the player.
    */
    let mut world = build_world();
    let pos_player = Position::new(3, -4);
    let pos_center_wall = pos_player.right();

    entities::player::create_in(&mut world, pos_player);
    let mut ent_walls = Vec::new();
    let mut ent_creatures = Vec::new();

    for y_offset in -1..1 {
        ent_walls.push(add_stone_wall(
            &mut world,
            Position {
                x: pos_center_wall.x,
                y: pos_center_wall.y + y_offset,
            },
        ));

        for x_offset in 1..100 {
            ent_creatures.push(add_generic_medium_creature(
                &mut world,
                Position {
                    x: pos_center_wall.x + x_offset,
                    y: pos_center_wall.y + y_offset,
                },
            ));
        }
    }

    let mut visibility = Visibility;
    visibility.run(&mut world, &bucket_of);
    world.flush();

    for ent_creature in ent_creatures {
        let creature_visible = world.is_visible(ent_creature);
        match creature_visible {
            false => (),
            true => panic!("Creature visible but should not be"),
        };
    }
}

#[test]
fn removing_the_wall_makes_the_creature_visible() {
    let mut world = build_world();
    let pos_player = Position::new(3, -4);
    let pos_wall = pos_player.right();
    let pos_creature = pos_wall.right();
    entities::player::create_in(&mut world, pos_player);
    let wall = add_stone_wall(&mut world, pos_wall);
    let creature = add_generic_medium_creature(&mut world, pos_creature);

    Visibility.run(&mut world, &bucket_of);
    assert!(world.is_visible(wall));
    assert!(!world.is_visible(creature));

    world.detach(wall, tilesim::world::ComponentKind::Position);
    Visibility.run(&mut world, &bucket_of);

    assert!(!world.is_visible(wall));
    assert!(world.is_visible(creature));
}

fn no_bearing() -> Bearing {
    Bearing { sight: 0, corner_a: 0, corner_b: 0 }
}

#[test]
fn a_wall_in_the_bucket_of_a_creature_hides_it_only_if_nearer() {
    let mut world = build_world();
    entities::player::create_in(&mut world, Position::new(0, 0));
    let wall = add_stone_wall(&mut world, Position::new(3, 0));
    let near = add_generic_medium_creature(&mut world, Position::new(2, 0));
    let level = add_generic_medium_creature(&mut world, Position::new(0, 3));
    let far = add_generic_medium_creature(&mut world, Position::new(4, 0));
    let aside = add_generic_medium_creature(&mut world, Position::new(4, 0));
    let bearings = vec![
        no_bearing(),
        Bearing { sight: 7, corner_a: 5, corner_b: 9 },
        Bearing { sight: 7, ..no_bearing() },
        Bearing { sight: 9, ..no_bearing() },
        Bearing { sight: 5, ..no_bearing() },
        Bearing { sight: 10, ..no_bearing() },
    ];

    Visibility.resolve(&mut world, &bearings);

    // the wall is as near as itself
    assert!(world.is_visible(wall));
    // squared distance 4 against the wall's 9
    assert!(world.is_visible(near));
    // squared distance 9, the same as the wall's
    assert!(world.is_visible(level));
    // squared distance 16, behind the wall
    assert!(!world.is_visible(far));
    // as far, but one bucket past the wall's silhouette
    assert!(world.is_visible(aside));
}

#[test]
fn the_nearest_occluder_of_a_bucket_decides() {
    let mut world = build_world();
    entities::player::create_in(&mut world, Position::new(0, 0));
    add_stone_wall(&mut world, Position::new(5, 0));
    add_stone_wall(&mut world, Position::new(2, 0));
    add_stone_wall(&mut world, Position::new(7, 0));
    let creature = add_generic_medium_creature(&mut world, Position::new(3, 0));
    let bearings = vec![
        no_bearing(),
        Bearing { sight: 990, corner_a: 20, corner_b: 30 },
        Bearing { sight: 991, corner_a: 25, corner_b: 35 },
        Bearing { sight: 992, corner_a: 28, corner_b: 40 },
        Bearing { sight: 29, ..no_bearing() },
    ];

    Visibility.resolve(&mut world, &bearings);

    assert!(!world.is_visible(creature));
}

#[test]
fn a_silhouette_across_the_seam_covers_the_buckets_on_both_sides() {
    for (sight, hidden) in [(0, true), (124, true), (125, true), (126, false), (500, false),
        (874, false), (875, true), (999, true), (1000, false), (-1, false)]
    {
        let mut world = build_world();
        entities::player::create_in(&mut world, Position::new(0, 0));
        add_stone_wall(&mut world, Position::new(1, 0));
        let creature = add_generic_medium_creature(&mut world, Position::new(9, 0));
        let bearings = vec![
            no_bearing(),
            Bearing { sight: 0, corner_a: 875, corner_b: 125 },
            Bearing { sight, ..no_bearing() },
        ];

        Visibility.resolve(&mut world, &bearings);

        assert_eq!(!world.is_visible(creature), hidden, "bucket {}", sight);
    }
}

#[test]
fn spans_run_from_the_smaller_bucket_or_across_the_seam() {
    assert_eq!(span(10, 20), (10, 20));
    assert_eq!(span(20, 10), (10, 20));
    assert_eq!(span(7, 7), (7, 7));
    assert_eq!(span(0, 500), (0, 500));
    assert_eq!(span(0, 501), (501, 1000));
    assert_eq!(span(875, 125), (875, 1125));
    assert_eq!(span(125, 875), (875, 1125));
    assert_eq!(span(i32::MIN, i32::MAX), (i32::MAX as i64, i32::MIN as i64 + 1000));
}

#[test]
fn only_opaque_full_blocks_occlude() {
    let mut world = build_world();
    entities::player::create_in(&mut world, Position::new(0, 0));
    // opaque, but of medium size
    add_generic_medium_creature(&mut world, Position::new(1, 0));
    // a full block, but transparent
    let glass = world.create();
    world.attach(glass, Component::Position(Position::new(2, 0)));
    world.attach(glass, Component::Material(Material { opaque: false, visible: true, solid: true }));
    world.attach(glass, Component::Shape(Shape::FullBlock));
    let creature = add_generic_medium_creature(&mut world, Position::new(3, 0));

    Visibility.run(&mut world, &bucket_of);

    assert!(world.is_visible(glass));
    assert!(world.is_visible(creature));
}

#[test]
fn what_is_not_perceivable_is_never_visible() {
    let mut world = build_world();
    entities::player::create_in(&mut world, Position::new(0, 0));
    let ghost = world.create();
    world.attach(ghost, Component::Position(Position::new(1, 0)));
    world.attach(ghost, Component::Material(Material { opaque: false, visible: false, solid: false }));
    let immaterial = world.create();
    world.attach(immaterial, Component::Position(Position::new(1, 1)));
    let nowhere = world.create();
    world.attach(nowhere, Component::Material(flesh()));

    Visibility.run(&mut world, &bucket_of);

    assert!(!world.is_visible(ghost));
    assert!(!world.is_visible(immaterial));
    assert!(!world.is_visible(nowhere));
}

#[test]
fn marks_are_not_carried_over() {
    let mut world = build_world();
    entities::player::create_in(&mut world, Position::new(0, 0));
    let stale = world.create();
    world.attach(stale, Component::Visible(tilesim::components::Visible));

    Visibility.run(&mut world, &bucket_of);

    assert!(!world.is_visible(stale));
}

#[test]
fn without_a_player_nothing_is_decided() {
    let mut world = build_world();
    let creature = add_generic_medium_creature(&mut world, Position::new(3, 0));
    let marked = world.create();
    world.attach(marked, Component::Visible(tilesim::components::Visible));

    assert!(Visibility.ready(&world));
    Visibility.run(&mut world, &bucket_of);

    assert!(!world.is_visible(creature));
    assert!(world.is_visible(marked));
}

#[test]
fn a_player_without_a_position_is_not_ready() {
    let mut world = build_world();
    let player = entities::player::create_in(&mut world, Position::new(0, 0));
    assert!(Visibility.ready(&world));
    world.detach(player, tilesim::world::ComponentKind::Position);
    assert!(!Visibility.ready(&world));
}

#[test]
fn the_survey_measures_only_what_is_needed() {
    let mut world = build_world();
    entities::player::create_in(&mut world, Position::new(0, 0));
    add_stone_wall(&mut world, Position::new(2, 0));
    add_generic_medium_creature(&mut world, Position::new(0, 2));
    let bare = world.create();
    world.attach(bare, Component::Position(Position::new(5, 5)));

    let bearings = Visibility.survey(&world, &Position::new(0, 0), &|x: i64, y: i64| {
        (x * 100 + y) as i32
    });

    assert_eq!(
        bearings,
        vec![
            // the player's own tile is not measured
            Bearing { sight: 0, corner_a: 0, corner_b: 0 },
            // the wall: its direction and the two corners of its near edge
            Bearing { sight: 400, corner_a: 299, corner_b: 301 },
            // the creature: its direction only
            Bearing { sight: 4, corner_a: 0, corner_b: 0 },
            // no material: nothing
            Bearing { sight: 0, corner_a: 0, corner_b: 0 },
        ]
    );
}
