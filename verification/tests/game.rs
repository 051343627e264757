use tilesim::components::material::stone;
use tilesim::components::{Moved, Position, Shape};
use tilesim::dispatcher::SystemKind;
use tilesim::game::{Game, Outcome};
use tilesim::input::{Action, Buffer};
use tilesim::resources::game_map::TileProperties;
use tilesim::systems::collisions_solid::CollisionsSolid;
use tilesim::systems::movement_apply::MovementApply;
use tilesim::systems::player_input::PlayerInput;
use tilesim::systems::render::{Color, Renderer};
use tilesim::systems::sync_game_map::SyncGameMap;
use tilesim::resources::PendingAction;
use tilesim::world::{Component, ComponentKind, World};

struct Counter {
    width: usize,
    height: usize,
    draws: usize,
    flushes: usize,
}

impl Counter {
    fn new(width: usize, height: usize) -> Counter {
        Counter { width, height, draws: 0, flushes: 0 }
    }
}

impl Renderer for Counter {
    fn draw_at(&mut self, _x: usize, _y: usize, _fg: &Color, _bg: &Color, _rune: char) {
        self.draws += 1;
    }

    fn size(&self) -> (usize, usize) {
        (self.width, self.height)
    }

    fn flush(&mut self) {
        self.flushes += 1;
    }
}

struct Script {
    steps: Vec<Vec<Action>>,
}

impl Buffer for Script {
    fn step(&mut self) -> Vec<Action> {
        if self.steps.is_empty() {
            vec![]
        } else {
            self.steps.remove(0)
        }
    }
}

fn bucket_of(x: i64, y: i64) -> i32 {
    let quadrant = (y as f32 / 2.).atan2(x as f32 / 2.);
    let theta = if quadrant < 0. { quadrant + 2. * std::f32::consts::PI } else { quadrant };
    (theta / (2. * std::f32::consts::PI / 1000.)) as i32
}

fn counter(game: &Game<Counter>) -> &Counter {
    game.dispatcher.thread_local.as_ref().unwrap().renderer()
}

#[test]
fn moving_right_without_obstruction_arrives_and_leaves_no_intent() {
    let mut world = World::new();
    let player = world.create();
    world.attach(player, Component::Position(Position::new(5, -3)));
    world.attach(player, Component::Player(tilesim::components::Player));
    world.attach(player, Component::Material(stone()));
    world.attach(player, Component::Shape(Shape::Medium));
    world.pending_action = PendingAction(Some(Action::Right));

    PlayerInput.run(&mut world);
    world.flush();
    world.pending_action = PendingAction(None);
    PlayerInput.run(&mut world);
    SyncGameMap.run(&mut world);
    CollisionsSolid.run(&mut world);
    MovementApply.run(&mut world);
    world.flush();

    assert_eq!(world.position(player), Some(Position::new(6, -3)));
    assert_eq!(world.moved(player), None);
}

#[test]
fn moving_right_into_a_blocked_tile_stays_and_leaves_no_intent() {
    let mut world = World::new();
    let player = world.create();
    world.attach(player, Component::Position(Position::new(5, -3)));
    world.attach(player, Component::Player(tilesim::components::Player));
    world.attach(player, Component::Material(stone()));
    world.attach(player, Component::Shape(Shape::Medium));
    world.game_map.mark_tile(&Position::new(6, -3), TileProperties::blocked());
    world.pending_action = PendingAction(Some(Action::Right));

    PlayerInput.run(&mut world);
    world.flush();
    assert_eq!(
        world.moved(player),
        Some(Moved { from: Position::new(5, -3), to: Position::new(6, -3) })
    );
    CollisionsSolid.run(&mut world);
    MovementApply.run(&mut world);
    world.flush();

    assert_eq!(world.position(player), Some(Position::new(5, -3)));
    assert_eq!(world.moved(player), None);
}

#[test]
fn a_new_game_has_the_player_in_the_middle_of_the_room() {
    let game = Game::new(Counter::new(80, 24));
    let player = game.world.player.unwrap().ent;

    assert_eq!(game.world.len(), 1 + 124 + 800);
    assert_eq!(player.id(), 0);
    assert_eq!(game.world.position(player), Some(Position::new(0, 0)));
    assert!(game.world.is_player(player));
    assert_eq!(game.world.pending_action.0, None);
    assert_eq!((game.world.camera_center.x, game.world.camera_center.y), (0, 0));
    assert!(game.world.queue.is_empty());
    let kinds: Vec<SystemKind> = game.dispatcher.systems.iter().map(|s| s.system).collect();
    assert_eq!(
        kinds,
        vec![
            SystemKind::PlayerInput,
            SystemKind::SyncGameMap,
            SystemKind::CollisionsSolid,
            SystemKind::MovementApply,
            SystemKind::Visibility,
        ]
    );
    let names: Vec<&str> = game.dispatcher.systems.iter().map(|s| s.name.as_str()).collect();
    assert_eq!(
        names,
        vec!["player_input", "sync_game_map", "collisions_solid", "movement_apply", "visibility"]
    );
    assert_eq!(game.dispatcher.systems[2].dependencies, vec![1, 0]);
    assert_eq!(game.dispatcher.systems[3].dependencies, vec![0, 2]);
    assert_eq!(game.dispatcher.systems[4].dependencies, vec![3]);
    assert_eq!((counter(&game).draws, counter(&game).flushes), (0, 0));
}

#[test]
fn an_action_moves_the_player_in_the_tick_after_it_was_pending() {
    let mut game = Game::new(Counter::new(80, 24));
    let player = game.world.player.unwrap().ent;

    assert_eq!(game.tick(vec![Action::Right], &bucket_of), Outcome::Continue);
    assert_eq!(game.world.position(player), Some(Position::new(0, 0)));
    assert_eq!(
        game.world.moved(player),
        Some(Moved { from: Position::new(0, 0), to: Position::new(1, 0) })
    );

    assert_eq!(game.tick(vec![], &bucket_of), Outcome::Continue);
    assert_eq!(game.world.position(player), Some(Position::new(1, 0)));
    assert_eq!(game.world.moved(player), None);
    assert!(game.world.queue.is_empty());

    assert_eq!(game.tick(vec![], &bucket_of), Outcome::Continue);
    assert_eq!(game.world.position(player), Some(Position::new(1, 0)));
}

#[test]
fn of_several_actions_the_last_is_honoured() {
    let mut game = Game::new(Counter::new(80, 24));
    let player = game.world.player.unwrap().ent;

    game.tick(vec![Action::Up, Action::Right, Action::Left], &bucket_of);
    assert_eq!(game.world.pending_action.0, Some(Action::Left));
    game.tick(vec![], &bucket_of);

    assert_eq!(game.world.pending_action.0, None);
    assert_eq!(game.world.position(player), Some(Position::new(-1, 0)));
}

#[test]
fn a_pending_action_redirects_the_move_that_is_under_way() {
    let mut game = Game::new(Counter::new(80, 24));
    let player = game.world.player.unwrap().ent;

    game.tick(vec![Action::Right], &bucket_of);
    game.tick(vec![Action::Down], &bucket_of);

    // the intent of the first tick was redirected before it was applied
    assert_eq!(game.world.position(player), Some(Position::new(0, 1)));
    assert_eq!(game.world.moved(player), None);
}

#[test]
fn hard_exit_ends_the_game_before_anything_runs() {
    let mut game = Game::new(Counter::new(80, 24));
    let player = game.world.player.unwrap().ent;
    game.tick(vec![Action::Right], &bucket_of);
    let flushes = counter(&game).flushes;

    for actions in [
        vec![Action::HardExit],
        vec![Action::HardExit, Action::Left],
        vec![Action::Left, Action::HardExit, Action::Up],
    ] {
        assert_eq!(game.tick(actions, &bucket_of), Outcome::Exit);
    }

    assert_eq!(game.world.pending_action.0, Some(Action::Right));
    assert_eq!(game.world.position(player), Some(Position::new(0, 0)));
    assert!(game.world.moved(player).is_some());
    assert_eq!(counter(&game).flushes, flushes);
}

#[test]
fn the_wall_of_the_room_stops_the_player() {
    let mut game = Game::new(Counter::new(10, 10));
    let player = game.world.player.unwrap().ent;

    // a move takes two ticks: one to queue the intent, one to apply it
    for _ in 0..30 {
        assert_eq!(game.tick(vec![Action::Left], &bucket_of), Outcome::Continue);
    }
    assert_eq!(game.world.position(player), Some(Position::new(-15, 0)));
    for _ in 0..30 {
        assert_eq!(game.tick(vec![Action::Left], &bucket_of), Outcome::Continue);
    }

    assert_eq!(game.world.position(player), Some(Position::new(-20, 0)));
    assert_eq!(game.world.moved(player), None);

    for _ in 0..30 {
        assert_eq!(game.tick(vec![Action::Up], &bucket_of), Outcome::Continue);
    }

    assert_eq!(game.world.position(player), Some(Position::new(-20, -10)));
}

#[test]
fn every_tick_flushes_the_renderer_once() {
    let mut game = Game::new(Counter::new(20, 10));

    game.tick(vec![], &bucket_of);
    assert_eq!(counter(&game).flushes, 1);
    let drawn = counter(&game).draws;
    assert!(drawn > 0);

    game.tick(vec![], &bucket_of);
    assert_eq!(counter(&game).flushes, 2);
    assert_eq!(counter(&game).draws, drawn);
}

#[test]
fn the_player_sees_the_room_but_not_through_its_walls() {
    let mut game = Game::new(Counter::new(20, 10));
    let outside = game.world.create();
    game.world.attach(outside, Component::Position(Position::new(25, 0)));
    game.world.attach(outside, Component::Material(stone()));
    game.world.attach(outside, Component::Shape(Shape::Medium));
    let inside = game.world.create();
    game.world.attach(inside, Component::Position(Position::new(10, 0)));
    game.world.attach(inside, Component::Material(stone()));
    game.world.attach(inside, Component::Shape(Shape::Medium));

    game.tick(vec![], &bucket_of);

    assert!(game.world.is_visible(game.world.player.unwrap().ent));
    assert!(game.world.is_visible(inside));
    assert!(!game.world.is_visible(outside));
}

#[test]
fn a_player_without_a_position_stops_the_tick_at_the_visibility_engine() {
    let mut game = Game::new(Counter::new(20, 10));
    let player = game.world.player.unwrap().ent;
    game.world.detach(player, ComponentKind::Position);
    game.world.defer_attach(player, Component::Visible(tilesim::components::Visible));

    assert_eq!(game.tick(vec![Action::Up], &bucket_of), Outcome::Stopped(4));

    // nothing was rendered, and the queue was not flushed
    assert_eq!(counter(&game).flushes, 0);
    assert_eq!(game.world.queue.len(), 1);
    assert!(!game.world.is_visible(player));
}

#[test]
fn a_step_off_the_grid_stops_the_tick_at_intent_creation() {
    let mut game = Game::new(Counter::new(20, 10));
    let player = game.world.player.unwrap().ent;
    game.world.attach(player, Component::Position(Position::new(0, i32::MAX)));

    assert_eq!(game.tick(vec![Action::Down], &bucket_of), Outcome::Stopped(0));
    assert_eq!(game.tick(vec![Action::Up], &bucket_of), Outcome::Continue);
}

#[test]
fn a_step_polls_the_input_once() {
    let mut game = Game::new(Counter::new(20, 10));
    let player = game.world.player.unwrap().ent;
    let mut input = Script {
        steps: vec![vec![Action::Down, Action::Up], vec![], vec![Action::Left, Action::HardExit]],
    };

    assert_eq!(game.step(&mut input, &bucket_of), Outcome::Continue);
    assert_eq!(input.steps.len(), 2);
    assert_eq!(game.step(&mut input, &bucket_of), Outcome::Continue);
    assert_eq!(game.world.position(player), Some(Position::new(0, -1)));
    assert_eq!(game.step(&mut input, &bucket_of), Outcome::Exit);
    assert!(input.steps.is_empty());
    assert_eq!(game.world.position(player), Some(Position::new(0, -1)));
}
