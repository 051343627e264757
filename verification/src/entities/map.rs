//! The room in which the game starts: a floor of 40 by 20 tiles around the
//! origin, with a wall around it.

use crate::components::material::{stone, Material};
use crate::components::{dl_floor, dl_walls, DrawLayer, Position, Shape, Sprite};
use crate::entities::player::{lemma_spawned, spawn, spawned};
use crate::world::{World, WorldView};
use vstd::prelude::*;

verus! {

/// The leftmost column of the floor.
pub const LEFT: i32 = -20;

/// The column of the right wall, one past the floor.
pub const RIGHT: i32 = 20;

/// The topmost row of the floor.
pub const TOP: i32 = -10;

/// The row of the bottom wall, one past the floor.
pub const BOTTOM: i32 = 10;

/// How a wall looks.
pub open spec fn wall_sprite() -> Sprite {
    Sprite {
        fg_r: 255,
        fg_g: 255,
        fg_b: 255,
        bg_r: 128,
        bg_g: 128,
        bg_b: 128,
        layer: DrawLayer(5),
        rune: 'X',
    }
}

/// How the floor looks.
pub open spec fn floor_sprite() -> Sprite {
    Sprite {
        fg_r: 255,
        fg_g: 255,
        fg_b: 255,
        bg_r: 28,
        bg_g: 28,
        bg_b: 28,
        layer: DrawLayer(0),
        rune: ' ',
    }
}

/// The tiles of the wall, in the order in which they are made: the rows
/// above and below the floor, column by column, upper tile first; then the
/// columns left and right of it, row by row, left tile first.
pub open spec fn wall_tiles() -> Seq<Position> {
    Seq::new(84, |k: int| Position { x: (LEFT - 1 + k / 2) as i32, y: if k % 2 == 0 {
        (TOP - 1) as i32
    } else {
        BOTTOM
    } }) + Seq::new(40, |k: int| Position { x: if k % 2 == 0 {
        (LEFT - 1) as i32
    } else {
        RIGHT
    }, y: (TOP + k / 2) as i32 })
}

/// The tiles of the floor, column by column, and down each column.
pub open spec fn floor_tiles() -> Seq<Position> {
    Seq::new(800, |k: int| Position { x: (LEFT + k / 20) as i32, y: (TOP + k % 20) as i32 })
}

/// The store after an entity was made on each of the first `n` of `tiles`,
/// all with the same sprite, material and shape.
pub open spec fn tiled(
    w: WorldView,
    tiles: Seq<Position>,
    sprite: Sprite,
    material: Material,
    shape: Shape,
    n: int,
) -> WorldView
    decreases n,
{
    if n <= 0 {
        w
    } else {
        spawned(tiled(w, tiles, sprite, material, shape, n - 1), tiles[n - 1], sprite, material, shape)
    }
}

/// The store after the room was built in it: walls of stone that fill
/// their tiles, then a floor of stone.
pub open spec fn with_room(w: WorldView) -> WorldView {
    let stone = Material { opaque: true, visible: true, solid: true };
    tiled(
        tiled(w, wall_tiles(), wall_sprite(), stone, Shape::FullBlock, 124),
        floor_tiles(),
        floor_sprite(),
        stone,
        Shape::Floor,
        800,
    )
}

/// The positions of `tiles`, as the rows of a table of positions.
pub open spec fn standing_on(tiles: Seq<Position>, n: int) -> Seq<Option<Position>> {
    Seq::new(n as nat, |k: int| Some(tiles[k]))
}

/// Makes an entity on each tile of `tiles`.
fn lay(world: &mut World, tiles: &Vec<Position>, sprite: Sprite, material: Material, shape: Shape)
    requires
        old(world).wf(),
    ensures
        final(world).wf(),
        final(world)@ == tiled(old(world)@, tiles@, sprite, material, shape, tiles@.len() as int),
        final(world)@.len() == old(world)@.len() + tiles@.len(),
        final(world)@.positions == old(world)@.positions + standing_on(
            tiles@,
            tiles@.len() as int,
        ),
        final(world)@.queue == old(world)@.queue,
        final(world)@.player == old(world)@.player,
{
    let mut i: usize = 0;
    assert(world@.positions =~= old(world)@.positions + standing_on(tiles@, 0));
    while i < tiles.len()
        invariant
            i <= tiles@.len(),
            world.wf(),
            world@ == tiled(old(world)@, tiles@, sprite, material, shape, i as int),
            world@.len() == old(world)@.len() + i,
            world@.positions == old(world)@.positions + standing_on(tiles@, i as int),
            world@.queue == old(world)@.queue,
            world@.player == old(world)@.player,
        decreases tiles@.len() - i,
    {
        let ghost before = world@;
        spawn(world, tiles[i], sprite, material, shape);
        proof {
            assert(world@.generations == before.generations.push(0));
            lemma_spawned(before, tiles@[i as int], sprite, material, shape);
            assert(world@.positions =~= old(world)@.positions + standing_on(tiles@, i + 1));
        }
        i += 1;
    }
}

/// Builds the room.
pub fn create_in(world: &mut World)
    requires
        old(world).wf(),
    ensures
        final(world).wf(),
        final(world)@ == with_room(old(world)@),
        final(world)@.len() == old(world)@.len() + 924,
        final(world)@.positions == old(world)@.positions + standing_on(wall_tiles(), 124)
            + standing_on(floor_tiles(), 800),
        final(world)@.queue == old(world)@.queue,
        final(world)@.player == old(world)@.player,
{
    let mut walls: Vec<Position> = Vec::new();
    let mut floors: Vec<Position> = Vec::new();
    let mut x: i32 = LEFT - 1;
    while x < RIGHT + 1
        invariant
            LEFT - 1 <= x <= RIGHT + 1,
            walls@.len() == 2 * (x - (LEFT - 1)),
            forall|k: int| 0 <= k < walls@.len() ==> walls@[k] == wall_tiles()[k],
        decreases RIGHT + 1 - x,
    {
        walls.push(Position { x, y: TOP - 1 });
        walls.push(Position { x, y: BOTTOM });
        x += 1;
    }
    let mut y: i32 = TOP;
    while y < BOTTOM
        invariant
            TOP <= y <= BOTTOM,
            walls@.len() == 84 + 2 * (y - TOP),
            forall|k: int| 0 <= k < walls@.len() ==> walls@[k] == wall_tiles()[k],
        decreases BOTTOM - y,
    {
        walls.push(Position { x: LEFT - 1, y });
        walls.push(Position { x: RIGHT, y });
        y += 1;
    }
    let mut x: i32 = LEFT;
    while x < RIGHT
        invariant
            LEFT <= x <= RIGHT,
            floors@.len() == 20 * (x - LEFT),
            forall|k: int| 0 <= k < floors@.len() ==> floors@[k] == floor_tiles()[k],
        decreases RIGHT - x,
    {
        let mut y: i32 = TOP;
        while y < BOTTOM
            invariant
                LEFT <= x < RIGHT,
                TOP <= y <= BOTTOM,
                floors@.len() == 20 * (x - LEFT) + (y - TOP),
                forall|k: int| 0 <= k < floors@.len() ==> floors@[k] == floor_tiles()[k],
            decreases BOTTOM - y,
        {
            floors.push(Position { x, y });
            y += 1;
        }
        x += 1;
    }
    assert(walls@ =~= wall_tiles());
    assert(floors@ =~= floor_tiles());
    let wall = Sprite {
        fg_r: 255,
        fg_g: 255,
        fg_b: 255,
        bg_r: 128,
        bg_g: 128,
        bg_b: 128,
        layer: dl_walls(),
        rune: 'X',
    };
    let floor = Sprite {
        fg_r: 255,
        fg_g: 255,
        fg_b: 255,
        bg_r: 28,
        bg_g: 28,
        bg_b: 28,
        layer: dl_floor(),
        rune: ' ',
    };
    lay(world, &walls, wall, stone(), Shape::FullBlock);
    lay(world, &floors, floor, stone(), Shape::Floor);
}

} // verus!
