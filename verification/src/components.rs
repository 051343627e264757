//! The data attached to entities.

use vstd::prelude::*;

pub mod material;

verus! {

/// An integer grid coordinate.  Negative `y` is up.
#[derive(Clone, Copy, Debug, PartialEq, Eq, Hash, Structural)]
pub struct Position {
    pub x: i32,
    pub y: i32,
}

/// A corner of a tile as seen from a viewer, in half-tile units: the offset
/// from the centre of the viewer's tile, doubled so that it stays integral.
#[derive(Clone, Copy, Debug, PartialEq, Eq, Structural)]
pub struct Corner {
    pub x: i64,
    pub y: i64,
}

/// The sign of an integer: -1, 0 or 1.
pub open spec fn signum(v: int) -> int {
    if v < 0 {
        -1
    } else if v == 0 {
        0
    } else {
        1
    }
}

/// The two corners of the tile at offset `(dx, dy)` that bound its silhouette
/// for a viewer at the origin, as offsets from the tile's centre in half-tile
/// units.  A tile on the viewer's row or column shows its near edge; any other
/// tile shows the diagonal that lies across the line of sight.
pub open spec fn silhouette(dx: int, dy: int) -> ((int, int), (int, int)) {
    if dx == 0 {
        ((-1, -signum(dy)), (1, -signum(dy)))
    } else if dy == 0 {
        ((-signum(dx), -1), (-signum(dx), 1))
    } else if (dx < 0) == (dy < 0) {
        ((-1, 1), (1, -1))
    } else if dx < 0 {
        ((1, 1), (-1, -1))
    } else {
        ((-1, -1), (1, 1))
    }
}

impl Position {
    /// This position moved by `(dx, dy)`.
    pub open spec fn shifted(self, dx: int, dy: int) -> Position {
        Position { x: (self.x + dx) as i32, y: (self.y + dy) as i32 }
    }

    /// Whether this position moved by `(dx, dy)` is still on the grid.
    pub open spec fn can_shift(self, dx: int, dy: int) -> bool {
        &&& i32::MIN <= self.x + dx <= i32::MAX
        &&& i32::MIN <= self.y + dy <= i32::MAX
    }

    /// The squared Euclidean distance between two positions.
    pub open spec fn distance_squared_to(self, to: Position) -> nat {
        ((to.x - self.x) * (to.x - self.x) + (to.y - self.y) * (to.y - self.y)) as nat
    }

    /// The silhouette corners of the tile at `to` for a viewer at `self`, as
    /// offsets from the viewer in half-tile units; `None` for the viewer's
    /// own tile, which has no silhouette.
    pub open spec fn corners_of(self, to: Position) -> Option<(Corner, Corner)> {
        let dx = to.x - self.x;
        let dy = to.y - self.y;
        let (a, b) = silhouette(dx, dy);
        if dx == 0 && dy == 0 {
            None
        } else {
            Some(
                (
                    Corner { x: (2 * dx + a.0) as i64, y: (2 * dy + a.1) as i64 },
                    Corner { x: (2 * dx + b.0) as i64, y: (2 * dy + b.1) as i64 },
                ),
            )
        }
    }

    /// The position in column `x` and row `y`.
    pub fn new(x: i32, y: i32) -> (r: Position)
        ensures
            r.x == x,
            r.y == y,
    {
        Position { x, y }
    }

    /// Moves this position to `to`.
    pub fn set(&mut self, to: &Position)
        ensures
            *final(self) == *to,
    {
        self.x = to.x;
        self.y = to.y;
    }

    /// The position one row up.
    pub fn up(&self) -> (r: Position)
        requires
            self.can_shift(0, -1),
        ensures
            r == self.shifted(0, -1),
            r.x == self.x,
            r.y == self.y - 1,
    {
        Position { x: self.x, y: self.y - 1 }
    }

    /// The position one row down.
    pub fn down(&self) -> (r: Position)
        requires
            self.can_shift(0, 1),
        ensures
            r == self.shifted(0, 1),
            r.x == self.x,
            r.y == self.y + 1,
    {
        Position { x: self.x, y: self.y + 1 }
    }

    /// The position one column to the left.
    pub fn left(&self) -> (r: Position)
        requires
            self.can_shift(-1, 0),
        ensures
            r == self.shifted(-1, 0),
            r.x == self.x - 1,
            r.y == self.y,
    {
        Position { x: self.x - 1, y: self.y }
    }

    /// The position one column to the right.
    pub fn right(&self) -> (r: Position)
        requires
            self.can_shift(1, 0),
        ensures
            r == self.shifted(1, 0),
            r.x == self.x + 1,
            r.y == self.y,
    {
        Position { x: self.x + 1, y: self.y }
    }

    /// The squared Euclidean distance to `to`.  No square root is taken, so
    /// the result is exact and only meaningful in comparisons.
    pub fn distance_squared(&self, to: &Position) -> (r: u128)
        ensures
            r == self.distance_squared_to(*to),
    {
        let x_diff: i128 = to.x as i128 - self.x as i128;
        let y_diff: i128 = to.y as i128 - self.y as i128;
        assert(-4294967295 <= x_diff <= 4294967295);
        assert(-4294967295 <= y_diff <= 4294967295);
        assert(0 <= x_diff * x_diff <= 4294967295 * 4294967295) by (nonlinear_arith)
            requires
                -4294967295 <= x_diff <= 4294967295,
        ;
        assert(0 <= y_diff * y_diff <= 4294967295 * 4294967295) by (nonlinear_arith)
            requires
                -4294967295 <= y_diff <= 4294967295,
        ;
        (x_diff * x_diff + y_diff * y_diff) as u128
    }

    /// The two corners of the tile at `to` that bound what a viewer at `self`
    /// sees of it.
    pub fn visible_corners(&self, to: &Position) -> (r: Option<(Corner, Corner)>)
        ensures
            r == self.corners_of(*to),
    {
        if self.x == to.x && self.y == to.y {
            return None;
        }
        let offsets: ((i64, i64), (i64, i64)) = if self.x == to.x {
            let y_offset: i64 = if self.y < to.y {
                -1
            } else {
                1
            };
            ((-1, y_offset), (1, y_offset))
        } else if self.y == to.y {
            let x_offset: i64 = if self.x < to.x {
                -1
            } else {
                1
            };
            ((x_offset, -1), (x_offset, 1))
        } else if self.x > to.x {
            if self.y > to.y {
                ((-1, 1), (1, -1))
            } else {
                ((1, 1), (-1, -1))
            }
        } else {
            if self.y > to.y {
                ((-1, -1), (1, 1))
            } else {
                ((-1, 1), (1, -1))
            }
        };
        let diff_x: i64 = to.x as i64 - self.x as i64;
        let diff_y: i64 = to.y as i64 - self.y as i64;
        Some(
            (
                Corner { x: 2 * diff_x + (offsets.0).0, y: 2 * diff_y + (offsets.0).1 },
                Corner { x: 2 * diff_x + (offsets.1).0, y: 2 * diff_y + (offsets.1).1 },
            ),
        )
    }
}

/// A proposed, not yet committed, change of position.
#[derive(Clone, Copy, Debug, PartialEq, Eq, Hash, Structural)]
pub struct Moved {
    pub from: Position,
    pub to: Position,
}

/// Draw priority: a sprite on a higher layer is painted over a lower one.
#[derive(Clone, Copy, PartialEq, Eq, PartialOrd, Ord, Debug, Structural)]
pub struct DrawLayer(pub u8);

/// The layer of floors, the lowest.
pub fn dl_floor() -> (layer: DrawLayer)
    ensures
        layer == DrawLayer(0),
{
    DrawLayer(0)
}

/// The layer of walls, above the floor.
pub fn dl_walls() -> (layer: DrawLayer)
    ensures
        layer == DrawLayer(5),
{
    DrawLayer(5)
}

/// The layer of creatures and the player, above everything else.
pub fn dl_entity() -> (layer: DrawLayer)
    ensures
        layer == DrawLayer(100),
{
    DrawLayer(100)
}

/// How an entity is presented in one terminal cell.
#[derive(Clone, Copy, Debug, PartialEq, Eq, Structural)]
pub struct Sprite {
    pub fg_r: u8,
    pub fg_g: u8,
    pub fg_b: u8,
    pub bg_r: u8,
    pub bg_g: u8,
    pub bg_b: u8,
    pub layer: DrawLayer,
    pub rune: char,
}

/// Marks the entity that the player controls.
#[derive(Clone, Copy, Debug, Default, PartialEq, Eq, Structural)]
pub struct Player;

/// Marks an entity that the player can currently perceive.  Recomputed on
/// every tick: its absence says "not seen now", not "never seen".
#[derive(Clone, Copy, Debug, Default, PartialEq, Eq, Structural)]
pub struct Visible;

/// The geometric footprint of an entity on its tile.
#[derive(Clone, Copy, Debug, PartialEq, Eq, Structural)]
pub enum Shape {
    Floor,
    Medium,
    FullBlock,
}

} // verus!
