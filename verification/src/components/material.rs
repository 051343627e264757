//! Physical properties of an entity, apart from its geometry.

use vstd::prelude::*;

verus! {

/// What an entity is made of.
#[derive(Clone, Copy, Debug, Default, PartialEq, Eq, Structural)]
pub struct Material {
    /// Blocks sight, if the shape fills the tile.
    pub opaque: bool,
    /// Can be perceived at all.
    pub visible: bool,
    /// Blocks movement, if the shape fills the tile.
    pub solid: bool,
}

/// Blocks sight, but not movement.
pub fn smoke() -> (m: Material)
    ensures
        m == (Material { opaque: true, visible: true, solid: false }),
{
    Material { opaque: true, visible: true, solid: false }
}

/// Blocks sight and movement.
pub fn stone() -> (m: Material)
    ensures
        m == (Material { opaque: true, visible: true, solid: true }),
{
    Material { opaque: true, visible: true, solid: true }
}

/// Blocks sight and movement, as stone does.
pub fn flesh() -> (m: Material)
    ensures
        m == (Material { opaque: true, visible: true, solid: true }),
{
    Material { opaque: true, visible: true, solid: true }
}

} // verus!
