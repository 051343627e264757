//! Entity handles.

use vstd::prelude::*;

verus! {

/// A handle on one row of the component tables: a slot index and the
/// generation of the slot at the time the handle was made.  Only the store
/// creates entities; everything else holds handles by value.
#[derive(Clone, Copy, Debug, PartialEq, Eq, Hash, Structural)]
pub struct Entity {
    pub index: usize,
    pub generation: u32,
}

impl Entity {
    /// The slot that the handle names.
    pub fn id(&self) -> (index: usize)
        ensures
            index == self.index,
    {
        self.index
    }

    /// The generation of the slot when the handle was made.
    pub fn gen(&self) -> (generation: u32)
        ensures
            generation == self.generation,
    {
        self.generation
    }
}

} // verus!
