//! Entities by coordinate.

use crate::entity::Entity;
use crate::resources::game_map::holds;
use std::collections::HashMap;
use vstd::prelude::*;

verus! {

broadcast use vstd::std_specs::hash::group_hash_axioms;

/// A grid coordinate: column, then row.
#[derive(Clone, Copy, Debug, PartialEq, Eq, Hash, Structural)]
pub struct Coordinate(pub i32, pub i32);

/// The key under which the entities at a coordinate are stored: both parts,
/// made unsigned, side by side.  Distinct coordinates have distinct keys.
pub open spec fn grid_key(c: Coordinate) -> u64 {
    ((c.0 - i32::MIN) * 0x1_0000_0000 + (c.1 - i32::MIN)) as u64
}

/// Two coordinates have the same key only if they are the same.
pub proof fn lemma_grid_key_injective(c: Coordinate, d: Coordinate)
    ensures
        grid_key(c) == grid_key(d) <==> c == d,
{
}

fn key_of(c: &Coordinate) -> (k: u64)
    ensures
        k == grid_key(*c),
{
    let hi: u64 = (c.0 as i64 + 2147483648) as u64;
    let lo: u64 = (c.1 as i64 + 2147483648) as u64;
    hi * 4294967296 + lo
}

/// The entities at `c` after `entity` was added there.
pub open spec fn cell_with(m: Map<Coordinate, Seq<Entity>>, c: Coordinate, entity: Entity) -> Seq<
    Entity,
> {
    if !m.contains_key(c) {
        seq![entity]
    } else if m[c].contains(entity) {
        m[c]
    } else {
        m[c].push(entity)
    }
}

/// For each coordinate, the entities there, each once, in the order in
/// which they were added.
pub struct EntityGrid {
    pub data: HashMap<u64, Vec<Entity>>,
}

impl View for EntityGrid {
    type V = Map<Coordinate, Seq<Entity>>;

    open spec fn view(&self) -> Map<Coordinate, Seq<Entity>> {
        Map::new(
            |c: Coordinate| self.data@.contains_key(grid_key(c)),
            |c: Coordinate| self.data@[grid_key(c)]@,
        )
    }
}

impl EntityGrid {
    /// No entity is held twice at a coordinate.
    pub open spec fn wf(&self) -> bool {
        forall|k: u64| #[trigger] self.data@.contains_key(k) ==> self.data@[k]@.no_duplicates()
    }

    /// A grid without entities.
    pub fn new() -> (grid: EntityGrid)
        ensures
            grid.wf(),
            grid@ == Map::<Coordinate, Seq<Entity>>::empty(),
    {
        let grid = EntityGrid { data: HashMap::with_capacity(5000) };
        assert(grid@ =~= Map::<Coordinate, Seq<Entity>>::empty());
        grid
    }

    /// Adds `entity` at `coordinate`, unless it is there already.
    pub fn add(&mut self, coordinate: Coordinate, entity: Entity)
        requires
            old(self).wf(),
        ensures
            final(self).wf(),
            final(self)@ == old(self)@.insert(coordinate, cell_with(old(self)@, coordinate, entity)),
    {
        let k = key_of(&coordinate);
        let cell = match self.data.remove(&k) {
            Some(mut cell) => {
                if !holds(&cell, entity) {
                    cell.push(entity);
                }
                cell
            },
            None => {
                let mut cell: Vec<Entity> = Vec::new();
                cell.push(entity);
                cell
            },
        };
        self.data.insert(k, cell);
        proof {
            let goal = old(self)@.insert(coordinate, cell_with(old(self)@, coordinate, entity));
            assert forall|c: Coordinate| self@.contains_key(c) <==> goal.contains_key(c) by {
                lemma_grid_key_injective(c, coordinate);
            }
            assert forall|c: Coordinate| self@.contains_key(c) implies self@[c] == goal[c] by {
                lemma_grid_key_injective(c, coordinate);
                if c == coordinate && old(self)@.contains_key(c) && !old(self)@[c].contains(entity) {
                    assert(self@[c] =~= old(self)@[c].push(entity));
                }
                if c == coordinate && !old(self)@.contains_key(c) {
                    assert(self@[c] =~= seq![entity]);
                }
            }
            assert(self@ =~= goal);
        }
    }

    /// The entities at `coordinate`, if any was ever added there.
    pub fn get(&self, coordinate: Coordinate) -> (found: Option<&Vec<Entity>>)
        ensures
            match found {
                Some(entities) => self@.contains_key(coordinate) && entities@ == self@[coordinate],
                None => !self@.contains_key(coordinate),
            },
    {
        let k = key_of(&coordinate);
        self.data.get(&k)
    }

    /// Whether anything was ever added at `coordinate` since the grid was
    /// last cleared.
    pub fn contains_any<T>(&self, coordinate: Coordinate) -> (r: bool)
        ensures
            r == self@.contains_key(coordinate),
    {
        match self.get(coordinate) {
            None => false,
            Some(_) => true,
        }
    }

    /// Forgets every entity.
    pub fn clear(&mut self)
        ensures
            final(self).wf(),
            final(self)@ == Map::<Coordinate, Seq<Entity>>::empty(),
    {
        self.data.clear();
        assert(self@ =~= Map::<Coordinate, Seq<Entity>>::empty());
    }
}

impl Default for EntityGrid {
    fn default() -> (grid: EntityGrid)
        ensures
            grid.wf(),
            grid@ == Map::<Coordinate, Seq<Entity>>::empty(),
    {
        EntityGrid::new()
    }
}

} // verus!
