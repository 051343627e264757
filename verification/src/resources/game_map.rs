//! The spatial index: who stands on each tile, and what the tile is like.

use crate::components::Position;
use crate::entity::Entity;
use std::collections::HashMap;
use vstd::prelude::*;

verus! {

broadcast use vstd::std_specs::hash::group_hash_axioms;

/// A small set of flags that describe a tile.
#[derive(Clone, Copy, Debug, Default, PartialEq, Eq, Structural)]
pub struct TileProperties {
    pub bits: u16,
}

impl TileProperties {
    /// Whether every flag of `other` is set in `self`.
    pub open spec fn includes(self, other: TileProperties) -> bool {
        self.bits & other.bits == other.bits
    }

    /// No flag at all.
    pub fn empty() -> (r: TileProperties)
        ensures
            r.bits == 0,
    {
        TileProperties { bits: 0 }
    }

    /// The tile cannot be entered by anything solid.
    pub fn blocked() -> (r: TileProperties)
        ensures
            r.bits == 1,
    {
        TileProperties { bits: 1 }
    }

    /// Whether every flag of `other` is set in `self`.
    pub fn contains(&self, other: TileProperties) -> (r: bool)
        ensures
            r == self.includes(other),
    {
        self.bits & other.bits == other.bits
    }

    /// The flags of both.
    pub fn union(self, other: TileProperties) -> (r: TileProperties)
        ensures
            r.bits == self.bits | other.bits,
    {
        TileProperties { bits: self.bits | other.bits }
    }
}

/// What the index knows of one tile.
pub struct TileData {
    pub properties: TileProperties,
    pub entities: Vec<Entity>,
}

/// The mathematical content of one tile of the index.
pub struct Tile {
    pub properties: u16,
    /// The occupants in the order in which they were recorded, each once.
    pub entities: Seq<Entity>,
}

/// The key under which a tile is stored: both coordinates, made unsigned,
/// side by side.  Distinct positions have distinct keys.
pub open spec fn tile_key(p: Position) -> u64 {
    ((p.x - i32::MIN) * 0x1_0000_0000 + (p.y - i32::MIN)) as u64
}

/// Two positions have the same key only if they are the same.
pub proof fn lemma_tile_key_injective(p: Position, q: Position)
    ensures
        tile_key(p) == tile_key(q) <==> p == q,
{
}

fn key_of(p: &Position) -> (k: u64)
    ensures
        k == tile_key(*p),
{
    let hi: u64 = (p.x as i64 + 2147483648) as u64;
    let lo: u64 = (p.y as i64 + 2147483648) as u64;
    hi * 4294967296 + lo
}

/// Whether `needle` occurs in `haystack`.
pub fn holds(haystack: &Vec<Entity>, needle: Entity) -> (found: bool)
    ensures
        found == haystack@.contains(needle),
{
    let mut i: usize = 0;
    while i < haystack.len()
        invariant
            i <= haystack.len(),
            forall|j: int| 0 <= j < i ==> haystack@[j] != needle,
        decreases haystack.len() - i,
    {
        if haystack[i] == needle {
            return true;
        }
        i += 1;
    }
    false
}

/// Per-tile occupancy and flags.  A tile that nothing was recorded on is
/// simply absent: looking it up finds no occupants and no flags.
pub struct GameMap {
    pub data: HashMap<u64, TileData>,
}

impl View for GameMap {
    type V = Map<Position, Tile>;

    open spec fn view(&self) -> Map<Position, Tile> {
        Map::new(
            |p: Position| self.data@.contains_key(tile_key(p)),
            |p: Position|
                Tile {
                    properties: self.data@[tile_key(p)].properties.bits,
                    entities: self.data@[tile_key(p)].entities@,
                },
        )
    }
}

/// The tile at `p` after `entity` was recorded on it.
pub open spec fn tile_with(m: Map<Position, Tile>, p: Position, entity: Entity) -> Tile {
    if !m.contains_key(p) {
        Tile { properties: 0, entities: seq![entity] }
    } else if m[p].entities.contains(entity) {
        m[p]
    } else {
        Tile { properties: m[p].properties, entities: m[p].entities.push(entity) }
    }
}

/// The tile at `p` after `flags` were set on it.
pub open spec fn tile_marked(m: Map<Position, Tile>, p: Position, flags: u16) -> Tile {
    if m.contains_key(p) {
        Tile { properties: m[p].properties | flags, entities: m[p].entities }
    } else {
        Tile { properties: 0u16 | flags, entities: Seq::empty() }
    }
}

/// Whether the tile at `p` carries every flag of `flags`.  A tile that is
/// absent carries none, not even the empty set.
pub open spec fn tile_has(m: Map<Position, Tile>, p: Position, flags: u16) -> bool {
    m.contains_key(p) && m[p].properties & flags == flags
}

/// Whether the index marks the tile at `p` as blocked.
pub open spec fn is_blocked(m: Map<Position, Tile>, p: Position) -> bool {
    tile_has(m, p, 1)
}

/// The entities recorded on the tile at `p`.
pub open spec fn occupants(m: Map<Position, Tile>, p: Position) -> Set<Entity> {
    if m.contains_key(p) {
        m[p].entities.to_set()
    } else {
        Set::empty()
    }
}

impl GameMap {
    /// No occupant is recorded twice on a tile.
    pub open spec fn wf(&self) -> bool {
        forall|k: u64| #[trigger]
            self.data@.contains_key(k) ==> self.data@[k].entities@.no_duplicates()
    }

    /// An index without tiles.
    pub fn new() -> (map: GameMap)
        ensures
            map.wf(),
            map@ == Map::<Position, Tile>::empty(),
    {
        let map = GameMap { data: HashMap::with_capacity(5000) };
        assert(map@ =~= Map::<Position, Tile>::empty());
        map
    }

    /// Records `entity` as an occupant of the tile at `coordinate`.
    pub fn add(&mut self, coordinate: &Position, entity: Entity)
        requires
            old(self).wf(),
        ensures
            final(self).wf(),
            final(self)@ == old(self)@.insert(*coordinate, tile_with(old(self)@, *coordinate, entity)),
    {
        let k = key_of(coordinate);
        let tile = match self.data.remove(&k) {
            Some(mut tile) => {
                if !holds(&tile.entities, entity) {
                    tile.entities.push(entity);
                }
                tile
            },
            None => {
                let mut entities: Vec<Entity> = Vec::new();
                entities.push(entity);
                TileData { properties: TileProperties::empty(), entities }
            },
        };
        self.data.insert(k, tile);
        proof {
            let goal = old(self)@.insert(*coordinate, tile_with(old(self)@, *coordinate, entity));
            assert forall|p: Position| self@.contains_key(p) <==> goal.contains_key(p) by {
                lemma_tile_key_injective(p, *coordinate);
            }
            assert forall|p: Position| self@.contains_key(p) implies self@[p] == goal[p] by {
                lemma_tile_key_injective(p, *coordinate);
                if p == *coordinate && old(self)@.contains_key(p) && !old(self)@[p].entities.contains(entity) {
                    assert(self@[p].entities =~= old(self)@[p].entities.push(entity));
                }
                if p == *coordinate && !old(self)@.contains_key(p) {
                    assert(self@[p].entities =~= seq![entity]);
                }
            }
            assert(self@ =~= goal);
        }
    }

    /// The occupants recorded on the tile at `coordinate`, if any ever were.
    pub fn get_entities(&self, coordinate: &Position) -> (found: Option<&Vec<Entity>>)
        ensures
            match found {
                Some(entities) => self@.contains_key(*coordinate) && entities@
                    == self@[*coordinate].entities,
                None => !self@.contains_key(*coordinate),
            },
    {
        let k = key_of(coordinate);
        match self.data.get(&k) {
            None => None,
            Some(entry) => Some(&entry.entities),
        }
    }

    /// Sets `flags` on the tile at `coordinate`, keeping those already set.
    pub fn mark_tile(&mut self, coordinate: &Position, flags: TileProperties)
        requires
            old(self).wf(),
        ensures
            final(self).wf(),
            final(self)@ == old(self)@.insert(
                *coordinate,
                tile_marked(old(self)@, *coordinate, flags.bits),
            ),
    {
        let k = key_of(coordinate);
        let tile = match self.data.remove(&k) {
            Some(mut tile) => {
                tile.properties = tile.properties.union(flags);
                tile
            },
            None => TileData {
                properties: TileProperties::empty().union(flags),
                entities: Vec::new(),
            },
        };
        self.data.insert(k, tile);
        proof {
            let goal = old(self)@.insert(
                *coordinate,
                tile_marked(old(self)@, *coordinate, flags.bits),
            );
            assert forall|p: Position| self@.contains_key(p) <==> goal.contains_key(p) by {
                lemma_tile_key_injective(p, *coordinate);
            }
            assert forall|p: Position| self@.contains_key(p) implies self@[p] == goal[p] by {
                lemma_tile_key_injective(p, *coordinate);
                if p == *coordinate && !old(self)@.contains_key(p) {
                    assert(self@[p].entities =~= Seq::<Entity>::empty());
                }
            }
            assert(self@ =~= goal);
        }
    }

    /// Clears every flag of the tile at `coordinate`; its occupants stay.
    pub fn clear_tile_properties(&mut self, coordinate: &Position)
        requires
            old(self).wf(),
        ensures
            final(self).wf(),
            final(self)@ == if old(self)@.contains_key(*coordinate) {
                old(self)@.insert(
                    *coordinate,
                    Tile { properties: 0, entities: old(self)@[*coordinate].entities },
                )
            } else {
                old(self)@
            },
    {
        let k = key_of(coordinate);
        match self.data.remove(&k) {
            None => {
                assert(self.data@ =~= old(self).data@);
            },
            Some(mut tile) => {
                tile.properties = TileProperties::empty();
                self.data.insert(k, tile);
                proof {
                    let goal = old(self)@.insert(
                        *coordinate,
                        Tile { properties: 0, entities: old(self)@[*coordinate].entities },
                    );
                    assert forall|p: Position| self@.contains_key(p) <==> goal.contains_key(p) by {
                        lemma_tile_key_injective(p, *coordinate);
                    }
                    assert forall|p: Position| self@.contains_key(p) implies self@[p] == goal[p] by {
                        lemma_tile_key_injective(p, *coordinate);
                    }
                    assert(self@ =~= goal);
                }
            },
        }
    }

    /// Whether the tile at `coordinate` carries every flag of `flags`.
    pub fn tile_is(&self, coordinate: &Position, flags: TileProperties) -> (r: bool)
        ensures
            r == tile_has(self@, *coordinate, flags.bits),
    {
        let k = key_of(coordinate);
        match self.data.get(&k) {
            None => false,
            Some(entry) => entry.properties.contains(flags),
        }
    }

    /// Forgets every tile.
    pub fn clear_all(&mut self)
        ensures
            final(self).wf(),
            final(self)@ == Map::<Position, Tile>::empty(),
    {
        self.data.clear();
        assert(self@ =~= Map::<Position, Tile>::empty());
    }
}

impl Default for GameMap {
    fn default() -> (map: GameMap)
        ensures
            map.wf(),
            map@ == Map::<Position, Tile>::empty(),
    {
        GameMap::new()
    }
}

} // verus!
