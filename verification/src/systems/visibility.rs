//! The visibility engine: decides which entities the player perceives.
//!
//! The circle around the player is cut into angular buckets.  Every occluder
//! leaves its distance in the buckets that its silhouette covers, and an
//! entity is perceived unless its own bucket holds an occluder that is
//! nearer.  Angles themselves are measured by the caller: the engine hands
//! out directions and takes back bucket indices.

use crate::components::{Corner, Position, Shape};
use crate::world::{World, WorldView};
use vstd::prelude::*;

verus! {

/// The number of angular buckets on the full circle.
pub const THETA_BUCKET_COUNT: i32 = 1000;

/// The buckets measured for one entity.  A bucket that was not needed is 0.
#[derive(Clone, Copy, Debug, PartialEq, Eq, Structural)]
pub struct Bearing {
    /// The bucket of the direction from the player to the entity.
    pub sight: i32,
    /// The buckets of the two silhouette corners of the entity's tile.
    pub corner_a: i32,
    pub corner_b: i32,
}

/// Whether the entity in slot `i` casts occlusion: it fills its tile and its
/// material is opaque.
pub open spec fn occludes(w: WorldView, i: int) -> bool {
    &&& w.positions[i] is Some
    &&& w.materials[i] is Some
    &&& w.materials[i].unwrap().opaque
    &&& w.shapes[i] == Some(Shape::FullBlock)
}

/// Whether the entity in slot `i` can be perceived at all.
pub open spec fn perceivable(w: WorldView, i: int) -> bool {
    &&& w.positions[i] is Some
    &&& w.materials[i] is Some
    &&& w.materials[i].unwrap().visible
}

/// The direction in which the bucket of sight of the entity in slot `i` has
/// to be measured, in half-tile units; `None` if it needs no measuring.  The
/// direction from a tile to itself is not measured: its bucket is 0.
pub open spec fn sight_query(w: WorldView, viewer: Position, i: int) -> Option<Corner> {
    if perceivable(w, i) && w.positions[i].unwrap() != viewer {
        let p = w.positions[i].unwrap();
        Some(Corner { x: (2 * (p.x - viewer.x)) as i64, y: (2 * (p.y - viewer.y)) as i64 })
    } else {
        None
    }
}

/// The two directions in which the silhouette of the entity in slot `i` has
/// to be measured; `None` if it needs no measuring.
pub open spec fn corner_queries(w: WorldView, viewer: Position, i: int) -> Option<(Corner, Corner)> {
    if occludes(w, i) {
        viewer.corners_of(w.positions[i].unwrap())
    } else {
        None
    }
}

/// Whether `b` is what `bucket_of` measured for the entity in slot `i`.
pub open spec fn measured_at<F: Fn(i64, i64) -> i32>(
    w: WorldView,
    viewer: Position,
    bucket_of: &F,
    i: int,
    b: Bearing,
) -> bool {
    &&& match sight_query(w, viewer, i) {
        Some(c) => call_ensures(bucket_of, (c.x, c.y), b.sight),
        None => b.sight == 0,
    }
    &&& match corner_queries(w, viewer, i) {
        Some((a, c)) => call_ensures(bucket_of, (a.x, a.y), b.corner_a) && call_ensures(
            bucket_of,
            (c.x, c.y),
            b.corner_b,
        ),
        None => b.corner_a == 0 && b.corner_b == 0,
    }
}

/// Whether `bearings` is what `bucket_of` measured for the entities of `w`,
/// slot by slot.
pub open spec fn measured<F: Fn(i64, i64) -> i32>(
    w: WorldView,
    viewer: Position,
    bucket_of: &F,
    bearings: Seq<Bearing>,
) -> bool {
    &&& bearings.len() == w.len()
    &&& forall|i: int|
        0 <= i < w.len() ==> measured_at(w, viewer, bucket_of, i, #[trigger] bearings[i])
}

/// The run of bucket indices between the buckets `a` and `b` of two
/// silhouette corners, as first and last index.  Corners more than half a
/// circle apart span the seam: the run then starts at the larger and ends a
/// full circle past the smaller.
pub open spec fn span_of(a: int, b: int) -> (int, int) {
    let lo = if a < b {
        a
    } else {
        b
    };
    let hi = if a < b {
        b
    } else {
        a
    };
    if hi - lo > THETA_BUCKET_COUNT / 2 {
        (hi, lo + THETA_BUCKET_COUNT)
    } else {
        (lo, hi)
    }
}

/// The bucket in which the index `b` falls: `b` modulo the bucket count.
pub open spec fn slot_of(b: int) -> int {
    b % (THETA_BUCKET_COUNT as int)
}

/// Whether some index of the run `span` falls in bucket `k`.
pub open spec fn covers(span: (int, int), k: int) -> bool {
    exists|b: int| span.0 <= b <= span.1 && #[trigger] slot_of(b) == k
}

/// The smaller of a recorded distance and `d`; `d` if none is recorded.
pub open spec fn nearer(recorded: Option<u128>, d: u128) -> Option<u128> {
    match recorded {
        Some(r) => if r > d {
            Some(d)
        } else {
            Some(r)
        },
        None => Some(d),
    }
}

/// The squared distance of the nearest occluder among the first `n` slots
/// whose silhouette covers bucket `k`; `None` if there is none.
pub open spec fn shadow(
    w: WorldView,
    viewer: Position,
    bearings: Seq<Bearing>,
    k: int,
    n: int,
) -> Option<u128>
    decreases n,
{
    if n <= 0 {
        None
    } else {
        let before = shadow(w, viewer, bearings, k, n - 1);
        let i = n - 1;
        if occludes(w, i) && covers(
            span_of(bearings[i].corner_a as int, bearings[i].corner_b as int),
            k,
        ) {
            nearer(before, viewer.distance_squared_to(w.positions[i].unwrap()) as u128)
        } else {
            before
        }
    }
}

/// Whether the player, standing at `viewer`, perceives the entity in slot
/// `i`: it is perceivable, and no occluder recorded in its bucket is nearer
/// than the entity itself.  An occluder at the same distance does not hide.
pub open spec fn perceived(w: WorldView, viewer: Position, bearings: Seq<Bearing>, i: int) -> bool {
    let k = bearings[i].sight;
    &&& perceivable(w, i)
    &&& 0 <= k < THETA_BUCKET_COUNT ==> match shadow(w, viewer, bearings, k as int, w.len() as int) {
        Some(limit) => viewer.distance_squared_to(w.positions[i].unwrap()) <= limit,
        None => true,
    }
}

/// Whether the player of `w`, if there is one, is an entity with a position.
pub open spec fn player_placed(w: WorldView) -> bool {
    match w.player {
        Some(p) => w.has(p.ent) && w.positions[p.ent.index as int] is Some,
        None => true,
    }
}

/// The store after visibility was decided from `bearings`.  Without a player
/// nothing changes.  Otherwise every mark is set anew: exactly the perceived
/// entities are visible.
pub open spec fn visibility(w: WorldView, bearings: Seq<Bearing>) -> WorldView {
    match w.player {
        Some(p) => {
            let viewer = w.positions[p.ent.index as int].unwrap();
            WorldView {
                visibles: Seq::new(w.len(), |i: int| perceived(w, viewer, bearings, i)),
                ..w
            }
        },
        None => w,
    }
}

/// Whether the occluder in slot `j` lies over bucket `k`.
pub open spec fn shades(w: WorldView, bearings: Seq<Bearing>, j: int, k: int) -> bool {
    occludes(w, j) && covers(span_of(bearings[j].corner_a as int, bearings[j].corner_b as int), k)
}

/// The bucket holds the least distance: no occluder that lies over it is
/// nearer than what is recorded, and what is recorded is the distance of one
/// of them.
pub proof fn lemma_shadow_is_nearest(
    w: WorldView,
    viewer: Position,
    bearings: Seq<Bearing>,
    k: int,
    n: int,
)
    requires
        0 <= n,
    ensures
        forall|j: int|
            0 <= j < n && #[trigger] shades(w, bearings, j, k) ==> {
                &&& shadow(w, viewer, bearings, k, n) is Some
                &&& shadow(w, viewer, bearings, k, n).unwrap() <= viewer.distance_squared_to(
                    w.positions[j].unwrap(),
                ) as u128
            },
        shadow(w, viewer, bearings, k, n) is Some ==> exists|j: int|
            0 <= j < n && #[trigger] shades(w, bearings, j, k) && shadow(
                w,
                viewer,
                bearings,
                k,
                n,
            ).unwrap() == viewer.distance_squared_to(w.positions[j].unwrap()) as u128,
    decreases n,
{
    if n > 0 {
        lemma_shadow_is_nearest(w, viewer, bearings, k, n - 1);
        let before = shadow(w, viewer, bearings, k, n - 1);
        let after = shadow(w, viewer, bearings, k, n);
        if after is Some {
            if shades(w, bearings, n - 1, k) && after.unwrap() == viewer.distance_squared_to(
                w.positions[n - 1].unwrap(),
            ) as u128 {
                assert(shades(w, bearings, n - 1, k));
            } else {
                assert(before is Some && before == after);
                let j = choose|j: int|
                    0 <= j < n - 1 && #[trigger] shades(w, bearings, j, k) && before.unwrap()
                        == viewer.distance_squared_to(w.positions[j].unwrap()) as u128;
                assert(shades(w, bearings, j, k));
            }
        }
    }
}

/// An occluder hides what lies in a bucket under it and is farther from the
/// player than the occluder itself.
pub proof fn lemma_nearer_occluder_hides(w: WorldView, bearings: Seq<Bearing>, i: int, j: int)
    requires
        w.wf(),
        player_placed(w),
        w.player is Some,
        0 <= i < w.len(),
        0 <= j < w.len(),
        0 <= bearings[i].sight < THETA_BUCKET_COUNT,
        w.positions[i] is Some,
        shades(w, bearings, j, bearings[i].sight as int),
        ({
            let viewer = w.positions[w.player.unwrap().ent.index as int].unwrap();
            viewer.distance_squared_to(w.positions[j].unwrap()) < viewer.distance_squared_to(
                w.positions[i].unwrap(),
            )
        }),
    ensures
        !visibility(w, bearings).visibles[i],
{
    let viewer = w.positions[w.player.unwrap().ent.index as int].unwrap();
    lemma_shadow_is_nearest(w, viewer, bearings, bearings[i].sight as int, w.len() as int);
    lemma_distance_fits(viewer, w.positions[i].unwrap());
    lemma_distance_fits(viewer, w.positions[j].unwrap());
}

/// A squared distance on the grid fits the type it is computed in.
pub proof fn lemma_distance_fits(a: Position, b: Position)
    ensures
        a.distance_squared_to(b) <= 2 * 4294967295 * 4294967295,
        a.distance_squared_to(b) as u128 == a.distance_squared_to(b),
{
    let dx = b.x - a.x;
    let dy = b.y - a.y;
    assert(0 <= dx * dx <= 4294967295 * 4294967295) by (nonlinear_arith)
        requires
            -4294967295 <= dx <= 4294967295,
    ;
    assert(0 <= dy * dy <= 4294967295 * 4294967295) by (nonlinear_arith)
        requires
            -4294967295 <= dy <= 4294967295,
    ;
}

/// The player perceives itself: an entity on the player's own tile is at
/// distance 0, and no occluder is nearer than that.
pub proof fn lemma_own_tile_is_perceived(w: WorldView, bearings: Seq<Bearing>, i: int)
    requires
        w.wf(),
        player_placed(w),
        w.player is Some,
        0 <= i < w.len(),
        perceivable(w, i),
        w.positions[i] == w.positions[w.player.unwrap().ent.index as int],
    ensures
        visibility(w, bearings).visibles[i],
{
    let viewer = w.positions[w.player.unwrap().ent.index as int].unwrap();
    assert(viewer.distance_squared_to(viewer) == 0);
    assert(perceived(w, viewer, bearings, i));
}

/// An entity whose bucket holds no occluder is perceived if it is
/// perceivable at all.
pub proof fn lemma_clear_bucket_is_perceived(w: WorldView, bearings: Seq<Bearing>, i: int)
    requires
        w.wf(),
        player_placed(w),
        w.player is Some,
        0 <= i < w.len(),
        perceivable(w, i),
        shadow(
            w,
            w.positions[w.player.unwrap().ent.index as int].unwrap(),
            bearings,
            bearings[i].sight as int,
            w.len() as int,
        ) is None,
    ensures
        visibility(w, bearings).visibles[i],
{
}

/// The marks when the first `n` slots have been decided.
pub open spec fn perceived_below(
    w: WorldView,
    viewer: Position,
    bearings: Seq<Bearing>,
    n: int,
) -> Seq<bool> {
    Seq::new(n as nat, |i: int| perceived(w, viewer, bearings, i))
}

/// The bucket in which the index `b` falls.
fn slot(b: i64) -> (k: usize)
    requires
        -2147483648 <= b <= 2147484647,
    ensures
        k == slot_of(b as int),
        k < 1000,
{
    let shifted: u64 = (b + 2147484000) as u64;
    (shifted % 1000) as usize
}

/// The run of bucket indices of a silhouette whose corners fall in the
/// buckets `a` and `b`.
pub fn span(a: i32, b: i32) -> (r: (i64, i64))
    ensures
        (r.0 as int, r.1 as int) == span_of(a as int, b as int),
{
    let (lo, hi): (i64, i64) = if a < b {
        (a as i64, b as i64)
    } else {
        (b as i64, a as i64)
    };
    if hi - lo > 500 {
        (hi, lo + 1000)
    } else {
        (lo, hi)
    }
}

/// The system that decides visibility.
pub struct Visibility;

impl Visibility {
    /// Whether `resolve` and `run` may be called on `world`: the player, if
    /// there is one, stands somewhere.
    pub fn ready(&self, world: &World) -> (r: bool)
        requires
            world.wf(),
        ensures
            r == player_placed(world@),
    {
        match world.player {
            Some(player) => match world.position(player.ent) {
                Some(_) => true,
                None => false,
            },
            None => true,
        }
    }

    /// Has `bucket_of` measure every direction that the decision needs: for
    /// each perceivable entity the direction from the player to it, for each
    /// occluder the directions of its two silhouette corners.
    pub fn survey<F: Fn(i64, i64) -> i32>(&self, world: &World, viewer: &Position, bucket_of: &F) -> (bearings:
        Vec<Bearing>)
        requires
            world.wf(),
            forall|x: i64, y: i64| call_requires(bucket_of, (x, y)),
        ensures
            measured(world@, *viewer, bucket_of, bearings@),
    {
        let mut bearings: Vec<Bearing> = Vec::new();
        let count = world.len();
        let mut i: usize = 0;
        while i < count
            invariant
                i <= count,
                count == world@.len(),
                world.wf(),
                bearings@.len() == i,
                forall|x: i64, y: i64| call_requires(bucket_of, (x, y)),
                forall|j: int|
                    0 <= j < i ==> measured_at(world@, *viewer, bucket_of, j, #[trigger] bearings@[j]),
            decreases count - i,
        {
            let mut bearing = Bearing { sight: 0, corner_a: 0, corner_b: 0 };
            match (world.positions[i], world.materials[i]) {
                (Some(p), Some(m)) => {
                    if m.visible && (p.x != viewer.x || p.y != viewer.y) {
                        let x: i64 = 2 * (p.x as i64 - viewer.x as i64);
                        let y: i64 = 2 * (p.y as i64 - viewer.y as i64);
                        bearing.sight = bucket_of(x, y);
                    }
                    let full = match world.shapes[i] {
                        Some(Shape::FullBlock) => true,
                        _ => false,
                    };
                    if m.opaque && full {
                        match viewer.visible_corners(&p) {
                            Some((a, c)) => {
                                bearing.corner_a = bucket_of(a.x, a.y);
                                bearing.corner_b = bucket_of(c.x, c.y);
                            },
                            None => {},
                        }
                    }
                },
                _ => {},
            }
            assert(measured_at(world@, *viewer, bucket_of, i as int, bearing));
            bearings.push(bearing);
            i += 1;
        }
        bearings
    }

    /// Records the occluders of `world` in a fresh table of buckets.
    fn shadows(world: &World, viewer: &Position, bearings: &Vec<Bearing>) -> (table: Vec<
        Option<u128>,
    >)
        requires
            world.wf(),
            bearings@.len() == world@.len(),
        ensures
            table@.len() == 1000,
            forall|k: int|
                0 <= k < 1000 ==> #[trigger] table@[k] == shadow(
                    world@,
                    *viewer,
                    bearings@,
                    k,
                    world@.len() as int,
                ),
    {
        let mut table: Vec<Option<u128>> = Vec::new();
        let mut k: usize = 0;
        while k < 1000
            invariant
                k <= 1000,
                table@.len() == k,
                forall|j: int| 0 <= j < k ==> #[trigger] table@[j] == None::<u128>,
            decreases 1000 - k,
        {
            table.push(None);
            k += 1;
        }
        let count = world.len();
        let mut i: usize = 0;
        while i < count
            invariant
                i <= count,
                count == world@.len(),
                world.wf(),
                bearings@.len() == world@.len(),
                table@.len() == 1000,
                forall|k: int|
                    0 <= k < 1000 ==> #[trigger] table@[k] == shadow(
                        world@,
                        *viewer,
                        bearings@,
                        k,
                        i as int,
                    ),
            decreases count - i,
        {
            let full = match world.shapes[i] {
                Some(Shape::FullBlock) => true,
                _ => false,
            };
            match (world.positions[i], world.materials[i]) {
                (Some(p), Some(m)) => {
                    if m.opaque && full {
                        assert(occludes(world@, i as int));
                        let distance = viewer.distance_squared(&p);
                        let (first, last) = span(bearings[i].corner_a, bearings[i].corner_b);
                        let ghost before = table@;
                        let mut b: i64 = first;
                        while b <= last
                            invariant
                                first <= b <= last + 1 || last < first,
                                last < first ==> b == first,
                                -2147483648 <= first <= 2147483647,
                                -2147483648 <= last <= 2147484647,
                                table@.len() == 1000,
                                before.len() == 1000,
                                forall|k: int|
                                    0 <= k < 1000 ==> #[trigger] table@[k] == if covers(
                                        (first as int, b - 1),
                                        k,
                                    ) {
                                        nearer(before[k], distance)
                                    } else {
                                        before[k]
                                    },
                            decreases last + 1 - b,
                        {
                            let at = slot(b);
                            let recorded = table[at];
                            let update = match recorded {
                                Some(r) => if r > distance {
                                    Some(distance)
                                } else {
                                    Some(r)
                                },
                                None => Some(distance),
                            };
                            table.set(at, update);
                            proof {
                                assert forall|k: int| 0 <= k < 1000 implies #[trigger] table@[k]
                                    == if covers((first as int, b as int), k) {
                                    nearer(before[k], distance)
                                } else {
                                    before[k]
                                } by {
                                    if covers((first as int, b - 1), k) {
                                        let w = choose|w: int|
                                            first <= w <= b - 1 && #[trigger] slot_of(w) == k;
                                        assert(first <= w <= b && slot_of(w) == k);
                                    }
                                    if k == at {
                                        assert(first <= b <= b && slot_of(b as int) == k);
                                    }
                                    if covers((first as int, b as int), k) {
                                        let w = choose|w: int|
                                            first <= w <= b && #[trigger] slot_of(w) == k;
                                        if w != b {
                                            assert(first <= w <= b - 1 && slot_of(w) == k);
                                        }
                                    }
                                }
                            }
                            b += 1;
                        }
                        proof {
                            assert forall|k: int| 0 <= k < 1000 implies #[trigger] table@[k]
                                == shadow(world@, *viewer, bearings@, k, i + 1) by {
                                if last < first {
                                    assert(!covers((first as int, last as int), k));
                                    assert(!covers((first as int, b - 1), k));
                                } else {
                                    assert(b - 1 == last);
                                }
                            }
                        }
                    }
                },
                _ => {},
            }
            i += 1;
        }
        table
    }

    /// Decides visibility from the buckets in `bearings`, one for each slot
    /// of `world`.
    pub fn resolve(&mut self, world: &mut World, bearings: &Vec<Bearing>)
        requires
            old(world).wf(),
            player_placed(old(world)@),
            bearings@.len() == old(world)@.len(),
        ensures
            final(world).wf(),
            final(world)@ == visibility(old(world)@, bearings@),
    {
        let viewer = match world.player {
            Some(player) => match world.positions[player.ent.index] {
                Some(p) => p,
                None => {
                    return ;
                },
            },
            None => {
                return ;
            },
        };
        let table = Visibility::shadows(world, &viewer, bearings);
        let mut marks: Vec<bool> = Vec::new();
        let count = world.len();
        let mut i: usize = 0;
        while i < count
            invariant
                i <= count,
                count == world@.len(),
                world.wf(),
                world@ == old(world)@,
                bearings@.len() == world@.len(),
                table@.len() == 1000,
                forall|k: int|
                    0 <= k < 1000 ==> #[trigger] table@[k] == shadow(
                        world@,
                        viewer,
                        bearings@,
                        k,
                        world@.len() as int,
                    ),
                marks@ == perceived_below(world@, viewer, bearings@, i as int),
            decreases count - i,
        {
            let mark = match (world.positions[i], world.materials[i]) {
                (Some(p), Some(m)) => {
                    if !m.visible {
                        false
                    } else {
                        let distance = viewer.distance_squared(&p);
                        let k = bearings[i].sight;
                        if 0 <= k && k < 1000 {
                            match table[k as usize] {
                                Some(limit) => distance <= limit,
                                None => true,
                            }
                        } else {
                            true
                        }
                    }
                },
                _ => false,
            };
            assert(mark == perceived(world@, viewer, bearings@, i as int));
            marks.push(mark);
            i += 1;
            assert(marks@ =~= perceived_below(world@, viewer, bearings@, i as int));
        }
        world.visibles = marks;
        assert(world@.visibles =~= visibility(old(world)@, bearings@).visibles);
    }

    /// Decides visibility with the buckets that `bucket_of` measures.
    pub fn run<F: Fn(i64, i64) -> i32>(&mut self, world: &mut World, bucket_of: &F)
        requires
            old(world).wf(),
            player_placed(old(world)@),
            forall|x: i64, y: i64| call_requires(bucket_of, (x, y)),
        ensures
            final(world).wf(),
            old(world)@.player is None ==> final(world)@ == old(world)@,
            old(world)@.player is Some ==> exists|bearings: Seq<Bearing>|
                {
                    &&& measured(
                        old(world)@,
                        old(world)@.positions[old(world)@.player.unwrap().ent.index as int].unwrap(),
                        bucket_of,
                        bearings,
                    )
                    &&& final(world)@ == #[trigger] visibility(old(world)@, bearings)
                },
    {
        let viewer = match world.player {
            Some(player) => match world.positions[player.ent.index] {
                Some(p) => p,
                None => {
                    return ;
                },
            },
            None => {
                return ;
            },
        };
        let bearings = self.survey(world, &viewer, bucket_of);
        self.resolve(world, &bearings);
    }
}

} // verus!
