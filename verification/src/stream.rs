//! Chunk streaming: which chunk offsets around the player are generated
//! and meshed first, how much of that one frame does, and which chunks
//! fall out of range.

use std::collections::HashSet;
use vstd::std_specs::iter::IteratorSpec;
use vstd::prelude::*;
use crate::generation::ChunkInputs;
use crate::world::{
    ChunkMap, World, chunk_key, coords_of_key, has_data_at, holds_generated, key, key_coords, lemma_chunk_key_injective,
    lemma_key_coords, source_ok, unchanged_at,
};

verus! {

broadcast use vstd::std_specs::hash::group_hash_axioms;

/// Chebyshev radius of meshed chunks around the player.
pub const RENDER_DIST: i32 = 6;

/// Chebyshev radius of the square the streamer walks: one ring of data
/// beyond the meshed area, so every meshed chunk has generated neighbors.
pub const STREAM_RADIUS: i32 = 7;

/// Chebyshev distance of offset `(dx, dz)` from the origin.
pub open spec fn spec_cheb(dx: int, dz: int) -> int {
    let ax = if dx < 0 { -dx } else { dx };
    let az = if dz < 0 { -dz } else { dz };
    if ax >= az { ax } else { az }
}

/// Chebyshev distance of offset `(dx, dz)` from the origin.
pub fn cheb(dx: i32, dz: i32) -> (r: i32)
    requires
        dx > i32::MIN,
        dz > i32::MIN,
    ensures
        r == spec_cheb(dx as int, dz as int),
{
    let ax = if dx < 0 { -dx } else { dx };
    let az = if dz < 0 { -dz } else { dz };
    if ax >= az { ax } else { az }
}

/// Squared Euclidean distance of offset `(dx, dz)` from the origin.
pub open spec fn dist2(dx: int, dz: int) -> int {
    dx * dx + dz * dz
}

/// Whether offset `(a, b)` comes before position `(k, dx, dz)` in the
/// streaming order: nearer first, ties by `dx`, then by `dz`.
pub open spec fn precedes(a: int, b: int, k: int, dx: int, dz: int) -> bool {
    ||| dist2(a, b) < k
    ||| dist2(a, b) == k && a < dx
    ||| dist2(a, b) == k && a == dx && b < dz
}

/// Whether offset `(dx, dz)` lies in the streamed square.
pub open spec fn in_square(dx: int, dz: int) -> bool {
    -STREAM_RADIUS <= dx <= STREAM_RADIUS && -STREAM_RADIUS <= dz <= STREAM_RADIUS
}

/// Offsets of the streamed square around the player chunk, each with its
/// Chebyshev ring, ordered for streaming.
pub struct Streamer {
    offsets: Vec<(i32, i32, i32)>,
}

impl View for Streamer {
    type V = Seq<(i32, i32, i32)>;

    closed spec fn view(&self) -> Seq<(i32, i32, i32)> {
        self.offsets@
    }
}

impl Streamer {
    /// Every offset `(dx, dz)` of the square within [`STREAM_RADIUS`],
    /// with its Chebyshev ring, nearest first (by squared distance), ties
    /// broken by `dx` then `dz`.
    pub fn new() -> (r: Self)
        ensures
            forall|i: int, j: int| 0 <= i < j < r@.len() ==> precedes(
                r@[i].0 as int,
                r@[i].1 as int,
                dist2(r@[j].0 as int, r@[j].1 as int),
                r@[j].0 as int,
                r@[j].1 as int,
            ),
            forall|i: int| 0 <= i < r@.len() ==> in_square(#[trigger] r@[i].0 as int, r@[i].1 as int)
                && r@[i].2 == spec_cheb(r@[i].0 as int, r@[i].1 as int),
            forall|dx: i32, dz: i32| in_square(dx as int, dz as int) ==> #[trigger] r@.contains(
                (dx, dz, spec_cheb(dx as int, dz as int) as i32),
            ),
            covers_square(r@),
    {
        let m = STREAM_RADIUS;
        let max_k: i32 = 2 * m * m;
        let mut offsets: Vec<(i32, i32, i32)> = Vec::new();
        let mut k: i32 = 0;
        proof {
            assert forall|a: int, b: int| #[trigger] dist2(a, b) >= 0 by {
                assert(a * a + b * b >= 0) by (nonlinear_arith);
            }
        }
        while k <= max_k
            invariant
                m == STREAM_RADIUS,
                max_k == 2 * m * m,
                0 <= k <= max_k + 1,
                forall|i: int| 0 <= i < offsets@.len() ==> in_square(#[trigger] offsets@[i].0 as int, offsets@[i].1 as int)
                    && offsets@[i].2 == spec_cheb(offsets@[i].0 as int, offsets@[i].1 as int)
                    && precedes(offsets@[i].0 as int, offsets@[i].1 as int, k as int, -m as int, -m as int),
                forall|i: int, j: int| 0 <= i < j < offsets@.len() ==> precedes(
                    offsets@[i].0 as int,
                    offsets@[i].1 as int,
                    dist2(offsets@[j].0 as int, offsets@[j].1 as int),
                    offsets@[j].0 as int,
                    offsets@[j].1 as int,
                ),
                forall|a: i32, b: i32| in_square(a as int, b as int) && precedes(a as int, b as int, k as int, -m as int, -m as int)
                    ==> #[trigger] offsets@.contains((a, b, spec_cheb(a as int, b as int) as i32)),
            decreases max_k + 1 - k,
        {
            let mut dx: i32 = -m;
            while dx <= m
                invariant
                    m == STREAM_RADIUS,
                    max_k == 2 * m * m,
                    0 <= k <= max_k,
                    -m <= dx <= m + 1,
                    forall|i: int| 0 <= i < offsets@.len() ==> in_square(#[trigger] offsets@[i].0 as int, offsets@[i].1 as int)
                        && offsets@[i].2 == spec_cheb(offsets@[i].0 as int, offsets@[i].1 as int)
                        && precedes(offsets@[i].0 as int, offsets@[i].1 as int, k as int, dx as int, -m as int),
                    forall|i: int, j: int| 0 <= i < j < offsets@.len() ==> precedes(
                        offsets@[i].0 as int,
                        offsets@[i].1 as int,
                        dist2(offsets@[j].0 as int, offsets@[j].1 as int),
                        offsets@[j].0 as int,
                        offsets@[j].1 as int,
                    ),
                    forall|a: i32, b: i32| in_square(a as int, b as int) && precedes(a as int, b as int, k as int, dx as int, -m as int)
                        ==> #[trigger] offsets@.contains((a, b, spec_cheb(a as int, b as int) as i32)),
                decreases m + 1 - dx,
            {
                let mut dz: i32 = -m;
                while dz <= m
                    invariant
                        m == STREAM_RADIUS,
                        max_k == 2 * m * m,
                        0 <= k <= max_k,
                        -m <= dx <= m,
                        -m <= dz <= m + 1,
                        forall|i: int| 0 <= i < offsets@.len() ==> in_square(#[trigger] offsets@[i].0 as int, offsets@[i].1 as int)
                            && offsets@[i].2 == spec_cheb(offsets@[i].0 as int, offsets@[i].1 as int)
                            && precedes(offsets@[i].0 as int, offsets@[i].1 as int, k as int, dx as int, dz as int),
                        forall|i: int, j: int| 0 <= i < j < offsets@.len() ==> precedes(
                            offsets@[i].0 as int,
                            offsets@[i].1 as int,
                            dist2(offsets@[j].0 as int, offsets@[j].1 as int),
                            offsets@[j].0 as int,
                            offsets@[j].1 as int,
                        ),
                        forall|a: i32, b: i32| in_square(a as int, b as int) && precedes(a as int, b as int, k as int, dx as int, dz as int)
                            ==> #[trigger] offsets@.contains((a, b, spec_cheb(a as int, b as int) as i32)),
                    decreases m + 1 - dz,
                {
                    assert(0 <= dx * dx <= 49 && 0 <= dz * dz <= 49) by (nonlinear_arith)
                        requires -7 <= dx <= 7, -7 <= dz <= 7;
                    if dx * dx + dz * dz == k {
                        let ghost before = offsets@;
                        offsets.push((dx, dz, cheb(dx, dz)));
                        proof {
                            assert forall|a: i32, b: i32| in_square(a as int, b as int) && precedes(a as int, b as int, k as int, dx as int, dz + 1)
                                implies #[trigger] offsets@.contains((a, b, spec_cheb(a as int, b as int) as i32)) by {
                                if a == dx && b == dz {
                                    assert(offsets@[before.len() as int] == (a, b, spec_cheb(a as int, b as int) as i32));
                                } else {
                                    assert(precedes(a as int, b as int, k as int, dx as int, dz as int));
                                    assert(before.contains((a, b, spec_cheb(a as int, b as int) as i32)));
                                    let i = choose|i: int| 0 <= i < before.len() && before[i] == (a, b, spec_cheb(a as int, b as int) as i32);
                                    assert(offsets@[i] == before[i]);
                                }
                            }
                        }
                    } else {
                        proof {
                            assert forall|a: i32, b: i32| in_square(a as int, b as int) && precedes(a as int, b as int, k as int, dx as int, dz + 1)
                                implies #[trigger] offsets@.contains((a, b, spec_cheb(a as int, b as int) as i32)) by {
                                assert(precedes(a as int, b as int, k as int, dx as int, dz as int));
                            }
                        }
                    }
                    dz = dz + 1;
                }
                proof {
                    assert forall|a: i32, b: i32| in_square(a as int, b as int) && precedes(a as int, b as int, k as int, dx + 1, -m as int)
                        implies #[trigger] offsets@.contains((a, b, spec_cheb(a as int, b as int) as i32)) by {
                        assert(precedes(a as int, b as int, k as int, dx as int, dz as int));
                    }
                }
                dx = dx + 1;
            }
            proof {
                assert forall|a: i32, b: i32| in_square(a as int, b as int) && precedes(a as int, b as int, k + 1, -m as int, -m as int)
                    implies #[trigger] offsets@.contains((a, b, spec_cheb(a as int, b as int) as i32)) by {
                    assert(precedes(a as int, b as int, k as int, dx as int, -m as int));
                }
            }
            k = k + 1;
        }
        proof {
            assert forall|a: i32, b: i32| in_square(a as int, b as int) implies #[trigger] offsets@.contains(
                (a, b, spec_cheb(a as int, b as int) as i32),
            ) by {
                assert(dist2(a as int, b as int) <= 2 * 7 * 7) by (nonlinear_arith)
                    requires -7 <= a <= 7, -7 <= b <= 7;
                assert(precedes(a as int, b as int, k as int, -m as int, -m as int));
            }
        }
        Streamer { offsets }
    }

    /// One frame of streaming around player chunk `(pcx, pcz)`: walks the
    /// offsets in order, generating up to `data_budget` missing chunks and
    /// picking up to `mesh_budget` chunks to mesh, and stops early once
    /// both budgets are spent. Returns the picked chunks in order; the
    /// caller meshes them and adds them to `meshed`.
    pub fn stream<F: Fn(i32, i32, i32) -> ChunkInputs>(
        &self,
        world: &mut World,
        pcx: i32,
        pcz: i32,
        meshed: &ChunkSet,
        data_budget: usize,
        mesh_budget: usize,
        source: &F,
    ) -> (r: Vec<(i32, i32)>)
        requires
            old(world).wf(),
            source_ok(*source),
            i32::MIN + STREAM_RADIUS + 1 <= pcx <= i32::MAX - STREAM_RADIUS - 1,
            i32::MIN + STREAM_RADIUS + 1 <= pcz <= i32::MAX - STREAM_RADIUS - 1,
            forall|i: int| 0 <= i < self@.len() ==> in_square(#[trigger] self@[i].0 as int, self@[i].1 as int),
        ensures
            ({
                let (have, dl, ml, mesh, stopped) = stream_pass(
                    self@,
                    pcx as int,
                    pcz as int,
                    meshed@,
                    data_set(old(world).chunks()),
                    data_budget as int,
                    mesh_budget as int,
                    self@.len() as int,
                );
                &&& r@ == mesh
                &&& data_set(final(world).chunks()) == have
                &&& grown_by(
                    final(world).chunks(),
                    old(world).chunks(),
                    data_set(old(world).chunks()),
                    have.difference(data_set(old(world).chunks())),
                    *source,
                    old(world).seed(),
                    old(world).stages(),
                )
            }),
            final(world).wf(),
            final(world).seed() == old(world).seed(),
            final(world).stages() == old(world).stages(),
    {
        let ghost start = world.chunks();
        let ghost have0 = data_set(start);
        let mut data_left = data_budget;
        let mut mesh_left = mesh_budget;
        let mut out: Vec<(i32, i32)> = Vec::new();
        let mut i: usize = 0;
        while i < self.offsets.len()
            invariant_except_break
                ({
                    let (have, dl, ml, mesh, stopped) = stream_pass(
                        self@, pcx as int, pcz as int, meshed@, have0, data_budget as int, mesh_budget as int, i as int);
                    &&& !stopped
                    &&& dl == data_left && ml == mesh_left
                    &&& out@ == mesh
                    &&& data_set(world.chunks()) == have
                    &&& grown_by(world.chunks(), start, have0, have.difference(have0), *source, old(world).seed(), old(world).stages())
                }),
            invariant
                world.wf(),
                source_ok(*source),
                world.seed() == old(world).seed(),
                world.stages() == old(world).stages(),
                start == old(world).chunks(),
                have0 == data_set(start),
                i <= self@.len(),
                i32::MIN + STREAM_RADIUS + 1 <= pcx <= i32::MAX - STREAM_RADIUS - 1,
                i32::MIN + STREAM_RADIUS + 1 <= pcz <= i32::MAX - STREAM_RADIUS - 1,
                forall|j: int| 0 <= j < self@.len() ==> in_square(#[trigger] self@[j].0 as int, self@[j].1 as int),
            ensures
                ({
                    let (have, dl, ml, mesh, stopped) = stream_pass(
                        self@, pcx as int, pcz as int, meshed@, have0, data_budget as int, mesh_budget as int, self@.len() as int);
                    &&& out@ == mesh
                    &&& data_set(world.chunks()) == have
                    &&& grown_by(world.chunks(), start, have0, have.difference(have0), *source, old(world).seed(), old(world).stages())
                }),
            decreases self@.len() - i,
        {
            let ghost prev = stream_pass(self@, pcx as int, pcz as int, meshed@, have0, data_budget as int, mesh_budget as int, i as int);
            if data_left == 0 && mesh_left == 0 {
                proof {
                    lemma_stream_pass_stays_stopped(self@, pcx as int, pcz as int, meshed@, have0, data_budget as int, mesh_budget as int, i as int + 1);
                }
                break;
            }
            let (dx, dz, ring) = self.offsets[i];
            let cx = pcx + dx;
            let cz = pcz + dz;
            let ghost before = world.chunks();
            let loaded = match world.get_chunk(cx, cz) {
                Some(c) => c.has_data(),
                None => false,
            };
            assert(loaded == prev.0.contains((cx, cz)));
            if !loaded {
                if data_left > 0 {
                    world.ensure_data(cx, cz, source);
                    data_left = data_left - 1;
                    proof {
                        assert(data_set(world.chunks()) =~= prev.0.insert((cx, cz)));
                        let added = prev.0.insert((cx, cz)).difference(have0);
                        assert forall|p: (i32, i32)| !added.contains(p) implies #[trigger] unchanged_at(world.chunks(), start, p.0, p.1) by {
                            assert(unchanged_at(before, start, p.0, p.1));
                        }
                        assert forall|p: (i32, i32)| #[trigger] added.contains(p) implies !have0.contains(p)
                            && holds_generated(world.chunks(), *source, old(world).seed(), old(world).stages(), p.0 as int, p.1 as int) by {
                            if p != (cx, cz) {
                                assert(prev.0.difference(have0).contains(p));
                                assert(holds_generated(before, *source, old(world).seed(), old(world).stages(), p.0 as int, p.1 as int));
                            }
                        }
                    }
                }
            } else if ring <= RENDER_DIST && mesh_left > 0 && !meshed.contains(cx, cz) && neighbors_ready(world, cx, cz) {
                proof {
                    lemma_neighbors_in_data_set(world.chunks(), cx as int, cz as int);
                }
                out.push((cx, cz));
                mesh_left = mesh_left - 1;
            } else {
                proof {
                    if ring <= RENDER_DIST && mesh_left > 0 && !meshed@.contains((cx, cz)) {
                        lemma_neighbors_in_data_set(world.chunks(), cx as int, cz as int);
                    }
                }
            }
            i = i + 1;
        }
        out
    }

    /// The streaming order: `(dx, dz, ring)` per offset.
    pub fn offsets(&self) -> (r: &[(i32, i32, i32)])
        ensures
            r@ == self@,
    {
        self.offsets.as_slice()
    }
}

/// Whether chunk `(cx, cz)` and its eight neighbors all hold generated data.
pub open spec fn neighbors_have_data(chunks: ChunkMap, cx: int, cz: int) -> bool {
    forall|x: i32, z: i32| cx - 1 <= x <= cx + 1 && cz - 1 <= z <= cz + 1 ==> #[trigger] has_data_at(chunks, x as int, z as int)
}

/// Whether chunk `(cx, cz)` and its eight neighbors are all in `have`.
pub open spec fn neighbors_in(have: Set<(i32, i32)>, cx: int, cz: int) -> bool {
    forall|x: i32, z: i32| cx - 1 <= x <= cx + 1 && cz - 1 <= z <= cz + 1 ==> #[trigger] have.contains((x, z))
}

/// The chunks of `chunks` that hold generated data.
pub open spec fn data_set(chunks: ChunkMap) -> Set<(i32, i32)> {
    Set::new(|p: (i32, i32)| has_data_at(chunks, p.0 as int, p.1 as int))
}

/// Whether every chunk of a 3x3 block is loaded with data, so that a mesh
/// of its center sees real neighbors on every side.
pub fn neighbors_ready(world: &World, cx: i32, cz: i32) -> (r: bool)
    requires
        world.wf(),
        i32::MIN < cx < i32::MAX,
        i32::MIN < cz < i32::MAX,
    ensures
        r == neighbors_have_data(world.chunks(), cx as int, cz as int),
{
    let mut dx: i32 = -1;
    while dx <= 1
        invariant
            world.wf(),
            i32::MIN < cx < i32::MAX,
            i32::MIN < cz < i32::MAX,
            -1 <= dx <= 2,
            forall|x: i32, z: i32| cx - 1 <= x < cx + dx && cz - 1 <= z <= cz + 1
                ==> #[trigger] has_data_at(world.chunks(), x as int, z as int),
        decreases 2 - dx,
    {
        let mut dz: i32 = -1;
        while dz <= 1
            invariant
                world.wf(),
                i32::MIN < cx < i32::MAX,
                i32::MIN < cz < i32::MAX,
                -1 <= dx <= 1,
                -1 <= dz <= 2,
                forall|x: i32, z: i32| cx - 1 <= x < cx + dx && cz - 1 <= z <= cz + 1
                    ==> #[trigger] has_data_at(world.chunks(), x as int, z as int),
                forall|z: i32| cz - 1 <= z < cz + dz ==> #[trigger] has_data_at(world.chunks(), cx + dx, z as int),
            decreases 2 - dz,
        {
            let ready = match world.get_chunk(cx + dx, cz + dz) {
                Some(c) => c.has_data(),
                None => false,
            };
            if !ready {
                assert(!has_data_at(world.chunks(), (cx + dx) as int, (cz + dz) as int));
                return false;
            }
            dz = dz + 1;
        }
        proof {
            assert forall|x: i32, z: i32| cx - 1 <= x < cx + dx + 1 && cz - 1 <= z <= cz + 1
                implies #[trigger] has_data_at(world.chunks(), x as int, z as int) by {
                if x == cx + dx {
                    assert(has_data_at(world.chunks(), cx + dx, z as int));
                }
            }
        }
        dx = dx + 1;
    }
    true
}

/// One streaming pass over the first `n` offsets around player chunk
/// `(pcx, pcz)`, as `(have, data_left, mesh_left, mesh, stopped)`: the
/// chunks holding data, the generation and meshing budgets left, the
/// chunks picked for meshing in order, and whether the pass stopped with
/// both budgets spent. A chunk without data is generated while the data
/// budget lasts; a chunk with data is picked for meshing when it lies
/// within [`RENDER_DIST`], meshing budget is left, it is not in `meshed`,
/// and it and its eight neighbors hold data.
pub open spec fn stream_pass(
    offsets: Seq<(i32, i32, i32)>,
    pcx: int,
    pcz: int,
    meshed: Set<(i32, i32)>,
    have0: Set<(i32, i32)>,
    data_budget: int,
    mesh_budget: int,
    n: int,
) -> (Set<(i32, i32)>, int, int, Seq<(i32, i32)>, bool)
    decreases n,
{
    if n <= 0 {
        (have0, data_budget, mesh_budget, Seq::empty(), false)
    } else {
        let (have, dl, ml, mesh, stopped) = stream_pass(offsets, pcx, pcz, meshed, have0, data_budget, mesh_budget, n - 1);
        let (dx, dz, ring) = offsets[n - 1];
        let c = ((pcx + dx) as i32, (pcz + dz) as i32);
        if stopped || (dl == 0 && ml == 0) {
            (have, dl, ml, mesh, true)
        } else if !have.contains(c) {
            if dl > 0 {
                (have.insert(c), dl - 1, ml, mesh, false)
            } else {
                (have, dl, ml, mesh, false)
            }
        } else if ring <= RENDER_DIST && ml > 0 && !meshed.contains(c) && neighbors_in(have, c.0 as int, c.1 as int) {
            (have, dl, ml - 1, mesh.push(c), false)
        } else {
            (have, dl, ml, mesh, false)
        }
    }
}

/// Whether `now` differs from `start` only by chunks outside `kept` that
/// `source` generated: chunks in `kept` are as in `start`, the others
/// hold generated data.
pub open spec fn grown_by<F: Fn(i32, i32, i32) -> ChunkInputs>(
    now: ChunkMap,
    start: ChunkMap,
    kept: Set<(i32, i32)>,
    added: Set<(i32, i32)>,
    source: F,
    seed: i32,
    stages: Seq<crate::generation::Stage>,
) -> bool {
    &&& forall|p: (i32, i32)| !added.contains(p) ==> #[trigger] unchanged_at(now, start, p.0, p.1)
    &&& forall|p: (i32, i32)| #[trigger] added.contains(p) ==> !kept.contains(p)
        && holds_generated(now, source, seed, stages, p.0 as int, p.1 as int)
}

/// Chebyshev radius, around the player chunk, beyond which meshes and
/// chunk data are dropped.
pub const KEEP_RADIUS: i32 = 8;

/// Whether chunk `p` lies within [`KEEP_RADIUS`] of player chunk `(pcx, pcz)`.
pub open spec fn kept(pcx: int, pcz: int, p: (i32, i32)) -> bool {
    spec_cheb(p.0 - pcx, p.1 - pcz) <= KEEP_RADIUS
}

/// Whether chunk `(cx, cz)` lies within [`KEEP_RADIUS`] of `(pcx, pcz)`.
fn within_keep(cx: i32, cz: i32, pcx: i32, pcz: i32) -> (r: bool)
    ensures
        r == kept(pcx as int, pcz as int, (cx, cz)),
{
    let dx: i64 = cx as i64 - pcx as i64;
    let dz: i64 = cz as i64 - pcz as i64;
    let ax = if dx < 0 { -dx } else { dx };
    let az = if dz < 0 { -dz } else { dz };
    let d = if ax >= az { ax } else { az };
    d <= KEEP_RADIUS as i64
}

/// Drops what fell out of range of player chunk `(pcx, pcz)`: chunks
/// farther than [`KEEP_RADIUS`] leave `meshed` and the world. Returns the
/// chunks that left `meshed`, each once, for the renderer to drop their
/// meshes.
pub fn unload(world: &mut World, meshed: &mut ChunkSet, pcx: i32, pcz: i32) -> (r: Vec<(i32, i32)>)
    requires
        old(world).wf(),
    ensures
        final(world).wf(),
        final(world).seed() == old(world).seed(),
        final(world).stages() == old(world).stages(),
        final(world).chunks() == old(world).chunks().filter_keys(|p: (i32, i32)| kept(pcx as int, pcz as int, p)),
        final(meshed)@ == old(meshed)@.filter(|p: (i32, i32)| kept(pcx as int, pcz as int, p)),
        r@.no_duplicates(),
        forall|p: (i32, i32)| #[trigger] r@.contains(p) <==> old(meshed)@.contains(p) && !kept(pcx as int, pcz as int, p),
{
    let listed = meshed.to_vec();
    let mut dropped: Vec<(i32, i32)> = Vec::new();
    let mut i: usize = 0;
    while i < listed.len()
        invariant
            i <= listed@.len(),
            listed@.no_duplicates(),
            forall|p: (i32, i32)| #[trigger] listed@.contains(p) <==> old(meshed)@.contains(p),
            dropped@.no_duplicates(),
            forall|p: (i32, i32)| #[trigger] dropped@.contains(p) <==> listed@.take(i as int).contains(p)
                && !kept(pcx as int, pcz as int, p),
            forall|p: (i32, i32)| #[trigger] meshed@.contains(p) <==> old(meshed)@.contains(p)
                && !(listed@.take(i as int).contains(p) && !kept(pcx as int, pcz as int, p)),
        decreases listed@.len() - i,
    {
        let (cx, cz) = listed[i];
        let ghost taken = listed@.take(i as int);
        proof {
            assert(listed@.take(i as int + 1) =~= taken.push((cx, cz)));
            assert(!taken.contains((cx, cz))) by {
                if taken.contains((cx, cz)) {
                    let j = choose|j: int| 0 <= j < taken.len() && taken[j] == (cx, cz);
                    assert(listed@[j] == listed@[i as int]);
                }
            }
        }
        let ghost dropped_before = dropped@;
        let keep = within_keep(cx, cz, pcx, pcz);
        if !keep {
            meshed.remove(cx, cz);
            dropped.push((cx, cz));
            proof {
                assert(!dropped_before.contains((cx, cz)));
                assert forall|a: int, b: int| 0 <= a < dropped@.len() && 0 <= b < dropped@.len() && a != b
                    implies dropped@[a] != dropped@[b] by {
                    if a < dropped_before.len() && b < dropped_before.len() {
                        assert(dropped@[a] == dropped_before[a] && dropped@[b] == dropped_before[b]);
                    } else if a < dropped_before.len() {
                        assert(dropped_before.contains(dropped@[a]));
                    } else {
                        assert(dropped_before.contains(dropped@[b]));
                    }
                }
            }
        }
        proof {
            assert forall|p: (i32, i32)| #[trigger] dropped@.contains(p) <==> listed@.take(i as int + 1).contains(p)
                && !kept(pcx as int, pcz as int, p) by {
                if p != (cx, cz) {
                    if dropped@.contains(p) {
                        let k = choose|k: int| 0 <= k < dropped@.len() && dropped@[k] == p;
                        assert(k < dropped_before.len() && dropped_before[k] == p);
                    }
                    if dropped_before.contains(p) {
                        let k = choose|k: int| 0 <= k < dropped_before.len() && dropped_before[k] == p;
                        assert(dropped@[k] == p);
                    }
                    assert(listed@.take(i as int + 1).contains(p) <==> taken.contains(p));
                } else {
                    assert(listed@.take(i as int + 1)[i as int] == p);
                    if !keep {
                        assert(dropped@[dropped@.len() - 1] == p);
                    }
                }
            }
            assert forall|p: (i32, i32)| #[trigger] meshed@.contains(p) <==> old(meshed)@.contains(p)
                && !(listed@.take(i as int + 1).contains(p) && !kept(pcx as int, pcz as int, p)) by {
                if p != (cx, cz) {
                    assert(listed@.take(i as int + 1).contains(p) <==> taken.contains(p));
                } else {
                    assert(listed@.take(i as int + 1)[i as int] == p);
                }
            }
        }
        i = i + 1;
    }
    proof {
        assert(listed@.take(listed@.len() as int) =~= listed@);
        assert(meshed@ =~= old(meshed)@.filter(|p: (i32, i32)| kept(pcx as int, pcz as int, p)));
    }
    let loaded = world.loaded_chunks();
    let ghost start = world.chunks();
    let mut j: usize = 0;
    while j < loaded.len()
        invariant
            world.wf(),
            world.seed() == old(world).seed(),
            world.stages() == old(world).stages(),
            start == old(world).chunks(),
            j <= loaded@.len(),
            forall|p: (i32, i32)| #[trigger] loaded@.contains(p) <==> start.contains_key(p),
            world.chunks() == start.remove_keys(
                loaded@.take(j as int).to_set().filter(|p: (i32, i32)| !kept(pcx as int, pcz as int, p)),
            ),
        decreases loaded@.len() - j,
    {
        let (cx, cz) = loaded[j];
        let ghost before = world.chunks();
        proof {
            assert(loaded@.take(j as int + 1) =~= loaded@.take(j as int).push((cx, cz)));
            assert forall|p: (i32, i32)| #[trigger] loaded@.take(j as int + 1).to_set().contains(p)
                == loaded@.take(j as int).to_set().insert((cx, cz)).contains(p) by {
                if p != (cx, cz) {
                    assert(loaded@.take(j as int + 1).contains(p) == loaded@.take(j as int).contains(p));
                } else {
                    assert(loaded@.take(j as int + 1)[j as int] == p);
                }
            }
            assert(loaded@.take(j as int + 1).to_set() =~= loaded@.take(j as int).to_set().insert((cx, cz)));
        }
        if !within_keep(cx, cz, pcx, pcz) {
            world.remove_chunk(cx, cz);
            proof {
                assert(world.chunks() =~= start.remove_keys(
                    loaded@.take(j as int + 1).to_set().filter(|p: (i32, i32)| !kept(pcx as int, pcz as int, p)),
                ));
            }
        } else {
            proof {
                assert(world.chunks() =~= start.remove_keys(
                    loaded@.take(j as int + 1).to_set().filter(|p: (i32, i32)| !kept(pcx as int, pcz as int, p)),
                ));
            }
        }
        j = j + 1;
    }
    proof {
        assert(loaded@.take(loaded@.len() as int) =~= loaded@);
        assert(world.chunks() =~= start.filter_keys(|p: (i32, i32)| kept(pcx as int, pcz as int, p)));
    }
    dropped
}

/// The chunk offset `k` of `offsets` names around player chunk `(pcx, pcz)`.
pub open spec fn offset_chunk(offsets: Seq<(i32, i32, i32)>, pcx: int, pcz: int, k: int) -> (i32, i32) {
    ((pcx + offsets[k].0) as i32, (pcz + offsets[k].1) as i32)
}

/// A streaming pass keeps to its budgets: it generates exactly
/// `data_budget - data_left` missing chunks and picks exactly
/// `mesh_budget - mesh_left` chunks, each one once, each holding data and
/// not yet meshed; chunks that had data keep it.
pub proof fn law_stream_respects_budgets(
    offsets: Seq<(i32, i32, i32)>,
    pcx: int,
    pcz: int,
    meshed: Set<(i32, i32)>,
    have0: Set<(i32, i32)>,
    data_budget: int,
    mesh_budget: int,
    n: int,
)
    requires
        0 <= data_budget,
        0 <= mesh_budget,
        0 <= n <= offsets.len(),
        i32::MIN + STREAM_RADIUS <= pcx <= i32::MAX - STREAM_RADIUS,
        i32::MIN + STREAM_RADIUS <= pcz <= i32::MAX - STREAM_RADIUS,
        forall|i: int| 0 <= i < offsets.len() ==> in_square(#[trigger] offsets[i].0 as int, offsets[i].1 as int),
        forall|i: int, j: int| 0 <= i < j < offsets.len() ==> (#[trigger] offsets[i]).0 != (#[trigger] offsets[j]).0
            || offsets[i].1 != offsets[j].1,
    ensures
        ({
            let (have, dl, ml, mesh, stopped) = stream_pass(offsets, pcx, pcz, meshed, have0, data_budget, mesh_budget, n);
            &&& 0 <= dl <= data_budget
            &&& 0 <= ml <= mesh_budget
            &&& have0.subset_of(have)
            &&& have.difference(have0).finite()
            &&& have.difference(have0).len() == data_budget - dl
            &&& mesh.len() == mesh_budget - ml
            &&& mesh.no_duplicates()
            &&& forall|i: int| 0 <= i < mesh.len() ==> !meshed.contains(#[trigger] mesh[i]) && have.contains(mesh[i])
                && exists|k: int| 0 <= k < n && mesh[i] == offset_chunk(offsets, pcx, pcz, k)
        }),
    decreases n,
{
    if n == 0 {
        assert(have0.difference(have0) =~= Set::empty());
    } else {
        law_stream_respects_budgets(offsets, pcx, pcz, meshed, have0, data_budget, mesh_budget, n - 1);
        let (have, dl, ml, mesh, stopped) = stream_pass(offsets, pcx, pcz, meshed, have0, data_budget, mesh_budget, n - 1);
        let c = offset_chunk(offsets, pcx, pcz, n - 1);
        let r = stream_pass(offsets, pcx, pcz, meshed, have0, data_budget, mesh_budget, n);
        if !(stopped || (dl == 0 && ml == 0)) && !have.contains(c) && dl > 0 {
            assert(have.insert(c).difference(have0) =~= have.difference(have0).insert(c));
            assert forall|i: int| 0 <= i < r.3.len() implies !meshed.contains(#[trigger] r.3[i]) && r.0.contains(r.3[i])
                && exists|k: int| 0 <= k < n && r.3[i] == offset_chunk(offsets, pcx, pcz, k) by {
                let k = choose|k: int| 0 <= k < n - 1 && mesh[i] == offset_chunk(offsets, pcx, pcz, k);
            }
        } else if r.3.len() > mesh.len() {
            assert(r.3 == mesh.push(c));
            assert(!mesh.contains(c)) by {
                if mesh.contains(c) {
                    let i = choose|i: int| 0 <= i < mesh.len() && mesh[i] == c;
                    let k = choose|k: int| 0 <= k < n - 1 && mesh[i] == offset_chunk(offsets, pcx, pcz, k);
                    assert(offsets[k].0 != offsets[n - 1].0 || offsets[k].1 != offsets[n - 1].1);
                }
            }
            assert forall|a: int, b: int| 0 <= a < r.3.len() && 0 <= b < r.3.len() && a != b implies r.3[a] != r.3[b] by {
                if a < mesh.len() && b < mesh.len() {
                } else if a < mesh.len() {
                    assert(mesh.contains(r.3[a]));
                } else {
                    assert(mesh.contains(r.3[b]));
                }
            }
            assert forall|i: int| 0 <= i < r.3.len() implies !meshed.contains(#[trigger] r.3[i]) && r.0.contains(r.3[i])
                && exists|k: int| 0 <= k < n && r.3[i] == offset_chunk(offsets, pcx, pcz, k) by {
                if i < mesh.len() {
                    let k = choose|k: int| 0 <= k < n - 1 && mesh[i] == offset_chunk(offsets, pcx, pcz, k);
                } else {
                    assert(r.3[i] == offset_chunk(offsets, pcx, pcz, n - 1));
                }
            }
        } else {
            assert forall|i: int| 0 <= i < r.3.len() implies !meshed.contains(#[trigger] r.3[i]) && r.0.contains(r.3[i])
                && exists|k: int| 0 <= k < n && r.3[i] == offset_chunk(offsets, pcx, pcz, k) by {
                let k = choose|k: int| 0 <= k < n - 1 && mesh[i] == offset_chunk(offsets, pcx, pcz, k);
            }
        }
    }
}

/// Whether `offsets` is a streaming order for the square: each offset
/// lies in the square and carries its Chebyshev ring, and every offset of
/// the square is listed, as [`Streamer::new`] ensures.
pub open spec fn covers_square(offsets: Seq<(i32, i32, i32)>) -> bool {
    &&& forall|i: int| 0 <= i < offsets.len() ==> in_square(#[trigger] offsets[i].0 as int, offsets[i].1 as int)
        && offsets[i].2 == spec_cheb(offsets[i].0 as int, offsets[i].1 as int)
    &&& forall|dx: i32, dz: i32| in_square(dx as int, dz as int) ==> #[trigger] offsets.contains(
        (dx, dz, spec_cheb(dx as int, dz as int) as i32),
    )
}

/// Whether every chunk within [`STREAM_RADIUS`] of `(pcx, pcz)` is in `have`.
pub open spec fn square_loaded(have: Set<(i32, i32)>, pcx: int, pcz: int) -> bool {
    forall|x: i32, z: i32| pcx - STREAM_RADIUS <= x <= pcx + STREAM_RADIUS && pcz - STREAM_RADIUS <= z <= pcz
        + STREAM_RADIUS ==> #[trigger] have.contains((x, z))
}

proof fn lemma_view_pass(
    offsets: Seq<(i32, i32, i32)>,
    pcx: int,
    pcz: int,
    meshed: Set<(i32, i32)>,
    have0: Set<(i32, i32)>,
    data_budget: int,
    mesh_budget: int,
    n: int,
)
    requires
        i32::MIN + STREAM_RADIUS + 1 <= pcx <= i32::MAX - STREAM_RADIUS - 1,
        i32::MIN + STREAM_RADIUS + 1 <= pcz <= i32::MAX - STREAM_RADIUS - 1,
        covers_square(offsets),
        square_loaded(have0, pcx, pcz),
        offsets.len() <= mesh_budget,
        0 <= n <= offsets.len(),
    ensures
        ({
            let r = stream_pass(offsets, pcx, pcz, meshed, have0, data_budget, mesh_budget, n);
            &&& !r.4
            &&& r.0 == have0
            &&& r.1 == data_budget
            &&& r.2 == mesh_budget - r.3.len()
            &&& r.3.len() <= n
            &&& forall|k: int| 0 <= k < n && offsets[k].2 <= RENDER_DIST ==> meshed.contains(
                #[trigger] offset_chunk(offsets, pcx, pcz, k),
            ) || r.3.contains(offset_chunk(offsets, pcx, pcz, k))
        }),
    decreases n,
{
    if n > 0 {
        lemma_view_pass(offsets, pcx, pcz, meshed, have0, data_budget, mesh_budget, n - 1);
        let prev = stream_pass(offsets, pcx, pcz, meshed, have0, data_budget, mesh_budget, n - 1);
        let r = stream_pass(offsets, pcx, pcz, meshed, have0, data_budget, mesh_budget, n);
        let (dx, dz, ring) = offsets[n - 1];
        let c = offset_chunk(offsets, pcx, pcz, n - 1);
        assert(in_square(dx as int, dz as int));
        assert(have0.contains(c));
        if ring <= RENDER_DIST {
            assert(neighbors_in(have0, c.0 as int, c.1 as int)) by {
                assert forall|x: i32, z: i32| c.0 - 1 <= x <= c.0 + 1 && c.1 - 1 <= z <= c.1 + 1
                    implies #[trigger] have0.contains((x, z)) by {
                }
            }
        }
        assert forall|k: int| 0 <= k < n && offsets[k].2 <= RENDER_DIST implies meshed.contains(
            #[trigger] offset_chunk(offsets, pcx, pcz, k),
        ) || r.3.contains(offset_chunk(offsets, pcx, pcz, k)) by {
            if k < n - 1 {
                if prev.3.contains(offset_chunk(offsets, pcx, pcz, k)) {
                    let i = choose|i: int| 0 <= i < prev.3.len() && prev.3[i] == offset_chunk(offsets, pcx, pcz, k);
                    assert(r.3[i] == prev.3[i]);
                }
            } else if !meshed.contains(c) {
                assert(r.3[r.3.len() - 1] == c);
            }
        }
    }
}

/// With every chunk within [`STREAM_RADIUS`] of the player holding data
/// and a meshing budget that covers every offset, one pass picks every
/// chunk within [`RENDER_DIST`] of the player that is not meshed yet.
pub proof fn law_stream_meshes_the_whole_view(
    offsets: Seq<(i32, i32, i32)>,
    pcx: int,
    pcz: int,
    meshed: Set<(i32, i32)>,
    have0: Set<(i32, i32)>,
    data_budget: int,
    mesh_budget: int,
)
    requires
        i32::MIN + STREAM_RADIUS + 1 <= pcx <= i32::MAX - STREAM_RADIUS - 1,
        i32::MIN + STREAM_RADIUS + 1 <= pcz <= i32::MAX - STREAM_RADIUS - 1,
        covers_square(offsets),
        square_loaded(have0, pcx, pcz),
        offsets.len() <= mesh_budget,
    ensures
        forall|dx: i32, dz: i32| #[trigger] spec_cheb(dx as int, dz as int) <= RENDER_DIST ==> {
            let c = ((pcx + dx) as i32, (pcz + dz) as i32);
            meshed.contains(c) || stream_pass(
                offsets,
                pcx,
                pcz,
                meshed,
                have0,
                data_budget,
                mesh_budget,
                offsets.len() as int,
            ).3.contains(c)
        },
{
    lemma_view_pass(offsets, pcx, pcz, meshed, have0, data_budget, mesh_budget, offsets.len() as int);
    assert forall|dx: i32, dz: i32| #[trigger] spec_cheb(dx as int, dz as int) <= RENDER_DIST implies {
        let c = ((pcx + dx) as i32, (pcz + dz) as i32);
        meshed.contains(c) || stream_pass(offsets, pcx, pcz, meshed, have0, data_budget, mesh_budget, offsets.len() as int).3.contains(c)
    } by {
        assert(in_square(dx as int, dz as int));
        assert(offsets.contains((dx, dz, spec_cheb(dx as int, dz as int) as i32)));
        let k = choose|k: int| 0 <= k < offsets.len() && offsets[k] == (dx, dz, spec_cheb(dx as int, dz as int) as i32);
        assert(offset_chunk(offsets, pcx, pcz, k) == ((pcx + dx) as i32, (pcz + dz) as i32));
    }
}

/// Once a pass has stopped, it stays stopped with nothing changed.
proof fn lemma_stream_pass_stays_stopped(
    offsets: Seq<(i32, i32, i32)>,
    pcx: int,
    pcz: int,
    meshed: Set<(i32, i32)>,
    have0: Set<(i32, i32)>,
    data_budget: int,
    mesh_budget: int,
    n: int,
)
    requires
        0 < n,
        ({
            let p = stream_pass(offsets, pcx, pcz, meshed, have0, data_budget, mesh_budget, n - 1);
            p.4 || (p.1 == 0 && p.2 == 0)
        }),
    ensures
        forall|m: int| #![trigger stream_pass(offsets, pcx, pcz, meshed, have0, data_budget, mesh_budget, m)]
            n <= m ==> {
            let p = stream_pass(offsets, pcx, pcz, meshed, have0, data_budget, mesh_budget, n - 1);
            let q = stream_pass(offsets, pcx, pcz, meshed, have0, data_budget, mesh_budget, m);
            &&& q.0 == p.0 && q.1 == p.1 && q.2 == p.2 && q.3 == p.3 && q.4
        },
{
    assert forall|m: int| n <= m implies {
        let p = stream_pass(offsets, pcx, pcz, meshed, have0, data_budget, mesh_budget, n - 1);
        let q = #[trigger] stream_pass(offsets, pcx, pcz, meshed, have0, data_budget, mesh_budget, m);
        &&& q.0 == p.0 && q.1 == p.1 && q.2 == p.2 && q.3 == p.3 && q.4
    } by {
        lemma_stream_pass_stopped_at(offsets, pcx, pcz, meshed, have0, data_budget, mesh_budget, n, m);
    }
}

proof fn lemma_stream_pass_stopped_at(
    offsets: Seq<(i32, i32, i32)>,
    pcx: int,
    pcz: int,
    meshed: Set<(i32, i32)>,
    have0: Set<(i32, i32)>,
    data_budget: int,
    mesh_budget: int,
    n: int,
    m: int,
)
    requires
        0 < n <= m,
        ({
            let p = stream_pass(offsets, pcx, pcz, meshed, have0, data_budget, mesh_budget, n - 1);
            p.4 || (p.1 == 0 && p.2 == 0)
        }),
    ensures
        ({
            let p = stream_pass(offsets, pcx, pcz, meshed, have0, data_budget, mesh_budget, n - 1);
            let q = stream_pass(offsets, pcx, pcz, meshed, have0, data_budget, mesh_budget, m);
            &&& q.0 == p.0 && q.1 == p.1 && q.2 == p.2 && q.3 == p.3 && q.4
        }),
    decreases m - n,
{
    if m > n {
        lemma_stream_pass_stopped_at(offsets, pcx, pcz, meshed, have0, data_budget, mesh_budget, n, m - 1);
    }
}

/// The neighbors of a chunk hold data exactly when they are in the data set.
proof fn lemma_neighbors_in_data_set(chunks: ChunkMap, cx: int, cz: int)
    ensures
        neighbors_have_data(chunks, cx, cz) == neighbors_in(data_set(chunks), cx, cz),
{
    if neighbors_in(data_set(chunks), cx, cz) {
        assert forall|x: i32, z: i32| cx - 1 <= x <= cx + 1 && cz - 1 <= z <= cz + 1
            implies #[trigger] has_data_at(chunks, x as int, z as int) by {
            assert(data_set(chunks).contains((x, z)));
        }
    }
    if neighbors_have_data(chunks, cx, cz) {
        assert forall|x: i32, z: i32| cx - 1 <= x <= cx + 1 && cz - 1 <= z <= cz + 1
            implies #[trigger] data_set(chunks).contains((x, z)) by {
            assert(has_data_at(chunks, x as int, z as int));
        }
    }
}

/// A set of chunk coordinates, such as the chunks whose meshes are uploaded.
pub struct ChunkSet {
    keys: HashSet<u64>,
}

impl View for ChunkSet {
    type V = Set<(i32, i32)>;

    closed spec fn view(&self) -> Set<(i32, i32)> {
        Set::new(|p: (i32, i32)| self.keys@.contains(chunk_key(p.0 as int, p.1 as int)))
    }
}

/// Every 64-bit key stands for exactly one chunk.
proof fn lemma_key_of_coords(k: u64)
    ensures
        chunk_key(key_coords(k).0 as int, key_coords(k).1 as int) == k,
{
    let hi = k / 0x1_0000_0000;
    let lo = k % 0x1_0000_0000;
    assert(hi < 0x1_0000_0000 && k == hi * 0x1_0000_0000 + lo) by (nonlinear_arith)
        requires hi == k / 0x1_0000_0000, lo == k % 0x1_0000_0000, k < 0x1_0000_0000_0000_0000;
}

impl ChunkSet {
    /// An empty set.
    pub fn new() -> (r: Self)
        ensures
            r@ == Set::<(i32, i32)>::empty(),
    {
        let r = ChunkSet { keys: HashSet::new() };
        assert(r@ =~= Set::<(i32, i32)>::empty());
        r
    }

    /// Whether chunk `(cx, cz)` is in the set.
    pub fn contains(&self, cx: i32, cz: i32) -> (r: bool)
        ensures
            r == self@.contains((cx, cz)),
    {
        let k = key(cx, cz);
        self.keys.contains(&k)
    }

    /// Adds chunk `(cx, cz)`.
    pub fn insert(&mut self, cx: i32, cz: i32)
        ensures
            final(self)@ == old(self)@.insert((cx, cz)),
    {
        let k = key(cx, cz);
        self.keys.insert(k);
        proof {
            assert forall|p: (i32, i32)| #[trigger] self@.contains(p) == old(self)@.insert((cx, cz)).contains(p) by {
                if chunk_key(p.0 as int, p.1 as int) == k {
                    lemma_chunk_key_injective(p.0, p.1, cx, cz);
                }
            }
            assert(self@ =~= old(self)@.insert((cx, cz)));
        }
    }

    /// Drops chunk `(cx, cz)`.
    pub fn remove(&mut self, cx: i32, cz: i32)
        ensures
            final(self)@ == old(self)@.remove((cx, cz)),
    {
        let k = key(cx, cz);
        self.keys.remove(&k);
        proof {
            assert forall|p: (i32, i32)| #[trigger] self@.contains(p) == old(self)@.remove((cx, cz)).contains(p) by {
                if chunk_key(p.0 as int, p.1 as int) == k {
                    lemma_chunk_key_injective(p.0, p.1, cx, cz);
                }
            }
            assert(self@ =~= old(self)@.remove((cx, cz)));
        }
    }

    /// Number of chunks in the set.
    pub fn len(&self) -> (r: usize)
        ensures
            r == self@.len(),
    {
        proof {
            let keys = vstd::std_specs::hash::spec_hash_keys_iter(&self.keys).remaining();
            assert(keys.unref().to_set() == self.keys@);
            vstd::seq_lib::seq_to_set_is_finite(keys.unref());
            let f = |k: u64| key_coords(k);
            assert forall|a: u64, b: u64| self.keys@.contains(a) && self.keys@.contains(b) && #[trigger] f(a) == #[trigger] f(b)
                implies a == b by {
                lemma_key_of_coords(a);
                lemma_key_of_coords(b);
            }
            assert forall|p: (i32, i32)| #[trigger] self.keys@.map(f).contains(p) == self@.contains(p) by {
                if self@.contains(p) {
                    lemma_key_coords(p.0, p.1);
                    assert(f(chunk_key(p.0 as int, p.1 as int)) == p);
                }
                if self.keys@.map(f).contains(p) {
                    let k = choose|k: u64| self.keys@.contains(k) && p == f(k);
                    lemma_key_of_coords(k);
                }
            }
            assert(self.keys@.map(f) =~= self@);
            vstd::set_lib::lemma_map_size(self.keys@, self@, f);
        }
        self.keys.len()
    }

    /// The chunks of the set, each once, in no particular order.
    pub fn to_vec(&self) -> (r: Vec<(i32, i32)>)
        ensures
            r@.no_duplicates(),
            forall|p: (i32, i32)| #[trigger] r@.contains(p) <==> self@.contains(p),
            r@.len() == self@.len(),
            self@.finite(),
    {
        let mut out: Vec<(i32, i32)> = Vec::new();
        let ghost keys = vstd::std_specs::hash::spec_hash_keys_iter(&self.keys).remaining();
        proof {
            assert(keys.unref().to_set() == self.keys@);
            assert forall|i: int| 0 <= i < keys.len() implies self.keys@.contains(*#[trigger] keys[i]) by {
                assert(keys.unref()[i] == *keys[i]);
                assert(keys.unref().to_set().contains(keys.unref()[i]));
            }
        }
        for k in it: self.keys.iter()
            invariant
                it.seq() == keys,
                keys.unref().to_set() == self.keys@,
                keys.no_duplicates(),
                out@ == it.seq().take(it.index()).map_values(|k: &u64| key_coords(*k)),
        {
            proof {
                lemma_key_of_coords(*k);
                lemma_key_coords(key_coords(*k).0, key_coords(*k).1);
            }
            let p = coords_of_key(*k);
            out.push(p);
        }
        proof {
            assert(out@ == keys.map_values(|k: &u64| key_coords(*k)));
            assert forall|p: (i32, i32)| #[trigger] out@.contains(p) implies self@.contains(p) by {
                let i = choose|i: int| 0 <= i < out@.len() && out@[i] == p;
                let kk = *keys[i];
                assert(keys.unref()[i] == kk);
                assert(keys.unref().to_set().contains(kk));
                lemma_key_of_coords(kk);
            }
            assert forall|p: (i32, i32)| self@.contains(p) implies #[trigger] out@.contains(p) by {
                let kk = chunk_key(p.0 as int, p.1 as int);
                assert(keys.unref().to_set().contains(kk));
                let i = choose|i: int| 0 <= i < keys.unref().len() && keys.unref()[i] == kk;
                assert(*keys[i] == kk);
                lemma_key_coords(p.0, p.1);
                assert(out@[i] == p);
            }
            assert forall|i: int, j: int| 0 <= i < out@.len() && 0 <= j < out@.len() && i != j implies out@[i] != out@[j] by {
                let ki = *keys[i];
                let kj = *keys[j];
                lemma_key_of_coords(ki);
                lemma_key_of_coords(kj);
                assert(keys.unref()[i] == ki && keys.unref()[j] == kj);
                if ki == kj {
                    assert(keys[i] == keys[j]);
                }
            }
            assert(out@.to_set() =~= self@);
            out@.unique_seq_to_set();
        }
        out
    }
}

} // verus!
