//! Chunked world storage: load/generate, edit, and block queries.
//!
//! Unloaded chunks read as air for rendering but act solid for physics,
//! so entities cannot fall through not-yet-generated ground.

use std::collections::HashMap;
use vstd::std_specs::iter::IteratorSpec;
use vstd::prelude::*;
use crate::blocks::{AIR, BlockId, WATER, is_registered, is_solid, spec_def};
use crate::generation::{
    CHUNK_AXIS, ChunkData, ChunkInputs, Stage, cell, generate, pipeline, spec_generate, spec_pipeline, with_cell,
};

verus! {

broadcast use vstd::std_specs::hash::group_hash_axioms;

/// World vertical extent in blocks.
pub const HEIGHT: i32 = 64;

/// The chunk coordinate of world coordinate `v` (floor division by 16).
pub open spec fn chunk_of(v: int) -> int {
    v / 16
}

/// The chunk-local coordinate of world coordinate `v` (in `0..16`).
pub open spec fn local_of(v: int) -> int {
    v % 16
}

/// Key of chunk `(cx, cz)` in the chunk table: both coordinates offset
/// into the unsigned range and packed into one 64-bit number.
pub open spec fn chunk_key(cx: int, cz: int) -> u64 {
    ((cx + 0x8000_0000) * 0x1_0000_0000 + (cz + 0x8000_0000)) as u64
}

pub(crate) proof fn lemma_chunk_key_injective(ax: i32, az: i32, bx: i32, bz: i32)
    requires
        chunk_key(ax as int, az as int) == chunk_key(bx as int, bz as int),
    ensures
        ax == bx && az == bz,
{
    let a1 = ax as int + 0x8000_0000;
    let a2 = az as int + 0x8000_0000;
    let b1 = bx as int + 0x8000_0000;
    let b2 = bz as int + 0x8000_0000;
    assert(0 <= a1 * 0x1_0000_0000 + a2 < 0x1_0000_0000_0000_0000) by (nonlinear_arith)
        requires 0 <= a1 < 0x1_0000_0000, 0 <= a2 < 0x1_0000_0000;
    assert(0 <= b1 * 0x1_0000_0000 + b2 < 0x1_0000_0000_0000_0000) by (nonlinear_arith)
        requires 0 <= b1 < 0x1_0000_0000, 0 <= b2 < 0x1_0000_0000;
    assert(a1 * 0x1_0000_0000 + a2 == b1 * 0x1_0000_0000 + b2);
    assert(a1 == b1 && a2 == b2) by (nonlinear_arith)
        requires
            a1 * 0x1_0000_0000 + a2 == b1 * 0x1_0000_0000 + b2,
            0 <= a2 < 0x1_0000_0000,
            0 <= b2 < 0x1_0000_0000;
}

proof fn lemma_row_major_unique(a: int, b: int, c: int, d: int, s: int)
    requires
        0 <= b < s,
        0 <= d < s,
        a * s + b == c * s + d,
    ensures
        a == c && b == d,
{
    assert((a - c) * s == d - b) by (nonlinear_arith)
        requires a * s + b == c * s + d;
    if a - c >= 1 {
        assert((a - c) * s >= s) by (nonlinear_arith)
            requires a - c >= 1, s > 0;
    } else if a - c <= -1 {
        assert((a - c) * s <= -s) by (nonlinear_arith)
            requires a - c <= -1, s > 0;
    }
}

/// The chunk coordinates a table key stands for.
pub open spec fn key_coords(k: u64) -> (i32, i32) {
    ((k / 0x1_0000_0000 - 0x8000_0000) as i32, (k % 0x1_0000_0000 - 0x8000_0000) as i32)
}

pub(crate) proof fn lemma_key_coords(cx: i32, cz: i32)
    ensures
        key_coords(chunk_key(cx as int, cz as int)) == (cx, cz),
{
    let a1 = cx as int + 0x8000_0000;
    let a2 = cz as int + 0x8000_0000;
    assert(0 <= a1 * 0x1_0000_0000 + a2 < 0x1_0000_0000_0000_0000) by (nonlinear_arith)
        requires 0 <= a1 < 0x1_0000_0000, 0 <= a2 < 0x1_0000_0000;
    let k = a1 * 0x1_0000_0000 + a2;
    assert(k / 0x1_0000_0000 == a1 && k % 0x1_0000_0000 == a2) by (nonlinear_arith)
        requires k == a1 * 0x1_0000_0000 + a2, 0 <= a2 < 0x1_0000_0000, 0 <= a1;
}

pub(crate) fn coords_of_key(k: u64) -> (r: (i32, i32))
    requires
        exists|cx: i32, cz: i32| chunk_key(cx as int, cz as int) == k,
    ensures
        r == key_coords(k),
{
    let hi = (k / 0x1_0000_0000) as i64 - 0x8000_0000;
    let lo = (k % 0x1_0000_0000) as i64 - 0x8000_0000;
    proof {
        let (cx, cz) = choose|cx: i32, cz: i32| chunk_key(cx as int, cz as int) == k;
        lemma_key_coords(cx, cz);
    }
    (hi as i32, lo as i32)
}

pub(crate) fn key(cx: i32, cz: i32) -> (k: u64)
    ensures
        k == chunk_key(cx as int, cz as int),
{
    let hi = (cx as i64 + 0x8000_0000) as u64;
    let lo = (cz as i64 + 0x8000_0000) as u64;
    assert(hi * 0x1_0000_0000 + lo < 0x1_0000_0000_0000_0000) by (nonlinear_arith)
        requires hi < 0x1_0000_0000, lo < 0x1_0000_0000;
    hi * 0x1_0000_0000 + lo
}

/// Splits a world coordinate into its chunk and chunk-local parts.
fn split(v: i32) -> (r: (i32, i32))
    ensures
        r.0 == chunk_of(v as int),
        r.1 == local_of(v as int),
        0 <= r.1 < 16,
        -0x800_0000 <= r.0 < 0x800_0000,
{
    let shifted: i64 = v as i64 + 0x8000_0000;
    assert(shifted / 16 - 0x800_0000 == (v as int) / 16 && shifted % 16 == (v as int) % 16) by (nonlinear_arith)
        requires shifted == v + 0x8000_0000;
    ((shifted / 16 - 0x800_0000) as i32, (shifted % 16) as i32)
}

/// One loaded 16x64x16 chunk plus its optional generated data.
pub struct Chunk {
    /// Chunk X coordinate in chunk space.
    pub cx: i32,
    /// Chunk Z coordinate in chunk space.
    pub cz: i32,
    data: Option<ChunkData>,
}

impl Chunk {
    /// The chunk's X coordinate.
    pub closed spec fn chunk_x(&self) -> i32 {
        self.cx
    }

    /// The chunk's Z coordinate.
    pub closed spec fn chunk_z(&self) -> i32 {
        self.cz
    }

    /// The chunk's blocks, if generated.
    pub closed spec fn data_view(&self) -> Option<Seq<BlockId>> {
        match self.data {
            Some(d) => Some(d@),
            None => None,
        }
    }

    /// Generated data, when present, is a well-formed volume.
    pub closed spec fn wf(&self) -> bool {
        match self.data {
            Some(d) => d.wf(),
            None => true,
        }
    }

    /// Creates an empty chunk shell without generated data.
    pub fn new(cx: i32, cz: i32) -> (r: Self)
        ensures
            r.chunk_x() == cx,
            r.chunk_z() == cz,
            r.data_view() is None,
            r.wf(),
    {
        Chunk { cx, cz, data: None }
    }

    /// Whether terrain data has been generated for this chunk.
    pub fn has_data(&self) -> (r: bool)
        ensures
            r == self.data_view() is Some,
    {
        self.data.is_some()
    }

    /// The generated block data, if any.
    pub fn data(&self) -> (r: Option<&ChunkData>)
        ensures
            match r {
                Some(d) => self.data_view() == Some(d@) && (self.wf() ==> d.wf()),
                None => self.data_view() is None,
            },
    {
        match &self.data {
            Some(d) => Some(d),
            None => None,
        }
    }
}

/// The loaded chunks of a world: each loaded chunk's coordinates mapped
/// to its blocks, if generated.
pub type ChunkMap = Map<(i32, i32), Option<Seq<BlockId>>>;

/// The blocks of chunk `(cx, cz)`, when it is loaded and generated.
pub open spec fn chunk_blocks(chunks: ChunkMap, cx: int, cz: int) -> Option<Seq<BlockId>> {
    if chunks.contains_key((cx as i32, cz as i32)) {
        chunks[(cx as i32, cz as i32)]
    } else {
        None
    }
}

/// Whether coordinates fit the range of chunk coordinates.
pub open spec fn chunk_coord_range(c: int) -> bool {
    i32::MIN <= c <= i32::MAX
}

/// The block at world coordinates: air outside the height range and in
/// chunks that are not loaded or not generated.
pub open spec fn block_at(chunks: ChunkMap, x: int, y: int, z: int) -> BlockId {
    if !(0 <= y < HEIGHT) {
        AIR
    } else {
        match chunk_blocks(chunks, chunk_of(x), chunk_of(z)) {
            Some(d) => cell(d, local_of(x), y, local_of(z)),
            None => AIR,
        }
    }
}

/// Whether physics treats world coordinates as blocked: never outside the
/// height range, always in chunks without data, else by the block.
pub open spec fn solid_at(chunks: ChunkMap, x: int, y: int, z: int) -> bool {
    if !(0 <= y < HEIGHT) {
        false
    } else {
        match chunk_blocks(chunks, chunk_of(x), chunk_of(z)) {
            Some(d) => spec_def(cell(d, local_of(x), y, local_of(z))).solid,
            None => true,
        }
    }
}

/// Whether chunk `(cx, cz)` is loaded with generated data.
pub open spec fn has_data_at(chunks: ChunkMap, cx: int, cz: int) -> bool {
    chunk_blocks(chunks, cx, cz) is Some
}

/// Whether `source` can be asked for the generation inputs of any chunk
/// and always answers with well-formed inputs.
pub open spec fn source_ok<F: Fn(i32, i32, i32) -> ChunkInputs>(source: F) -> bool {
    &&& forall|seed: i32, cx: i32, cz: i32| #[trigger] source.requires((seed, cx, cz))
    &&& forall|seed: i32, cx: i32, cz: i32, r: ChunkInputs| #[trigger] source.ensures((seed, cx, cz), r) ==> r.wf()
}

/// Whether `d` is what `stages` generate for chunk `(cx, cz)` of a world
/// seeded with `seed`, from inputs that `source` can answer with.
pub open spec fn generated_by<F: Fn(i32, i32, i32) -> ChunkInputs>(
    source: F,
    seed: i32,
    stages: Seq<Stage>,
    cx: int,
    cz: int,
    d: Seq<BlockId>,
) -> bool {
    exists|inputs: ChunkInputs|
        #[trigger] source.ensures((seed, cx as i32, cz as i32), inputs) && d == spec_generate(inputs, stages)
}

/// Whether chunk `(cx, cz)` of `chunks` is loaded with data that
/// `source` and `stages` generate for a world seeded with `seed`.
pub open spec fn holds_generated<F: Fn(i32, i32, i32) -> ChunkInputs>(
    chunks: ChunkMap,
    source: F,
    seed: i32,
    stages: Seq<Stage>,
    cx: int,
    cz: int,
) -> bool {
    &&& chunks.contains_key((cx as i32, cz as i32))
    &&& chunks[(cx as i32, cz as i32)] is Some
    &&& generated_by(source, seed, stages, cx, cz, chunks[(cx as i32, cz as i32)]->0)
}

/// The chunks whose meshes an edit at chunk `(cx, cz)`, local `(lx, lz)`
/// may change, in reporting order: the edited chunk, then its neighbors
/// across the edges and corners the edit touches.
pub open spec fn affected_chunks(cx: int, cz: int, lx: int, lz: int) -> Seq<(i32, i32)> {
    let s0 = seq![(cx as i32, cz as i32)];
    let s1 = if lx == 0 { s0.push(((cx - 1) as i32, cz as i32)) } else { s0 };
    let s2 = if lx == 15 { s1.push(((cx + 1) as i32, cz as i32)) } else { s1 };
    let s3 = if lz == 0 { s2.push((cx as i32, (cz - 1) as i32)) } else { s2 };
    let s4 = if lz == 15 { s3.push((cx as i32, (cz + 1) as i32)) } else { s3 };
    let s5 = if lx == 0 && lz == 0 { s4.push(((cx - 1) as i32, (cz - 1) as i32)) } else { s4 };
    let s6 = if lx == 0 && lz == 15 { s5.push(((cx - 1) as i32, (cz + 1) as i32)) } else { s5 };
    let s7 = if lx == 15 && lz == 0 { s6.push(((cx + 1) as i32, (cz - 1) as i32)) } else { s6 };
    if lx == 15 && lz == 15 { s7.push(((cx + 1) as i32, (cz + 1) as i32)) } else { s7 }
}

/// Whether chunk `(a, b)` has an edit at world `(x, y, z)` inside its
/// padded neighborhood, the cells its mesh reads.
pub open spec fn neighborhood_holds(a: int, b: int, x: int, y: int, z: int) -> bool {
    in_padded(x - 16 * a, y, z - 16 * b)
}

proof fn lemma_push_contains<A>(s: Seq<A>, e: A, p: A)
    ensures
        s.push(e).contains(p) <==> (s.contains(p) || p == e),
{
    if s.push(e).contains(p) {
        let i = choose|i: int| 0 <= i < s.push(e).len() && s.push(e)[i] == p;
        if i < s.len() {
            assert(s[i] == p);
        }
    }
    if s.contains(p) {
        let i = choose|i: int| 0 <= i < s.len() && s[i] == p;
        assert(s.push(e)[i] == p);
    }
    if p == e {
        assert(s.push(e)[s.len() as int] == e);
    }
}

proof fn lemma_affected_contains(cx: int, cz: int, lx: int, lz: int, a: i32, b: i32)
    requires
        -0x800_0000 <= cx < 0x800_0000,
        -0x800_0000 <= cz < 0x800_0000,
    ensures
        affected_chunks(cx, cz, lx, lz).contains((a, b)) <==> {
            &&& (a == cx || (a == cx - 1 && lx == 0) || (a == cx + 1 && lx == 15))
            &&& (b == cz || (b == cz - 1 && lz == 0) || (b == cz + 1 && lz == 15))
        },
{
    let p = (a, b);
    let t0 = seq![(cx as i32, cz as i32)];
    let t1 = if lx == 0 { t0.push(((cx - 1) as i32, cz as i32)) } else { t0 };
    let t2 = if lx == 15 { t1.push(((cx + 1) as i32, cz as i32)) } else { t1 };
    let t3 = if lz == 0 { t2.push((cx as i32, (cz - 1) as i32)) } else { t2 };
    let t4 = if lz == 15 { t3.push((cx as i32, (cz + 1) as i32)) } else { t3 };
    let t5 = if lx == 0 && lz == 0 { t4.push(((cx - 1) as i32, (cz - 1) as i32)) } else { t4 };
    let t6 = if lx == 0 && lz == 15 { t5.push(((cx - 1) as i32, (cz + 1) as i32)) } else { t5 };
    let t7 = if lx == 15 && lz == 0 { t6.push(((cx + 1) as i32, (cz - 1) as i32)) } else { t6 };
    let t8 = if lx == 15 && lz == 15 { t7.push(((cx + 1) as i32, (cz + 1) as i32)) } else { t7 };
    assert(t8 == affected_chunks(cx, cz, lx, lz));
    assert(t0 == Seq::<(i32, i32)>::empty().push((cx as i32, cz as i32)));
    lemma_push_contains(Seq::<(i32, i32)>::empty(), (cx as i32, cz as i32), p);
    lemma_push_contains(t0, ((cx - 1) as i32, cz as i32), p);
    lemma_push_contains(t1, ((cx + 1) as i32, cz as i32), p);
    lemma_push_contains(t2, (cx as i32, (cz - 1) as i32), p);
    lemma_push_contains(t3, (cx as i32, (cz + 1) as i32), p);
    lemma_push_contains(t4, ((cx - 1) as i32, (cz - 1) as i32), p);
    lemma_push_contains(t5, ((cx - 1) as i32, (cz + 1) as i32), p);
    lemma_push_contains(t6, ((cx + 1) as i32, (cz - 1) as i32), p);
    lemma_push_contains(t7, ((cx + 1) as i32, (cz + 1) as i32), p);
}

/// An edit reports exactly the chunks whose padded neighborhood holds the
/// edited cell: the edited chunk, its neighbor across every chunk edge
/// the cell lies on, and the diagonal neighbor at a corner, and no other.
pub proof fn law_edit_reports_every_neighborhood_holding_the_cell(x: i32, y: int, z: i32, a: i32, b: i32)
    requires
        0 <= y < HEIGHT,
    ensures
        affected_chunks(chunk_of(x as int), chunk_of(z as int), local_of(x as int), local_of(z as int)).contains((a, b))
            <==> neighborhood_holds(a as int, b as int, x as int, y, z as int),
{
    let cx = chunk_of(x as int);
    let lx = local_of(x as int);
    let cz = chunk_of(z as int);
    let lz = local_of(z as int);
    assert(x == 16 * cx + lx && 0 <= lx < 16 && -0x800_0000 <= cx < 0x800_0000);
    assert(z == 16 * cz + lz && 0 <= lz < 16 && -0x800_0000 <= cz < 0x800_0000);
    lemma_affected_contains(cx, cz, lx, lz, a, b);
}

/// How many of the first `n` chunks of the `side`-wide square starting
/// at `(x0, z0)`, walked row by row, lack generated data.
pub open spec fn count_missing(chunks: ChunkMap, x0: int, z0: int, side: int, n: int) -> int
    decreases n,
{
    if n <= 0 || side <= 0 {
        0
    } else {
        count_missing(chunks, x0, z0, side, n - 1) + (if has_data_at(chunks, x0 + (n - 1) % side, z0 + (n - 1) / side) {
            0int
        } else {
            1int
        })
    }
}

/// Whether chunk `(a, b)` lies in the `side`-wide square at `(x0, z0)`
/// among the first `n` chunks of its row-by-row walk.
pub open spec fn in_prefix(x0: int, z0: int, side: int, n: int, a: int, b: int) -> bool {
    &&& x0 <= a < x0 + side
    &&& z0 <= b < z0 + side
    &&& (b - z0) * side + (a - x0) < n
}

/// Whether chunk `(a, b)` is loaded in `now` exactly as in `then`.
pub open spec fn unchanged_at(now: ChunkMap, then: ChunkMap, a: i32, b: i32) -> bool {
    &&& now.contains_key((a, b)) == then.contains_key((a, b))
    &&& now.contains_key((a, b)) ==> now[(a, b)] == then[(a, b)]
}

/// After walking the first `n` chunks of the `side`-wide square at
/// `(x0, z0)`, starting from `start`: every walked chunk that lacked data
/// holds data generated by `source`, and every other chunk is as in
/// `start`.
pub open spec fn around_done<F: Fn(i32, i32, i32) -> ChunkInputs>(
    now: ChunkMap,
    start: ChunkMap,
    source: F,
    seed: i32,
    stages: Seq<Stage>,
    x0: int,
    z0: int,
    side: int,
    n: int,
) -> bool {
    &&& around_generated(now, start, source, seed, stages, x0, z0, side, n)
    &&& around_unchanged(now, start, x0, z0, side, n)
}

/// Every walked chunk that lacked data in `start` holds generated data in `now`.
pub open spec fn around_generated<F: Fn(i32, i32, i32) -> ChunkInputs>(
    now: ChunkMap,
    start: ChunkMap,
    source: F,
    seed: i32,
    stages: Seq<Stage>,
    x0: int,
    z0: int,
    side: int,
    n: int,
) -> bool {
    forall|a: i32, b: i32|
        (in_prefix(x0, z0, side, n, a as int, b as int) && !#[trigger] has_data_at(start, a as int, b as int))
            ==> holds_generated(now, source, seed, stages, a as int, b as int)
}

/// Every chunk not walked, or walked while holding data, is as in `start`.
pub open spec fn around_unchanged(now: ChunkMap, start: ChunkMap, x0: int, z0: int, side: int, n: int) -> bool {
    forall|a: i32, b: i32|
        !(in_prefix(x0, z0, side, n, a as int, b as int) && !has_data_at(start, a as int, b as int))
            ==> #[trigger] unchanged_at(now, start, a, b)
}

proof fn lemma_around_fresh<F: Fn(i32, i32, i32) -> ChunkInputs>(
    before: ChunkMap,
    start: ChunkMap,
    source: F,
    seed: i32,
    stages: Seq<Stage>,
    x0: int,
    z0: int,
    side: int,
    n: int,
    x: i32,
    z: i32,
)
    requires
        around_done(before, start, source, seed, stages, x0, z0, side, n),
        side > 0,
        0 <= n < side * side,
        x == x0 + n % side,
        z == z0 + n / side,
    ensures
        unchanged_at(before, start, x, z),
        has_data_at(before, x as int, z as int) == has_data_at(start, x as int, z as int),
{
    assert(n % side < side && (n / side) * side + n % side == n) by (nonlinear_arith)
        requires n < side * side, side > 0, n >= 0;
    assert((z - z0) * side + (x - x0) == n);
    assert(!in_prefix(x0, z0, side, n, x as int, z as int));
    let had = has_data_at(start, x as int, z as int);
}

proof fn lemma_around_step<F: Fn(i32, i32, i32) -> ChunkInputs>(
    after: ChunkMap,
    before: ChunkMap,
    start: ChunkMap,
    source: F,
    seed: i32,
    stages: Seq<Stage>,
    x0: int,
    z0: int,
    side: int,
    n: int,
    x: i32,
    z: i32,
    made: bool,
)
    requires
        around_done(before, start, source, seed, stages, x0, z0, side, n),
        side > 0,
        0 <= n < side * side,
        x == x0 + n % side,
        z == z0 + n / side,
        unchanged_at(before, start, x, z),
        made == !has_data_at(start, x as int, z as int),
        !made ==> after == before,
        made ==> holds_generated(after, source, seed, stages, x as int, z as int),
        made ==> after == before.insert((x, z), after[(x, z)]),
    ensures
        around_generated(after, start, source, seed, stages, x0, z0, side, n + 1),
        around_unchanged(after, start, x0, z0, side, n + 1),
{
    assert(n % side < side && n / side < side && (n / side) * side + n % side == n) by (nonlinear_arith)
        requires n < side * side, side > 0, n >= 0;
    assert forall|a: i32, b: i32|
        (in_prefix(x0, z0, side, n + 1, a as int, b as int) && !#[trigger] has_data_at(start, a as int, b as int))
            implies holds_generated(after, source, seed, stages, a as int, b as int) by {
        let i = (b - z0) * side + (a - x0);
        let was = unchanged_at(before, start, a, b);
        if (a, b) == (x, z) {
            assert(i == n);
        } else {
            if x0 <= a < x0 + side && z0 <= b < z0 + side && i == n {
                lemma_row_major_unique(b - z0, a - x0, n / side, n % side, side);
            }
            assert(unchanged_at(after, before, a, b));
        }
    }
    assert forall|a: i32, b: i32|
        !(in_prefix(x0, z0, side, n + 1, a as int, b as int) && !has_data_at(start, a as int, b as int))
            implies #[trigger] unchanged_at(after, start, a, b) by {
        let i = (b - z0) * side + (a - x0);
        let had = has_data_at(start, a as int, b as int);
        let was = unchanged_at(before, start, a, b);
        if (a, b) == (x, z) {
            assert(i == n);
        } else {
            if x0 <= a < x0 + side && z0 <= b < z0 + side && i == n {
                lemma_row_major_unique(b - z0, a - x0, n / side, n % side, side);
            }
            assert(unchanged_at(after, before, a, b));
        }
    }
}

/// Whether `new` is `old` after writing `id` at world coordinates
/// `(x, y, z)`: the containing chunk's blocks (generated by `source` first
/// when missing) with that one cell replaced.
pub open spec fn edited<F: Fn(i32, i32, i32) -> ChunkInputs>(
    old: ChunkMap,
    new: ChunkMap,
    source: F,
    seed: i32,
    stages: Seq<Stage>,
    x: int,
    y: int,
    z: int,
    id: BlockId,
) -> bool {
    let cx = chunk_of(x);
    let cz = chunk_of(z);
    exists|base: Seq<BlockId>| {
        &&& #[trigger] crate::generation::wf_blocks(base)
        &&& if has_data_at(old, cx, cz) {
            chunk_blocks(old, cx, cz) == Some(base)
        } else {
            generated_by(source, seed, stages, cx, cz, base)
        }
        &&& new == old.insert((cx as i32, cz as i32), Some(with_cell(base, local_of(x), y, local_of(z), id)))
    }
}

/// One-block border around the chunk on X/Z.
pub const PADDED_AXIS: usize = 18;
/// One air layer below and above the chunk.
pub const PADDED_HEIGHT: usize = 66;
/// Cells of a padded neighborhood.
pub const PADDED_VOL: usize = 21384;

/// Whether chunk-relative coordinates lie in the padded neighborhood:
/// `x`/`z` in `-1..=16` and `y` in `-1..=64`.
pub open spec fn in_padded(x: int, y: int, z: int) -> bool {
    -1 <= x <= 16 && -1 <= y <= 64 && -1 <= z <= 16
}

/// Position of chunk-relative `(x, y, z)` in a padded neighborhood.
pub open spec fn spec_padded_index(x: int, y: int, z: int) -> int {
    ((y + 1) * 18 + (z + 1)) * 18 + (x + 1)
}

/// The cell of padded volume `s` at chunk-relative coordinates.
pub open spec fn padded_cell(s: Seq<BlockId>, x: int, y: int, z: int) -> BlockId {
    s[spec_padded_index(x, y, z)]
}

/// What cell `i` of the padded neighborhood of chunk `(cx, cz)` holds.
pub open spec fn padded_expected(chunks: ChunkMap, cx: int, cz: int, i: int) -> BlockId {
    block_at(chunks, cx * 16 + (i % 18 - 1), i / 324 - 1, cz * 16 + ((i / 18) % 18 - 1))
}

/// Whether `nb` is the data of neighbor `t` (row-major over offsets
/// `-1..=1` in z, then x) of chunk `(cx, cz)`.
pub open spec fn neighbor_ok(chunks: ChunkMap, cx: int, cz: int, t: int, nb: Option<&ChunkData>) -> bool {
    let dz = t / 3 - 1;
    let dx = t % 3 - 1;
    match nb {
        Some(d) => chunk_blocks(chunks, cx + dx, cz + dz) == Some(d@) && d.wf(),
        None => chunk_blocks(chunks, cx + dx, cz + dz) is None,
    }
}

proof fn lemma_padded_chunk_of(c: int, x: int, nx: int)
    requires
        -1 <= x <= 16,
        nx == (if x < 0 {
            -1int
        } else if x > 15 {
            1int
        } else {
            0int
        }),
    ensures
        chunk_of(c * 16 + x) == c + nx,
        local_of(c * 16 + x) == x - 16 * nx,
{
    assert((c * 16 + x) / 16 == c + nx && (c * 16 + x) % 16 == x - 16 * nx) by (nonlinear_arith)
        requires
            -1 <= x <= 16,
            nx == (if x < 0 {
                -1int
            } else if x > 15 {
                1int
            } else {
                0int
            });
}

proof fn lemma_padded_encode(x: int, y: int, z: int)
    requires
        in_padded(x, y, z),
    ensures
        0 <= spec_padded_index(x, y, z) < PADDED_VOL,
        spec_padded_index(x, y, z) % 18 - 1 == x,
        (spec_padded_index(x, y, z) / 18) % 18 - 1 == z,
        spec_padded_index(x, y, z) / 324 - 1 == y,
{
    let i = spec_padded_index(x, y, z);
    assert(0 <= i < PADDED_VOL && i % 18 - 1 == x && (i / 18) % 18 - 1 == z && i / 324 - 1 == y) by (nonlinear_arith)
        requires i == ((y + 1) * 18 + (z + 1)) * 18 + (x + 1), -1 <= x <= 16, -1 <= y <= 64, -1 <= z <= 16;
}

/// Flat 18x66x18 block neighborhood of one chunk: the chunk plus a
/// one-block border copied from its loaded neighbors.
pub struct PaddedChunk {
    blocks: Vec<BlockId>,
}

impl View for PaddedChunk {
    type V = Seq<BlockId>;

    closed spec fn view(&self) -> Seq<BlockId> {
        self.blocks@
    }
}

impl PaddedChunk {
    /// The neighborhood has its full size.
    pub open spec fn wf(&self) -> bool {
        self@.len() == PADDED_VOL
    }

    /// Every cell of the neighborhood holds a registered id, so every
    /// cell has a registry entry to mesh by.
    pub open spec fn registered(&self) -> bool {
        forall|i: int| 0 <= i < self@.len() ==> is_registered(#[trigger] self@[i])
    }

    /// Whether every cell of the neighborhood holds a registered id.
    pub fn all_registered(&self) -> (r: bool)
        requires
            self.wf(),
        ensures
            r == self.registered(),
    {
        let mut i: usize = 0;
        while i < PADDED_VOL
            invariant
                self.wf(),
                i <= PADDED_VOL,
                forall|j: int| 0 <= j < i ==> is_registered(#[trigger] self@[j]),
            decreases PADDED_VOL - i,
        {
            if self.blocks[i] > WATER {
                return false;
            }
            i = i + 1;
        }
        true
    }

    /// The block at chunk-relative coordinates; `x`/`z` in `-1..=16`
    /// and `y` in `-1..=64`.
    pub fn get(&self, x: i32, y: i32, z: i32) -> (r: BlockId)
        requires
            self.wf(),
            in_padded(x as int, y as int, z as int),
        ensures
            r == padded_cell(self@, x as int, y as int, z as int),
    {
        self.blocks[padded_index(x, y, z)]
    }
}

/// Packs chunk-relative coordinates into an index into a padded
/// neighborhood; arguments must lie in it.
fn padded_index(x: i32, y: i32, z: i32) -> (r: usize)
    requires
        in_padded(x as int, y as int, z as int),
    ensures
        r == spec_padded_index(x as int, y as int, z as int),
        r < PADDED_VOL,
{
    proof {
        lemma_padded_encode(x as int, y as int, z as int);
    }
    (((y + 1) as usize * PADDED_AXIS + (z + 1) as usize) * PADDED_AXIS + (x + 1) as usize)
}

/// Writing a block and reading it back gives the written block.
pub proof fn law_set_then_get<F: Fn(i32, i32, i32) -> ChunkInputs>(
    old: ChunkMap,
    new: ChunkMap,
    source: F,
    seed: i32,
    stages: Seq<Stage>,
    x: i32,
    y: i32,
    z: i32,
    id: BlockId,
)
    requires
        0 <= y < HEIGHT,
        edited(old, new, source, seed, stages, x as int, y as int, z as int, id),
    ensures
        block_at(new, x as int, y as int, z as int) == id,
{
    let cx = chunk_of(x as int);
    let cz = chunk_of(z as int);
    let base = choose|base: Seq<BlockId>| {
        &&& #[trigger] crate::generation::wf_blocks(base)
        &&& if has_data_at(old, cx, cz) {
            chunk_blocks(old, cx, cz) == Some(base)
        } else {
            generated_by(source, seed, stages, cx, cz, base)
        }
        &&& new == old.insert((cx as i32, cz as i32), Some(with_cell(base, local_of(x as int), y as int, local_of(z as int), id)))
    };
    crate::generation::lemma_read_after_write(base, local_of(x as int), y as int, local_of(z as int), id, local_of(x as int), y as int, local_of(z as int));
}

/// Writing a block leaves every other chunk as it was, and every other
/// cell of a chunk that already held data.
pub proof fn law_set_keeps_the_rest<F: Fn(i32, i32, i32) -> ChunkInputs>(
    old: ChunkMap,
    new: ChunkMap,
    source: F,
    seed: i32,
    stages: Seq<Stage>,
    x: i32,
    y: i32,
    z: i32,
    id: BlockId,
    qx: i32,
    qy: i32,
    qz: i32,
)
    requires
        0 <= y < HEIGHT,
        edited(old, new, source, seed, stages, x as int, y as int, z as int, id),
        (qx, qy, qz) != (x, y, z),
        has_data_at(old, chunk_of(qx as int), chunk_of(qz as int)),
    ensures
        block_at(new, qx as int, qy as int, qz as int) == block_at(old, qx as int, qy as int, qz as int),
{
    let cx = chunk_of(x as int);
    let cz = chunk_of(z as int);
    let base = choose|base: Seq<BlockId>| {
        &&& #[trigger] crate::generation::wf_blocks(base)
        &&& if has_data_at(old, cx, cz) {
            chunk_blocks(old, cx, cz) == Some(base)
        } else {
            generated_by(source, seed, stages, cx, cz, base)
        }
        &&& new == old.insert((cx as i32, cz as i32), Some(with_cell(base, local_of(x as int), y as int, local_of(z as int), id)))
    };
    if chunk_of(qx as int) == cx && chunk_of(qz as int) == cz {
        assert(local_of(qx as int) != local_of(x as int) || qy != y || local_of(qz as int) != local_of(z as int)) by {
            if local_of(qx as int) == local_of(x as int) && local_of(qz as int) == local_of(z as int) {
                assert(qx as int == 16 * chunk_of(qx as int) + local_of(qx as int));
                assert(x as int == 16 * chunk_of(x as int) + local_of(x as int));
                assert(qz as int == 16 * chunk_of(qz as int) + local_of(qz as int));
                assert(z as int == 16 * chunk_of(z as int) + local_of(z as int));
            }
        }
        crate::generation::lemma_read_after_write(base, local_of(x as int), y as int, local_of(z as int), id, local_of(qx as int), qy as int, local_of(qz as int));
    }
}

/// Once every chunk of a square holds data, walking it again generates
/// nothing.
pub proof fn law_count_missing_when_loaded(chunks: ChunkMap, x0: int, z0: int, side: int, n: int)
    requires
        side > 0,
        0 <= n <= side * side,
        forall|a: int, b: int| x0 <= a < x0 + side && z0 <= b < z0 + side ==> #[trigger] has_data_at(chunks, a, b),
    ensures
        count_missing(chunks, x0, z0, side, n) == 0,
    decreases n,
{
    if n > 0 {
        law_count_missing_when_loaded(chunks, x0, z0, side, n - 1);
        assert(0 <= (n - 1) % side < side && 0 <= (n - 1) / side < side) by (nonlinear_arith)
            requires 0 < n <= side * side, side > 0;
        assert(has_data_at(chunks, x0 + (n - 1) % side, z0 + (n - 1) / side));
    }
}

/// The voxel world: an addressable map of [`Chunk`]s driven by a
/// generation pipeline.
pub struct World {
    seed: i32,
    stages: Vec<Stage>,
    chunks: HashMap<u64, Chunk>,
}

impl World {
    /// The seed every chunk of this world is generated from.
    pub closed spec fn seed(&self) -> i32 {
        self.seed
    }

    /// The generation stages, in order.
    pub closed spec fn stages(&self) -> Seq<Stage> {
        self.stages@
    }

    /// The loaded chunks.
    pub closed spec fn chunks(&self) -> ChunkMap {
        Map::new(
            |p: (i32, i32)| self.chunks@.contains_key(chunk_key(p.0 as int, p.1 as int)),
            |p: (i32, i32)| self.chunks@[chunk_key(p.0 as int, p.1 as int)].data_view(),
        )
    }

    /// Every table entry sits under its chunk's key and holds a
    /// well-formed chunk.
    pub closed spec fn wf(&self) -> bool {
        forall|k: u64| #[trigger] self.chunks@.contains_key(k) ==> {
            &&& chunk_key(self.chunks@[k].cx as int, self.chunks@[k].cz as int) == k
            &&& self.chunks@[k].wf()
        }
    }

    /// A world using the default generation pipeline.
    pub fn new(seed: i32) -> (r: Self)
        ensures
            r.wf(),
            r.seed() == seed,
            r.stages() == spec_pipeline(),
            r.chunks() == ChunkMap::empty(),
    {
        Self::with_stages(seed, pipeline())
    }

    /// A world using a custom stage list (used by tests to simplify terrain).
    pub fn with_stages(seed: i32, stages: Vec<Stage>) -> (r: Self)
        ensures
            r.wf(),
            r.seed() == seed,
            r.stages() == stages@,
            r.chunks() == ChunkMap::empty(),
    {
        let r = World { seed, stages, chunks: HashMap::new() };
        assert(r.chunks() =~= ChunkMap::empty());
        r
    }

    /// The loaded chunk at `(cx, cz)`, if present.
    pub fn get_chunk(&self, cx: i32, cz: i32) -> (r: Option<&Chunk>)
        requires
            self.wf(),
        ensures
            match r {
                Some(c) => {
                    &&& self.chunks().contains_key((cx, cz))
                    &&& c.chunk_x() == cx && c.chunk_z() == cz
                    &&& c.data_view() == self.chunks()[(cx, cz)]
                    &&& c.wf()
                },
                None => !self.chunks().contains_key((cx, cz)),
            },
    {
        let k = key(cx, cz);
        let r = self.chunks.get(&k);
        proof {
            if let Some(c) = r {
                lemma_chunk_key_injective(c.cx, c.cz, cx, cz);
            }
        }
        r
    }

    /// The generated data of chunk `(cx, cz)`, if loaded and generated.
    fn chunk_data(&self, cx: i32, cz: i32) -> (r: Option<&ChunkData>)
        requires
            self.wf(),
        ensures
            match r {
                Some(d) => chunk_blocks(self.chunks(), cx as int, cz as int) == Some(d@) && d.wf(),
                None => chunk_blocks(self.chunks(), cx as int, cz as int) is None,
            },
    {
        match self.get_chunk(cx, cz) {
            Some(c) => c.data(),
            None => None,
        }
    }

    /// Generated chunk data is always a well-formed volume.
    pub proof fn lemma_data_wf(&self, cx: int, cz: int)
        requires
            self.wf(),
        ensures
            chunk_blocks(self.chunks(), cx, cz) matches Some(d) ==> crate::generation::wf_blocks(d),
    {
        let p = (cx as i32, cz as i32);
        if self.chunks().contains_key(p) {
            let k = chunk_key(p.0 as int, p.1 as int);
            assert(self.chunks@.contains_key(k));
        }
    }

    /// Generates data for the chunk if missing; existing data is kept.
    /// Returns whether generation ran.
    pub fn ensure_data<F: Fn(i32, i32, i32) -> ChunkInputs>(&mut self, cx: i32, cz: i32, source: &F) -> (r: bool)
        requires
            old(self).wf(),
            source_ok(*source),
        ensures
            final(self).wf(),
            final(self).seed() == old(self).seed(),
            final(self).stages() == old(self).stages(),
            r == !has_data_at(old(self).chunks(), cx as int, cz as int),
            has_data_at(final(self).chunks(), cx as int, cz as int),
            !r ==> final(self).chunks() == old(self).chunks(),
            r ==> final(self).chunks().contains_key((cx, cz)),
            r ==> final(self).chunks() == old(self).chunks().insert((cx, cz), final(self).chunks()[(cx, cz)]),
            r ==> holds_generated(final(self).chunks(), *source, old(self).seed(), old(self).stages(), cx as int, cz as int),
    {
        let has = match self.get_chunk(cx, cz) {
            Some(c) => c.has_data(),
            None => false,
        };
        if has {
            return false;
        }
        let inputs = source(self.seed, cx, cz);
        let data = generate(&inputs, self.stages.as_slice());
        let k = key(cx, cz);
        self.chunks.insert(k, Chunk { cx, cz, data: Some(data) });
        proof {
            assert forall|p: (i32, i32)| #![trigger self.chunks().contains_key(p)]
                self.chunks().contains_key(p) == old(self).chunks().insert((cx, cz), Some(data@)).contains_key(p) by {
                if p != (cx, cz) && chunk_key(p.0 as int, p.1 as int) == k {
                    lemma_chunk_key_injective(p.0, p.1, cx, cz);
                }
            }
            assert forall|p: (i32, i32)| #![trigger self.chunks()[p]] self.chunks().contains_key(p) implies
                self.chunks()[p] == old(self).chunks().insert((cx, cz), Some(data@))[p] by {
                if p != (cx, cz) && chunk_key(p.0 as int, p.1 as int) == k {
                    lemma_chunk_key_injective(p.0, p.1, cx, cz);
                }
            }
            assert(self.chunks() =~= old(self).chunks().insert((cx, cz), Some(data@)));
            assert(source.ensures((self.seed, cx, cz), inputs));
        }
        true
    }

    /// Generates every missing chunk within `radius` (Chebyshev distance) of
    /// Generates every missing chunk within `radius` (Chebyshev distance) of
    /// `(cx, cz)` and returns how many were generated.
    pub fn ensure_around<F: Fn(i32, i32, i32) -> ChunkInputs>(
        &mut self,
        cx: i32,
        cz: i32,
        radius: i32,
        source: &F,
    ) -> (r: usize)
        requires
            old(self).wf(),
            source_ok(*source),
            radius >= 0 ==> chunk_coord_range(cx - radius) && chunk_coord_range(cx + radius),
            radius >= 0 ==> chunk_coord_range(cz - radius) && chunk_coord_range(cz + radius),
            radius >= 0 ==> (2 * radius + 1) * (2 * radius + 1) <= usize::MAX,
        ensures
            final(self).wf(),
            final(self).seed() == old(self).seed(),
            final(self).stages() == old(self).stages(),
            radius < 0 ==> r == 0 && final(self).chunks() == old(self).chunks(),
            radius >= 0 ==> r == count_missing(
                old(self).chunks(),
                cx - radius,
                cz - radius,
                2 * radius + 1,
                (2 * radius + 1) * (2 * radius + 1),
            ),
            forall|x: i32, z: i32| cx - radius <= x <= cx + radius && cz - radius <= z <= cz + radius
                ==> #[trigger] has_data_at(final(self).chunks(), x as int, z as int),
            radius >= 0 ==> around_done(
                final(self).chunks(),
                old(self).chunks(),
                *source,
                old(self).seed(),
                old(self).stages(),
                cx - radius,
                cz - radius,
                2 * radius + 1,
                (2 * radius + 1) * (2 * radius + 1),
            ),
    {
        if radius < 0 {
            return 0;
        }
        let side: usize = (2 * radius as i64 + 1) as usize;
        let total: usize = side * side;
        let x0: i64 = cx as i64 - radius as i64;
        let z0: i64 = cz as i64 - radius as i64;
        let ghost start = self.chunks();
        let mut generated: usize = 0;
        let mut n: usize = 0;
        while n < total
            invariant
                self.wf(),
                source_ok(*source),
                self.seed() == old(self).seed(),
                self.stages() == old(self).stages(),
                start == old(self).chunks(),
                radius >= 0,
                side == 2 * radius + 1,
                total == side * side,
                x0 == cx - radius,
                z0 == cz - radius,
                chunk_coord_range(x0 as int) && chunk_coord_range(x0 + side - 1),
                chunk_coord_range(z0 as int) && chunk_coord_range(z0 + side - 1),
                n <= total,
                generated == count_missing(start, x0 as int, z0 as int, side as int, n as int),
                generated <= n,
                around_done(self.chunks(), start, *source, old(self).seed(), old(self).stages(), x0 as int, z0 as int, side as int, n as int),
            decreases total - n,
        {
            proof {
                assert(n % side < side && n / side < side && (n / side) * side + n % side == n) by (nonlinear_arith)
                    requires n < side * side, side > 0;
            }
            let x = (x0 + (n % side) as i64) as i32;
            let z = (z0 + (n / side) as i64) as i32;
            let ghost before = self.chunks();
            proof {
                lemma_around_fresh(before, start, *source, old(self).seed(), old(self).stages(), x0 as int, z0 as int, side as int, n as int, x, z);
            }
            let made = self.ensure_data(x, z, source);
            if made {
                generated = generated + 1;
            }
            proof {
                lemma_around_step(self.chunks(), before, start, *source, old(self).seed(), old(self).stages(), x0 as int, z0 as int, side as int, n as int, x, z, made);
            }
            n = n + 1;
        }
        proof {
            assert forall|x: i32, z: i32| cx - radius <= x <= cx + radius && cz - radius <= z <= cz + radius
                implies #[trigger] has_data_at(self.chunks(), x as int, z as int) by {
                let had = has_data_at(start, x as int, z as int);
                let same = unchanged_at(self.chunks(), start, x, z);
                assert(in_prefix(x0 as int, z0 as int, side as int, n as int, x as int, z as int)) by {
                    assert((z - z0) * side + (x - x0) < side * side) by (nonlinear_arith)
                        requires 0 <= z - z0 < side, 0 <= x - x0 < side;
                }
            }
        }
        generated
    }

    /// Places a block, generating the containing chunk first when needed.
    ///
    /// Returns the coordinates of every chunk whose mesh may have changed:
    /// the edited chunk plus bordering chunks when the edit touches an edge
    /// (neighbor faces and ambient occlusion can change). Edits outside the
    /// height range change nothing and report nothing.
    pub fn set_block<F: Fn(i32, i32, i32) -> ChunkInputs>(
        &mut self,
        x: i32,
        y: i32,
        z: i32,
        id: BlockId,
        source: &F,
    ) -> (r: Vec<(i32, i32)>)
        requires
            old(self).wf(),
            source_ok(*source),
        ensures
            final(self).wf(),
            final(self).seed() == old(self).seed(),
            final(self).stages() == old(self).stages(),
            !(0 <= y < HEIGHT) ==> r@ == Seq::<(i32, i32)>::empty() && final(self).chunks() == old(self).chunks(),
            (0 <= y < HEIGHT) ==> r@ == affected_chunks(
                chunk_of(x as int),
                chunk_of(z as int),
                local_of(x as int),
                local_of(z as int),
            ),
            (0 <= y < HEIGHT) ==> edited(
                old(self).chunks(),
                final(self).chunks(),
                *source,
                old(self).seed(),
                old(self).stages(),
                x as int,
                y as int,
                z as int,
                id,
            ),
    {
        if !(0 <= y && y < HEIGHT) {
            return Vec::new();
        }
        let (cx, lx) = split(x);
        let (cz, lz) = split(z);
        let made = self.ensure_data(cx, cz, source);
        let ghost mid = self.chunks();
        let ghost mid_table = self.chunks@;
        proof {
            self.lemma_data_wf(cx as int, cz as int);
        }
        let ghost base: Seq<BlockId> = mid[(cx, cz)]->0;
        let k = key(cx, cz);
        proof {
            assert(has_data_at(mid, cx as int, cz as int));
            assert(self.chunks@.contains_key(k));
            assert(self.chunks@[k].data_view() == Some(base));
        }
        let removed = self.chunks.remove(&k);
        match removed {
            Some(chunk) => {
                let Chunk { cx: ccx, cz: ccz, data } = chunk;
                let data = match data {
                    Some(mut d) => {
                        d.set(lx, y, lz, id);
                        Some(d)
                    },
                    None => None,
                };
                let fresh = Chunk { cx: ccx, cz: ccz, data };
                assert(fresh.data_view() == Some(with_cell(base, lx as int, y as int, lz as int, id)));
                self.chunks.insert(k, fresh);
            },
            None => {},
        }
        proof {
            let target = old(self).chunks().insert((cx, cz), Some(with_cell(base, lx as int, y as int, lz as int, id)));
            assert forall|p: (i32, i32)| #![trigger self.chunks().contains_key(p)]
                self.chunks().contains_key(p) == target.contains_key(p) by {
                if p != (cx, cz) && chunk_key(p.0 as int, p.1 as int) == k {
                    lemma_chunk_key_injective(p.0, p.1, cx, cz);
                }
            }
            assert forall|p: (i32, i32)| #![trigger self.chunks()[p]] self.chunks().contains_key(p) implies
                self.chunks()[p] == target[p] by {
                if p != (cx, cz) {
                    if chunk_key(p.0 as int, p.1 as int) == k {
                        lemma_chunk_key_injective(p.0, p.1, cx, cz);
                    }
                    let pk = chunk_key(p.0 as int, p.1 as int);
                    assert(self.chunks@[pk] == mid_table[pk]);
                    assert(mid.contains_key(p));
                    assert(mid[p] == mid_table[pk].data_view());
                    assert(mid[p] == old(self).chunks()[p]);
                }
            }
            assert(self.chunks() =~= target);
            assert(crate::generation::wf_blocks(base));
        }
        let mut affected: Vec<(i32, i32)> = Vec::new();
        affected.push((cx, cz));
        if lx == 0 {
            affected.push((cx - 1, cz));
        }
        if lx == 15 {
            affected.push((cx + 1, cz));
        }
        if lz == 0 {
            affected.push((cx, cz - 1));
        }
        if lz == 15 {
            affected.push((cx, cz + 1));
        }
        if lx == 0 && lz == 0 {
            affected.push((cx - 1, cz - 1));
        }
        if lx == 0 && lz == 15 {
            affected.push((cx - 1, cz + 1));
        }
        if lx == 15 && lz == 0 {
            affected.push((cx + 1, cz - 1));
        }
        if lx == 15 && lz == 15 {
            affected.push((cx + 1, cz + 1));
        }
        assert(affected@ =~= affected_chunks(cx as int, cz as int, lx as int, lz as int));
        affected
    }

    /// Coordinates of every currently loaded chunk, each once, in no
    /// particular order.
    pub fn loaded_chunks(&self) -> (r: Vec<(i32, i32)>)
        requires
            self.wf(),
        ensures
            r@.no_duplicates(),
            forall|p: (i32, i32)| #[trigger] r@.contains(p) <==> self.chunks().contains_key(p),
    {
        let mut out: Vec<(i32, i32)> = Vec::new();
        let ghost keys = vstd::std_specs::hash::spec_keys_iter(&self.chunks).remaining();
        proof {
            assert(keys.unref().to_set() == self.chunks@.dom());
            assert forall|i: int| 0 <= i < keys.len() implies self.chunks@.contains_key(*#[trigger] keys[i]) by {
                assert(keys.unref()[i] == *keys[i]);
                assert(keys.unref().to_set().contains(keys.unref()[i]));
            }
        }
        for k in it: self.chunks.keys()
            invariant
                self.wf(),
                it.seq() == keys,
                keys.unref().to_set() == self.chunks@.dom(),
                keys.no_duplicates(),
                out@ == it.seq().take(it.index()).map_values(|k: &u64| key_coords(*k)),
                forall|i: int| 0 <= i < keys.len() ==> self.chunks@.contains_key(*#[trigger] keys[i]),
        {
            proof {
                let kk = *k;
                assert(self.chunks@.contains_key(kk));
                let c = self.chunks@[kk];
                assert(chunk_key(c.cx as int, c.cz as int) == kk);
            }
            let p = coords_of_key(*k);
            out.push(p);
        }
        proof {
            assert(out@ == keys.map_values(|k: &u64| key_coords(*k)));
            assert forall|p: (i32, i32)| #[trigger] out@.contains(p) implies self.chunks().contains_key(p) by {
                let i = choose|i: int| 0 <= i < out@.len() && out@[i] == p;
                let kk = *keys[i];
                let c = self.chunks@[kk];
                lemma_key_coords(c.cx, c.cz);
                assert(p == (c.cx, c.cz));
            }
            assert forall|p: (i32, i32)| self.chunks().contains_key(p) implies #[trigger] out@.contains(p) by {
                let kk = chunk_key(p.0 as int, p.1 as int);
                assert(keys.unref().to_set().contains(kk));
                let i = choose|i: int| 0 <= i < keys.unref().len() && keys.unref()[i] == kk;
                assert(*keys[i] == kk);
                lemma_key_coords(p.0, p.1);
                assert(out@[i] == p);
            }
            assert forall|i: int, j: int| 0 <= i < out@.len() && 0 <= j < out@.len() && i != j implies out@[i] != out@[j] by {
                let ki = *keys[i];
                let kj = *keys[j];
                let ci = self.chunks@[ki];
                let cj = self.chunks@[kj];
                lemma_key_coords(ci.cx, ci.cz);
                lemma_key_coords(cj.cx, cj.cz);
                assert(keys.unref()[i] == ki && keys.unref()[j] == kj);
                if ki == kj {
                    assert(keys[i] == keys[j]);
                }
            }
        }
        out
    }

    /// Reads the 18x66x18 neighborhood of chunk `(cx, cz)` into a flat
    /// view: one block border per side, cells outside loaded chunks or
    /// outside the height range read as air.
    pub fn padded_view(&self, cx: i32, cz: i32) -> (r: PaddedChunk)
        requires
            self.wf(),
            i32::MIN < cx < i32::MAX,
            i32::MIN < cz < i32::MAX,
        ensures
            r.wf(),
            forall|x: int, y: int, z: int| #![trigger padded_cell(r@, x, y, z)]
                in_padded(x, y, z) ==> padded_cell(r@, x, y, z) == block_at(self.chunks(), cx * 16 + x, y, cz * 16 + z),
    {
        let mut nbs: Vec<Option<&ChunkData>> = Vec::new();
        let mut j: i32 = 0;
        while j < 9
            invariant
                self.wf(),
                0 <= j <= 9,
                i32::MIN < cx < i32::MAX,
                i32::MIN < cz < i32::MAX,
                nbs@.len() == j,
                forall|t: int| 0 <= t < j ==> #[trigger] neighbor_ok(self.chunks(), cx as int, cz as int, t, nbs@[t]),
            decreases 9 - j,
        {
            let dz = j / 3 - 1;
            let dx = j % 3 - 1;
            nbs.push(self.chunk_data(cx + dx, cz + dz));
            j = j + 1;
        }
        let mut blocks: Vec<BlockId> = Vec::new();
        let mut n: usize = 0;
        while n < PADDED_VOL
            invariant
                self.wf(),
                i32::MIN < cx < i32::MAX,
                i32::MIN < cz < i32::MAX,
                nbs@.len() == 9,
                forall|t: int| 0 <= t < 9 ==> #[trigger] neighbor_ok(self.chunks(), cx as int, cz as int, t, nbs@[t]),
                n <= PADDED_VOL,
                blocks@.len() == n,
                forall|i: int| 0 <= i < n ==> #[trigger] blocks@[i] == padded_expected(self.chunks(), cx as int, cz as int, i),
            decreases PADDED_VOL - n,
        {
            let x: i32 = (n % 18) as i32 - 1;
            let z: i32 = ((n / 18) % 18) as i32 - 1;
            let y: i32 = (n / 324) as i32 - 1;
            let id = if 0 <= y && y < HEIGHT {
                let nx: i32 = if x < 0 { -1 } else if x > 15 { 1 } else { 0 };
                let nz: i32 = if z < 0 { -1 } else if z > 15 { 1 } else { 0 };
                let t = ((nz + 1) * 3 + (nx + 1)) as usize;
                proof {
                    assert(neighbor_ok(self.chunks(), cx as int, cz as int, t as int, nbs@[t as int]));
                    lemma_padded_chunk_of(cx as int, x as int, nx as int);
                    lemma_padded_chunk_of(cz as int, z as int, nz as int);
                }
                match nbs[t] {
                    Some(d) => d.get(x - 16 * nx, y, z - 16 * nz),
                    None => AIR,
                }
            } else {
                AIR
            };
            blocks.push(id);
            n = n + 1;
        }
        let r = PaddedChunk { blocks };
        proof {
            assert forall|x: int, y: int, z: int| #![trigger padded_cell(r@, x, y, z)]
                in_padded(x, y, z) implies padded_cell(r@, x, y, z) == block_at(self.chunks(), cx * 16 + x, y, cz * 16 + z) by {
                lemma_padded_encode(x, y, z);
            }
        }
        r
    }

    /// Removing a chunk from the table.
    pub fn remove_chunk(&mut self, cx: i32, cz: i32)
        requires
            old(self).wf(),
        ensures
            final(self).wf(),
            final(self).seed() == old(self).seed(),
            final(self).stages() == old(self).stages(),
            final(self).chunks() == old(self).chunks().remove((cx, cz)),
    {
        let k = key(cx, cz);
        self.chunks.remove(&k);
        proof {
            assert forall|p: (i32, i32)| #![trigger self.chunks().contains_key(p)]
                self.chunks().contains_key(p) == old(self).chunks().remove((cx, cz)).contains_key(p) by {
                if p != (cx, cz) && chunk_key(p.0 as int, p.1 as int) == k {
                    lemma_chunk_key_injective(p.0, p.1, cx, cz);
                }
            }
            assert(self.chunks() =~= old(self).chunks().remove((cx, cz)));
        }
    }

    /// The block at world coordinates; outside the height range or in
    /// unloaded chunks this reads as air.
    pub fn get_block(&self, x: i32, y: i32, z: i32) -> (r: BlockId)
        requires
            self.wf(),
        ensures
            r == block_at(self.chunks(), x as int, y as int, z as int),
    {
        if !(0 <= y && y < HEIGHT) {
            return AIR;
        }
        let (cx, lx) = split(x);
        let (cz, lz) = split(z);
        match self.chunk_data(cx, cz) {
            Some(d) => d.get(lx, y, lz),
            None => AIR,
        }
    }

    /// Whether physics should treat the position as blocked.
    ///
    /// Unloaded chunks count as solid so players never fall into void. The
    /// block there must have a registry entry to be judged by.
    pub fn is_solid_at(&self, x: i32, y: i32, z: i32) -> (r: bool)
        requires
            self.wf(),
            is_registered(block_at(self.chunks(), x as int, y as int, z as int)),
        ensures
            r == solid_at(self.chunks(), x as int, y as int, z as int),
    {
        if !(0 <= y && y < HEIGHT) {
            return false;
        }
        let (cx, lx) = split(x);
        let (cz, lz) = split(z);
        match self.chunk_data(cx, cz) {
            Some(d) => is_solid(d.get(lx, y, lz)),
            None => true,
        }
    }
}

} // verus!
