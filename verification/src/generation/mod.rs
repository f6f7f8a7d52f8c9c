//! Staged chunk generation: terrain, caves, water, trees.
//!
//! A chunk is filled by running a list of [`Stage`]s in order over an empty
//! [`ChunkData`]; every stage reads and writes the same block volume and
//! depends only on the chunk's [`ChunkInputs`], keeping generation
//! deterministic.

use vstd::prelude::*;
use crate::blocks::{AIR, BlockId};
use crate::generation::terrain::ColumnInfo;
use crate::generation::trees::TreePlan;

pub mod caves;
pub mod terrain;
pub mod trees;
pub mod water;

verus! {

/// Chunks are square on the X/Z plane; edge length in blocks.
pub const CHUNK_AXIS: i32 = 16;
/// Vertical extent of a chunk in blocks.
pub const CHUNK_HEIGHT: i32 = 64;
/// Number of block cells in one chunk.
pub const CHUNK_VOL: usize = 16384;
/// Water surface height; columns below it flood up to this level.
pub const SEA_LEVEL: i32 = 24;

/// Whether local coordinates name a cell of the chunk.
pub open spec fn in_chunk(lx: int, y: int, lz: int) -> bool {
    0 <= lx < CHUNK_AXIS && 0 <= lz < CHUNK_AXIS && 0 <= y < CHUNK_HEIGHT
}

/// Position of local cell `(lx, y, lz)` in the packed block array:
/// layers of 16x16 cells, each layer row-major by `lz`.
pub open spec fn spec_idx(lx: int, y: int, lz: int) -> int {
    y * 256 + lz * 16 + lx
}

/// A packed block volume of the chunk's size.
pub open spec fn wf_blocks(s: Seq<BlockId>) -> bool {
    s.len() == CHUNK_VOL
}

/// The block of packed volume `s` at local coordinates; outside the
/// chunk it reads as air.
pub open spec fn cell(s: Seq<BlockId>, lx: int, y: int, lz: int) -> BlockId {
    if in_chunk(lx, y, lz) {
        s[spec_idx(lx, y, lz)]
    } else {
        AIR
    }
}

/// `s` with the cell at local coordinates replaced by `id`; writes
/// outside the chunk leave `s` unchanged.
pub open spec fn with_cell(s: Seq<BlockId>, lx: int, y: int, lz: int, id: BlockId) -> Seq<BlockId> {
    if in_chunk(lx, y, lz) {
        s.update(spec_idx(lx, y, lz), id)
    } else {
        s
    }
}

/// Packing is injective on in-chunk coordinates.
pub proof fn lemma_idx_injective(ax: int, ay: int, az: int, bx: int, by: int, bz: int)
    requires
        in_chunk(ax, ay, az),
        in_chunk(bx, by, bz),
        spec_idx(ax, ay, az) == spec_idx(bx, by, bz),
    ensures
        ax == bx && ay == by && az == bz,
{
}

/// The 16x64x16 block storage of a single chunk.
///
/// Out-of-range accesses through [`ChunkData::get`] read as air and
/// [`ChunkData::set`] writes are dropped, so callers never need bounds
/// checks of their own.
pub struct ChunkData {
    blocks: Vec<BlockId>,
}

impl View for ChunkData {
    type V = Seq<BlockId>;

    closed spec fn view(&self) -> Seq<BlockId> {
        self.blocks@
    }
}

impl ChunkData {
    /// The packed volume has the chunk's size.
    pub open spec fn wf(&self) -> bool {
        wf_blocks(self@)
    }

    /// An all-air chunk.
    pub fn empty() -> (r: Self)
        ensures
            r@ == Seq::new(CHUNK_VOL as nat, |i: int| AIR),
            r.wf(),
    {
        let mut blocks: Vec<BlockId> = Vec::new();
        let mut i: usize = 0;
        while i < CHUNK_VOL
            invariant
                i <= CHUNK_VOL,
                blocks@ == Seq::new(i as nat, |k: int| AIR),
            decreases CHUNK_VOL - i,
        {
            blocks.push(AIR);
            i = i + 1;
        }
        ChunkData { blocks }
    }

    /// Reads the block at local coordinates; out-of-bounds yields air.
    pub fn get(&self, lx: i32, y: i32, lz: i32) -> (r: BlockId)
        requires
            self.wf(),
        ensures
            r == cell(self@, lx as int, y as int, lz as int),
    {
        if !(0 <= lx && lx < CHUNK_AXIS) || !(0 <= lz && lz < CHUNK_AXIS) || !(0 <= y && y < CHUNK_HEIGHT) {
            return AIR;
        }
        self.blocks[idx(lx, y, lz)]
    }

    /// Writes the block at local coordinates; out-of-bounds writes are ignored.
    pub fn set(&mut self, lx: i32, y: i32, lz: i32, id: BlockId)
        requires
            old(self).wf(),
        ensures
            final(self)@ == with_cell(old(self)@, lx as int, y as int, lz as int, id),
            final(self).wf(),
    {
        if !(0 <= lx && lx < CHUNK_AXIS) || !(0 <= lz && lz < CHUNK_AXIS) || !(0 <= y && y < CHUNK_HEIGHT) {
            return;
        }
        let i = idx(lx, y, lz);
        self.blocks.set(i, id);
    }

    /// Direct access to the packed block array, ordered by [`idx`].
    pub fn blocks(&self) -> (r: &[BlockId])
        ensures
            r@ == self@,
    {
        self.blocks.as_slice()
    }
}

/// A read at the coordinates just written gives back the written block;
/// a read anywhere else is unaffected by the write.
pub proof fn lemma_read_after_write(
    s: Seq<BlockId>,
    lx: int,
    y: int,
    lz: int,
    id: BlockId,
    qx: int,
    qy: int,
    qz: int,
)
    requires
        s.len() == CHUNK_VOL,
    ensures
        (qx == lx && qy == y && qz == lz && in_chunk(lx, y, lz)) ==> cell(with_cell(s, lx, y, lz, id), qx, qy, qz) == id,
        !(qx == lx && qy == y && qz == lz) ==> cell(with_cell(s, lx, y, lz, id), qx, qy, qz) == cell(s, qx, qy, qz),
{
    if in_chunk(qx, qy, qz) && in_chunk(lx, y, lz) && spec_idx(qx, qy, qz) == spec_idx(lx, y, lz) {
        lemma_idx_injective(qx, qy, qz, lx, y, lz);
    }
}

/// The local x coordinate of packed position `i`.
pub open spec fn x_of(i: int) -> int {
    i % 16
}

/// The y coordinate of packed position `i`.
pub open spec fn y_of(i: int) -> int {
    i / 256
}

/// The local z coordinate of packed position `i`.
pub open spec fn z_of(i: int) -> int {
    (i / 16) % 16
}

/// The volume whose every cell `(lx, y, lz)` holds `f(lx, y, lz)`.
pub open spec fn chunk_from(f: spec_fn(int, int, int) -> BlockId) -> Seq<BlockId> {
    Seq::new(CHUNK_VOL as nat, |i: int| f(x_of(i), y_of(i), z_of(i)))
}

/// Every packed position decodes to in-chunk coordinates that pack back to it.
pub proof fn lemma_decode(i: int)
    requires
        0 <= i < CHUNK_VOL,
    ensures
        in_chunk(x_of(i), y_of(i), z_of(i)),
        spec_idx(x_of(i), y_of(i), z_of(i)) == i,
{
}

/// Packing then decoding gives back the coordinates.
pub proof fn lemma_encode(lx: int, y: int, lz: int)
    requires
        in_chunk(lx, y, lz),
    ensures
        x_of(spec_idx(lx, y, lz)) == lx,
        y_of(spec_idx(lx, y, lz)) == y,
        z_of(spec_idx(lx, y, lz)) == lz,
{
    let i = spec_idx(lx, y, lz);
    assert(i == y * 256 + lz * 16 + lx);
    assert(i / 256 == y) by (nonlinear_arith)
        requires i == y * 256 + lz * 16 + lx, 0 <= lx < 16, 0 <= lz < 16, 0 <= y;
    assert(i / 16 == y * 16 + lz) by (nonlinear_arith)
        requires i == y * 256 + lz * 16 + lx, 0 <= lx < 16, 0 <= lz < 16, 0 <= y;
    assert((y * 16 + lz) % 16 == lz) by (nonlinear_arith)
        requires 0 <= lz < 16, 0 <= y;
    assert(i % 16 == lx) by (nonlinear_arith)
        requires i == y * 256 + lz * 16 + lx, 0 <= lx < 16, 0 <= lz < 16, 0 <= y;
}

/// Reading a cell of [`chunk_from`] evaluates the defining function there.
pub proof fn lemma_cell_chunk_from(f: spec_fn(int, int, int) -> BlockId, lx: int, y: int, lz: int)
    requires
        in_chunk(lx, y, lz),
    ensures
        cell(chunk_from(f), lx, y, lz) == f(lx, y, lz),
{
    lemma_encode(lx, y, lz);
}

/// A volume is determined by its in-chunk cells.
pub proof fn lemma_chunk_ext(s: Seq<BlockId>, f: spec_fn(int, int, int) -> BlockId)
    requires
        s.len() == CHUNK_VOL,
        forall|lx: int, y: int, lz: int| in_chunk(lx, y, lz) ==> #[trigger] cell(s, lx, y, lz) == f(lx, y, lz),
    ensures
        s == chunk_from(f),
{
    assert forall|i: int| 0 <= i < CHUNK_VOL implies s[i] == chunk_from(f)[i] by {
        lemma_decode(i);
        assert(cell(s, x_of(i), y_of(i), z_of(i)) == f(x_of(i), y_of(i), z_of(i)));
    }
    assert(s =~= chunk_from(f));
}

/// Everything the stages of one chunk read besides the blocks themselves:
/// the per-column terrain facts, the cave-noise band test of every cell,
/// the cave carving bounds, and the trees whose canopies can reach into
/// the chunk.
pub struct ChunkInputs {
    /// Terrain facts of the chunk's columns, indexed `lz * 16 + lx`.
    pub columns: Vec<ColumnInfo>,
    /// Whether the cave noise falls in its carving band, per cell, indexed by [`idx`].
    pub cave: Vec<bool>,
    /// Lowest y cave carving may touch.
    pub cave_min_y: i32,
    /// Solid skin depth below the surface that carving may not breach.
    pub cave_skin: i32,
    /// Highest y cave carving may reach under any column.
    pub cave_top_cap: i32,
    /// Trees to place, in placement order.
    pub trees: Vec<TreePlan>,
}

impl ChunkInputs {
    /// One column fact per column and one cave flag per cell.
    pub open spec fn wf(&self) -> bool {
        &&& self.columns@.len() == 256
        &&& self.cave@.len() == CHUNK_VOL
    }
}

/// Which pass a [`Stage`] performs.
#[derive(Clone, Copy, PartialEq, Eq, Debug, Structural)]
pub enum StageKind {
    /// [`terrain::run`].
    Terrain,
    /// [`caves::run`].
    Caves,
    /// [`water::run`].
    Water,
    /// [`trees::run`].
    Trees,
}

/// One named pass of the generation pipeline.
#[derive(Clone, Copy)]
pub struct Stage {
    /// Human-readable stage name, used by tests and debugging.
    pub name: &'static str,
    /// The pass this stage runs over the chunk.
    pub kind: StageKind,
}

/// The volume after the pass `kind` ran over `s`.
pub open spec fn stage_result(inputs: ChunkInputs, kind: StageKind, s: Seq<BlockId>) -> Seq<BlockId> {
    match kind {
        StageKind::Terrain => terrain::terrain_result(inputs.columns@, s),
        StageKind::Caves => caves::caves_result(inputs, s),
        StageKind::Water => water::water_result(inputs.columns@, s),
        StageKind::Trees => trees::trees_result(s, inputs.trees@, inputs.trees@.len() as int),
    }
}

/// The volume after the first `n` of `stages` ran, in order, over `s`.
pub open spec fn stages_result(inputs: ChunkInputs, stages: Seq<Stage>, s: Seq<BlockId>, n: int) -> Seq<BlockId>
    decreases n,
{
    if n <= 0 {
        s
    } else {
        stage_result(inputs, stages[n - 1].kind, stages_result(inputs, stages, s, n - 1))
    }
}

/// The all-air volume.
pub open spec fn empty_volume() -> Seq<BlockId> {
    Seq::new(CHUNK_VOL as nat, |i: int| AIR)
}

/// The chunk generated from `inputs` by `stages`: every stage applied in
/// order to the all-air volume.
pub open spec fn spec_generate(inputs: ChunkInputs, stages: Seq<Stage>) -> Seq<BlockId> {
    stages_result(inputs, stages, empty_volume(), stages.len() as int)
}

/// The default generation pipeline: terrain, then caves, then water, then trees.
pub open spec fn spec_pipeline() -> Seq<Stage> {
    seq![
        Stage { name: "terrain", kind: StageKind::Terrain },
        Stage { name: "caves", kind: StageKind::Caves },
        Stage { name: "water", kind: StageKind::Water },
        Stage { name: "trees", kind: StageKind::Trees },
    ]
}

/// The default generation pipeline: terrain, then caves, then water, then trees.
pub fn pipeline() -> (r: Vec<Stage>)
    ensures
        r@ == spec_pipeline(),
{
    vec![
        Stage { name: "terrain", kind: StageKind::Terrain },
        Stage { name: "caves", kind: StageKind::Caves },
        Stage { name: "water", kind: StageKind::Water },
        Stage { name: "trees", kind: StageKind::Trees },
    ]
}

/// Generates one chunk by applying `stages` in order to an empty [`ChunkData`].
pub fn generate(inputs: &ChunkInputs, stages: &[Stage]) -> (r: ChunkData)
    requires
        inputs.wf(),
    ensures
        r.wf(),
        r@ == spec_generate(*inputs, stages@),
{
    let mut data = ChunkData::empty();
    let mut n: usize = 0;
    while n < stages.len()
        invariant
            inputs.wf(),
            data.wf(),
            n <= stages@.len(),
            data@ == stages_result(*inputs, stages@, empty_volume(), n as int),
        decreases stages@.len() - n,
    {
        match stages[n].kind {
            StageKind::Terrain => terrain::run(inputs, &mut data),
            StageKind::Caves => caves::run(inputs, &mut data),
            StageKind::Water => water::run(inputs, &mut data),
            StageKind::Trees => trees::run(inputs, &mut data),
        }
        n = n + 1;
    }
    data
}

/// Position of column `(lx, lz)` in [`ChunkInputs::columns`].
pub open spec fn column_index(lx: int, lz: int) -> int {
    lz * 16 + lx
}

/// Packs local chunk coordinates `(lx, y, lz)` into an index into
/// [`ChunkData::blocks`]; arguments must be in range.
pub fn idx(lx: i32, y: i32, lz: i32) -> (r: usize)
    requires
        in_chunk(lx as int, y as int, lz as int),
    ensures
        r == spec_idx(lx as int, y as int, lz as int),
        r < CHUNK_VOL,
{
    (y * 256 + lz * 16 + lx) as usize
}

} // verus!

verus! {

/// Whether every floor cell (y = 0) of volume `s` is bedrock.
pub open spec fn floor_is_bedrock(s: Seq<crate::blocks::BlockId>) -> bool {
    forall|lx: int, lz: int| 0 <= lx < CHUNK_AXIS && 0 <= lz < CHUNK_AXIS ==> #[trigger] cell(s, lx, 0, lz)
        == crate::blocks::BEDROCK
}

/// Inputs that keep the floor intact: caves start above it, no column
/// surface lies below it, and every tree stands on ground above it.
pub open spec fn floor_safe(inputs: ChunkInputs) -> bool {
    &&& inputs.cave_min_y >= 1
    &&& forall|c: int| 0 <= c < inputs.columns@.len() ==> (#[trigger] inputs.columns@[c]).h >= 0
    &&& forall|t: int| 0 <= t < inputs.trees@.len() ==> (#[trigger] inputs.trees@[t]).ground >= 1
}

proof fn lemma_put_keeps_floor(s: Seq<BlockId>, x: int, y: int, z: int, id: BlockId, only_air: bool)
    requires
        s.len() == CHUNK_VOL,
        floor_is_bedrock(s),
        y != 0 || only_air,
    ensures
        trees::put(s, x, y, z, id, only_air).len() == CHUNK_VOL,
        floor_is_bedrock(trees::put(s, x, y, z, id, only_air)),
{
    let r = trees::put(s, x, y, z, id, only_air);
    assert forall|lx: int, lz: int| 0 <= lx < CHUNK_AXIS && 0 <= lz < CHUNK_AXIS implies #[trigger] cell(r, lx, 0, lz)
        == crate::blocks::BEDROCK by {
        lemma_read_after_write(s, x, y, z, id, lx, 0, lz);
        if y == 0 && in_chunk(x, y, z) && x == lx && z == lz {
            assert(cell(s, lx, 0, lz) == crate::blocks::BEDROCK);
        }
    }
}

proof fn lemma_logs_keep_floor(s: Seq<BlockId>, plan: trees::TreePlan, n: int)
    requires
        s.len() == CHUNK_VOL,
        floor_is_bedrock(s),
        plan.ground >= 0,
    ensures
        trees::logs_result(s, plan, n).len() == CHUNK_VOL,
        floor_is_bedrock(trees::logs_result(s, plan, n)),
    decreases n,
{
    if n > 0 {
        lemma_logs_keep_floor(s, plan, n - 1);
        lemma_put_keeps_floor(
            trees::logs_result(s, plan, n - 1),
            plan.tx as int,
            plan.ground + 1 + (n - 1),
            plan.tz as int,
            crate::blocks::LOG,
            false,
        );
    }
}

proof fn lemma_canopy_keeps_floor(s: Seq<BlockId>, plan: trees::TreePlan, k: int)
    requires
        s.len() == CHUNK_VOL,
        floor_is_bedrock(s),
    ensures
        trees::canopy_result(s, plan, k).len() == CHUNK_VOL,
        floor_is_bedrock(trees::canopy_result(s, plan, k)),
    decreases k,
{
    if k > 0 {
        lemma_canopy_keeps_floor(s, plan, k - 1);
        let (dx, dy, dz) = trees::spec_canopy_offset(k - 1);
        if !trees::canopy_skipped(plan, k - 1) {
            lemma_put_keeps_floor(
                trees::canopy_result(s, plan, k - 1),
                plan.tx + dx,
                plan.ground + plan.trunk + dy,
                plan.tz + dz,
                crate::blocks::LEAVES,
                true,
            );
        }
    }
}

proof fn lemma_trees_keep_floor(s: Seq<BlockId>, plans: Seq<trees::TreePlan>, n: int)
    requires
        s.len() == CHUNK_VOL,
        floor_is_bedrock(s),
        n <= plans.len(),
        forall|t: int| 0 <= t < plans.len() ==> (#[trigger] plans[t]).ground >= 1,
    ensures
        trees::trees_result(s, plans, n).len() == CHUNK_VOL,
        floor_is_bedrock(trees::trees_result(s, plans, n)),
    decreases n,
{
    if n > 0 {
        lemma_trees_keep_floor(s, plans, n - 1);
        let prev = trees::trees_result(s, plans, n - 1);
        let plan = plans[n - 1];
        lemma_logs_keep_floor(prev, plan, plan.trunk as int);
        let trunk = trees::logs_result(prev, plan, plan.trunk as int);
        lemma_put_keeps_floor(trunk, plan.tx as int, plan.ground as int, plan.tz as int, crate::blocks::DIRT, false);
        let rooted = trees::put(trunk, plan.tx as int, plan.ground as int, plan.tz as int, crate::blocks::DIRT, false);
        lemma_canopy_keeps_floor(rooted, plan, trees::CANOPY_CELLS as int);
    }
}

proof fn lemma_stage_floor(inputs: ChunkInputs, kind: StageKind, s: Seq<BlockId>)
    requires
        inputs.wf(),
        floor_safe(inputs),
        s.len() == CHUNK_VOL,
        floor_is_bedrock(s) || kind == StageKind::Terrain,
    ensures
        stage_result(inputs, kind, s).len() == CHUNK_VOL,
        floor_is_bedrock(stage_result(inputs, kind, s)),
{
    match kind {
        StageKind::Terrain => {
            let f = |lx: int, y: int, lz: int| terrain::terrain_cell(inputs.columns@, s, lx, y, lz);
            assert forall|lx: int, lz: int| 0 <= lx < CHUNK_AXIS && 0 <= lz < CHUNK_AXIS implies #[trigger] cell(
                stage_result(inputs, kind, s),
                lx,
                0,
                lz,
            ) == crate::blocks::BEDROCK by {
                lemma_cell_chunk_from(f, lx, 0, lz);
            }
        },
        StageKind::Caves => {
            let f = |lx: int, y: int, lz: int| caves::caves_cell(inputs, s, lx, y, lz);
            assert forall|lx: int, lz: int| 0 <= lx < CHUNK_AXIS && 0 <= lz < CHUNK_AXIS implies #[trigger] cell(
                stage_result(inputs, kind, s),
                lx,
                0,
                lz,
            ) == crate::blocks::BEDROCK by {
                lemma_cell_chunk_from(f, lx, 0, lz);
            }
        },
        StageKind::Water => {
            let f = |lx: int, y: int, lz: int| water::water_cell(inputs.columns@, s, lx, y, lz);
            assert forall|lx: int, lz: int| 0 <= lx < CHUNK_AXIS && 0 <= lz < CHUNK_AXIS implies #[trigger] cell(
                stage_result(inputs, kind, s),
                lx,
                0,
                lz,
            ) == crate::blocks::BEDROCK by {
                lemma_cell_chunk_from(f, lx, 0, lz);
                assert(inputs.columns@[column_index(lx, lz)].h >= 0);
            }
        },
        StageKind::Trees => {
            lemma_trees_keep_floor(s, inputs.trees@, inputs.trees@.len() as int);
        },
    }
}

/// Once the terrain stage has run, the floor of a chunk is bedrock, and
/// no later stage breaks through it: not caves (they start above it), not
/// water (no column lies below it), not trees (they stand above it, and
/// leaves only fill air).
pub proof fn law_bedrock_floor(inputs: ChunkInputs, stages: Seq<Stage>)
    requires
        inputs.wf(),
        floor_safe(inputs),
        stages.len() >= 1,
        stages[0].kind == StageKind::Terrain,
    ensures
        floor_is_bedrock(spec_generate(inputs, stages)),
{
    lemma_stages_floor(inputs, stages, stages.len() as int);
}

/// Every chunk the default pipeline generates stands on bedrock.
pub proof fn law_default_pipeline_bedrock(inputs: ChunkInputs)
    requires
        inputs.wf(),
        floor_safe(inputs),
    ensures
        floor_is_bedrock(spec_generate(inputs, spec_pipeline())),
{
    law_bedrock_floor(inputs, spec_pipeline());
}

proof fn lemma_stages_floor(inputs: ChunkInputs, stages: Seq<Stage>, n: int)
    requires
        inputs.wf(),
        floor_safe(inputs),
        1 <= n <= stages.len(),
        stages[0].kind == StageKind::Terrain,
    ensures
        stages_result(inputs, stages, empty_volume(), n).len() == CHUNK_VOL,
        floor_is_bedrock(stages_result(inputs, stages, empty_volume(), n)),
    decreases n,
{
    if n == 1 {
        assert(stages_result(inputs, stages, empty_volume(), 0) == empty_volume());
        lemma_stage_floor(inputs, stages[0].kind, empty_volume());
    } else {
        lemma_stages_floor(inputs, stages, n - 1);
        lemma_stage_floor(inputs, stages[n - 1].kind, stages_result(inputs, stages, empty_volume(), n - 1));
    }
}

} // verus!
