//! Tree placement stage: oak trees whose canopies may cross chunk borders.
//!
//! Every tree is a trunk of logs on a dirt block, topped by a leaf canopy:
//! two 5x5 layers, then a 3x3 layer, then a plus-shaped cap, with the
//! trunk column left out below the cap and some corners left out as the
//! tree's plan says. Leaves only fill air, so canopies never overwrite
//! existing blocks.

use vstd::prelude::*;
use crate::blocks::{AIR, BlockId, DIRT, LEAVES, LOG};
use crate::generation::{CHUNK_VOL, ChunkData, ChunkInputs, cell, with_cell};

verus! {

/// One oak tree to place: its column relative to the chunk (possibly in
/// the scan margin outside it), the surface height it grows from, its
/// trunk height, and which canopy corners are left out.
#[derive(Clone, Copy)]
pub struct TreePlan {
    /// Column x relative to the chunk origin.
    pub tx: i32,
    /// Column z relative to the chunk origin.
    pub tz: i32,
    /// Surface height of the column; the trunk starts one block above.
    pub ground: i32,
    /// Trunk height in blocks.
    pub trunk: i32,
    /// Canopy corners left out: the wide ring's corners `(-2,-2)`,
    /// `(-2,2)`, `(2,-2)`, `(2,2)`, then the narrow ring's `(-1,-1)`,
    /// `(-1,1)`, `(1,-1)`, `(1,1)`.
    pub skip: [bool; 8],
}

/// Number of candidate canopy cells around a trunk top.
pub const CANOPY_CELLS: usize = 68;

/// Offset `(dx, dy, dz)` from the trunk top of candidate canopy cell `k`,
/// in placement order: layer `dy` from -2 up to 1, then `dx`, then `dz`;
/// the two lower layers span a radius of 2, the upper two a radius of 1.
pub open spec fn spec_canopy_offset(k: int) -> (int, int, int) {
    if k < 25 {
        (k / 5 - 2, -2, k % 5 - 2)
    } else if k < 50 {
        ((k - 25) / 5 - 2, -1, (k - 25) % 5 - 2)
    } else if k < 59 {
        ((k - 50) / 3 - 1, 0, (k - 50) % 3 - 1)
    } else {
        ((k - 59) / 3 - 1, 1, (k - 59) % 3 - 1)
    }
}

/// Absolute value.
pub open spec fn abs(v: int) -> int {
    if v < 0 {
        -v
    } else {
        v
    }
}

/// Whether candidate canopy cell `k` of `plan` stays empty: the cap keeps
/// only its plus shape, the rings drop the corners the plan skips, and
/// the trunk column itself is never covered below the cap.
pub open spec fn canopy_skipped(plan: TreePlan, k: int) -> bool {
    let (dx, dy, dz) = spec_canopy_offset(k);
    let r = if dy <= -1 {
        2int
    } else {
        1int
    };
    let corner = (if r == 2 {
        0int
    } else {
        4int
    }) + (if dx > 0 {
        2int
    } else {
        0int
    }) + (if dz > 0 {
        1int
    } else {
        0int
    });
    ||| dy == 1 && abs(dx) + abs(dz) > 1
    ||| abs(dx) == r && abs(dz) == r && dy <= 0 && plan.skip[corner]
    ||| dx == 0 && dz == 0 && dy <= 0
}

/// Writes `id` at local coordinates of `s`; with `only_air`, an occupied
/// cell is left as it is.
pub open spec fn put(s: Seq<BlockId>, x: int, y: int, z: int, id: BlockId, only_air: bool) -> Seq<BlockId> {
    if only_air && cell(s, x, y, z) != AIR {
        s
    } else {
        with_cell(s, x, y, z, id)
    }
}

/// `s` after the first `n` trunk logs of `plan`.
pub open spec fn logs_result(s: Seq<BlockId>, plan: TreePlan, n: int) -> Seq<BlockId>
    decreases n,
{
    if n <= 0 {
        s
    } else {
        put(logs_result(s, plan, n - 1), plan.tx as int, plan.ground + 1 + (n - 1), plan.tz as int, LOG, false)
    }
}

/// `s` after the first `k` candidate canopy cells of `plan`.
pub open spec fn canopy_result(s: Seq<BlockId>, plan: TreePlan, k: int) -> Seq<BlockId>
    decreases k,
{
    if k <= 0 {
        s
    } else {
        let prev = canopy_result(s, plan, k - 1);
        let (dx, dy, dz) = spec_canopy_offset(k - 1);
        if canopy_skipped(plan, k - 1) {
            prev
        } else {
            put(prev, plan.tx + dx, plan.ground + plan.trunk + dy, plan.tz + dz, LEAVES, true)
        }
    }
}

/// `s` after one whole tree: trunk, the dirt block under it, then canopy.
pub open spec fn plan_result(s: Seq<BlockId>, plan: TreePlan) -> Seq<BlockId> {
    let trunk = logs_result(s, plan, plan.trunk as int);
    let rooted = put(trunk, plan.tx as int, plan.ground as int, plan.tz as int, DIRT, false);
    canopy_result(rooted, plan, CANOPY_CELLS as int)
}

/// `s` after the first `n` trees of `plans`.
pub open spec fn trees_result(s: Seq<BlockId>, plans: Seq<TreePlan>, n: int) -> Seq<BlockId>
    decreases n,
{
    if n <= 0 {
        s
    } else {
        plan_result(trees_result(s, plans, n - 1), plans[n - 1])
    }
}

/// Leaves only fill air: the canopy of a tree never changes a cell that
/// held a block before it.
pub proof fn law_canopy_keeps_blocks(s: Seq<BlockId>, plan: TreePlan, k: int, x: int, y: int, z: int)
    requires
        s.len() == CHUNK_VOL,
        cell(s, x, y, z) != AIR,
    ensures
        canopy_result(s, plan, k).len() == CHUNK_VOL,
        cell(canopy_result(s, plan, k), x, y, z) == cell(s, x, y, z),
    decreases k,
{
    if k > 0 {
        law_canopy_keeps_blocks(s, plan, k - 1, x, y, z);
        let prev = canopy_result(s, plan, k - 1);
        let (dx, dy, dz) = spec_canopy_offset(k - 1);
        let (px, py, pz) = (plan.tx + dx, plan.ground + plan.trunk + dy, plan.tz + dz);
        if !canopy_skipped(plan, k - 1) && cell(prev, px, py, pz) == AIR {
            crate::generation::lemma_read_after_write(prev, px, py, pz, LEAVES, x, y, z);
        }
    }
}

fn canopy_offset(k: usize) -> (r: (i32, i32, i32))
    requires
        k < CANOPY_CELLS,
    ensures
        (r.0 as int, r.1 as int, r.2 as int) == spec_canopy_offset(k as int),
{
    let k = k as i32;
    if k < 25 {
        (k / 5 - 2, -2, k % 5 - 2)
    } else if k < 50 {
        ((k - 25) / 5 - 2, -1, (k - 25) % 5 - 2)
    } else if k < 59 {
        ((k - 50) / 3 - 1, 0, (k - 50) % 3 - 1)
    } else {
        ((k - 59) / 3 - 1, 1, (k - 59) % 3 - 1)
    }
}

fn skipped(plan: &TreePlan, k: usize) -> (r: bool)
    requires
        k < CANOPY_CELLS,
    ensures
        r == canopy_skipped(*plan, k as int),
{
    let (dx, dy, dz) = canopy_offset(k);
    let r: i32 = if dy <= -1 { 2 } else { 1 };
    let adx: i32 = if dx < 0 { -dx } else { dx };
    let adz: i32 = if dz < 0 { -dz } else { dz };
    let corner: usize = (if r == 2 { 0usize } else { 4usize }) + (if dx > 0 { 2usize } else { 0usize }) + (if dz > 0 {
        1usize
    } else {
        0usize
    });
    if dy == 1 && adx + adz > 1 {
        return true;
    }
    if adx == r && adz == r && dy <= 0 && plan.skip[corner] {
        return true;
    }
    dx == 0 && dz == 0 && dy <= 0
}

/// Writes `id` at chunk-relative coordinates, which may lie outside the
/// chunk (then nothing happens); with `only_air`, only an air cell is
/// replaced.
fn set_local(data: &mut ChunkData, lx: i64, y: i64, lz: i64, id: BlockId, only_air: bool)
    requires
        old(data).wf(),
    ensures
        final(data).wf(),
        final(data)@ == put(old(data)@, lx as int, y as int, lz as int, id, only_air),
{
    if !(0 <= lx && lx < 16 && 0 <= y && y < 64 && 0 <= lz && lz < 16) {
        return;
    }
    let (x, yy, z) = (lx as i32, y as i32, lz as i32);
    if only_air && data.get(x, yy, z) != AIR {
        return;
    }
    data.set(x, yy, z, id);
}

fn place_tree(plan: &TreePlan, data: &mut ChunkData)
    requires
        old(data).wf(),
    ensures
        final(data).wf(),
        final(data)@ == plan_result(old(data)@, *plan),
{
    let ghost s0 = data@;
    let base: i64 = plan.ground as i64 + 1;
    let mut i: i32 = 0;
    while i < plan.trunk
        invariant
            data.wf(),
            0 <= i,
            i <= plan.trunk || (plan.trunk < 0 && i == 0),
            base == plan.ground + 1,
            data@ == logs_result(s0, *plan, i as int),
        decreases plan.trunk - i,
    {
        set_local(data, plan.tx as i64, base + i as i64, plan.tz as i64, LOG, false);
        i = i + 1;
    }
    assert(data@ == logs_result(s0, *plan, plan.trunk as int));
    set_local(data, plan.tx as i64, plan.ground as i64, plan.tz as i64, DIRT, false);
    let ghost rooted = data@;
    let top_y: i64 = plan.ground as i64 + plan.trunk as i64;
    let mut k: usize = 0;
    while k < CANOPY_CELLS
        invariant
            data.wf(),
            k <= CANOPY_CELLS,
            top_y == plan.ground + plan.trunk,
            rooted == put(logs_result(s0, *plan, plan.trunk as int), plan.tx as int, plan.ground as int, plan.tz as int, DIRT, false),
            data@ == canopy_result(rooted, *plan, k as int),
        decreases CANOPY_CELLS - k,
    {
        let (dx, dy, dz) = canopy_offset(k);
        if !skipped(plan, k) {
            set_local(data, plan.tx as i64 + dx as i64, top_y + dy as i64, plan.tz as i64 + dz as i64, LEAVES, true);
        }
        k = k + 1;
    }
}

/// Places every planned oak tree, in order.
///
/// Plans come from every column within the scan margin around the chunk
/// that carries a tree, so canopies rooted in neighboring chunks finish
/// inside this one.
pub fn run(inputs: &ChunkInputs, data: &mut ChunkData)
    requires
        old(data).wf(),
    ensures
        final(data).wf(),
        final(data)@ == trees_result(old(data)@, inputs.trees@, inputs.trees@.len() as int),
{
    let ghost s0 = data@;
    let mut n: usize = 0;
    while n < inputs.trees.len()
        invariant
            data.wf(),
            n <= inputs.trees@.len(),
            data@ == trees_result(s0, inputs.trees@, n as int),
        decreases inputs.trees@.len() - n,
    {
        place_tree(&inputs.trees[n], data);
        n = n + 1;
    }
}

} // verus!
