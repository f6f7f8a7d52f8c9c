//! Cave carving stage: removes blocks where the cave noise sits in its
//! carving band, below each column's protected surface skin.

use vstd::prelude::*;
use crate::blocks::{AIR, BlockId};
use crate::generation::{
    CHUNK_AXIS, CHUNK_HEIGHT, ChunkData, ChunkInputs, cell, chunk_from, idx, in_chunk,
    lemma_chunk_ext, lemma_read_after_write, spec_idx,
};

verus! {

/// The highest `y` in `[lo, top]` (and at least 0) whose cell of column
/// `(lx, lz)` is not air, or 0 when there is none.
pub open spec fn top_solid(s: Seq<BlockId>, lx: int, lz: int, lo: int, top: int) -> int
    decreases top + 1,
{
    if top < lo || top < 0 {
        0
    } else if cell(s, lx, top, lz) != AIR {
        top
    } else {
        top_solid(s, lx, lz, lo, top - 1)
    }
}

/// The highest y the carving may reach in column `(lx, lz)` of `s`: the
/// protected skin below the column's top block, capped.
pub open spec fn carve_top(inputs: ChunkInputs, s: Seq<BlockId>, lx: int, lz: int) -> int {
    let h = top_solid(s, lx, lz, inputs.cave_min_y as int, CHUNK_HEIGHT - 1);
    let below_skin = h - inputs.cave_skin;
    if below_skin < inputs.cave_top_cap {
        below_skin
    } else {
        inputs.cave_top_cap as int
    }
}

/// The block the cave stage leaves at `(lx, y, lz)` of volume `s`.
pub open spec fn caves_cell(inputs: ChunkInputs, s: Seq<BlockId>, lx: int, y: int, lz: int) -> BlockId {
    if inputs.cave_min_y <= y <= carve_top(inputs, s, lx, lz) && inputs.cave@[spec_idx(lx, y, lz)] {
        AIR
    } else {
        cell(s, lx, y, lz)
    }
}

/// The volume after the cave stage ran over `s`.
pub open spec fn caves_result(inputs: ChunkInputs, s: Seq<BlockId>) -> Seq<BlockId> {
    chunk_from(|lx: int, y: int, lz: int| caves_cell(inputs, s, lx, y, lz))
}

/// Finds the highest non-air cell of a column at or above `lo`.
fn column_top(data: &ChunkData, lx: i32, lz: i32, lo: i32) -> (h: i32)
    requires
        data.wf(),
        0 <= lx < 16,
        0 <= lz < 16,
    ensures
        h == top_solid(data@, lx as int, lz as int, lo as int, CHUNK_HEIGHT - 1),
        0 <= h < CHUNK_HEIGHT,
{
    let mut y: i32 = CHUNK_HEIGHT - 1;
    while y >= lo && y >= 0
        invariant
            data.wf(),
            0 <= lx < 16,
            0 <= lz < 16,
            -1 <= y < CHUNK_HEIGHT,
            top_solid(data@, lx as int, lz as int, lo as int, CHUNK_HEIGHT - 1)
                == top_solid(data@, lx as int, lz as int, lo as int, y as int),
        decreases y + 1,
    {
        if data.get(lx, y, lz) != AIR {
            return y;
        }
        y = y - 1;
    }
    0
}

/// Hollows out caves by deleting blocks where the cave noise crosses its
/// band, never touching the layers below `cave_min_y` or the
/// `cave_skin`-block skin under each column's top block.
pub fn run(inputs: &ChunkInputs, data: &mut ChunkData)
    requires
        inputs.wf(),
        old(data).wf(),
    ensures
        final(data).wf(),
        final(data)@ == caves_result(*inputs, old(data)@),
{
    let ghost s0 = data@;
    let mut lz: i32 = 0;
    while lz < CHUNK_AXIS
        invariant
            0 <= lz <= CHUNK_AXIS,
            data.wf(),
            inputs.wf(),
            s0.len() == 16384,
            forall|x: int, y: int, z: int| #![trigger cell(data@, x, y, z)]
                in_chunk(x, y, z) ==> cell(data@, x, y, z) == (if z < lz {
                    caves_cell(*inputs, s0, x, y, z)
                } else {
                    cell(s0, x, y, z)
                }),
        decreases CHUNK_AXIS - lz,
    {
        let mut lx: i32 = 0;
        while lx < CHUNK_AXIS
            invariant
                0 <= lz < CHUNK_AXIS,
                0 <= lx <= CHUNK_AXIS,
                data.wf(),
                inputs.wf(),
                s0.len() == 16384,
                forall|x: int, y: int, z: int| #![trigger cell(data@, x, y, z)]
                    in_chunk(x, y, z) ==> cell(data@, x, y, z) == (if z < lz || (z == lz && x < lx) {
                        caves_cell(*inputs, s0, x, y, z)
                    } else {
                        cell(s0, x, y, z)
                    }),
            decreases CHUNK_AXIS - lx,
        {
            carve_column(inputs, data, lx, lz, Ghost(s0));
            lx = lx + 1;
        }
        lz = lz + 1;
    }
    proof {
        lemma_chunk_ext(data@, |x: int, y: int, z: int| caves_cell(*inputs, s0, x, y, z));
    }
}

proof fn lemma_top_solid_same(a: Seq<BlockId>, b: Seq<BlockId>, lx: int, lz: int, lo: int, top: int)
    requires
        forall|y: int| #![trigger cell(a, lx, y, lz)] cell(a, lx, y, lz) == cell(b, lx, y, lz),
    ensures
        top_solid(a, lx, lz, lo, top) == top_solid(b, lx, lz, lo, top),
    decreases top + 1,
{
    if top < lo || top < 0 {
    } else {
        assert(cell(a, lx, top, lz) == cell(b, lx, top, lz));
        lemma_top_solid_same(a, b, lx, lz, lo, top - 1);
    }
}

fn carve_column(inputs: &ChunkInputs, data: &mut ChunkData, lx: i32, lz: i32, Ghost(s0): Ghost<Seq<BlockId>>)
    requires
        old(data).wf(),
        inputs.wf(),
        0 <= lx < 16,
        0 <= lz < 16,
        s0.len() == 16384,
        forall|x: int, y: int, z: int| #![trigger cell(old(data)@, x, y, z)]
            in_chunk(x, y, z) ==> cell(old(data)@, x, y, z) == (if z < lz || (z == lz && x < lx) {
                caves_cell(*inputs, s0, x, y, z)
            } else {
                cell(s0, x, y, z)
            }),
    ensures
        final(data).wf(),
        forall|x: int, y: int, z: int| #![trigger cell(final(data)@, x, y, z)]
            in_chunk(x, y, z) ==> cell(final(data)@, x, y, z) == (if z < lz || (z == lz && x <= lx) {
                caves_cell(*inputs, s0, x, y, z)
            } else {
                cell(s0, x, y, z)
            }),
{
    let h = column_top(data, lx, lz, inputs.cave_min_y);
    proof {
        assert forall|y: int| #![trigger cell(data@, lx as int, y, lz as int)]
            cell(data@, lx as int, y, lz as int) == cell(s0, lx as int, y, lz as int) by {
            if in_chunk(lx as int, y, lz as int) {
                assert(cell(data@, lx as int, y, lz as int) == cell(s0, lx as int, y, lz as int));
            }
        }
        lemma_top_solid_same(data@, s0, lx as int, lz as int, inputs.cave_min_y as int, CHUNK_HEIGHT - 1);
    }
    let below_skin: i64 = h as i64 - inputs.cave_skin as i64;
    let top: i64 = if below_skin < inputs.cave_top_cap as i64 { below_skin } else { inputs.cave_top_cap as i64 };
    assert(top == carve_top(*inputs, s0, lx as int, lz as int));
    let last: i32 = if top < (CHUNK_HEIGHT - 1) as i64 { top as i32 } else { CHUNK_HEIGHT - 1 };
    let mut y: i32 = if inputs.cave_min_y > 0 { inputs.cave_min_y } else { 0 };
    while y <= last
        invariant
            data.wf(),
            inputs.wf(),
            0 <= lx < 16,
            0 <= lz < 16,
            s0.len() == 16384,
            top == carve_top(*inputs, s0, lx as int, lz as int),
            last <= top,
            last <= CHUNK_HEIGHT - 1,
            last == top || last == CHUNK_HEIGHT - 1,
            0 <= y,
            inputs.cave_min_y <= y,
            y <= last + 1 || last < 0 || y == inputs.cave_min_y,
            forall|x: int, yy: int, z: int| #![trigger cell(data@, x, yy, z)]
                in_chunk(x, yy, z) ==> cell(data@, x, yy, z) == (
                if z < lz || (z == lz && x < lx) || (z == lz && x == lx && yy < y) {
                    caves_cell(*inputs, s0, x, yy, z)
                } else {
                    cell(s0, x, yy, z)
                }),
        decreases last + 1 - y,
    {
        if inputs.cave[idx(lx, y, lz)] {
            let ghost prev = data@;
            data.set(lx, y, lz, AIR);
            proof {
                assert forall|x: int, yy: int, z: int| in_chunk(x, yy, z) implies #[trigger] cell(data@, x, yy, z) == (
                if z < lz || (z == lz && x < lx) || (z == lz && x == lx && yy < y + 1) {
                    caves_cell(*inputs, s0, x, yy, z)
                } else {
                    cell(s0, x, yy, z)
                }) by {
                    lemma_read_after_write(prev, lx as int, y as int, lz as int, AIR, x, yy, z);
                }
            }
        }
        y = y + 1;
    }
}

} // verus!
