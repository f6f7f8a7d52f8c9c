//! Terrain shaping stage: bedrock floor, stone body, dirt or sand skin and
//! the surface block of every column.

use vstd::prelude::*;
use crate::blocks::{BEDROCK, BlockId, DIRT, GRASS, SAND, SNOW, STONE};
use crate::generation::{
    CHUNK_AXIS, CHUNK_HEIGHT, ChunkData, ChunkInputs, cell, chunk_from, column_index, in_chunk,
    lemma_chunk_ext, lemma_read_after_write, with_cell,
};

verus! {

/// Default world seed used by tests and debug tooling.
pub const SEED: i32 = 1337;

/// Per-column terrain facts derived once and shared by later stages.
#[derive(Clone, Copy)]
pub struct ColumnInfo {
    /// Surface height: the y of the topmost solid block.
    pub h: i32,
    /// Whether an oak tree trunk grows on this column.
    pub tree: bool,
    /// Whether the surface is beach sand (low elevations).
    pub sandy: bool,
    /// Whether the surface is snow (high elevations).
    pub snowy: bool,
}

/// The block the terrain stage puts at height `y` of a column, for
/// `1 <= y <= info.h`: the surface block on top, a three-block skin of
/// dirt (sand on beaches) below it, stone further down.
pub open spec fn layer_block(info: ColumnInfo, y: int) -> BlockId {
    if y == info.h {
        if info.sandy {
            SAND
        } else if info.snowy {
            SNOW
        } else {
            GRASS
        }
    } else if y >= info.h - 3 {
        if info.sandy {
            SAND
        } else {
            DIRT
        }
    } else {
        STONE
    }
}

/// The block the terrain stage leaves at `(lx, y, lz)` of volume `s`.
pub open spec fn terrain_cell(cols: Seq<ColumnInfo>, s: Seq<BlockId>, lx: int, y: int, lz: int) -> BlockId {
    let info = cols[column_index(lx, lz)];
    if y == 0 {
        BEDROCK
    } else if 1 <= y <= info.h {
        layer_block(info, y)
    } else {
        cell(s, lx, y, lz)
    }
}

/// The volume after the terrain stage ran over `s`.
pub open spec fn terrain_result(cols: Seq<ColumnInfo>, s: Seq<BlockId>) -> Seq<BlockId> {
    chunk_from(|lx: int, y: int, lz: int| terrain_cell(cols, s, lx, y, lz))
}

fn surface_block(info: ColumnInfo, y: i32) -> (r: BlockId)
    ensures
        r == layer_block(info, y as int),
{
    if y == info.h {
        if info.sandy {
            SAND
        } else if info.snowy {
            SNOW
        } else {
            GRASS
        }
    } else if (y as i64) >= (info.h as i64) - 3 {
        if info.sandy {
            SAND
        } else {
            DIRT
        }
    } else {
        STONE
    }
}

/// Fills bedrock at y=0, then stone with a 3-block dirt/sand skin topped by
/// grass, sand or snow according to each column's [`ColumnInfo`].
pub fn run(inputs: &ChunkInputs, data: &mut ChunkData)
    requires
        inputs.wf(),
        old(data).wf(),
    ensures
        final(data).wf(),
        final(data)@ == terrain_result(inputs.columns@, old(data)@),
{
    let ghost s0 = data@;
    let ghost cols = inputs.columns@;
    let mut lz: i32 = 0;
    while lz < CHUNK_AXIS
        invariant
            0 <= lz <= CHUNK_AXIS,
            data.wf(),
            inputs.wf(),
            cols == inputs.columns@,
            s0.len() == 16384,
            forall|x: int, y: int, z: int| #![trigger cell(data@, x, y, z)]
                in_chunk(x, y, z) ==> cell(data@, x, y, z) == (if z < lz {
                    terrain_cell(cols, s0, x, y, z)
                } else {
                    cell(s0, x, y, z)
                }),
        decreases CHUNK_AXIS - lz,
    {
        let mut lx: i32 = 0;
        while lx < CHUNK_AXIS
            invariant
                0 <= lz < CHUNK_AXIS,
                0 <= lx <= CHUNK_AXIS,
                data.wf(),
                inputs.wf(),
                cols == inputs.columns@,
                s0.len() == 16384,
                forall|x: int, y: int, z: int| #![trigger cell(data@, x, y, z)]
                    in_chunk(x, y, z) ==> cell(data@, x, y, z) == (if z < lz || (z == lz && x < lx) {
                        terrain_cell(cols, s0, x, y, z)
                    } else {
                        cell(s0, x, y, z)
                    }),
            decreases CHUNK_AXIS - lx,
        {
            let info = inputs.columns[(lz * 16 + lx) as usize];
            fill_column(data, lx, lz, info, Ghost(s0), Ghost(cols));
            lx = lx + 1;
        }
        lz = lz + 1;
    }
    proof {
        lemma_chunk_ext(data@, |x: int, y: int, z: int| terrain_cell(cols, s0, x, y, z));
    }
}

fn fill_column(
    data: &mut ChunkData,
    lx: i32,
    lz: i32,
    info: ColumnInfo,
    Ghost(s0): Ghost<Seq<BlockId>>,
    Ghost(cols): Ghost<Seq<ColumnInfo>>,
)
    requires
        old(data).wf(),
        0 <= lx < 16,
        0 <= lz < 16,
        cols.len() == 256,
        s0.len() == 16384,
        info == cols[column_index(lx as int, lz as int)],
        forall|x: int, y: int, z: int| #![trigger cell(old(data)@, x, y, z)]
            in_chunk(x, y, z) ==> cell(old(data)@, x, y, z) == (if z < lz || (z == lz && x < lx) {
                terrain_cell(cols, s0, x, y, z)
            } else {
                cell(s0, x, y, z)
            }),
    ensures
        final(data).wf(),
        forall|x: int, y: int, z: int| #![trigger cell(final(data)@, x, y, z)]
            in_chunk(x, y, z) ==> cell(final(data)@, x, y, z) == (if z < lz || (z == lz && x <= lx) {
                terrain_cell(cols, s0, x, y, z)
            } else {
                cell(s0, x, y, z)
            }),
{
    let ghost before = data@;
    data.set(lx, 0, lz, BEDROCK);
    proof {
        assert forall|x: int, y: int, z: int| in_chunk(x, y, z) implies #[trigger] cell(data@, x, y, z) == (
        if z < lz || (z == lz && x < lx) || (z == lz && x == lx && y < 1) {
            terrain_cell(cols, s0, x, y, z)
        } else {
            cell(s0, x, y, z)
        }) by {
            lemma_read_after_write(before, lx as int, 0, lz as int, BEDROCK, x, y, z);
        }
    }
    let top: i32 = if info.h < CHUNK_HEIGHT - 1 { info.h } else { CHUNK_HEIGHT - 1 };
    let mut y: i32 = 1;
    while y <= top
        invariant
            data.wf(),
            0 <= lx < 16,
            0 <= lz < 16,
            cols.len() == 256,
            s0.len() == 16384,
            info == cols[column_index(lx as int, lz as int)],
            top < CHUNK_HEIGHT,
            top <= info.h,
            top == info.h || top == CHUNK_HEIGHT - 1,
            1 <= y,
            y <= top + 1 || top < 1,
            forall|x: int, yy: int, z: int| #![trigger cell(data@, x, yy, z)]
                in_chunk(x, yy, z) ==> cell(data@, x, yy, z) == (
                if z < lz || (z == lz && x < lx) || (z == lz && x == lx && yy < y) {
                    terrain_cell(cols, s0, x, yy, z)
                } else {
                    cell(s0, x, yy, z)
                }),
        decreases top + 1 - y,
    {
        let id = surface_block(info, y);
        let ghost prev = data@;
        data.set(lx, y, lz, id);
        proof {
            assert forall|x: int, yy: int, z: int| in_chunk(x, yy, z) implies #[trigger] cell(data@, x, yy, z) == (
            if z < lz || (z == lz && x < lx) || (z == lz && x == lx && yy < y + 1) {
                terrain_cell(cols, s0, x, yy, z)
            } else {
                cell(s0, x, yy, z)
            }) by {
                lemma_read_after_write(prev, lx as int, y as int, lz as int, id, x, yy, z);
            }
        }
        y = y + 1;
    }
}

} // verus!
