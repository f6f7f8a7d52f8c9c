//! Water flooding stage: fills columns below sea level up to [`SEA_LEVEL`].

use vstd::prelude::*;
use crate::blocks::{BlockId, WATER};
use crate::generation::terrain::ColumnInfo;
use crate::generation::{
    CHUNK_AXIS, ChunkData, ChunkInputs, SEA_LEVEL, cell, chunk_from, column_index, in_chunk,
    lemma_chunk_ext, lemma_read_after_write,
};

verus! {

/// The block the water stage leaves at `(lx, y, lz)` of volume `s`:
/// water from just above a sunken surface up to the sea level.
pub open spec fn water_cell(cols: Seq<ColumnInfo>, s: Seq<BlockId>, lx: int, y: int, lz: int) -> BlockId {
    let h = cols[column_index(lx, lz)].h;
    if h < SEA_LEVEL && h + 1 <= y <= SEA_LEVEL {
        WATER
    } else {
        cell(s, lx, y, lz)
    }
}

/// The volume after the water stage ran over `s`.
pub open spec fn water_result(cols: Seq<ColumnInfo>, s: Seq<BlockId>) -> Seq<BlockId> {
    chunk_from(|lx: int, y: int, lz: int| water_cell(cols, s, lx, y, lz))
}

/// Floods every column whose terrain surface lies below [`SEA_LEVEL`] with
/// water from just above the surface up to and including the sea level.
pub fn run(inputs: &ChunkInputs, data: &mut ChunkData)
    requires
        inputs.wf(),
        old(data).wf(),
    ensures
        final(data).wf(),
        final(data)@ == water_result(inputs.columns@, old(data)@),
{
    let ghost s0 = data@;
    let ghost cols = inputs.columns@;
    let mut lz: i32 = 0;
    while lz < CHUNK_AXIS
        invariant
            0 <= lz <= CHUNK_AXIS,
            data.wf(),
            inputs.wf(),
            cols == inputs.columns@,
            s0.len() == 16384,
            forall|x: int, y: int, z: int| #![trigger cell(data@, x, y, z)]
                in_chunk(x, y, z) ==> cell(data@, x, y, z) == (if z < lz {
                    water_cell(cols, s0, x, y, z)
                } else {
                    cell(s0, x, y, z)
                }),
        decreases CHUNK_AXIS - lz,
    {
        let mut lx: i32 = 0;
        while lx < CHUNK_AXIS
            invariant
                0 <= lz < CHUNK_AXIS,
                0 <= lx <= CHUNK_AXIS,
                data.wf(),
                inputs.wf(),
                cols == inputs.columns@,
                s0.len() == 16384,
                forall|x: int, y: int, z: int| #![trigger cell(data@, x, y, z)]
                    in_chunk(x, y, z) ==> cell(data@, x, y, z) == (if z < lz || (z == lz && x < lx) {
                        water_cell(cols, s0, x, y, z)
                    } else {
                        cell(s0, x, y, z)
                    }),
            decreases CHUNK_AXIS - lx,
        {
            let h = inputs.columns[(lz * 16 + lx) as usize].h;
            if h < SEA_LEVEL {
                let mut y: i32 = if h + 1 > 0 { h + 1 } else { 0 };
                while y <= SEA_LEVEL
                    invariant
                        data.wf(),
                        0 <= lx < 16,
                        0 <= lz < 16,
                        cols.len() == 256,
                        s0.len() == 16384,
                        h == cols[column_index(lx as int, lz as int)].h,
                        h < SEA_LEVEL,
                        0 <= y <= SEA_LEVEL + 1,
                        h + 1 <= y,
                        forall|x: int, yy: int, z: int| #![trigger cell(data@, x, yy, z)]
                            in_chunk(x, yy, z) ==> cell(data@, x, yy, z) == (
                            if z < lz || (z == lz && x < lx) || (z == lz && x == lx && yy < y) {
                                water_cell(cols, s0, x, yy, z)
                            } else {
                                cell(s0, x, yy, z)
                            }),
                    decreases SEA_LEVEL + 1 - y,
                {
                    let ghost prev = data@;
                    data.set(lx, y, lz, WATER);
                    proof {
                        assert forall|x: int, yy: int, z: int| in_chunk(x, yy, z) implies #[trigger] cell(data@, x, yy, z) == (
                        if z < lz || (z == lz && x < lx) || (z == lz && x == lx && yy < y + 1) {
                            water_cell(cols, s0, x, yy, z)
                        } else {
                            cell(s0, x, yy, z)
                        }) by {
                            lemma_read_after_write(prev, lx as int, y as int, lz as int, WATER, x, yy, z);
                        }
                    }
                    y = y + 1;
                }
            }
            lx = lx + 1;
        }
        lz = lz + 1;
    }
    proof {
        lemma_chunk_ext(data@, |x: int, y: int, z: int| water_cell(cols, s0, x, y, z));
    }
}

} // verus!
