//! Face selection for chunk meshes: which cube faces of a chunk are
//! visible, which tile they show, and how much ambient occlusion darkens
//! each corner.
//!
//! Faces are emitted only against non-hiding neighbors: water faces only
//! against air, opaque and cutout faces wherever the neighbor is air or a
//! different non-opaque block (so glass-to-glass faces are culled).

use vstd::prelude::*;
use crate::blocks::{AIR, BlockId, RenderKind, TileId, def, is_registered, spec_def};
use crate::generation::{CHUNK_VOL, x_of, y_of, z_of};
use crate::world::{PaddedChunk, in_padded, padded_cell};

verus! {

/// One visible cube face of a chunk.
#[derive(Clone, Copy)]
pub struct Face {
    /// Chunk-local x of the block.
    pub x: i32,
    /// y of the block.
    pub y: i32,
    /// Chunk-local z of the block.
    pub z: i32,
    /// Face index in tile order: +X, -X, +Y, -Y, +Z, -Z.
    pub face: usize,
    /// Atlas tile shown on the face.
    pub tile: TileId,
    /// Ambient-occlusion level of each corner, 0 (darkest) to 3 (open).
    pub ao: [u32; 4],
    /// Whether the quad's diagonal is flipped to follow the occlusion.
    pub flip: bool,
    /// Whether the face belongs to the translucent water geometry.
    pub liquid: bool,
}

/// Number of faces of a cube.
pub const FACE_COUNT: usize = 6;

/// Outward normal of face `f`.
pub open spec fn spec_face_dir(f: int) -> (int, int, int) {
    if f == 0 {
        (1, 0, 0)
    } else if f == 1 {
        (-1, 0, 0)
    } else if f == 2 {
        (0, 1, 0)
    } else if f == 3 {
        (0, -1, 0)
    } else if f == 4 {
        (0, 0, 1)
    } else {
        (0, 0, -1)
    }
}

/// Unit-cube corner `k` of face `f`, counter-clockwise seen from outside.
pub open spec fn spec_face_corner(f: int, k: int) -> (int, int, int) {
    if f == 0 {
        if k == 0 { (1, 0, 1) } else if k == 1 { (1, 0, 0) } else if k == 2 { (1, 1, 0) } else { (1, 1, 1) }
    } else if f == 1 {
        if k == 0 { (0, 0, 0) } else if k == 1 { (0, 0, 1) } else if k == 2 { (0, 1, 1) } else { (0, 1, 0) }
    } else if f == 2 {
        if k == 0 { (0, 1, 1) } else if k == 1 { (1, 1, 1) } else if k == 2 { (1, 1, 0) } else { (0, 1, 0) }
    } else if f == 3 {
        if k == 0 { (0, 0, 0) } else if k == 1 { (1, 0, 0) } else if k == 2 { (1, 0, 1) } else { (0, 0, 1) }
    } else if f == 4 {
        if k == 0 { (0, 0, 1) } else if k == 1 { (1, 0, 1) } else if k == 2 { (1, 1, 1) } else { (0, 1, 1) }
    } else {
        if k == 0 { (1, 0, 0) } else if k == 1 { (0, 0, 0) } else if k == 2 { (0, 1, 0) } else { (1, 1, 0) }
    }
}

/// Component `axis` of a triple.
pub open spec fn comp(t: (int, int, int), axis: int) -> int {
    if axis == 0 {
        t.0
    } else if axis == 1 {
        t.1
    } else {
        t.2
    }
}

/// The triple with `v` added to component `axis`.
pub open spec fn bump(t: (int, int, int), axis: int, v: int) -> (int, int, int) {
    if axis == 0 {
        (t.0 + v, t.1, t.2)
    } else if axis == 1 {
        (t.0, t.1 + v, t.2)
    } else {
        (t.0, t.1, t.2 + v)
    }
}

/// The axis a face's normal runs along.
pub open spec fn face_axis(f: int) -> int {
    f / 2
}

/// Whether the block at padded cell `t` darkens occlusion.
pub open spec fn casts(view: Seq<BlockId>, t: (int, int, int)) -> bool {
    spec_def(padded_cell(view, t.0, t.1, t.2)).ao_cast
}

/// Occlusion level from two side cells and the diagonal cell: fully dark
/// when both sides cast, else three minus the casting cells.
pub open spec fn spec_ao_level(view: Seq<BlockId>, s1: (int, int, int), s2: (int, int, int), sc: (int, int, int)) -> u32 {
    let a = if casts(view, s1) { 1int } else { 0int };
    let b = if casts(view, s2) { 1int } else { 0int };
    let c = if casts(view, sc) { 1int } else { 0int };
    if a == 1 && b == 1 {
        0
    } else {
        (3 - (a + b + c)) as u32
    }
}

/// The sign a corner coordinate pushes its side cells: +1 for the far
/// side of the cube, -1 for the near side.
pub open spec fn sign_of(c: int) -> int {
    if c == 1 {
        1
    } else {
        -1
    }
}

/// Occlusion level of corner `k` of face `f` of the block at `(x, y, z)`:
/// the cells beside the corner in the layer the face looks into.
pub open spec fn corner_ao(view: Seq<BlockId>, x: int, y: int, z: int, f: int, k: int) -> u32 {
    let d = spec_face_dir(f);
    let axis = face_axis(f);
    let ta = (axis + 1) % 3;
    let tb = (axis + 2) % 3;
    let base = (x + d.0, y + d.1, z + d.2);
    let c = spec_face_corner(f, k);
    let sa = sign_of(comp(c, ta));
    let sb = sign_of(comp(c, tb));
    spec_ao_level(view, bump(base, ta, sa), bump(base, tb, sb), bump(bump(base, ta, sa), tb, sb))
}

/// Whether face `f` of the block at `(x, y, z)` is visible.
pub open spec fn draws(view: Seq<BlockId>, x: int, y: int, z: int, f: int) -> bool {
    let id = padded_cell(view, x, y, z);
    let d = spec_face_dir(f);
    let nb = padded_cell(view, x + d.0, y + d.1, z + d.2);
    id != AIR && match spec_def(id).render {
        RenderKind::Liquid => nb == AIR,
        RenderKind::Opaque | RenderKind::Cutout => nb == AIR || (!spec_def(nb).opaque && nb != id),
        RenderKind::Air => false,
    }
}

/// The face record for face `f` of the block at `(x, y, z)`.
pub open spec fn spec_make_face(view: Seq<BlockId>, x: int, y: int, z: int, f: int) -> Face {
    let id = padded_cell(view, x, y, z);
    let liquid = spec_def(id).render == RenderKind::Liquid;
    let ao = |k: int| if liquid { 3u32 } else { corner_ao(view, x, y, z, f, k) };
    Face {
        x: x as i32,
        y: y as i32,
        z: z as i32,
        face: f as usize,
        tile: spec_def(id).tiles[f],
        ao: [ao(0), ao(1), ao(2), ao(3)],
        flip: ao(0) + ao(2) < ao(1) + ao(3),
        liquid,
    }
}

/// The visible faces among the first `n` faces of the block at `(x, y, z)`.
pub open spec fn cell_faces(view: Seq<BlockId>, x: int, y: int, z: int, n: int) -> Seq<Face>
    decreases n,
{
    if n <= 0 {
        Seq::empty()
    } else if draws(view, x, y, z, n - 1) {
        cell_faces(view, x, y, z, n - 1).push(spec_make_face(view, x, y, z, n - 1))
    } else {
        cell_faces(view, x, y, z, n - 1)
    }
}

/// The visible faces of the first `n` blocks of the chunk, blocks in
/// packed order (by y, then z, then x), faces in tile order.
pub open spec fn chunk_faces(view: Seq<BlockId>, n: int) -> Seq<Face>
    decreases n,
{
    if n <= 0 {
        Seq::empty()
    } else {
        chunk_faces(view, n - 1) + cell_faces(view, x_of(n - 1), y_of(n - 1), z_of(n - 1), FACE_COUNT as int)
    }
}

fn face_dir(f: usize) -> (r: [i32; 3])
    requires
        f < FACE_COUNT,
    ensures
        (r[0] as int, r[1] as int, r[2] as int) == spec_face_dir(f as int),
{
    if f == 0 {
        [1, 0, 0]
    } else if f == 1 {
        [-1, 0, 0]
    } else if f == 2 {
        [0, 1, 0]
    } else if f == 3 {
        [0, -1, 0]
    } else if f == 4 {
        [0, 0, 1]
    } else {
        [0, 0, -1]
    }
}

fn face_corner(f: usize, k: usize) -> (r: [i32; 3])
    requires
        f < FACE_COUNT,
        k < 4,
    ensures
        (r[0] as int, r[1] as int, r[2] as int) == spec_face_corner(f as int, k as int),
{
    if f == 0 {
        if k == 0 { [1, 0, 1] } else if k == 1 { [1, 0, 0] } else if k == 2 { [1, 1, 0] } else { [1, 1, 1] }
    } else if f == 1 {
        if k == 0 { [0, 0, 0] } else if k == 1 { [0, 0, 1] } else if k == 2 { [0, 1, 1] } else { [0, 1, 0] }
    } else if f == 2 {
        if k == 0 { [0, 1, 1] } else if k == 1 { [1, 1, 1] } else if k == 2 { [1, 1, 0] } else { [0, 1, 0] }
    } else if f == 3 {
        if k == 0 { [0, 0, 0] } else if k == 1 { [1, 0, 0] } else if k == 2 { [1, 0, 1] } else { [0, 0, 1] }
    } else if f == 4 {
        if k == 0 { [0, 0, 1] } else if k == 1 { [1, 0, 1] } else if k == 2 { [1, 1, 1] } else { [0, 1, 1] }
    } else {
        if k == 0 { [1, 0, 0] } else if k == 1 { [0, 0, 0] } else if k == 2 { [0, 1, 0] } else { [1, 1, 0] }
    }
}

fn corner_sign(v: i32) -> (r: i32)
    ensures
        r == sign_of(v as int),
{
    if v == 1 {
        1
    } else {
        -1
    }
}

fn ao_level(view: &PaddedChunk, cells: &[[i32; 3]; 3]) -> (r: u32)
    requires
        view.wf(),
        view.registered(),
        forall|i: int| 0 <= i < 3 ==> in_padded(#[trigger] cells[i][0] as int, cells[i][1] as int, cells[i][2] as int),
    ensures
        r == spec_ao_level(
            view@,
            (cells[0][0] as int, cells[0][1] as int, cells[0][2] as int),
            (cells[1][0] as int, cells[1][1] as int, cells[1][2] as int),
            (cells[2][0] as int, cells[2][1] as int, cells[2][2] as int),
        ),
        r <= 3,
{
    let s1: u32 = if def(view.get(cells[0][0], cells[0][1], cells[0][2])).ao_cast { 1 } else { 0 };
    let s2: u32 = if def(view.get(cells[1][0], cells[1][1], cells[1][2])).ao_cast { 1 } else { 0 };
    let sc: u32 = if def(view.get(cells[2][0], cells[2][1], cells[2][2])).ao_cast { 1 } else { 0 };
    if s1 == 1 && s2 == 1 {
        0
    } else {
        3 - (s1 + s2 + sc)
    }
}

/// The face index, in tile order, of the face whose normal runs along
/// `axis` (0 = x, 1 = y, 2 = z) with direction `(dx, dy, dz)`.
pub fn axis_to_face_index(axis: usize, dx: i32, dy: i32, dz: i32) -> (r: usize)
    ensures
        r < FACE_COUNT,
        r == 2 * (if axis <= 1 { axis as int } else { 2int }) + (if (if axis == 0 {
            dx > 0
        } else if axis == 1 {
            dy > 0
        } else {
            dz > 0
        }) {
            0int
        } else {
            1int
        }),
{
    let positive = match axis {
        0 => dx > 0,
        1 => dy > 0,
        _ => dz > 0,
    };
    match (axis, positive) {
        (0, true) => 0,
        (0, false) => 1,
        (1, true) => 2,
        (1, false) => 3,
        (_, true) => 4,
        (_, false) => 5,
    }
}

fn corner_level(view: &PaddedChunk, x: i32, y: i32, z: i32, f: usize, k: usize) -> (r: u32)
    requires
        view.wf(),
        view.registered(),
        0 <= x < 16,
        0 <= y < 64,
        0 <= z < 16,
        f < FACE_COUNT,
        k < 4,
    ensures
        r == corner_ao(view@, x as int, y as int, z as int, f as int, k as int),
        r <= 3,
{
    let d = face_dir(f);
    let axis: usize = if d[0] != 0 { 0 } else if d[1] != 0 { 1 } else { 2 };
    assert(axis == face_axis(f as int));
    let ta = (axis + 1) % 3;
    let tb = (axis + 2) % 3;
    let base: [i32; 3] = [x + d[0], y + d[1], z + d[2]];
    let c = face_corner(f, k);
    let sa = corner_sign(c[ta]);
    let sb = corner_sign(c[tb]);
    let mut o1 = base;
    let mut o2 = base;
    let mut oc = base;
    o1[ta] = o1[ta] + sa;
    o2[tb] = o2[tb] + sb;
    oc[ta] = oc[ta] + sa;
    oc[tb] = oc[tb] + sb;
    ao_level(view, &[o1, o2, oc])
}

fn face_at(view: &PaddedChunk, x: i32, y: i32, z: i32, f: usize) -> (r: Option<Face>)
    requires
        view.wf(),
        view.registered(),
        0 <= x < 16,
        0 <= y < 64,
        0 <= z < 16,
        f < FACE_COUNT,
    ensures
        r == (if draws(view@, x as int, y as int, z as int, f as int) {
            Some(spec_make_face(view@, x as int, y as int, z as int, f as int))
        } else {
            None
        }),
{
    let id = view.get(x, y, z);
    if id == AIR {
        return None;
    }
    let block_def = def(id);
    let d = face_dir(f);
    let nb = view.get(x + d[0], y + d[1], z + d[2]);
    let draw = match block_def.render {
        RenderKind::Liquid => nb == AIR,
        RenderKind::Opaque | RenderKind::Cutout => nb == AIR || (!def(nb).opaque && nb != id),
        RenderKind::Air => false,
    };
    if !draw {
        return None;
    }
    let liquid = match block_def.render {
        RenderKind::Liquid => true,
        _ => false,
    };
    let mut ao: [u32; 4] = [3, 3, 3, 3];
    if !liquid {
        ao = [
            corner_level(view, x, y, z, f, 0),
            corner_level(view, x, y, z, f, 1),
            corner_level(view, x, y, z, f, 2),
            corner_level(view, x, y, z, f, 3),
        ];
    }
    let axis: usize = if d[0] != 0 { 0 } else if d[1] != 0 { 1 } else { 2 };
    let tile_face = axis_to_face_index(axis, d[0], d[1], d[2]);
    assert(tile_face == f);
    let face = Face {
        x,
        y,
        z,
        face: f,
        tile: block_def.tiles[tile_face],
        ao,
        flip: ao[0] + ao[2] < ao[1] + ao[3],
        liquid,
    };
    assert(face == spec_make_face(view@, x as int, y as int, z as int, f as int));
    Some(face)
}

/// Every visible face of the chunk whose padded neighborhood is `view`,
/// blocks in packed order (by y, then z, then x) and faces in tile order.
pub fn mesh_faces(view: &PaddedChunk) -> (r: Vec<Face>)
    requires
        view.wf(),
        view.registered(),
    ensures
        r@ == chunk_faces(view@, CHUNK_VOL as int),
{
    let mut out: Vec<Face> = Vec::new();
    let mut n: usize = 0;
    while n < CHUNK_VOL
        invariant
            view.wf(),
            view.registered(),
            n <= CHUNK_VOL,
            out@ == chunk_faces(view@, n as int),
        decreases CHUNK_VOL - n,
    {
        let x = (n % 16) as i32;
        let z = ((n / 16) % 16) as i32;
        let y = (n / 256) as i32;
        assert(x == x_of(n as int) && y == y_of(n as int) && z == z_of(n as int));
        let ghost before = out@;
        let mut f: usize = 0;
        while f < FACE_COUNT
            invariant
                view.wf(),
                view.registered(),
                n < CHUNK_VOL,
                0 <= x < 16,
                0 <= z < 16,
                0 <= y < 64,
                f <= FACE_COUNT,
                before == chunk_faces(view@, n as int),
                out@ == before + cell_faces(view@, x as int, y as int, z as int, f as int),
            decreases FACE_COUNT - f,
        {
            match face_at(view, x, y, z, f) {
                Some(face) => {
                    out.push(face);
                    assert(out@ =~= before + cell_faces(view@, x as int, y as int, z as int, f + 1));
                },
                None => {},
            }
            f = f + 1;
        }
        n = n + 1;
    }
    out
}

} // verus!
