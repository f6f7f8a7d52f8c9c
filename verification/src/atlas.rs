//! Texture-atlas layout: tile ids, tile geometry and the placement of
//! painted tiles into the 4x4 atlas image.

use vstd::prelude::*;

verus! {

/// Edge length in pixels of one tile.
pub const TILE_PX: u32 = 16;
/// Tiles per atlas row/column (the atlas is square).
pub const ATLAS_TILES: u32 = 4;
/// Full atlas edge length in pixels.
pub const ATLAS_PX: u32 = 64;

/// Grass block top face.
pub const T_GRASS_TOP: u8 = 0;
/// Grass block side face (dirt with grass fringe).
pub const T_GRASS_SIDE: u8 = 1;
/// Dirt.
pub const T_DIRT: u8 = 2;
/// Stone.
pub const T_STONE: u8 = 3;
/// Sand.
pub const T_SAND: u8 = 4;
/// Oak log side face (bark stripes).
pub const T_LOG_SIDE: u8 = 5;
/// Oak log top face (rings).
pub const T_LOG_TOP: u8 = 6;
/// Leaves (cutout: some pixels fully transparent).
pub const T_LEAVES: u8 = 7;
/// Planks (with seams).
pub const T_PLANK: u8 = 8;
/// Cobblestone (noise-driven stones).
pub const T_COBBLE: u8 = 9;
/// Glass (transparent interior, opaque frame).
pub const T_GLASS: u8 = 10;
/// Snow top face.
pub const T_SNOW_TOP: u8 = 11;
/// Snow side face (dirt with snow fringe).
pub const T_SNOW_SIDE: u8 = 12;
/// Bedrock (dark noise).
pub const T_BEDROCK: u8 = 13;
/// Water (translucent).
pub const T_WATER: u8 = 14;
/// Solid white, used for UI/outline quads.
pub const T_WHITE: u8 = 15;

/// Number of tiles in the atlas.
pub const TILE_COUNT: usize = 16;
/// Bytes of one painted tile: 16x16 RGBA8 pixels, row-major.
pub const TILE_BYTES: usize = 1024;
/// Bytes of the whole atlas image.
pub const ATLAS_BYTES: usize = 16384;

/// Byte offset, in the atlas image, of pixel `(x, y)` of tile `tile`:
/// tiles are laid out row-major from the top-left corner.
pub open spec fn atlas_offset(tile: int, x: int, y: int) -> int {
    (((tile / 4) * 16 + y) * 64 + (tile % 4) * 16 + x) * 4
}

/// The tile whose square holds atlas pixel `p` (row-major over the image).
pub open spec fn tile_of_pixel(p: int) -> int {
    ((p / 64) / 16) * 4 + (p % 64) / 16
}

/// Byte offset, within its painted tile, of channel `c` of atlas pixel `p`.
pub open spec fn tile_byte_of_pixel(p: int, c: int) -> int {
    (((p / 64) % 16) * 16 + (p % 64) % 16) * 4 + c
}

/// The seed of the generator tile `tile` is painted from.
pub open spec fn spec_tile_seed(tile: u8) -> u32 {
    (tile as u32).wrapping_mul(7919).wrapping_add(101)
}

/// Seed of the generator that paints `tile`, fixed so the atlas is
/// bit-identical across runs and platforms.
pub fn tile_seed(tile: u8) -> (r: u32)
    ensures
        r == spec_tile_seed(tile),
{
    (tile as u32).wrapping_mul(7919).wrapping_add(101)
}

/// The fixed colour of pixel `(x, y)` of `tile`, for the tiles painted
/// without a generator: glass (an opaque frame, two lighter glints, a
/// clear interior) and the solid white tile. `None` for every other tile.
pub open spec fn spec_fixed_pixel(tile: u8, x: u32, y: u32) -> Option<[u8; 4]> {
    if tile == T_GLASS {
        if x == 0 || y == 0 || x == TILE_PX - 1 || y == TILE_PX - 1 {
            Some([214u8, 236u8, 240u8, 255u8])
        } else if (x + y == 20 && x > 8) || (x + y == 24 && x > 11) {
            Some([225u8, 242u8, 246u8, 255u8])
        } else {
            Some([180u8, 220u8, 230u8, 0u8])
        }
    } else if tile == T_WHITE {
        Some([255u8, 255u8, 255u8, 255u8])
    } else {
        None
    }
}

/// The fixed colour of pixel `(x, y)` of `tile`, if the tile is painted
/// without a generator.
pub fn fixed_pixel(tile: u8, x: u32, y: u32) -> (r: Option<[u8; 4]>)
    requires
        x < TILE_PX,
        y < TILE_PX,
    ensures
        r == spec_fixed_pixel(tile, x, y),
{
    if tile == T_GLASS {
        if x == 0 || y == 0 || x == TILE_PX - 1 || y == TILE_PX - 1 {
            Some([214, 236, 240, 255])
        } else if (x + y == 20 && x > 8) || (x + y == 24 && x > 11) {
            Some([225, 242, 246, 255])
        } else {
            Some([180, 220, 230, 0])
        }
    } else if tile == T_WHITE {
        Some([255, 255, 255, 255])
    } else {
        None
    }
}

/// The glass tile is framed: every pixel on its border (first or last row,
/// first or last column) is the opaque frame colour, and no pixel inside
/// the border is.
pub proof fn law_glass_frame_is_opaque(x: u32, y: u32)
    requires
        x < TILE_PX,
        y < TILE_PX,
    ensures
        (x == 0 || y == 0 || x + 1 == TILE_PX || y + 1 == TILE_PX) <==> spec_fixed_pixel(T_GLASS, x, y)
            == Some([214u8, 236u8, 240u8, 255u8]),
        (x == 0 || y == 0 || x + 1 == TILE_PX || y + 1 == TILE_PX) ==> (spec_fixed_pixel(T_GLASS, x, y)
            matches Some(c) && c[3] == 255u8),
{
}

/// The glass frame looks the same on opposite sides: the top row matches
/// the bottom row and the left column matches the right column.
pub proof fn law_glass_frame_is_symmetric(i: u32)
    requires
        i < TILE_PX,
    ensures
        spec_fixed_pixel(T_GLASS, i, 0) == spec_fixed_pixel(T_GLASS, i, (TILE_PX - 1) as u32),
        spec_fixed_pixel(T_GLASS, 0, i) == spec_fixed_pixel(T_GLASS, (TILE_PX - 1) as u32, i),
{
}

/// A generated RGBA8 atlas image, row-major, 4 bytes per pixel.
pub struct Atlas {
    /// Pixel data of size `ATLAS_PX * ATLAS_PX * 4`.
    pub rgba: Vec<u8>,
}

/// Whether `tiles` holds one painted tile per atlas tile.
pub open spec fn tiles_ok(tiles: Seq<Vec<u8>>) -> bool {
    &&& tiles.len() == TILE_COUNT
    &&& forall|t: int| 0 <= t < TILE_COUNT ==> (#[trigger] tiles[t])@.len() == TILE_BYTES
}

/// Lays painted tiles out as the atlas image: tile `t` occupies the
/// 16x16 square in column `t % 4`, row `t / 4`, starting at the top-left.
pub fn generate(tiles: &Vec<Vec<u8>>) -> (r: Atlas)
    requires
        tiles_ok(tiles@),
    ensures
        r.rgba@.len() == ATLAS_BYTES,
        forall|p: int, c: int| 0 <= p < 4096 && 0 <= c < 4 ==> #[trigger] r.rgba@[p * 4 + c]
            == tiles@[tile_of_pixel(p)]@[tile_byte_of_pixel(p, c)],
{
    let mut rgba: Vec<u8> = Vec::new();
    let mut p: usize = 0;
    while p < 4096
        invariant
            p <= 4096,
            tiles_ok(tiles@),
            rgba@.len() == p * 4,
            forall|q: int, c: int| 0 <= q < p && 0 <= c < 4 ==> #[trigger] rgba@[q * 4 + c]
                == tiles@[tile_of_pixel(q)]@[tile_byte_of_pixel(q, c)],
        decreases 4096 - p,
    {
        let ax = p % 64;
        let ay = p / 64;
        let t = (ay / 16) * 4 + ax / 16;
        let base = ((ay % 16) * 16 + ax % 16) * 4;
        assert(t == tile_of_pixel(p as int) && t < 16);
        assert(base + 3 < TILE_BYTES);
        let tile = &tiles[t];
        let ghost before = rgba@;
        let mut c: usize = 0;
        while c < 4
            invariant
                c <= 4,
                p < 4096,
                t < 16,
                base == tile_byte_of_pixel(p as int, 0),
                base + 3 < TILE_BYTES,
                tile@ == tiles@[t as int]@,
                tile@.len() == TILE_BYTES,
                t == tile_of_pixel(p as int),
                rgba@.len() == p * 4 + c,
                forall|i: int| 0 <= i < p * 4 ==> rgba@[i] == before[i],
                forall|k: int| 0 <= k < c ==> #[trigger] rgba@[p * 4 + k] == tile@[base + k],
            decreases 4 - c,
        {
            rgba.push(tile[base + c]);
            c = c + 1;
        }
        proof {
            assert forall|q: int, k: int| 0 <= q < p + 1 && 0 <= k < 4 implies #[trigger] rgba@[q * 4 + k]
                == tiles@[tile_of_pixel(q)]@[tile_byte_of_pixel(q, k)] by {
                if q < p {
                    assert(q * 4 + k < p * 4) by (nonlinear_arith)
                        requires q < p, 0 <= k < 4;
                    assert(q * 4 + k >= 0) by (nonlinear_arith)
                        requires q >= 0, k >= 0;
                    assert(rgba@[q * 4 + k] == before[q * 4 + k]);
                } else {
                    assert(q == p);
                    assert(rgba@[p * 4 + k] == tile@[base + k]);
                }
            }
        }
        p = p + 1;
    }
    Atlas { rgba }
}

/// Where a painted pixel lands: pixel `(x, y)` of tile `tile` is atlas
/// pixel `(col * 16 + x, row * 16 + y)` for the tile's column and row.
pub proof fn law_tile_pixel_placement(tile: int, x: int, y: int, c: int)
    requires
        0 <= tile < TILE_COUNT,
        0 <= x < TILE_PX,
        0 <= y < TILE_PX,
        0 <= c < 4,
    ensures
        ({
            let p = ((tile / 4) * 16 + y) * 64 + (tile % 4) * 16 + x;
            &&& 0 <= p < 4096
            &&& p * 4 + c == atlas_offset(tile, x, y) + c
            &&& tile_of_pixel(p) == tile
            &&& tile_byte_of_pixel(p, c) == (y * 16 + x) * 4 + c
        }),
{
    let p = ((tile / 4) * 16 + y) * 64 + (tile % 4) * 16 + x;
    assert(0 <= p < 4096 && p / 64 == (tile / 4) * 16 + y && p % 64 == (tile % 4) * 16 + x) by (nonlinear_arith)
        requires p == ((tile / 4) * 16 + y) * 64 + (tile % 4) * 16 + x, 0 <= tile < 16, 0 <= x < 16, 0 <= y < 16;
    assert(((tile / 4) * 16 + y) / 16 == tile / 4 && ((tile / 4) * 16 + y) % 16 == y) by (nonlinear_arith)
        requires 0 <= tile < 16, 0 <= y < 16;
    assert(((tile % 4) * 16 + x) / 16 == tile % 4 && ((tile % 4) * 16 + x) % 16 == x) by (nonlinear_arith)
        requires 0 <= tile < 16, 0 <= x < 16;
}

} // verus!
