//! Block registry: every placeable block, its tiles and physical flags.
//!
//! Every id up to and including [`WATER`] has a definition, so lookups on
//! such ids never fail.

use vstd::prelude::*;
use crate::atlas;

verus! {

/// Numeric block identifier.
pub type BlockId = u8;
/// Numeric texture-tile identifier, indexes into the atlas.
pub type TileId = u8;

/// How a block is drawn by the renderer and meshed by the mesher.
#[derive(Clone, Copy, PartialEq, Eq, Debug, Structural)]
pub enum RenderKind {
    /// Not drawn at all (air).
    Air,
    /// Fully solid geometry with back-face culling.
    Opaque,
    /// Drawn with alpha cutout (leaves, glass).
    Cutout,
    /// Translucent, non-colliding volume (water).
    Liquid,
}

/// What a block is made of: decides its break time, dig sound and debris.
#[derive(Clone, Copy, PartialEq, Eq, Debug, Structural)]
pub enum Material {
    /// Stone, cobblestone.
    Stone,
    /// Dirt, grass.
    Dirt,
    /// Sand.
    Sand,
    /// Logs, planks.
    Wood,
    /// Leaf canopy.
    Leaves,
    /// Glass.
    Glass,
    /// Snow cover.
    Snow,
    /// Never breaks: air, bedrock, water.
    Unbreakable,
}

/// Static definition of one block kind: appearance plus gameplay flags.
#[derive(Clone, Copy)]
pub struct BlockDef {
    /// Display name shown in HUD/debug UIs.
    pub name: &'static str,
    /// Rendering category.
    pub render: RenderKind,
    /// Atlas tile per cube face, order: +X, -X, +Y, -Y, +Z, -Z.
    pub tiles: [TileId; 6],
    /// Whether entities collide with this block.
    pub solid: bool,
    /// Whether this block hides neighboring faces when meshing.
    pub opaque: bool,
    /// Whether this block darkens ambient occlusion around it.
    pub ao_cast: bool,
    /// What the block is made of.
    pub material: Material,
}

/// Every block kind, in [`BlockId`] order.
#[derive(Clone, Copy, PartialEq, Eq, Debug)]
pub enum Block {
    /// Empty space.
    Air,
    /// Grass-topped dirt.
    Grass,
    /// Plain dirt.
    Dirt,
    /// Stone.
    Stone,
    /// Beach sand.
    Sand,
    /// Oak log.
    Log,
    /// Leaf canopy.
    Leaves,
    /// Wooden planks.
    Plank,
    /// Cobblestone.
    Cobble,
    /// Glass pane block.
    Glass,
    /// Snow-topped dirt (peaks).
    Snow,
    /// Unbreakable floor layer.
    Bedrock,
    /// Translucent water.
    Water,
}

/// [`Block::Air`] as a [`BlockId`].
pub const AIR: BlockId = 0;
/// [`Block::Grass`] as a [`BlockId`].
pub const GRASS: BlockId = 1;
/// [`Block::Dirt`] as a [`BlockId`].
pub const DIRT: BlockId = 2;
/// [`Block::Stone`] as a [`BlockId`].
pub const STONE: BlockId = 3;
/// [`Block::Sand`] as a [`BlockId`].
pub const SAND: BlockId = 4;
/// [`Block::Log`] as a [`BlockId`].
pub const LOG: BlockId = 5;
/// [`Block::Leaves`] as a [`BlockId`].
pub const LEAVES: BlockId = 6;
/// [`Block::Plank`] as a [`BlockId`].
pub const PLANK: BlockId = 7;
/// [`Block::Cobble`] as a [`BlockId`].
pub const COBBLE: BlockId = 8;
/// [`Block::Glass`] as a [`BlockId`].
pub const GLASS: BlockId = 9;
/// [`Block::Snow`] as a [`BlockId`].
pub const SNOW: BlockId = 10;
/// [`Block::Bedrock`] as a [`BlockId`].
pub const BEDROCK: BlockId = 11;
/// [`Block::Water`] as a [`BlockId`].
pub const WATER: BlockId = 12;

/// Blocks offered in the player's build hotbar, in slot order.
pub const HOTBAR: [BlockId; 9] = [GRASS, DIRT, STONE, SAND, LOG, LEAVES, PLANK, COBBLE, GLASS];

impl Block {
    /// The block's numeric id.
    pub open spec fn spec_id(self) -> BlockId {
        match self {
            Block::Air => AIR,
            Block::Grass => GRASS,
            Block::Dirt => DIRT,
            Block::Stone => STONE,
            Block::Sand => SAND,
            Block::Log => LOG,
            Block::Leaves => LEAVES,
            Block::Plank => PLANK,
            Block::Cobble => COBBLE,
            Block::Glass => GLASS,
            Block::Snow => SNOW,
            Block::Bedrock => BEDROCK,
            Block::Water => WATER,
        }
    }

    /// The block's numeric id, its position in the registry.
    pub fn id(self) -> (r: BlockId)
        ensures
            r == self.spec_id(),
    {
        match self {
            Block::Air => AIR,
            Block::Grass => GRASS,
            Block::Dirt => DIRT,
            Block::Stone => STONE,
            Block::Sand => SAND,
            Block::Log => LOG,
            Block::Leaves => LEAVES,
            Block::Plank => PLANK,
            Block::Cobble => COBBLE,
            Block::Glass => GLASS,
            Block::Snow => SNOW,
            Block::Bedrock => BEDROCK,
            Block::Water => WATER,
        }
    }
}

/// Whether `id` has a registry entry.
pub open spec fn is_registered(id: BlockId) -> bool {
    id <= WATER
}

/// The definition of air: invisible, intangible and unbreakable.
pub open spec fn spec_air_def() -> BlockDef {
    BlockDef {
        name: "Air",
        render: RenderKind::Air,
        tiles: [0u8, 0u8, 0u8, 0u8, 0u8, 0u8],
        solid: false,
        opaque: false,
        ao_cast: false,
        material: Material::Unbreakable,
    }
}

/// An opaque, solid cube with one tile per face.
pub open spec fn spec_textured(name: &'static str, tiles: [TileId; 6], material: Material) -> BlockDef {
    BlockDef { name, render: RenderKind::Opaque, tiles, solid: true, opaque: true, ao_cast: true, material }
}

/// An opaque, solid cube showing the same tile on every face.
pub open spec fn spec_cube(name: &'static str, tile: TileId, material: Material) -> BlockDef {
    spec_textured(name, [tile, tile, tile, tile, tile, tile], material)
}

/// A solid cube drawn with alpha cutout; it neither hides faces nor casts occlusion.
pub open spec fn spec_cutout(name: &'static str, tile: TileId, material: Material) -> BlockDef {
    BlockDef { render: RenderKind::Cutout, opaque: false, ao_cast: false, ..spec_cube(name, tile, material) }
}

/// A translucent, non-colliding, unbreakable volume.
pub open spec fn spec_liquid(name: &'static str, tile: TileId) -> BlockDef {
    BlockDef {
        render: RenderKind::Liquid,
        solid: false,
        opaque: false,
        ao_cast: false,
        ..spec_cube(name, tile, Material::Unbreakable)
    }
}

/// The registry entry of `id`.
pub open spec fn spec_def(id: BlockId) -> BlockDef
    recommends
        is_registered(id),
{
    if id == AIR {
        spec_air_def()
    } else if id == GRASS {
        spec_textured(
            "Grass",
            [
                atlas::T_GRASS_SIDE,
                atlas::T_GRASS_SIDE,
                atlas::T_GRASS_TOP,
                atlas::T_DIRT,
                atlas::T_GRASS_SIDE,
                atlas::T_GRASS_SIDE,
            ],
            Material::Dirt,
        )
    } else if id == DIRT {
        spec_cube("Dirt", atlas::T_DIRT, Material::Dirt)
    } else if id == STONE {
        spec_cube("Stone", atlas::T_STONE, Material::Stone)
    } else if id == SAND {
        spec_cube("Sand", atlas::T_SAND, Material::Sand)
    } else if id == LOG {
        spec_textured(
            "Oak Log",
            [
                atlas::T_LOG_SIDE,
                atlas::T_LOG_SIDE,
                atlas::T_LOG_TOP,
                atlas::T_LOG_TOP,
                atlas::T_LOG_SIDE,
                atlas::T_LOG_SIDE,
            ],
            Material::Wood,
        )
    } else if id == LEAVES {
        spec_cutout("Leaves", atlas::T_LEAVES, Material::Leaves)
    } else if id == PLANK {
        spec_cube("Planks", atlas::T_PLANK, Material::Wood)
    } else if id == COBBLE {
        spec_cube("Cobblestone", atlas::T_COBBLE, Material::Stone)
    } else if id == GLASS {
        spec_cutout("Glass", atlas::T_GLASS, Material::Glass)
    } else if id == SNOW {
        spec_textured(
            "Snowy Grass",
            [
                atlas::T_SNOW_SIDE,
                atlas::T_SNOW_SIDE,
                atlas::T_SNOW_TOP,
                atlas::T_DIRT,
                atlas::T_SNOW_SIDE,
                atlas::T_SNOW_SIDE,
            ],
            Material::Snow,
        )
    } else if id == BEDROCK {
        spec_cube("Bedrock", atlas::T_BEDROCK, Material::Unbreakable)
    } else {
        spec_liquid("Water", atlas::T_WATER)
    }
}

fn air_def() -> (d: BlockDef)
    ensures
        d == spec_air_def(),
{
    BlockDef {
        name: "Air",
        render: RenderKind::Air,
        tiles: [0u8, 0u8, 0u8, 0u8, 0u8, 0u8],
        solid: false,
        opaque: false,
        ao_cast: false,
        material: Material::Unbreakable,
    }
}

fn cube(name: &'static str, tile: TileId, material: Material) -> (d: BlockDef)
    ensures
        d == spec_cube(name, tile, material),
{
    textured(name, [tile, tile, tile, tile, tile, tile], material)
}

fn textured(name: &'static str, tiles: [TileId; 6], material: Material) -> (d: BlockDef)
    ensures
        d == spec_textured(name, tiles, material),
{
    BlockDef { name, render: RenderKind::Opaque, tiles, solid: true, opaque: true, ao_cast: true, material }
}

fn cutout(name: &'static str, tile: TileId, material: Material) -> (d: BlockDef)
    ensures
        d == spec_cutout(name, tile, material),
{
    BlockDef { render: RenderKind::Cutout, opaque: false, ao_cast: false, ..cube(name, tile, material) }
}

fn liquid(name: &'static str, tile: TileId) -> (d: BlockDef)
    ensures
        d == spec_liquid(name, tile),
{
    BlockDef {
        render: RenderKind::Liquid,
        solid: false,
        opaque: false,
        ao_cast: false,
        ..cube(name, tile, Material::Unbreakable)
    }
}

/// Looks up a block's definition; `id` must have a registry entry.
pub fn def(id: BlockId) -> (d: BlockDef)
    requires
        is_registered(id),
    ensures
        d == spec_def(id),
{
    if id == AIR {
        air_def()
    } else if id == GRASS {
        textured(
            "Grass",
            [
                atlas::T_GRASS_SIDE,
                atlas::T_GRASS_SIDE,
                atlas::T_GRASS_TOP,
                atlas::T_DIRT,
                atlas::T_GRASS_SIDE,
                atlas::T_GRASS_SIDE,
            ],
            Material::Dirt,
        )
    } else if id == DIRT {
        cube("Dirt", atlas::T_DIRT, Material::Dirt)
    } else if id == STONE {
        cube("Stone", atlas::T_STONE, Material::Stone)
    } else if id == SAND {
        cube("Sand", atlas::T_SAND, Material::Sand)
    } else if id == LOG {
        textured(
            "Oak Log",
            [
                atlas::T_LOG_SIDE,
                atlas::T_LOG_SIDE,
                atlas::T_LOG_TOP,
                atlas::T_LOG_TOP,
                atlas::T_LOG_SIDE,
                atlas::T_LOG_SIDE,
            ],
            Material::Wood,
        )
    } else if id == LEAVES {
        cutout("Leaves", atlas::T_LEAVES, Material::Leaves)
    } else if id == PLANK {
        cube("Planks", atlas::T_PLANK, Material::Wood)
    } else if id == COBBLE {
        cube("Cobblestone", atlas::T_COBBLE, Material::Stone)
    } else if id == GLASS {
        cutout("Glass", atlas::T_GLASS, Material::Glass)
    } else if id == SNOW {
        textured(
            "Snowy Grass",
            [
                atlas::T_SNOW_SIDE,
                atlas::T_SNOW_SIDE,
                atlas::T_SNOW_TOP,
                atlas::T_DIRT,
                atlas::T_SNOW_SIDE,
                atlas::T_SNOW_SIDE,
            ],
            Material::Snow,
        )
    } else if id == BEDROCK {
        cube("Bedrock", atlas::T_BEDROCK, Material::Unbreakable)
    } else {
        liquid("Water", atlas::T_WATER)
    }
}

/// Whether entities collide with the block.
pub fn is_solid(id: BlockId) -> (r: bool)
    requires
        is_registered(id),
    ensures
        r == spec_def(id).solid,
{
    def(id).solid
}

/// Whether the block hides neighboring faces when meshing.
pub fn is_opaque(id: BlockId) -> (r: bool)
    requires
        is_registered(id),
    ensures
        r == spec_def(id).opaque,
{
    def(id).opaque
}

/// What the block is made of.
pub fn material(id: BlockId) -> (r: Material)
    requires
        is_registered(id),
    ensures
        r == spec_def(id).material,
{
    def(id).material
}

/// The tile debris of `block` shows, or `None` for blocks that are not
/// drawn (air), which throw no debris.
pub fn side_tile(block: BlockId) -> (r: Option<TileId>)
    requires
        is_registered(block),
    ensures
        r == (if spec_def(block).render == RenderKind::Air {
            None
        } else {
            Some(spec_def(block).tiles[0])
        }),
{
    let d = def(block);
    match d.render {
        RenderKind::Air => None,
        _ => Some(d.tiles[0]),
    }
}

} // verus!
