use ox_core::atlas;
use ox_core::blocks::{
    AIR, BEDROCK, Block, COBBLE, DIRT, GLASS, GRASS, HOTBAR, LEAVES, LOG, Material, PLANK, RenderKind, SAND,
    SNOW, STONE, WATER, def, is_opaque, is_solid, material, side_tile,
};

#[test]
fn registry_covers_every_id() {
    for id in 0..=WATER {
        let d = def(id);
        assert!(!d.name.is_empty());
        assert!(d.tiles.iter().all(|t| *t <= atlas::T_WATER));
    }
}

#[test]
fn air_has_no_physics_and_no_render() {
    assert!(!is_solid(AIR));
    assert!(!is_opaque(AIR));
    assert_eq!(def(AIR).render, RenderKind::Air);
}

#[test]
fn water_is_not_solid_but_renders_liquid() {
    assert!(!is_solid(WATER));
    assert_eq!(def(WATER).render, RenderKind::Liquid);
    assert_eq!(material(WATER), Material::Unbreakable);
}

#[test]
fn bedrock_is_unbreakable() {
    assert_eq!(material(BEDROCK), Material::Unbreakable);
    assert_ne!(material(STONE), Material::Unbreakable);
}

#[test]
fn materials_group_registry_entries() {
    assert_eq!(material(GRASS), Material::Dirt);
    assert_eq!(material(DIRT), Material::Dirt);
    assert_eq!(material(LOG), Material::Wood);
    assert_eq!(material(PLANK), Material::Wood);
    assert_eq!(material(COBBLE), Material::Stone);
    assert_eq!(material(SAND), Material::Sand);
    assert_eq!(material(LEAVES), Material::Leaves);
    assert_eq!(material(GLASS), Material::Glass);
    assert_eq!(material(SNOW), Material::Snow);
    assert_eq!(material(AIR), Material::Unbreakable);
    assert_eq!(material(WATER), Material::Unbreakable);
}

#[test]
fn block_ids_follow_registry_order() {
    assert_eq!(Block::Air.id(), AIR);
    assert_eq!(Block::Grass.id(), GRASS);
    assert_eq!(Block::Water.id(), WATER);
    assert_eq!(def(Block::Log.id()).name, "Oak Log");
    assert_eq!(def(SNOW).name, "Snowy Grass");
}

#[test]
fn grass_shows_its_top_tile_up_and_dirt_down() {
    let d = def(GRASS);
    assert_eq!(d.tiles[2], atlas::T_GRASS_TOP);
    assert_eq!(d.tiles[3], atlas::T_DIRT);
    assert_eq!(d.tiles[0], atlas::T_GRASS_SIDE);
}

#[test]
fn cutout_blocks_are_solid_but_see_through() {
    for id in [LEAVES, GLASS] {
        let d = def(id);
        assert_eq!(d.render, RenderKind::Cutout);
        assert!(d.solid);
        assert!(!d.opaque);
        assert!(!d.ao_cast);
    }
    assert!(def(STONE).ao_cast && def(STONE).opaque);
}

#[test]
fn hotbar_holds_placeable_solid_blocks() {
    assert_eq!(HOTBAR.len(), 9);
    assert!(HOTBAR.iter().all(|b| is_solid(*b)));
    assert_eq!(HOTBAR[0], GRASS);
    assert_eq!(HOTBAR[8], GLASS);
}

#[test]
fn debris_uses_the_side_tile_and_air_throws_none() {
    assert_eq!(side_tile(AIR), None);
    assert_eq!(side_tile(GRASS), Some(atlas::T_GRASS_SIDE));
    assert_eq!(side_tile(WATER), Some(atlas::T_WATER));
    assert_eq!(side_tile(LOG), Some(atlas::T_LOG_SIDE));
}
