use ox_core::blocks::{AIR, BEDROCK, GRASS, STONE, WATER};
use ox_core::generation::terrain::ColumnInfo;
use ox_core::generation::{CHUNK_AXIS, CHUNK_VOL, ChunkInputs, Stage, StageKind};
use ox_core::world::{Chunk, HEIGHT, World};

fn flat_inputs(h: i32) -> ChunkInputs {
    ChunkInputs {
        columns: vec![ColumnInfo { h, tree: false, sandy: false, snowy: false }; 256],
        cave: vec![false; CHUNK_VOL],
        cave_min_y: 2,
        cave_skin: 4,
        cave_top_cap: 60,
        trees: vec![],
    }
}

fn flat(_seed: i32, _cx: i32, _cz: i32) -> ChunkInputs {
    flat_inputs(20)
}

fn world() -> World {
    let mut w = World::new(7);
    w.ensure_data(0, 0, &flat);
    w
}

#[test]
fn missing_chunks_block_movement_but_read_as_air() {
    let w = world();
    assert_eq!(w.get_block(100, 20, 100), AIR);
    assert!(w.is_solid_at(100, 20, 100));
}

#[test]
fn set_block_updates_and_reports_border_neighbors() {
    let mut w = world();
    let affected = w.set_block(0, 10, 0, STONE, &flat);
    assert_eq!(w.get_block(0, 10, 0), STONE);
    assert!(affected.contains(&(0, 0)));
    assert!(affected.contains(&(-1, 0)));
    assert!(affected.contains(&(0, -1)));
    assert!(affected.contains(&(-1, -1)));

    let mid = w.set_block(8, 10, 8, STONE, &flat);
    assert_eq!(mid, vec![(0, 0)]);
}

#[test]
fn water_is_not_solid_for_physics() {
    let mut w = world();
    let _ = w.set_block(5, 20, 5, WATER, &flat);
    assert!(!w.is_solid_at(5, 20, 5));
}

#[test]
fn ensure_around_generates_the_square_once() {
    let mut w = World::new(7);
    assert_eq!(w.ensure_around(3, -2, 1, &flat), 9);
    assert_eq!(w.ensure_around(3, -2, 1, &flat), 0);
    assert!(w.get_chunk(4, -1).is_some_and(Chunk::has_data));
    assert_eq!(w.loaded_chunks().len(), 9);
}

#[test]
fn edits_outside_height_are_rejected() {
    let mut w = world();
    assert!(w.set_block(0, -1, 0, STONE, &flat).is_empty());
    assert!(w.set_block(0, HEIGHT, 0, STONE, &flat).is_empty());
}

#[test]
fn padded_view_matches_get_block_across_the_neighborhood() {
    let mut w = World::new(7);
    w.ensure_around(0, 0, 1, &flat);
    let _ = w.set_block(-1, 21, 5, STONE, &flat);
    let _ = w.set_block(16, 3, 16, AIR, &flat);
    let v = w.padded_view(0, 0);
    for y in 0..HEIGHT {
        for z in -1..=CHUNK_AXIS {
            for x in -1..=CHUNK_AXIS {
                assert_eq!(v.get(x, y, z), w.get_block(x, y, z));
            }
        }
    }
}

#[test]
fn padded_view_reads_air_outside_loaded_chunks_and_height() {
    let mut w = World::new(7);
    w.ensure_data(0, 0, &flat);
    let v = w.padded_view(0, 0);
    assert_eq!(v.get(-1, 10, 8), AIR);
    assert_eq!(v.get(16, 10, 16), AIR);
    assert_eq!(v.get(5, -1, 5), AIR);
    assert_eq!(v.get(5, HEIGHT, 5), AIR);
}

#[test]
fn negative_coordinates_land_in_the_right_chunk() {
    let mut w = World::new(7);
    let affected = w.set_block(-17, 30, -1, STONE, &flat);
    assert_eq!(affected, vec![(-2, -1), (-1, -1), (-2, 0), (-1, 0)]);
    assert!(w.get_chunk(-2, -1).is_some_and(Chunk::has_data));
    assert_eq!(w.get_block(-17, 30, -1), STONE);
    assert_eq!(w.get_block(-1, 30, -1), AIR);
}

#[test]
fn set_block_generates_a_missing_chunk_first() {
    let mut w = World::new(7);
    let affected = w.set_block(40, 30, 40, STONE, &flat);
    assert_eq!(affected, vec![(2, 2)]);
    assert_eq!(w.get_block(40, 30, 40), STONE);
    assert_eq!(w.get_block(41, 20, 40), GRASS);
    assert_eq!(w.get_block(41, 0, 40), BEDROCK);
}

#[test]
fn corner_edit_reports_all_three_neighbors() {
    let mut w = world();
    let affected = w.set_block(15, 30, 15, STONE, &flat);
    assert_eq!(affected, vec![(0, 0), (1, 0), (0, 1), (1, 1)]);
    let affected = w.set_block(0, 30, 15, STONE, &flat);
    assert_eq!(affected, vec![(0, 0), (-1, 0), (0, 1), (-1, 1)]);
}

#[test]
fn ensure_data_keeps_existing_data() {
    let mut w = world();
    let _ = w.set_block(3, 40, 3, STONE, &flat);
    assert!(!w.ensure_data(0, 0, &flat));
    assert_eq!(w.get_block(3, 40, 3), STONE);
    assert!(w.ensure_data(1, 0, &flat));
}

#[test]
fn removed_chunks_unload_and_regenerate() {
    let mut w = world();
    let _ = w.set_block(3, 40, 3, STONE, &flat);
    w.remove_chunk(0, 0);
    assert!(w.get_chunk(0, 0).is_none());
    assert_eq!(w.get_block(3, 40, 3), AIR);
    assert!(w.is_solid_at(3, 40, 3));
    assert!(w.loaded_chunks().is_empty());
    assert!(w.ensure_data(0, 0, &flat));
    assert_eq!(w.get_block(3, 40, 3), AIR);
}

#[test]
fn stageless_worlds_stay_air() {
    let mut w = World::with_stages(1, vec![]);
    assert_eq!(w.ensure_around(0, 0, 1, &flat), 9);
    assert_eq!(w.get_block(5, 0, 5), AIR);
    assert!(!w.is_solid_at(5, 0, 5));
    let terrain_only = vec![Stage { name: "terrain", kind: StageKind::Terrain }];
    let mut t = World::with_stages(1, terrain_only);
    t.ensure_data(0, 0, &flat);
    assert_eq!(t.get_block(5, 0, 5), BEDROCK);
    assert_eq!(t.get_block(5, 20, 5), GRASS);
}

#[test]
fn the_source_sees_the_seed_and_chunk() {
    let mut w = World::new(42);
    let src = |seed: i32, cx: i32, cz: i32| flat_inputs(seed / 2 + cx - cz + 10);
    w.ensure_data(1, -1, &src);
    assert_eq!(w.get_block(16, 33, -16), GRASS);
    assert_eq!(w.get_block(16, 34, -16), AIR);
}

#[test]
fn set_block_stores_ids_without_a_registry_entry() {
    let mut w = World::new(7);
    let affected = w.set_block(15, 30, 0, 250, &flat);
    assert_eq!(affected, vec![(0, 0), (1, 0), (0, -1), (1, -1)]);
    assert_eq!(w.get_block(15, 30, 0), 250);
    assert_eq!(w.get_block(14, 30, 0), AIR);
    assert!(!w.padded_view(0, 0).all_registered());
}
