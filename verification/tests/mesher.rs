use ox_core::blocks::{AIR, GLASS, GRASS, STONE, WATER};
use ox_core::generation::terrain::ColumnInfo;
use ox_core::generation::{CHUNK_AXIS, CHUNK_HEIGHT, CHUNK_VOL, ChunkInputs};
use ox_core::mesher::{axis_to_face_index, mesh_faces};
use ox_core::world::World;

fn flat(_seed: i32, _cx: i32, _cz: i32) -> ChunkInputs {
    ChunkInputs {
        columns: vec![ColumnInfo { h: 20, tree: false, sandy: false, snowy: false }; 256],
        cave: vec![false; CHUNK_VOL],
        cave_min_y: 2,
        cave_skin: 4,
        cave_top_cap: 60,
        trees: vec![],
    }
}

fn clear_chunk(w: &mut World) {
    for y in 0..CHUNK_HEIGHT {
        for z in 0..CHUNK_AXIS {
            for x in 0..CHUNK_AXIS {
                let _ = w.set_block(x, y, z, AIR, &flat);
            }
        }
    }
}

fn single_block_world() -> World {
    let mut w = World::new(5);
    w.ensure_data(0, 0, &flat);
    clear_chunk(&mut w);
    let _ = w.set_block(8, 10, 8, STONE, &flat);
    w
}

#[test]
fn isolated_cube_emits_six_faces() {
    let world = single_block_world();
    let faces = mesh_faces(&world.padded_view(0, 0));
    assert_eq!(faces.len(), 6);
    assert!(faces.iter().all(|f| !f.liquid && f.ao == [3, 3, 3, 3] && !f.flip));
    let order: Vec<usize> = faces.iter().map(|f| f.face).collect();
    assert_eq!(order, vec![0, 1, 2, 3, 4, 5]);
}

#[test]
fn hidden_faces_are_culled_between_solid_blocks() {
    let mut world = single_block_world();
    let _ = world.set_block(9, 10, 8, STONE, &flat);
    let faces = mesh_faces(&world.padded_view(0, 0));
    assert_eq!(faces.len(), 10);
}

#[test]
fn empty_chunk_produces_no_geometry() {
    let mut w = World::new(5);
    w.ensure_data(0, 0, &flat);
    clear_chunk(&mut w);
    assert!(mesh_faces(&w.padded_view(0, 0)).is_empty());
}

#[test]
fn glass_to_glass_faces_are_culled_but_glass_shows_stone() {
    let mut w = single_block_world();
    let _ = w.set_block(9, 10, 8, GLASS, &flat);
    let _ = w.set_block(10, 10, 8, GLASS, &flat);
    let faces = mesh_faces(&w.padded_view(0, 0));
    let glass = faces.iter().filter(|f| f.x != 8).count();
    assert_eq!(glass, 9);
    let stone = faces.iter().filter(|f| f.x == 8).count();
    assert_eq!(stone, 6);
}

#[test]
fn water_faces_only_touch_air_and_skip_occlusion() {
    let mut w = single_block_world();
    let _ = w.set_block(8, 11, 8, WATER, &flat);
    let faces = mesh_faces(&w.padded_view(0, 0));
    let water: Vec<_> = faces.iter().filter(|f| f.liquid).collect();
    assert_eq!(water.len(), 5);
    assert!(water.iter().all(|f| f.ao == [3, 3, 3, 3]));
    assert_eq!(faces.iter().filter(|f| !f.liquid).count(), 6);
}

#[test]
fn occlusion_darkens_corners_next_to_blocks() {
    let mut w = single_block_world();
    let _ = w.set_block(9, 11, 8, STONE, &flat);
    let faces = mesh_faces(&w.padded_view(0, 0));
    let top = faces.iter().find(|f| f.x == 8 && f.y == 10 && f.face == 2).expect("top face");
    assert_eq!(top.ao, [3, 2, 2, 3]);
    assert!(!top.flip);
}

#[test]
fn grass_tiles_follow_the_face() {
    let mut w = single_block_world();
    let _ = w.set_block(8, 10, 8, GRASS, &flat);
    let faces = mesh_faces(&w.padded_view(0, 0));
    let tiles: Vec<u8> = faces.iter().map(|f| f.tile).collect();
    assert_eq!(tiles, vec![1, 1, 0, 2, 1, 1]);
}

#[test]
fn faces_at_the_chunk_edge_see_the_neighbor_chunk() {
    let mut w = World::new(5);
    w.ensure_around(0, 0, 1, &flat);
    clear_chunk(&mut w);
    let _ = w.set_block(15, 10, 8, STONE, &flat);
    let _ = w.set_block(16, 10, 8, STONE, &flat);
    let faces = mesh_faces(&w.padded_view(0, 0));
    assert_eq!(faces.iter().filter(|f| f.y == 10).count(), 5);
}

#[test]
fn axis_and_sign_pick_the_tile_face() {
    assert_eq!(axis_to_face_index(0, 1, 0, 0), 0);
    assert_eq!(axis_to_face_index(0, -1, 0, 0), 1);
    assert_eq!(axis_to_face_index(1, 0, 1, 0), 2);
    assert_eq!(axis_to_face_index(1, 0, -1, 0), 3);
    assert_eq!(axis_to_face_index(2, 0, 0, 1), 4);
    assert_eq!(axis_to_face_index(2, 0, 0, -1), 5);
}
