use ox_core::generation::terrain::ColumnInfo;
use ox_core::generation::{ChunkInputs, CHUNK_VOL};
use ox_core::stream::{neighbors_ready, unload, ChunkSet, Streamer, KEEP_RADIUS};
use ox_core::world::World;

fn flat(_seed: i32, _cx: i32, _cz: i32) -> ChunkInputs {
    ChunkInputs {
        columns: vec![ColumnInfo { h: 30, tree: false, sandy: false, snowy: false }; 256],
        cave: vec![false; CHUNK_VOL],
        cave_min_y: 2,
        cave_skin: 4,
        cave_top_cap: 60,
        trees: vec![],
    }
}

#[test]
fn neighbors_ready_needs_the_whole_block_of_nine() {
    let mut w = World::new(1);
    w.ensure_around(0, 0, 1, &flat);
    assert!(neighbors_ready(&w, 0, 0));
    assert!(!neighbors_ready(&w, 1, 0));
    w.remove_chunk(-1, 1);
    assert!(!neighbors_ready(&w, 0, 0));
}

#[test]
fn chunk_sets_hold_each_chunk_once() {
    let mut s = ChunkSet::new();
    s.insert(3, -4);
    s.insert(3, -4);
    s.insert(-7, 0);
    assert!(s.contains(3, -4));
    assert!(!s.contains(-4, 3));
    assert_eq!(s.len(), 2);
    s.remove(3, -4);
    assert_eq!(s.to_vec(), vec![(-7, 0)]);
}

#[test]
fn streaming_generates_first_then_meshes_nearest_first() {
    let streamer = Streamer::new();
    let mut w = World::new(1);
    let meshed = ChunkSet::new();
    let first = streamer.stream(&mut w, 0, 0, &meshed, 9, 3, &flat);
    assert!(first.is_empty());
    assert!(neighbors_ready(&w, 0, 0));
    let second = streamer.stream(&mut w, 0, 0, &meshed, 0, 1, &flat);
    assert_eq!(second, vec![(0, 0)]);
}

#[test]
fn streaming_skips_meshed_chunks_and_respects_budgets() {
    let streamer = Streamer::new();
    let mut w = World::new(1);
    w.ensure_around(0, 0, 2, &flat);
    let mut meshed = ChunkSet::new();
    meshed.insert(0, 0);
    let picked = streamer.stream(&mut w, 0, 0, &meshed, 0, 5, &flat);
    assert_eq!(picked, vec![(-1, 0), (0, -1), (0, 1), (1, 0), (-1, -1)]);
    let none = streamer.stream(&mut w, 0, 0, &meshed, 0, 0, &flat);
    assert!(none.is_empty());
}

#[test]
fn unload_drops_far_meshes_and_chunks() {
    let mut w = World::new(1);
    w.ensure_data(0, 0, &flat);
    w.ensure_data(KEEP_RADIUS + 1, 0, &flat);
    w.ensure_data(KEEP_RADIUS, -KEEP_RADIUS, &flat);
    let mut meshed = ChunkSet::new();
    meshed.insert(0, 0);
    meshed.insert(0, KEEP_RADIUS + 1);
    let dropped = unload(&mut w, &mut meshed, 0, 0);
    assert_eq!(dropped, vec![(0, KEEP_RADIUS + 1)]);
    assert!(meshed.contains(0, 0));
    assert!(!meshed.contains(0, KEEP_RADIUS + 1));
    assert!(w.get_chunk(KEEP_RADIUS + 1, 0).is_none());
    assert!(w.get_chunk(KEEP_RADIUS, -KEEP_RADIUS).is_some());
    assert!(w.get_chunk(0, 0).is_some());
}
