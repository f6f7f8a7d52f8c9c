use ox_core::blocks::{AIR, BEDROCK, DIRT, GRASS, LEAVES, LOG, SAND, SNOW, STONE, WATER};
use ox_core::generation::terrain::{self, ColumnInfo};
use ox_core::generation::trees::TreePlan;
use ox_core::generation::{
    CHUNK_AXIS, CHUNK_HEIGHT, CHUNK_VOL, ChunkData, ChunkInputs, SEA_LEVEL, Stage, StageKind, caves, generate, idx,
    pipeline, water,
};

fn column(h: i32) -> ColumnInfo {
    ColumnInfo { h, tree: false, sandy: false, snowy: false }
}

fn inputs(columns: Vec<ColumnInfo>) -> ChunkInputs {
    ChunkInputs { columns, cave: vec![false; CHUNK_VOL], cave_min_y: 2, cave_skin: 4, cave_top_cap: 60, trees: vec![] }
}

#[test]
fn generation_is_deterministic() {
    let mut inp = inputs(vec![column(30); 256]);
    inp.cave[idx(3, 10, 3)] = true;
    let a = generate(&inp, &pipeline());
    let b = generate(&inp, &pipeline());
    assert_eq!(a.blocks(), b.blocks());
}

#[test]
fn pipeline_runs_terrain_caves_water_trees() {
    let p = pipeline();
    let names: Vec<&str> = p.iter().map(|s| s.name).collect();
    assert_eq!(names, vec!["terrain", "caves", "water", "trees"]);
    assert_eq!(p[0].kind, StageKind::Terrain);
    assert_eq!(p[3].kind, StageKind::Trees);
}

#[test]
fn bedrock_covers_the_floor() {
    let mut cols = Vec::new();
    for i in 0..256 {
        cols.push(column(4 + (i % 50)));
    }
    let data = generate(&inputs(cols), &pipeline());
    for lz in 0..CHUNK_AXIS {
        for lx in 0..CHUNK_AXIS {
            assert_eq!(data.get(lx, 0, lz), BEDROCK);
        }
    }
}

#[test]
fn terrain_stage_honors_non_default_settings() {
    let stages = [Stage { name: "terrain", kind: StageKind::Terrain }];
    let data = generate(&inputs(vec![column(30); 256]), &stages);
    for lz in 0..CHUNK_AXIS {
        for lx in 0..CHUNK_AXIS {
            assert_eq!(data.get(lx, 30, lz), GRASS);
            assert_eq!(data.get(lx, 29, lz), DIRT);
            assert_eq!(data.get(lx, 27, lz), DIRT);
            assert_eq!(data.get(lx, 26, lz), STONE);
            assert_eq!(data.get(lx, 31, lz), AIR);
        }
    }
}

#[test]
fn beaches_are_sand_and_peaks_are_snow() {
    let mut cols = vec![column(30); 256];
    cols[0] = ColumnInfo { h: 24, tree: false, sandy: true, snowy: false };
    cols[1] = ColumnInfo { h: 50, tree: false, sandy: false, snowy: true };
    let mut data = ChunkData::empty();
    terrain::run(&inputs(cols), &mut data);
    assert_eq!(data.get(0, 24, 0), SAND);
    assert_eq!(data.get(0, 21, 0), SAND);
    assert_eq!(data.get(0, 20, 0), STONE);
    assert_eq!(data.get(1, 50, 0), SNOW);
    assert_eq!(data.get(1, 49, 0), DIRT);
}

#[test]
fn water_fills_low_columns_up_to_sea_level() {
    let mut cols = vec![column(30); 256];
    cols[17] = column(10);
    let data = generate(&inputs(cols), &pipeline());
    let (lx, lz) = (1, 1);
    assert_eq!(data.get(lx, 10, lz), GRASS);
    for y in 11..=SEA_LEVEL {
        assert_eq!(data.get(lx, y, lz), WATER);
    }
    for y in SEA_LEVEL + 1..CHUNK_HEIGHT {
        assert_eq!(data.get(lx, y, lz), AIR);
    }
    assert_eq!(data.get(0, SEA_LEVEL, 0), STONE);
}

#[test]
fn water_stage_leaves_high_columns_alone() {
    let mut data = ChunkData::empty();
    water::run(&inputs(vec![column(SEA_LEVEL); 256]), &mut data);
    assert!(data.blocks().iter().all(|b| *b == AIR));
}

#[test]
fn caves_carve_only_between_floor_and_skin() {
    let mut inp = inputs(vec![column(30); 256]);
    for y in 0..CHUNK_HEIGHT {
        inp.cave[idx(5, y, 5)] = true;
    }
    let mut data = ChunkData::empty();
    terrain::run(&inp, &mut data);
    caves::run(&inp, &mut data);
    assert_eq!(data.get(5, 0, 5), BEDROCK);
    assert_eq!(data.get(5, 1, 5), STONE);
    for y in 2..=26 {
        assert_eq!(data.get(5, y, 5), AIR, "y={y}");
    }
    for y in 27..=30 {
        assert_ne!(data.get(5, y, 5), AIR, "y={y}");
    }
    assert_eq!(data.get(6, 10, 5), STONE);
}

#[test]
fn trees_grow_a_trunk_on_dirt_under_a_canopy() {
    let mut inp = inputs(vec![column(30); 256]);
    inp.trees.push(TreePlan { tx: 8, tz: 8, ground: 30, trunk: 5, skip: [false; 8] });
    let data = generate(&inp, &pipeline());
    assert_eq!(data.get(8, 30, 8), DIRT);
    for y in 31..=35 {
        assert_eq!(data.get(8, y, 8), LOG);
    }
    assert_eq!(data.get(8, 36, 8), LEAVES);
    assert_eq!(data.get(9, 36, 8), LEAVES);
    assert_eq!(data.get(9, 36, 9), AIR);
    assert_eq!(data.get(10, 33, 10), LEAVES);
    assert_eq!(data.get(6, 34, 6), LEAVES);
    assert_eq!(data.get(9, 35, 9), LEAVES);
    assert_eq!(data.get(10, 35, 10), AIR);
}

#[test]
fn canopy_corners_follow_the_plan_and_cross_chunk_edges() {
    let mut inp = inputs(vec![column(30); 256]);
    inp.trees.push(TreePlan { tx: -1, tz: 0, ground: 30, trunk: 4, skip: [true, true, true, true, true, true, true, true] });
    let data = generate(&inp, &pipeline());
    assert_eq!(data.get(0, 32, 0), LEAVES);
    assert_eq!(data.get(1, 32, 1), LEAVES);
    assert_eq!(data.get(1, 32, 2), AIR);
    assert_eq!(data.get(0, 34, 1), AIR);
    assert_eq!(data.get(0, 34, 0), LEAVES);
    assert_eq!(data.get(0, 35, 0), LEAVES);
    assert_eq!(data.get(0, 35, 1), AIR);
}

#[test]
fn leaves_never_replace_blocks() {
    let mut inp = inputs(vec![column(30); 256]);
    inp.trees.push(TreePlan { tx: 8, tz: 8, ground: 30, trunk: 1, skip: [false; 8] });
    let data = generate(&inp, &pipeline());
    assert_eq!(data.get(8, 31, 8), LOG);
    assert_eq!(data.get(9, 29, 9), DIRT);
    assert_eq!(data.get(9, 30, 9), GRASS);
    assert_eq!(data.get(9, 31, 9), LEAVES);
}

#[test]
fn chunk_data_ignores_out_of_range_access() {
    let mut data = ChunkData::empty();
    data.set(-1, 5, 5, STONE);
    data.set(5, CHUNK_HEIGHT, 5, STONE);
    data.set(5, 5, 16, STONE);
    assert!(data.blocks().iter().all(|b| *b == AIR));
    assert_eq!(data.get(-1, 5, 5), AIR);
    data.set(15, 63, 15, STONE);
    assert_eq!(data.get(15, 63, 15), STONE);
    assert_eq!(data.blocks()[idx(15, 63, 15)], STONE);
    assert_eq!(idx(15, 63, 15), CHUNK_VOL - 1);
    assert_eq!(idx(1, 2, 3), 2 * 256 + 3 * 16 + 1);
}

#[test]
fn any_block_id_can_be_stored_and_read_back() {
    let mut data = ChunkData::empty();
    data.set(3, 7, 9, 200);
    assert_eq!(data.get(3, 7, 9), 200);
    assert_eq!(data.get(3, 8, 9), AIR);
}
