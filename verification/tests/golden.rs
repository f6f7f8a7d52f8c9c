use ox_core::digest::Fnv1a;
use ox_core::generation::terrain::ColumnInfo;
use ox_core::generation::trees::TreePlan;
use ox_core::generation::{generate, idx, pipeline, ChunkInputs, CHUNK_AXIS, CHUNK_HEIGHT, CHUNK_VOL, SEA_LEVEL};
use ox_core::mesher::mesh_faces;
use ox_core::noise::{hash2_bits, hash3_bits};
use ox_core::world::World;

const GOLDEN_CHUNK_HASH_1337: u64 = 132_791_179_053_633_822;
const GOLDEN_CHUNK_HASH_424242: u64 = 15_471_757_175_197_984_003;
const GOLDEN_CHUNK_HASH_NEG_1337: u64 = 15_728_195_521_564_567_423;
const GOLDEN_SPAWN_H_1337: i32 = 31;
const GOLDEN_SPAWN_H_424242: i32 = 25;
const GOLDEN_MESH_HASH_1337: u64 = 6_671_654_092_181_913_918;

fn hash2(x: i32, y: i32, seed: i32) -> f32 {
    hash2_bits(x, y, seed) as f32 / u32::MAX as f32
}

fn hash3(x: i32, y: i32, z: i32, seed: i32) -> f32 {
    hash3_bits(x, y, z, seed) as f32 / u32::MAX as f32
}

fn smooth(t: f32) -> f32 {
    t * t * (3.0 - 2.0 * t)
}

fn value_noise2(x: f32, y: f32, seed: i32) -> f32 {
    let xi = x.floor() as i32;
    let yi = y.floor() as i32;
    let u = smooth(x - xi as f32);
    let v = smooth(y - yi as f32);
    let v00 = hash2(xi, yi, seed);
    let v10 = hash2(xi + 1, yi, seed);
    let v01 = hash2(xi, yi + 1, seed);
    let v11 = hash2(xi + 1, yi + 1, seed);
    v00 * (1.0 - u) * (1.0 - v) + v10 * u * (1.0 - v) + v01 * (1.0 - u) * v + v11 * u * v
}

fn value_noise3(x: f32, y: f32, z: f32, seed: i32) -> f32 {
    let xi = x.floor() as i32;
    let yi = y.floor() as i32;
    let zi = z.floor() as i32;
    let u = smooth(x - xi as f32);
    let v = smooth(y - yi as f32);
    let w = smooth(z - zi as f32);
    let lerp = |a: f32, b: f32, t: f32| a + (b - a) * t;
    let n00 = lerp(hash3(xi, yi, zi, seed), hash3(xi + 1, yi, zi, seed), u);
    let n10 = lerp(hash3(xi, yi + 1, zi, seed), hash3(xi + 1, yi + 1, zi, seed), u);
    let n01 = lerp(hash3(xi, yi, zi + 1, seed), hash3(xi + 1, yi, zi + 1, seed), u);
    let n11 = lerp(hash3(xi, yi + 1, zi + 1, seed), hash3(xi + 1, yi + 1, zi + 1, seed), u);
    lerp(lerp(n00, n10, v), lerp(n01, n11, v), w)
}

fn fbm2(x: f32, y: f32, seed: i32, octaves: u32) -> f32 {
    let (mut sum, mut amp, mut norm) = (0.0, 0.5, 0.0);
    let (mut nx, mut ny) = (x, y);
    for i in 0..octaves {
        sum += value_noise2(nx, ny, seed.wrapping_add((i as i32).wrapping_mul(1013))) * amp;
        norm += amp;
        nx *= 2.0;
        ny *= 2.0;
        amp *= 0.5;
    }
    sum / norm
}

fn fbm3(x: f32, y: f32, z: f32, seed: i32, octaves: u32) -> f32 {
    let (mut sum, mut amp, mut norm) = (0.0, 0.5, 0.0);
    let (mut nx, mut ny, mut nz) = (x, y, z);
    for i in 0..octaves {
        sum += value_noise3(nx, ny, nz, seed.wrapping_add((i as i32).wrapping_mul(1013))) * amp;
        norm += amp;
        nx *= 2.0;
        ny *= 2.0;
        nz *= 2.0;
        amp *= 0.5;
    }
    sum / norm
}

fn column_info(wx: i32, wz: i32, seed: i32) -> ColumnInfo {
    let c = fbm2(wx as f32 * 0.006, wz as f32 * 0.006, seed, 3);
    let d = fbm2(wx as f32 * 0.028, wz as f32 * 0.028, seed ^ 0x3E7, 3);
    let mountain_n = ((c - 0.55) / 0.2).clamp(0.0, 1.0);
    let mountains = mountain_n * mountain_n * 30.0;
    let mut h = (18.0 + c * c * 30.0 + d * d * 22.0 + mountains).floor() as i32;
    h = h.clamp(4, 54);
    let tree = h > SEA_LEVEL + 1 && h < 44 && hash2(wx, wz, seed ^ 0x309) < 0.02;
    ColumnInfo { h, tree, sandy: h <= SEA_LEVEL + 1, snowy: h >= 44 }
}

const CORNERS: [(i32, i32); 8] = [(-2, -2), (-2, 2), (2, -2), (2, 2), (-1, -1), (-1, 1), (1, -1), (1, 1)];

fn chunk_inputs(seed: i32, cx: i32, cz: i32) -> ChunkInputs {
    let mut columns = Vec::with_capacity(256);
    for lz in 0..CHUNK_AXIS {
        for lx in 0..CHUNK_AXIS {
            columns.push(column_info(cx * CHUNK_AXIS + lx, cz * CHUNK_AXIS + lz, seed));
        }
    }
    let mut cave = vec![false; CHUNK_VOL];
    for lz in 0..CHUNK_AXIS {
        for lx in 0..CHUNK_AXIS {
            let wx = cx * CHUNK_AXIS + lx;
            let wz = cz * CHUNK_AXIS + lz;
            for y in 2..=60.min(CHUNK_HEIGHT - 1) {
                let n = fbm3(wx as f32 * 0.09, y as f32 * 0.11, wz as f32 * 0.09, seed ^ 0x14D, 2);
                cave[idx(lx, y, lz)] = (n - 0.5).abs() < 0.05;
            }
        }
    }
    let mut trees = Vec::new();
    for tz in -3..(CHUNK_AXIS + 3) {
        for tx in -3..(CHUNK_AXIS + 3) {
            let wx = cx * CHUNK_AXIS + tx;
            let wz = cz * CHUNK_AXIS + tz;
            let info = column_info(wx, wz, seed);
            if !info.tree {
                continue;
            }
            let trunk = 4 + (hash2(wx, wz, seed ^ 0x7B) * 3.0).floor() as i32;
            let mut skip = [false; 8];
            for (k, (dx, dz)) in CORNERS.iter().enumerate() {
                skip[k] = hash2(wx * 31 + dx, wz * 31 + dz, seed ^ 0x37) < 0.5;
            }
            trees.push(TreePlan { tx, tz, ground: info.h, trunk, skip });
        }
    }
    ChunkInputs { columns, cave, cave_min_y: 2, cave_skin: 4, cave_top_cap: 60, trees }
}

fn source(seed: i32, cx: i32, cz: i32) -> ChunkInputs {
    chunk_inputs(seed, cx, cz)
}

fn chunk_hash(cx: i32, cz: i32, seed: i32) -> u64 {
    let mut digest = Fnv1a::new();
    digest.write(generate(&chunk_inputs(seed, cx, cz), &pipeline()).blocks());
    digest.finish()
}

#[test]
fn golden_chunk0_hash_is_pinned() {
    assert_eq!(chunk_hash(0, 0, 1337), GOLDEN_CHUNK_HASH_1337);
    assert_eq!(chunk_hash(0, 0, 424_242), GOLDEN_CHUNK_HASH_424242);
}

#[test]
fn golden_negative_chunk_hash_is_pinned() {
    assert_eq!(chunk_hash(-2, -3, 1337), GOLDEN_CHUNK_HASH_NEG_1337);
}

#[test]
fn golden_spawn_column_height_is_pinned() {
    assert_eq!(column_info(8, 8, 1337).h, GOLDEN_SPAWN_H_1337);
    assert_eq!(column_info(8, 8, 424_242).h, GOLDEN_SPAWN_H_424242);
}

const FACES: [([[f32; 3]; 4], f32); 6] = [
    ([[1.0, 0.0, 1.0], [1.0, 0.0, 0.0], [1.0, 1.0, 0.0], [1.0, 1.0, 1.0]], 0.68),
    ([[0.0, 0.0, 0.0], [0.0, 0.0, 1.0], [0.0, 1.0, 1.0], [0.0, 1.0, 0.0]], 0.68),
    ([[0.0, 1.0, 1.0], [1.0, 1.0, 1.0], [1.0, 1.0, 0.0], [0.0, 1.0, 0.0]], 1.0),
    ([[0.0, 0.0, 0.0], [1.0, 0.0, 0.0], [1.0, 0.0, 1.0], [0.0, 0.0, 1.0]], 0.55),
    ([[0.0, 0.0, 1.0], [1.0, 0.0, 1.0], [1.0, 1.0, 1.0], [0.0, 1.0, 1.0]], 0.84),
    ([[1.0, 0.0, 0.0], [0.0, 0.0, 0.0], [0.0, 1.0, 0.0], [1.0, 1.0, 0.0]], 0.84),
];
const FACE_UV: [[f32; 2]; 4] = [[0.0, 0.0], [1.0, 0.0], [1.0, 1.0], [0.0, 1.0]];
const AO_LUT: [f32; 4] = [0.45, 0.66, 0.85, 1.0];

fn tile_uv(tile: u8, u: f32, v: f32) -> [f32; 2] {
    const PAD: f32 = 0.03125;
    let col = (u32::from(tile) % 4) as f32;
    let row = (u32::from(tile) / 4) as f32;
    [(col + PAD + u * (1.0 - 2.0 * PAD)) / 4.0, (row + 1.0 - PAD - v * (1.0 - 2.0 * PAD)) / 4.0]
}

/// Vertices (position, uv, light) and indices of the opaque and water passes.
type Pass = (Vec<[f32; 6]>, Vec<u32>);

fn build_mesh(world: &World, cx: i32, cz: i32) -> (Pass, Pass) {
    let view = world.padded_view(cx, cz);
    assert!(view.all_registered());
    let mut opaque: Pass = (Vec::new(), Vec::new());
    let mut water: Pass = (Vec::new(), Vec::new());
    for f in mesh_faces(&view).iter() {
        let (unit, shade) = FACES[f.face];
        let geo = if f.liquid { &mut water } else { &mut opaque };
        let base = geo.0.len() as u32;
        for k in 0..4 {
            let c = unit[k];
            let [u, v] = tile_uv(f.tile, FACE_UV[k][0], FACE_UV[k][1]);
            geo.0.push([
                (cx * CHUNK_AXIS + f.x) as f32 + c[0],
                f.y as f32 + c[1],
                (cz * CHUNK_AXIS + f.z) as f32 + c[2],
                u,
                v,
                shade * AO_LUT[f.ao[k] as usize],
            ]);
        }
        if f.flip {
            geo.1.extend_from_slice(&[base + 1, base + 2, base + 3, base + 1, base + 3, base]);
        } else {
            geo.1.extend_from_slice(&[base, base + 1, base + 2, base, base + 2, base + 3]);
        }
    }
    (opaque, water)
}

fn mesh_digest(mesh: &(Pass, Pass)) -> u64 {
    let mut digest = Fnv1a::new();
    for geo in [&mesh.0, &mesh.1] {
        for v in &geo.0 {
            for value in v {
                digest.write(&value.to_bits().to_le_bytes());
            }
        }
        for index in &geo.1 {
            digest.write(&index.to_le_bytes());
        }
    }
    digest.finish()
}

#[test]
fn golden_chunk0_mesh_hash_is_pinned() {
    let mut w = World::new(1337);
    for cz in -1..=1 {
        for cx in -1..=1 {
            w.ensure_data(cx, cz, &source);
        }
    }
    let mesh = build_mesh(&w, 0, 0);
    assert!(!mesh.0 .1.is_empty());
    assert_eq!(mesh_digest(&mesh), GOLDEN_MESH_HASH_1337);
}
