use ox_core::atlas::{fixed_pixel, generate, T_GLASS, T_STONE, tile_seed, ATLAS_BYTES, ATLAS_PX, T_GRASS_TOP, T_WHITE, TILE_BYTES, TILE_COUNT};
use ox_core::noise::{hash2_bits, hash3_bits};
use ox_core::rng::Lcg;
use ox_core::session::{Swing, SWING_TICKS};
use ox_core::stream::{cheb, Streamer, STREAM_RADIUS};

#[test]
fn lcg_is_deterministic_and_in_unit_range() {
    let mut a = Lcg::new(7);
    let mut b = Lcg::new(7);
    for _ in 0..1000 {
        let x = a.next_u32() as f32 / u32::MAX as f32;
        assert!((0.0..=1.0).contains(&x));
        assert_eq!(x.to_bits(), (b.next_u32() as f32 / u32::MAX as f32).to_bits());
    }
}

#[test]
fn lcg_steps_match_the_recurrence() {
    let mut g = Lcg::new(7);
    assert_eq!(g.next_u32(), 1_025_555_898);
    assert_eq!(g.next_u32(), 3_923_423_697);
    assert_eq!(g.next_u32(), 2_630_631_676);
}

#[test]
fn hash_bits_match_known_values() {
    assert_eq!(hash2_bits(0, 0, 0), 0);
    assert_eq!(hash2_bits(1, 2, 1337), 352_744_781);
    assert_eq!(hash2_bits(-5, 7, -3), 583_206_255);
    assert_eq!(hash3_bits(1, 2, 3, 42), 535_862_551);
    assert_eq!(hash3_bits(-1, -2, -3, 0), 1_816_635_113);
}

#[test]
fn tile_seeds_are_fixed() {
    assert_eq!(tile_seed(0), 101);
    assert_eq!(tile_seed(15), 118_886);
}

fn painted_tiles() -> Vec<Vec<u8>> {
    (0..TILE_COUNT as u8)
        .map(|t| {
            let mut rng = Lcg::new(tile_seed(t));
            (0..TILE_BYTES).map(|_| (rng.next_u32() >> 24) as u8).collect()
        })
        .collect()
}

#[test]
fn atlas_is_deterministic_and_sized() {
    let a = generate(&painted_tiles());
    let b = generate(&painted_tiles());
    assert_eq!(a.rgba.len(), (ATLAS_PX * ATLAS_PX * 4) as usize);
    assert_eq!(a.rgba, b.rgba);
}

#[test]
fn atlas_lays_tiles_out_row_major() {
    let tiles: Vec<Vec<u8>> = (0..TILE_COUNT)
        .map(|t| (0..TILE_BYTES).map(|i| (t * 16 + i % 16) as u8).collect())
        .collect();
    let atlas = generate(&tiles);
    assert_eq!(atlas.rgba.len(), ATLAS_BYTES);
    // First byte of the grass top tile is the atlas's first byte.
    assert_eq!(atlas.rgba[0], tiles[T_GRASS_TOP as usize][0]);
    // Tile 15 sits in column 3, row 3: its pixel (2, 1) is atlas pixel (50, 49).
    let t = T_WHITE as usize;
    let p = 49 * 64 + 50;
    for c in 0..4 {
        assert_eq!(atlas.rgba[p * 4 + c], tiles[t][(16 + 2) * 4 + c]);
    }
}

#[test]
fn streamer_walks_the_square_nearest_first() {
    let s = Streamer::new();
    let offsets = s.offsets();
    let side = (2 * STREAM_RADIUS + 1) as usize;
    assert_eq!(offsets.len(), side * side);
    assert_eq!(offsets[0], (0, 0, 0));
    for w in offsets.windows(2) {
        let a = w[0].0 * w[0].0 + w[0].1 * w[0].1;
        let b = w[1].0 * w[1].0 + w[1].1 * w[1].1;
        assert!(a <= b);
    }
    for &(dx, dz, ring) in offsets {
        assert_eq!(ring, cheb(dx, dz));
    }
    assert_eq!(offsets[1], (-1, 0, 1));
}

#[test]
fn cheb_is_the_larger_absolute_offset() {
    assert_eq!(cheb(-3, 2), 3);
    assert_eq!(cheb(1, -5), 5);
    assert_eq!(cheb(0, 0), 0);
}

#[test]
fn swing_runs_down_and_restarts_only_when_idle() {
    let mut s = Swing::default();
    assert_eq!(s.remaining(), 0);
    s.start_if_idle();
    assert_eq!(s.remaining(), SWING_TICKS);
    s.step(10);
    s.start_if_idle();
    assert_eq!(s.remaining(), SWING_TICKS - 10);
    s.start();
    assert_eq!(s.remaining(), SWING_TICKS);
    s.step(100);
    assert_eq!(s.remaining(), 0);
}

#[test]
fn glass_has_a_frame_and_a_clear_interior_and_white_is_solid() {
    assert_eq!(fixed_pixel(T_GLASS, 0, 5), Some([214, 236, 240, 255]));
    assert_eq!(fixed_pixel(T_GLASS, 10, 10), Some([225, 242, 246, 255]));
    assert_eq!(fixed_pixel(T_GLASS, 5, 5), Some([180, 220, 230, 0]));
    assert_eq!(fixed_pixel(T_WHITE, 3, 4), Some([255, 255, 255, 255]));
    assert_eq!(fixed_pixel(T_STONE, 3, 4), None);
}
